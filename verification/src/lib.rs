//! **SQL** integration test har**NESS**
//!
//! A case is a file of SQL statements. Each statement is sent to a
//! database, and what comes back is written, behind the statement, into the
//! output of the case. A case passes when its output is what its result file
//! holds; the result file is rewritten with the output either way.
//!
//! ## Directory organization
//!
//! ```plaintext
//! sqlness
//! ├── local
//! │   ├── config.toml
//! │   ├── dml
//! │   │   └── basic.sql
//! │   │   └── basic.result
//! │   ├── ddl
//! │   └── system
//! └── remote
//!     ├── config.toml
//!     ├── dml
//!     ├── ddl
//!     └── system
//! ```
//!
//! The directories directly below the root are the environments, each with
//! a database of its own and an optional configuration file. Every case file
//! below an environment, however deep, runs in that environment.
//!
//! ## Case files
//!
//! A statement ends with a line that ends with `;`. A line that starts with
//! `--` is a comment; a comment that starts with `-- SQLNESS` is a directive,
//! which attaches an [`Interceptor`] to the statement that follows it:
//!
//! ```sql
//! -- SQLNESS SORT_RESULT
//! SELECT * from values (3), (2), (1);
//! ```
//!
//! ## What this library does, and what its host does
//!
//! This library reads case files ([`case::TestCase`]), resolves directives
//! ([`Registry`]), lays out the run of a statement ([`case::Query`]) and
//! decides the course of a run ([`Runner`]). It touches neither files nor
//! databases nor clocks: at each step it says what its host is to do
//! ([`case::Action`], [`runner::Command`]), and the host comes back with what
//! came of it.
//!
//! Every function of the library is verified against a contract over values
//! of mathematics: texts are sequences of characters ([`text`]), a statement
//! is a [`case::Statement`], an interceptor a [`interceptor::Directive`].

pub mod bindings;
pub mod case;
pub mod config;
pub mod context;
pub mod discovery;
pub mod error;
pub mod interceptor;
pub mod pattern;
pub mod runner;
pub mod text;

pub use config::{Config, ConfigBuilder, DatabaseConfig, DatabaseConfigBuilder};
pub use context::QueryContext;
pub use error::SqlnessError;
pub use interceptor::{builtin_interceptors, Interceptor, InterceptorFactory, Registry};
pub use runner::Runner;
