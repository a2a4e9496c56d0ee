//! What a run is configured with.

use crate::error::{ErrorView, SqlnessError};
use crate::interceptor::{builtin, Registry};
use vstd::prelude::*;

verus! {

/// The configuration of a run.
#[derive(Debug)]
pub struct Config {
    /// The directory whose subdirectories are the environments.
    pub case_dir: String,
    /// The extension of case files. Default value: `sql`
    pub test_case_extension: String,
    /// The extension of result files. Default value: `result`
    pub result_extension: String,
    /// What a line starts with that holds a directive. Default value:
    /// `-- SQLNESS`
    pub interceptor_prefix: String,
    /// The name of an environment's own configuration file. Default value:
    /// `config.toml`
    pub env_config_file: String,
    /// Whether the run ends with the first case that fails. Default value:
    /// `true`
    pub fail_fast: bool,
    /// A regular expression: only the cases whose name behind the name of
    /// their environment and a colon matches are run. Default value: `.*`
    pub test_filter: String,
    /// A regular expression: only the environments whose name matches are
    /// run. Default value: `.*`
    pub env_filter: String,
    /// Whether the search for case files follows symbolic links. Default
    /// value: `true`
    pub follow_links: bool,
    /// The interceptors that directives can ask for. Default value: the
    /// built-in ones.
    pub interceptor_registry: Registry,
}

impl Config {
    /// The extension of case files where none is set.
    pub fn default_test_case_extension() -> (r: String)
        ensures
            r@ == "sql"@,
    {
        "sql".to_owned()
    }

    /// The extension of result files where none is set.
    pub fn default_result_extension() -> (r: String)
        ensures
            r@ == "result"@,
    {
        "result".to_owned()
    }

    /// What a directive line starts with where nothing is set.
    pub fn default_interceptor_prefix() -> (r: String)
        ensures
            r@ == "-- SQLNESS"@,
    {
        "-- SQLNESS".to_owned()
    }

    /// The name of an environment's configuration file where none is set.
    pub fn default_env_config_file() -> (r: String)
        ensures
            r@ == "config.toml"@,
    {
        "config.toml".to_owned()
    }

    /// Whether a run fails fast where nothing is set.
    pub fn default_fail_fast() -> (r: bool)
        ensures
            r,
    {
        true
    }

    /// The filter of cases where none is set: it matches every case.
    pub fn default_test_filter() -> (r: String)
        ensures
            r@ == ".*"@,
    {
        ".*".to_owned()
    }

    /// The filter of environments where none is set: it matches every
    /// environment.
    pub fn default_env_filter() -> (r: String)
        ensures
            r@ == ".*"@,
    {
        ".*".to_owned()
    }

    /// Whether symbolic links are followed where nothing is set.
    pub fn default_follow_links() -> (r: bool)
        ensures
            r,
    {
        true
    }

    /// The interceptors where none are set.
    pub fn default_registry() -> (r: Registry)
        ensures
            r@ == builtin(),
    {
        Registry::default()
    }
}

/// Builds a [`Config`]: every field but `case_dir` has a default.
#[derive(Debug)]
pub struct ConfigBuilder {
    pub case_dir: Option<String>,
    pub test_case_extension: Option<String>,
    pub result_extension: Option<String>,
    pub interceptor_prefix: Option<String>,
    pub env_config_file: Option<String>,
    pub fail_fast: Option<bool>,
    pub test_filter: Option<String>,
    pub env_filter: Option<String>,
    pub follow_links: Option<bool>,
    pub interceptor_registry: Option<Registry>,
}

/// The text that was set, or the default.
pub open spec fn text_or(set: Option<String>, default: Seq<char>) -> Seq<char> {
    match set {
        Some(value) => value@,
        None => default,
    }
}

/// The flag that was set, or the default.
pub open spec fn flag_or(set: Option<bool>, default: bool) -> bool {
    match set {
        Some(value) => value,
        None => default,
    }
}

/// What a builder refuses to build without `field`.
pub open spec fn uninitialized(field: Seq<char>) -> ErrorView {
    ErrorView::ParseConfig { reason: "`"@ + field + "` must be initialized"@ }
}

/// The failure of a builder without `field`.
fn missing(field: &str) -> (e: SqlnessError)
    ensures
        e@ == uninitialized(field@),
{
    let mut reason: Vec<char> = Vec::new();
    crate::text::push_str(&mut reason, "`");
    crate::text::push_str(&mut reason, field);
    crate::text::push_str(&mut reason, "` must be initialized");
    SqlnessError::ParseConfig { reason: crate::text::string_of(&reason) }
}

impl Default for ConfigBuilder {
    fn default() -> (r: ConfigBuilder)
        ensures
            r.case_dir is None,
            r.test_case_extension is None,
            r.result_extension is None,
            r.interceptor_prefix is None,
            r.env_config_file is None,
            r.fail_fast is None,
            r.test_filter is None,
            r.env_filter is None,
            r.follow_links is None,
            r.interceptor_registry is None,
    {
        ConfigBuilder {
            case_dir: None,
            test_case_extension: None,
            result_extension: None,
            interceptor_prefix: None,
            env_config_file: None,
            fail_fast: None,
            test_filter: None,
            env_filter: None,
            follow_links: None,
            interceptor_registry: None,
        }
    }
}

impl ConfigBuilder {
    /// Sets `case_dir`.
    pub fn case_dir(self, value: String) -> (r: ConfigBuilder)
        ensures
            r == (ConfigBuilder { case_dir: Some(value), ..self }),
    {
        ConfigBuilder { case_dir: Some(value), ..self }
    }

    /// Sets `test_case_extension`.
    pub fn test_case_extension(self, value: String) -> (r: ConfigBuilder)
        ensures
            r == (ConfigBuilder { test_case_extension: Some(value), ..self }),
    {
        ConfigBuilder { test_case_extension: Some(value), ..self }
    }

    /// Sets `result_extension`.
    pub fn result_extension(self, value: String) -> (r: ConfigBuilder)
        ensures
            r == (ConfigBuilder { result_extension: Some(value), ..self }),
    {
        ConfigBuilder { result_extension: Some(value), ..self }
    }

    /// Sets `interceptor_prefix`.
    pub fn interceptor_prefix(self, value: String) -> (r: ConfigBuilder)
        ensures
            r == (ConfigBuilder { interceptor_prefix: Some(value), ..self }),
    {
        ConfigBuilder { interceptor_prefix: Some(value), ..self }
    }

    /// Sets `env_config_file`.
    pub fn env_config_file(self, value: String) -> (r: ConfigBuilder)
        ensures
            r == (ConfigBuilder { env_config_file: Some(value), ..self }),
    {
        ConfigBuilder { env_config_file: Some(value), ..self }
    }

    /// Sets `fail_fast`.
    pub fn fail_fast(self, value: bool) -> (r: ConfigBuilder)
        ensures
            r == (ConfigBuilder { fail_fast: Some(value), ..self }),
    {
        ConfigBuilder { fail_fast: Some(value), ..self }
    }

    /// Sets `test_filter`.
    pub fn test_filter(self, value: String) -> (r: ConfigBuilder)
        ensures
            r == (ConfigBuilder { test_filter: Some(value), ..self }),
    {
        ConfigBuilder { test_filter: Some(value), ..self }
    }

    /// Sets `env_filter`.
    pub fn env_filter(self, value: String) -> (r: ConfigBuilder)
        ensures
            r == (ConfigBuilder { env_filter: Some(value), ..self }),
    {
        ConfigBuilder { env_filter: Some(value), ..self }
    }

    /// Sets `follow_links`.
    pub fn follow_links(self, value: bool) -> (r: ConfigBuilder)
        ensures
            r == (ConfigBuilder { follow_links: Some(value), ..self }),
    {
        ConfigBuilder { follow_links: Some(value), ..self }
    }

    /// Sets `interceptor_registry`.
    pub fn interceptor_registry(self, value: Registry) -> (r: ConfigBuilder)
        ensures
            r == (ConfigBuilder { interceptor_registry: Some(value), ..self }),
    {
        ConfigBuilder { interceptor_registry: Some(value), ..self }
    }

    /// The configuration: what was set, and the default for what was not.
    /// There is none without `case_dir`.
    pub fn build(self) -> (r: Result<Config, SqlnessError>)
        ensures
            match r {
                Ok(config) => {
                    &&& self.case_dir matches Some(dir) && config.case_dir@ == dir@
                    &&& config.test_case_extension@ == text_or(self.test_case_extension, "sql"@)
                    &&& config.result_extension@ == text_or(self.result_extension, "result"@)
                    &&& config.interceptor_prefix@ == text_or(
                        self.interceptor_prefix,
                        "-- SQLNESS"@,
                    )
                    &&& config.env_config_file@ == text_or(self.env_config_file, "config.toml"@)
                    &&& config.fail_fast == flag_or(self.fail_fast, true)
                    &&& config.test_filter@ == text_or(self.test_filter, ".*"@)
                    &&& config.env_filter@ == text_or(self.env_filter, ".*"@)
                    &&& config.follow_links == flag_or(self.follow_links, true)
                    &&& config.interceptor_registry@ == match self.interceptor_registry {
                        Some(registry) => registry@,
                        None => builtin(),
                    }
                },
                Err(e) => self.case_dir is None && e@ == uninitialized("case_dir"@),
            },
    {
        let case_dir = match self.case_dir {
            Some(value) => value,
            None => {
                return Err(missing("case_dir"));
            },
        };
        Ok(
            Config {
                case_dir,
                test_case_extension: match self.test_case_extension {
                    Some(value) => value,
                    None => Config::default_test_case_extension(),
                },
                result_extension: match self.result_extension {
                    Some(value) => value,
                    None => Config::default_result_extension(),
                },
                interceptor_prefix: match self.interceptor_prefix {
                    Some(value) => value,
                    None => Config::default_interceptor_prefix(),
                },
                env_config_file: match self.env_config_file {
                    Some(value) => value,
                    None => Config::default_env_config_file(),
                },
                fail_fast: match self.fail_fast {
                    Some(value) => value,
                    None => Config::default_fail_fast(),
                },
                test_filter: match self.test_filter {
                    Some(value) => value,
                    None => Config::default_test_filter(),
                },
                env_filter: match self.env_filter {
                    Some(value) => value,
                    None => Config::default_env_filter(),
                },
                follow_links: match self.follow_links {
                    Some(value) => value,
                    None => Config::default_follow_links(),
                },
                interceptor_registry: match self.interceptor_registry {
                    Some(value) => value,
                    None => Config::default_registry(),
                },
            },
        )
    }
}

/// How to reach a database.
#[derive(Debug)]
pub struct DatabaseConfig {
    pub ip_or_host: String,
    pub tcp_port: u16,
    pub user: Option<String>,
    pub pass: Option<String>,
    pub db_name: Option<String>,
}

/// Builds a [`DatabaseConfig`]: every field must be set.
#[derive(Debug)]
pub struct DatabaseConfigBuilder {
    pub ip_or_host: Option<String>,
    pub tcp_port: Option<u16>,
    pub user: Option<Option<String>>,
    pub pass: Option<Option<String>>,
    pub db_name: Option<Option<String>>,
}

impl Default for DatabaseConfigBuilder {
    fn default() -> (r: DatabaseConfigBuilder)
        ensures
            r.ip_or_host is None,
            r.tcp_port is None,
            r.user is None,
            r.pass is None,
            r.db_name is None,
    {
        DatabaseConfigBuilder { ip_or_host: None, tcp_port: None, user: None, pass: None, db_name: None }
    }
}

impl DatabaseConfigBuilder {
    /// Sets `ip_or_host`.
    pub fn ip_or_host(self, value: String) -> (r: DatabaseConfigBuilder)
        ensures
            r == (DatabaseConfigBuilder { ip_or_host: Some(value), ..self }),
    {
        DatabaseConfigBuilder { ip_or_host: Some(value), ..self }
    }

    /// Sets `tcp_port`.
    pub fn tcp_port(self, value: u16) -> (r: DatabaseConfigBuilder)
        ensures
            r == (DatabaseConfigBuilder { tcp_port: Some(value), ..self }),
    {
        DatabaseConfigBuilder { tcp_port: Some(value), ..self }
    }

    /// Sets `user`.
    pub fn user(self, value: Option<String>) -> (r: DatabaseConfigBuilder)
        ensures
            r == (DatabaseConfigBuilder { user: Some(value), ..self }),
    {
        DatabaseConfigBuilder { user: Some(value), ..self }
    }

    /// Sets `pass`.
    pub fn pass(self, value: Option<String>) -> (r: DatabaseConfigBuilder)
        ensures
            r == (DatabaseConfigBuilder { pass: Some(value), ..self }),
    {
        DatabaseConfigBuilder { pass: Some(value), ..self }
    }

    /// Sets `db_name`.
    pub fn db_name(self, value: Option<String>) -> (r: DatabaseConfigBuilder)
        ensures
            r == (DatabaseConfigBuilder { db_name: Some(value), ..self }),
    {
        DatabaseConfigBuilder { db_name: Some(value), ..self }
    }

    /// The first field, in the order of their declaration, that is not set.
    pub open spec fn first_unset(self) -> Option<Seq<char>> {
        if self.ip_or_host is None {
            Some("ip_or_host"@)
        } else if self.tcp_port is None {
            Some("tcp_port"@)
        } else if self.user is None {
            Some("user"@)
        } else if self.pass is None {
            Some("pass"@)
        } else if self.db_name is None {
            Some("db_name"@)
        } else {
            None
        }
    }

    /// The configuration that was set; none while a field is missing.
    pub fn build(self) -> (r: Result<DatabaseConfig, SqlnessError>)
        ensures
            match r {
                Ok(config) => {
                    &&& self.first_unset() is None
                    &&& Some(config.ip_or_host) == self.ip_or_host
                    &&& Some(config.tcp_port) == self.tcp_port
                    &&& Some(config.user) == self.user
                    &&& Some(config.pass) == self.pass
                    &&& Some(config.db_name) == self.db_name
                },
                Err(e) => self.first_unset() matches Some(field) && e@ == uninitialized(field),
            },
    {
        let ip_or_host = match self.ip_or_host {
            Some(value) => value,
            None => {
                return Err(missing("ip_or_host"));
            },
        };
        let tcp_port = match self.tcp_port {
            Some(value) => value,
            None => {
                return Err(missing("tcp_port"));
            },
        };
        let user = match self.user {
            Some(value) => value,
            None => {
                return Err(missing("user"));
            },
        };
        let pass = match self.pass {
            Some(value) => value,
            None => {
                return Err(missing("pass"));
            },
        };
        let db_name = match self.db_name {
            Some(value) => value,
            None => {
                return Err(missing("db_name"));
            },
        };
        Ok(DatabaseConfig { ip_or_host, tcp_port, user, pass, db_name })
    }
}

} // verus!
