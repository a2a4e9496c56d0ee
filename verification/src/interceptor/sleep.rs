//! `SLEEP`: waits for a given time before the statement is sent.

use crate::context::QueryContext;
use crate::error::{ErrorView, SqlnessError};
use crate::interceptor::{
    Delay, Directive, FactoryKind, Interceptor, InterceptorFactory, InterceptorRef,
};
use crate::text::{push_str, string_of};
use vstd::prelude::*;

verus! {

/// The prefix of the directive.
pub const PREFIX: &'static str = "SLEEP";

/// The span of time that `duration_str` reads in `text`, as whole seconds
/// and the nanoseconds beyond them, or what it says where it reads none.
pub uninterp spec fn duration_parsed(text: Seq<char>) -> Result<(u64, u32), Seq<char>>;

/// `duration_str::parse`: the span that it reads, taken apart into seconds
/// and nanoseconds, or its error.
#[verifier::external_body]
pub(crate) fn parse_duration(text: &str) -> (r: Result<(u64, u32), String>)
    ensures
        match r {
            Ok(span) => duration_parsed(text@) == Ok::<(u64, u32), Seq<char>>(span),
            Err(e) => duration_parsed(text@) == Err::<(u64, u32), Seq<char>>(e@),
        },
{
    duration_str::parse(text).map(|d| (d.as_secs(), d.subsec_nanos()))
}

/// What the directive's arguments ask for.
pub open spec fn requested(ctx: Seq<char>) -> Result<Directive, ErrorView> {
    admitted(duration_parsed(ctx))
}

/// What becomes of the arguments once it is known what span of time they
/// write, or why they write none.
pub open spec fn admitted(parsed: Result<(u64, u32), Seq<char>>) -> Result<Directive, ErrorView> {
    match parsed {
        Ok(span) => Ok(Directive::Sleep { nanos: (Delay { secs: span.0, nanos: span.1 }).total_nanos() }),
        Err(reason) => Err(
            ErrorView::InvalidContext {
                prefix: PREFIX@,
                msg: "Failed to parse duration: "@ + reason,
            },
        ),
    }
}

/// Asks for a pause before the statement is sent. The pause is no shorter
/// than the duration; how much longer it is lies with the host.
#[derive(Debug)]
pub struct SleepInterceptor {
    pub duration: Delay,
}

impl View for SleepInterceptor {
    type V = Directive;

    open spec fn view(&self) -> Directive {
        Directive::Sleep { nanos: self.duration.total_nanos() }
    }
}

impl Interceptor for SleepInterceptor {
    open spec fn directive(&self) -> Directive {
        self@
    }

    fn before_execute(&self, execute_query: &mut Vec<String>, context: &mut QueryContext) {
    }

    fn after_execute(&self, result: &mut String) {
    }

    fn delay(&self) -> Delay {
        self.duration
    }
}

/// Makes `SLEEP` interceptors.
#[derive(Debug)]
pub struct SleepInterceptorFactory;

impl SleepInterceptorFactory {
    /// The interceptor for what the arguments were read as: a span of time,
    /// or the reason why they are none.
    pub fn from_parsed(parsed: Result<(u64, u32), String>) -> (r: Result<
        SleepInterceptor,
        SqlnessError,
    >)
        ensures
            match r {
                Ok(i) => admitted(
                    match parsed {
                        Ok(span) => Ok(span),
                        Err(reason) => Err(reason@),
                    },
                ) == Ok::<Directive, ErrorView>(i@),
                Err(e) => admitted(
                    match parsed {
                        Ok(span) => Ok(span),
                        Err(reason) => Err(reason@),
                    },
                ) == Err::<Directive, ErrorView>(e@),
            },
    {
        match parsed {
            Ok(span) => Ok(SleepInterceptor { duration: Delay { secs: span.0, nanos: span.1 } }),
            Err(reason) => {
                let mut msg: Vec<char> = Vec::new();
                push_str(&mut msg, "Failed to parse duration: ");
                push_str(&mut msg, reason.as_str());
                Err(SqlnessError::InvalidContext { prefix: PREFIX.to_owned(), msg: string_of(&msg) })
            },
        }
    }

    /// The interceptor that the arguments ask for.
    pub fn create(ctx: &str) -> (r: Result<SleepInterceptor, SqlnessError>)
        ensures
            match r {
                Ok(i) => requested(ctx@) == Ok::<Directive, ErrorView>(i@),
                Err(e) => requested(ctx@) == Err::<Directive, ErrorView>(e@),
            },
    {
        Self::from_parsed(parse_duration(ctx))
    }
}

impl InterceptorFactory for SleepInterceptorFactory {
    open spec fn kind(&self) -> FactoryKind {
        FactoryKind::Sleep
    }

    fn try_new(&self, ctx: &str) -> (r: Result<InterceptorRef, SqlnessError>) {
        match Self::create(ctx) {
            Ok(i) => Ok(InterceptorRef::Sleep(i)),
            Err(e) => Err(e),
        }
    }
}

} // verus!
