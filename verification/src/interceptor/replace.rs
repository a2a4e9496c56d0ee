//! `REPLACE`: replaces what matches a regular expression in a result.

use crate::context::QueryContext;
use crate::error::{ErrorView, SqlnessError};
use crate::interceptor::{
    Delay, Directive, FactoryKind, Interceptor, InterceptorFactory, InterceptorRef,
};
use crate::pattern::{check, is_pattern, regex_error, regex_replaced, replace_all};
use crate::text::{find, push_str, split_once, string_of, to_chars, to_string};
use vstd::prelude::*;

verus! {

/// The prefix of the directive.
pub const PREFIX: &'static str = "REPLACE";

/// The result with every match of `pattern` replaced. A pattern that is no
/// regular expression matches nothing.
pub open spec fn replaced(pattern: Seq<char>, result: Seq<char>, replacement: Seq<char>) -> Seq<
    char,
> {
    if is_pattern(pattern) {
        regex_replaced(pattern, result, replacement)
    } else {
        result
    }
}

/// The pattern and the replacement that the arguments hold: what stands
/// before the first space, and what stands after it.
pub open spec fn arguments(ctx: Seq<char>) -> (Seq<char>, Seq<char>) {
    match split_once(ctx, ' ') {
        Some(parts) => parts,
        None => (ctx, Seq::<char>::empty()),
    }
}

/// What the directive's arguments ask for: the pattern must not be empty and
/// must be a regular expression.
pub open spec fn requested(ctx: Seq<char>) -> Result<Directive, ErrorView> {
    let (pattern, replacement) = arguments(ctx);
    admitted(pattern, replacement, regex_error(pattern))
}

/// Replaces all matches of a regular expression in the result.
#[derive(Debug)]
pub struct ReplaceInterceptor {
    pub pattern: String,
    pub replacement: String,
}

impl View for ReplaceInterceptor {
    type V = Directive;

    open spec fn view(&self) -> Directive {
        Directive::Replace { pattern: self.pattern@, replacement: self.replacement@ }
    }
}

impl ReplaceInterceptor {
    /// Puts what was replaced in place of the result; leaves the result
    /// where nothing was replaced.
    pub fn settle(result: &mut String, replaced: Option<String>)
        ensures
            final(result)@ == match replaced {
                Some(text) => text@,
                None => old(result)@,
            },
    {
        match replaced {
            Some(text) => {
                *result = text;
            },
            None => {},
        }
    }
}

impl Interceptor for ReplaceInterceptor {
    open spec fn directive(&self) -> Directive {
        self@
    }

    fn before_execute(&self, execute_query: &mut Vec<String>, context: &mut QueryContext) {
    }

    fn after_execute(&self, result: &mut String) {
        let replaced = replace_all(
            self.pattern.as_str(),
            result.as_str(),
            self.replacement.as_str(),
        );
        Self::settle(result, replaced);
    }

    fn delay(&self) -> Delay {
        Delay::none()
    }
}

/// Makes `REPLACE` interceptors.
#[derive(Debug)]
pub struct ReplaceInterceptorFactory;

/// What becomes of a pattern and a replacement once `refusal` is known, which
/// is why the pattern is no regular expression, if it is none.
pub open spec fn admitted(
    pattern: Seq<char>,
    replacement: Seq<char>,
    refusal: Option<Seq<char>>,
) -> Result<Directive, ErrorView> {
    if pattern.len() == 0 {
        Err(ErrorView::InvalidContext { prefix: PREFIX@, msg: "Pattern shouldn't be empty"@ })
    } else {
        match refusal {
            Some(reason) => Err(
                ErrorView::InvalidContext { prefix: PREFIX@, msg: "Invalid pattern, err:"@ + reason },
            ),
            None => Ok(Directive::Replace { pattern, replacement }),
        }
    }
}

impl ReplaceInterceptorFactory {
    /// The pattern and the replacement that the arguments hold.
    pub fn split_arguments(ctx: &str) -> (r: (String, String))
        ensures
            (r.0@, r.1@) == arguments(ctx@),
    {
        let text = to_chars(ctx);
        let n = text.len();
        proof {
            assert(text@.subrange(0, n as int) =~= text@);
        }
        let k = find(&text, 0, n, ' ');
        let pattern = to_string(&text, 0, k);
        let replacement = if k < n {
            to_string(&text, k + 1, n)
        } else {
            String::new()
        };
        proof {
            assert(text@.subrange(0, k as int) =~= text@.take(k as int));
            if k < n {
                assert(text@.subrange(k + 1, n as int) =~= text@.skip(k + 1));
            } else {
                assert(text@.take(k as int) =~= text@);
            }
        }
        (pattern, replacement)
    }

    /// The interceptor for a pattern and a replacement, once it is known
    /// why the pattern is no regular expression, if it is none.
    pub fn checked(pattern: String, replacement: String, refusal: Option<String>) -> (r: Result<
        ReplaceInterceptor,
        SqlnessError,
    >)
        ensures
            match r {
                Ok(i) => admitted(
                    pattern@,
                    replacement@,
                    match refusal {
                        Some(reason) => Some(reason@),
                        None => None,
                    },
                ) == Ok::<Directive, ErrorView>(i@),
                Err(e) => admitted(
                    pattern@,
                    replacement@,
                    match refusal {
                        Some(reason) => Some(reason@),
                        None => None,
                    },
                ) == Err::<Directive, ErrorView>(e@),
            },
    {
        if pattern.as_str().is_empty() {
            return Err(
                SqlnessError::InvalidContext {
                    prefix: PREFIX.to_owned(),
                    msg: "Pattern shouldn't be empty".to_owned(),
                },
            );
        }
        match refusal {
            Some(reason) => {
                let mut msg: Vec<char> = Vec::new();
                push_str(&mut msg, "Invalid pattern, err:");
                push_str(&mut msg, reason.as_str());
                Err(SqlnessError::InvalidContext { prefix: PREFIX.to_owned(), msg: string_of(&msg) })
            },
            None => Ok(ReplaceInterceptor { pattern, replacement }),
        }
    }

    /// The interceptor that the arguments ask for.
    pub fn create(ctx: &str) -> (r: Result<ReplaceInterceptor, SqlnessError>)
        ensures
            match r {
                Ok(i) => requested(ctx@) == Ok::<Directive, ErrorView>(i@),
                Err(e) => requested(ctx@) == Err::<Directive, ErrorView>(e@),
            },
    {
        let (pattern, replacement) = Self::split_arguments(ctx);
        let refusal = check(pattern.as_str());
        Self::checked(pattern, replacement, refusal)
    }
}

impl InterceptorFactory for ReplaceInterceptorFactory {
    open spec fn kind(&self) -> FactoryKind {
        FactoryKind::Replace
    }

    fn try_new(&self, ctx: &str) -> (r: Result<InterceptorRef, SqlnessError>) {
        match Self::create(ctx) {
            Ok(i) => Ok(InterceptorRef::Replace(i)),
            Err(e) => Err(e),
        }
    }
}

} // verus!
