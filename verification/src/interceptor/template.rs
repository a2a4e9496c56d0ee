//! `TEMPLATE`: renders the statement as a `minijinja` template over the
//! bindings that the directive gives as JSON.

use crate::context::QueryContext;
use crate::error::{ErrorView, SqlnessError};
use crate::interceptor::{
    Delay, Directive, FactoryKind, Interceptor, InterceptorFactory, InterceptorRef,
};
use crate::text::{
    join, join_strings, push_str, split, split_chars, string_of, to_chars, to_strings, views,
};
use vstd::prelude::*;

verus! {

/// The prefix of the directive.
pub const PREFIX: &'static str = "TEMPLATE";

/// Why `serde_json` does not read `text` as a JSON value, in its own words;
/// nothing where it does.
pub uninterp spec fn json_error(text: Seq<char>) -> Option<Seq<char>>;

/// What `minijinja` renders of the template `source` over the JSON value
/// that `bindings` writes, with the function `sql_delimiter` at hand;
/// nothing where the bindings are no JSON or the template fails.
pub uninterp spec fn template_rendered(source: Seq<char>, bindings: Seq<char>) -> Option<
    Seq<char>,
>;

/// `serde_json::from_str` into a `serde_json::Value`, for the error alone:
/// what it says where it refuses the text, rendered as text.
#[verifier::external_body]
pub(crate) fn check_json(text: &str) -> (r: Option<String>)
    ensures
        match r {
            Some(e) => json_error(text@) == Some(e@),
            None => json_error(text@) is None,
        },
{
    serde_json::from_str::<serde_json::Value>(text).err().map(|e| e.to_string())
}

/// `minijinja::Template::render` of the template that
/// `minijinja::Environment::add_template` compiles from `source`, in a new
/// environment that knows `sql_delimiter`, over the value that
/// `serde_json::from_str` reads in `bindings`.
#[verifier::external_body]
pub(crate) fn render(source: &str, bindings: &str) -> (r: Option<String>)
    ensures
        match r {
            Some(s) => template_rendered(source@, bindings@) == Some(s@),
            None => template_rendered(source@, bindings@) is None,
        },
{
    let data = serde_json::from_str::<serde_json::Value>(bindings).ok()?;
    let mut env = minijinja::Environment::new();
    env.add_function("sql_delimiter", || sql_delimiter());
    env.add_template("sql", source).ok()?;
    let template = env.get_template("sql").ok()?;
    template.render(&data).ok()
}

/// What a template writes to end one statement and begin the next.
pub fn sql_delimiter() -> (r: String)
    ensures
        r@ == seq![';'],
{
    let mut r = String::new();
    r.push(';');
    proof {
        assert(r@ =~= seq![';']);
    }
    r
}

/// The lines of the statement rendered as one template, the lines joined by
/// line feeds before and split at line feeds after. Where nothing is
/// rendered the lines stay as they are.
pub open spec fn rendered_lines(lines: Seq<Seq<char>>, bindings: Seq<char>) -> Seq<Seq<char>> {
    settled(lines, template_rendered(join(lines, seq!['\n']), bindings))
}

/// The bindings that the arguments give: an empty object where they are
/// empty.
pub open spec fn bindings_of(ctx: Seq<char>) -> Seq<char> {
    if ctx.len() == 0 {
        "{}"@
    } else {
        ctx
    }
}

/// What the directive's arguments ask for: they must be JSON, or empty.
pub open spec fn requested(ctx: Seq<char>) -> Result<Directive, ErrorView> {
    admitted(bindings_of(ctx), json_error(bindings_of(ctx)))
}

/// What becomes of the bindings once `refusal` is known, which is why they
/// are no JSON, if they are none.
pub open spec fn admitted(bindings: Seq<char>, refusal: Option<Seq<char>>) -> Result<
    Directive,
    ErrorView,
> {
    match refusal {
        Some(reason) => Err(
            ErrorView::InvalidContext { prefix: PREFIX@, msg: "Expect json, err:"@ + reason },
        ),
        None => Ok(Directive::Template { bindings }),
    }
}

/// The lines after rendering: what was rendered, cut at the line feeds;
/// the lines as they were where nothing was rendered.
pub open spec fn settled(lines: Seq<Seq<char>>, rendered: Option<Seq<char>>) -> Seq<Seq<char>> {
    match rendered {
        Some(text) => split(text, '\n'),
        None => lines,
    }
}

/// Renders the statement as a template before it is sent.
#[derive(Debug)]
pub struct TemplateInterceptor {
    /// The bindings, a JSON text.
    pub data_bindings: String,
}

impl View for TemplateInterceptor {
    type V = Directive;

    open spec fn view(&self) -> Directive {
        Directive::Template { bindings: self.data_bindings@ }
    }
}

impl TemplateInterceptor {
    /// Puts what was rendered in place of the lines, cut at the line feeds;
    /// leaves the lines where nothing was rendered.
    pub fn settle(execute_query: &mut Vec<String>, rendered: Option<String>)
        ensures
            views(final(execute_query)@) == settled(
                views(old(execute_query)@),
                match rendered {
                    Some(text) => Some(text@),
                    None => None,
                },
            ),
    {
        match rendered {
            Some(rendered) => {
                let text = to_chars(rendered.as_str());
                proof {
                    assert(text@.subrange(0, text@.len() as int) =~= text@);
                }
                let pieces = split_chars(&text, 0, text.len(), '\n');
                *execute_query = to_strings(&pieces);
            },
            None => {},
        }
    }
}

impl Interceptor for TemplateInterceptor {
    open spec fn directive(&self) -> Directive {
        self@
    }

    fn before_execute(&self, execute_query: &mut Vec<String>, context: &mut QueryContext) {
        let input = string_of(&join_strings(execute_query, '\n'));
        let rendered = render(input.as_str(), self.data_bindings.as_str());
        Self::settle(execute_query, rendered);
    }

    fn after_execute(&self, result: &mut String) {
    }

    fn delay(&self) -> Delay {
        Delay::none()
    }
}

/// Makes `TEMPLATE` interceptors.
#[derive(Debug)]
pub struct TemplateInterceptorFactory;

impl TemplateInterceptorFactory {
    /// The interceptor for the bindings, once it is known why they are no
    /// JSON, if they are none.
    pub fn checked(bindings: String, refusal: Option<String>) -> (r: Result<
        TemplateInterceptor,
        SqlnessError,
    >)
        ensures
            match r {
                Ok(i) => admitted(
                    bindings@,
                    match refusal {
                        Some(reason) => Some(reason@),
                        None => None,
                    },
                ) == Ok::<Directive, ErrorView>(i@),
                Err(e) => admitted(
                    bindings@,
                    match refusal {
                        Some(reason) => Some(reason@),
                        None => None,
                    },
                ) == Err::<Directive, ErrorView>(e@),
            },
    {
        match refusal {
            Some(reason) => {
                let mut msg: Vec<char> = Vec::new();
                push_str(&mut msg, "Expect json, err:");
                push_str(&mut msg, reason.as_str());
                Err(SqlnessError::InvalidContext { prefix: PREFIX.to_owned(), msg: string_of(&msg) })
            },
            None => Ok(TemplateInterceptor { data_bindings: bindings }),
        }
    }

    /// The interceptor that the arguments ask for.
    pub fn create(ctx: &str) -> (r: Result<TemplateInterceptor, SqlnessError>)
        ensures
            match r {
                Ok(i) => requested(ctx@) == Ok::<Directive, ErrorView>(i@),
                Err(e) => requested(ctx@) == Err::<Directive, ErrorView>(e@),
            },
    {
        let bindings = if ctx.is_empty() {
            "{}".to_owned()
        } else {
            ctx.to_owned()
        };
        let refusal = check_json(bindings.as_str());
        Self::checked(bindings, refusal)
    }
}

impl InterceptorFactory for TemplateInterceptorFactory {
    open spec fn kind(&self) -> FactoryKind {
        FactoryKind::Template
    }

    fn try_new(&self, ctx: &str) -> (r: Result<InterceptorRef, SqlnessError>) {
        match Self::create(ctx) {
            Ok(i) => Ok(InterceptorRef::Template(i)),
            Err(e) => Err(e),
        }
    }
}

} // verus!
