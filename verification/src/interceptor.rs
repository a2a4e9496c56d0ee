//! Interceptors: what a directive attaches to the statement that follows it.
//! An interceptor may rewrite the lines that go to the adapter, bind values
//! in the statement's context, ask for a pause before the statement is sent,
//! and rewrite the result that comes back.

use crate::bindings::{bindings, bound, lemma_bound_push, lemma_bound_reads_last, lookup};
use crate::context::QueryContext;
use crate::error::{ErrorView, SqlnessError};
use crate::interceptor::arg::{ArgInterceptor, ArgInterceptorFactory};
use crate::interceptor::env::{EnvInterceptor, EnvInterceptorFactory};
use crate::interceptor::replace::{ReplaceInterceptor, ReplaceInterceptorFactory};
use crate::interceptor::sleep::{SleepInterceptor, SleepInterceptorFactory};
use crate::interceptor::sort_result::{SortResultInterceptor, SortResultInterceptorFactory};
use crate::interceptor::template::{TemplateInterceptor, TemplateInterceptorFactory};
use crate::text::{find_whitespace, to_chars, to_string, trim, trim_bounds, views, word_len};
use vstd::prelude::*;

pub mod arg;
pub mod env;
pub mod replace;
pub mod sleep;
pub mod sort_result;
pub mod template;

verus! {

/// A span of time: whole seconds and the nanoseconds beyond them.
#[derive(Clone, Copy, Debug, PartialEq, Eq, Structural)]
pub struct Delay {
    pub secs: u64,
    pub nanos: u32,
}

impl Delay {
    /// The span in nanoseconds.
    pub open spec fn total_nanos(self) -> nat {
        (self.secs * 1_000_000_000 + self.nanos) as nat
    }

    /// No time at all.
    pub fn none() -> (d: Delay)
        ensures
            d.total_nanos() == 0,
    {
        Delay { secs: 0, nanos: 0 }
    }

    /// Whether the span is empty.
    pub fn is_zero(&self) -> (r: bool)
        ensures
            r == (self.total_nanos() == 0),
    {
        self.secs == 0 && self.nanos == 0
    }

    /// The whole milliseconds of the span.
    pub fn as_millis(&self) -> (r: u128)
        ensures
            r == self.total_nanos() / 1_000_000,
    {
        let secs: u128 = self.secs as u128;
        let nanos: u128 = self.nanos as u128;
        secs * 1000 + nanos / 1_000_000
    }
}

/// What an interceptor does, as a value of mathematics. Every interceptor of
/// this crate is one of these.
pub enum Directive {
    /// Binds each pair in the statement's context, in order.
    Arg { pairs: Seq<(Seq<char>, Seq<char>)> },
    /// Replaces each key by its value in every line that goes to the adapter.
    Env { data: Seq<(Seq<char>, Seq<char>)> },
    /// Replaces what matches `pattern` in the result.
    Replace { pattern: Seq<char>, replacement: Seq<char> },
    /// Waits before the statement is sent.
    Sleep { nanos: nat },
    /// Sorts the lines of the result between head and tail.
    SortResult { ignore_head: nat, ignore_tail: nat },
    /// Renders the statement as a template over `bindings`, a JSON text.
    Template { bindings: Seq<char> },
}

impl Directive {
    /// The lines that go to the adapter, after the pre-execution hook.
    pub open spec fn rewritten(self, lines: Seq<Seq<char>>) -> Seq<Seq<char>> {
        match self {
            Directive::Env { data } => env::substituted_lines(lines, data),
            Directive::Template { bindings } => template::rendered_lines(lines, bindings),
            _ => lines,
        }
    }

    /// The context after the pre-execution hook.
    pub open spec fn enriched(self, context: Map<Seq<char>, Seq<char>>) -> Map<
        Seq<char>,
        Seq<char>,
    > {
        match self {
            Directive::Arg { pairs } => bound(context, pairs),
            _ => context,
        }
    }

    /// The result after the post-execution hook.
    pub open spec fn processed(self, result: Seq<char>) -> Seq<char> {
        match self {
            Directive::Replace { pattern, replacement } => replace::replaced(
                pattern,
                result,
                replacement,
            ),
            Directive::SortResult { ignore_head, ignore_tail } => sort_result::sort_result(
                result,
                ignore_head,
                ignore_tail,
            ),
            _ => result,
        }
    }

    /// The nanoseconds to wait before the statement is sent.
    pub open spec fn pause(self) -> nat {
        match self {
            Directive::Sleep { nanos } => nanos,
            _ => 0,
        }
    }
}

/// The hooks of an interceptor.
pub trait Interceptor {
    /// What this interceptor does.
    spec fn directive(&self) -> Directive;

    /// Runs before the statement is sent: may rewrite the lines that go to
    /// the adapter and bind values in the context.
    fn before_execute(&self, execute_query: &mut Vec<String>, context: &mut QueryContext)
        ensures
            views(final(execute_query)@) == self.directive().rewritten(views(old(execute_query)@)),
            final(context)@ == self.directive().enriched(old(context)@),
    ;

    /// Runs on each result that comes back: may rewrite it.
    fn after_execute(&self, result: &mut String)
        ensures
            final(result)@ == self.directive().processed(old(result)@),
    ;

    /// How long to wait, once the pre-execution hooks have run, before the
    /// statement is sent.
    fn delay(&self) -> (d: Delay)
        ensures
            d.total_nanos() == self.directive().pause(),
    ;
}

/// An interceptor of any kind.
#[derive(Debug)]
pub enum InterceptorRef {
    Arg(ArgInterceptor),
    Env(EnvInterceptor),
    Replace(ReplaceInterceptor),
    Sleep(SleepInterceptor),
    SortResult(SortResultInterceptor),
    Template(TemplateInterceptor),
}

impl View for InterceptorRef {
    type V = Directive;

    open spec fn view(&self) -> Directive {
        match *self {
            InterceptorRef::Arg(i) => i@,
            InterceptorRef::Env(i) => i@,
            InterceptorRef::Replace(i) => i@,
            InterceptorRef::Sleep(i) => i@,
            InterceptorRef::SortResult(i) => i@,
            InterceptorRef::Template(i) => i@,
        }
    }
}

impl Interceptor for InterceptorRef {
    open spec fn directive(&self) -> Directive {
        self@
    }

    fn before_execute(&self, execute_query: &mut Vec<String>, context: &mut QueryContext) {
        match self {
            InterceptorRef::Arg(i) => i.before_execute(execute_query, context),
            InterceptorRef::Env(i) => i.before_execute(execute_query, context),
            InterceptorRef::Replace(i) => i.before_execute(execute_query, context),
            InterceptorRef::Sleep(i) => i.before_execute(execute_query, context),
            InterceptorRef::SortResult(i) => i.before_execute(execute_query, context),
            InterceptorRef::Template(i) => i.before_execute(execute_query, context),
        }
    }

    fn after_execute(&self, result: &mut String) {
        match self {
            InterceptorRef::Arg(i) => i.after_execute(result),
            InterceptorRef::Env(i) => i.after_execute(result),
            InterceptorRef::Replace(i) => i.after_execute(result),
            InterceptorRef::Sleep(i) => i.after_execute(result),
            InterceptorRef::SortResult(i) => i.after_execute(result),
            InterceptorRef::Template(i) => i.after_execute(result),
        }
    }

    fn delay(&self) -> Delay {
        match self {
            InterceptorRef::Arg(i) => i.delay(),
            InterceptorRef::Env(i) => i.delay(),
            InterceptorRef::Replace(i) => i.delay(),
            InterceptorRef::Sleep(i) => i.delay(),
            InterceptorRef::SortResult(i) => i.delay(),
            InterceptorRef::Template(i) => i.delay(),
        }
    }
}

/// What makes interceptors, as a value of mathematics.
pub enum FactoryKind {
    Arg,
    /// Reads the variables that it declares from `vars`.
    Env { vars: Map<Seq<char>, Seq<char>> },
    Replace,
    Sleep,
    SortResult,
    Template,
}

impl FactoryKind {
    /// The interceptor that the arguments `ctx` of a directive ask for, or
    /// why they are refused.
    pub open spec fn build(self, ctx: Seq<char>) -> Result<Directive, ErrorView> {
        match self {
            FactoryKind::Arg => Ok(Directive::Arg { pairs: arg::key_value_pairs(ctx) }),
            FactoryKind::Env { vars } => Ok(Directive::Env { data: env::declared(ctx, vars) }),
            FactoryKind::Replace => replace::requested(ctx),
            FactoryKind::Sleep => sleep::requested(ctx),
            FactoryKind::SortResult => sort_result::requested(ctx),
            FactoryKind::Template => template::requested(ctx),
        }
    }
}

/// Makes interceptors from the arguments of a directive.
pub trait InterceptorFactory {
    /// What this factory makes.
    spec fn kind(&self) -> FactoryKind;

    /// The interceptor that `ctx` asks for, or why it is refused.
    fn try_new(&self, ctx: &str) -> (r: Result<InterceptorRef, SqlnessError>)
        ensures
            match r {
                Ok(i) => self.kind().build(ctx@) == Ok::<Directive, ErrorView>(i@),
                Err(e) => self.kind().build(ctx@) == Err::<Directive, ErrorView>(e@),
            },
    ;
}

/// A factory of any kind.
#[derive(Debug)]
pub enum InterceptorFactoryRef {
    Arg(ArgInterceptorFactory),
    Env(EnvInterceptorFactory),
    Replace(ReplaceInterceptorFactory),
    Sleep(SleepInterceptorFactory),
    SortResult(SortResultInterceptorFactory),
    Template(TemplateInterceptorFactory),
}

impl View for InterceptorFactoryRef {
    type V = FactoryKind;

    open spec fn view(&self) -> FactoryKind {
        match *self {
            InterceptorFactoryRef::Arg(f) => f.kind(),
            InterceptorFactoryRef::Env(f) => f.kind(),
            InterceptorFactoryRef::Replace(f) => f.kind(),
            InterceptorFactoryRef::Sleep(f) => f.kind(),
            InterceptorFactoryRef::SortResult(f) => f.kind(),
            InterceptorFactoryRef::Template(f) => f.kind(),
        }
    }
}

impl InterceptorFactory for InterceptorFactoryRef {
    open spec fn kind(&self) -> FactoryKind {
        self@
    }

    fn try_new(&self, ctx: &str) -> (r: Result<InterceptorRef, SqlnessError>) {
        match self {
            InterceptorFactoryRef::Arg(f) => f.try_new(ctx),
            InterceptorFactoryRef::Env(f) => f.try_new(ctx),
            InterceptorFactoryRef::Replace(f) => f.try_new(ctx),
            InterceptorFactoryRef::Sleep(f) => f.try_new(ctx),
            InterceptorFactoryRef::SortResult(f) => f.try_new(ctx),
            InterceptorFactoryRef::Template(f) => f.try_new(ctx),
        }
    }
}

impl InterceptorFactoryRef {
    /// A factory that makes what this one makes.
    pub fn duplicate(&self) -> (r: InterceptorFactoryRef)
        ensures
            r@ == self@,
    {
        match self {
            InterceptorFactoryRef::Arg(_) => InterceptorFactoryRef::Arg(ArgInterceptorFactory),
            InterceptorFactoryRef::Env(f) => InterceptorFactoryRef::Env(f.duplicate()),
            InterceptorFactoryRef::Replace(_) => InterceptorFactoryRef::Replace(
                ReplaceInterceptorFactory,
            ),
            InterceptorFactoryRef::Sleep(_) => InterceptorFactoryRef::Sleep(
                SleepInterceptorFactory,
            ),
            InterceptorFactoryRef::SortResult(_) => InterceptorFactoryRef::SortResult(
                SortResultInterceptorFactory,
            ),
            InterceptorFactoryRef::Template(_) => InterceptorFactoryRef::Template(
                TemplateInterceptorFactory,
            ),
        }
    }
}

/// The view of every entry of a registry.
pub open spec fn factory_views(entries: Seq<(String, InterceptorFactoryRef)>) -> Seq<
    (Seq<char>, FactoryKind),
> {
    Seq::new(entries.len(), |i: int| (entries[i].0@, entries[i].1@))
}

/// The prefix of a directive: the first word of its trimmed text.
pub open spec fn prefix_of(text: Seq<char>) -> Seq<char> {
    trim(text).take(word_len(trim(text)) as int)
}

/// The arguments of a directive: what follows its prefix, trimmed.
pub open spec fn arguments_of(text: Seq<char>) -> Seq<char> {
    trim(trim(text).skip(word_len(trim(text)) as int))
}

/// The interceptor that the text of a directive asks for from a registry, or
/// why there is none: a blank text has no prefix, a prefix that is not
/// registered is unknown, and a registered factory may refuse the arguments.
pub open spec fn resolve(registry: Map<Seq<char>, FactoryKind>, text: Seq<char>) -> Result<
    Directive,
    ErrorView,
> {
    if trim(text).len() == 0 {
        Err(ErrorView::MissingPrefix { line: text })
    } else if !registry.contains_key(prefix_of(text)) {
        Err(ErrorView::UnknownInterceptor { prefix: prefix_of(text) })
    } else {
        registry[prefix_of(text)].build(arguments_of(text))
    }
}

/// A directive whose prefix is not registered gets no interceptor: it fails
/// as unknown, under its prefix, whatever follows the prefix.
pub proof fn lemma_unregistered_prefix_is_unknown(
    registry: Map<Seq<char>, FactoryKind>,
    text: Seq<char>,
)
    requires
        trim(text).len() > 0,
        !registry.contains_key(prefix_of(text)),
    ensures
        resolve(registry, text) == Err::<Directive, ErrorView>(
            ErrorView::UnknownInterceptor { prefix: prefix_of(text) },
        ),
{
}

/// The factories that every registry starts with, by prefix.
pub open spec fn builtin() -> Map<Seq<char>, FactoryKind> {
    Map::<Seq<char>, FactoryKind>::empty().insert(arg::PREFIX@, FactoryKind::Arg).insert(
        replace::PREFIX@,
        FactoryKind::Replace,
    ).insert(env::PREFIX@, FactoryKind::Env { vars: Map::empty() }).insert(
        sort_result::PREFIX@,
        FactoryKind::SortResult,
    ).insert(template::PREFIX@, FactoryKind::Template).insert(sleep::PREFIX@, FactoryKind::Sleep)
}

/// The factories that every registry starts with. The one for `ENV` knows no
/// variable: register one that does in its place.
pub fn builtin_interceptors() -> (r: Vec<(String, InterceptorFactoryRef)>)
    ensures
        bindings(factory_views(r@)) == builtin(),
{
    let mut registry = Registry { factories: Vec::new() };
    proof {
        assert(factory_views(registry.factories@) =~= Seq::empty());
    }
    registry.register(arg::PREFIX, InterceptorFactoryRef::Arg(ArgInterceptorFactory));
    registry.register(replace::PREFIX, InterceptorFactoryRef::Replace(ReplaceInterceptorFactory));
    registry.register(env::PREFIX, InterceptorFactoryRef::Env(EnvInterceptorFactory::new()));
    registry.register(
        sort_result::PREFIX,
        InterceptorFactoryRef::SortResult(SortResultInterceptorFactory),
    );
    registry.register(
        template::PREFIX,
        InterceptorFactoryRef::Template(TemplateInterceptorFactory),
    );
    registry.register(sleep::PREFIX, InterceptorFactoryRef::Sleep(SleepInterceptorFactory));
    registry.factories
}

/// The factories by the prefix of the directives that they serve.
#[derive(Debug)]
pub struct Registry {
    /// The entries in the order in which they were registered. A later entry
    /// replaces an earlier one with the same prefix.
    pub factories: Vec<(String, InterceptorFactoryRef)>,
}

impl View for Registry {
    type V = Map<Seq<char>, FactoryKind>;

    open spec fn view(&self) -> Map<Seq<char>, FactoryKind> {
        bindings(factory_views(self.factories@))
    }
}

impl Default for Registry {
    fn default() -> (r: Registry)
        ensures
            r@ == builtin(),
    {
        Registry { factories: builtin_interceptors() }
    }
}

impl Registry {
    /// The built-in factories, the one for `ENV` knowing the variables
    /// `vars`.
    pub fn with_variables(vars: Vec<(String, String)>) -> (r: Registry)
        ensures
            r@ == builtin().insert(
                env::PREFIX@,
                FactoryKind::Env { vars: bindings(crate::context::pair_views(vars@)) },
            ),
    {
        let mut registry = Registry::default();
        registry.register(
            env::PREFIX,
            InterceptorFactoryRef::Env(EnvInterceptorFactory::with_variables(vars)),
        );
        registry
    }

    /// Registers `factory` under `prefix`, in place of what was registered
    /// there.
    pub fn register(&mut self, prefix: &str, factory: InterceptorFactoryRef)
        ensures
            final(self)@ == old(self)@.insert(prefix@, factory@),
    {
        let ghost before = factory_views(self.factories@);
        let key = prefix.to_owned();
        self.factories.push((key, factory));
        proof {
            assert(factory_views(self.factories@) =~= before.push((prefix@, factory@)));
            lemma_bound_push(Map::empty(), before, prefix@, factory@);
        }
    }

    /// The factory registered under `prefix`.
    pub fn get(&self, prefix: &str) -> (r: Option<&InterceptorFactoryRef>)
        ensures
            match r {
                Some(factory) => self@.contains_key(prefix@) && self@[prefix@] == factory@,
                None => !self@.contains_key(prefix@),
            },
    {
        let found = lookup(&self.factories, prefix);
        proof {
            let pairs = factory_views(self.factories@);
            lemma_bound_reads_last(Map::empty(), pairs, prefix@);
            match found {
                Some(i) => {
                    assert(pairs[i as int].0 == prefix@);
                    assert forall|j: int| i < j < pairs.len() implies (#[trigger] pairs[j]).0
                        != prefix@ by {
                        assert(self.factories@[j].0@ != prefix@);
                    }
                },
                None => {
                    assert forall|j: int| 0 <= j < pairs.len() implies (#[trigger] pairs[j]).0
                        != prefix@ by {
                        assert(self.factories@[j].0@ != prefix@);
                    }
                },
            }
        }
        match found {
            Some(i) => Some(&self.factories[i].1),
            None => None,
        }
    }

    /// The interceptor that the text of a directive asks for.
    pub fn create(&self, ctx: &str) -> (r: Result<InterceptorRef, SqlnessError>)
        ensures
            match r {
                Ok(i) => resolve(self@, ctx@) == Ok::<Directive, ErrorView>(i@),
                Err(e) => resolve(self@, ctx@) == Err::<Directive, ErrorView>(e@),
            },
    {
        let text = to_chars(ctx);
        proof {
            assert(text@.subrange(0, text@.len() as int) =~= text@);
        }
        let (a, b) = trim_bounds(&text, 0, text.len());
        if a == b {
            return Err(SqlnessError::MissingPrefix { line: ctx.to_owned() });
        }
        let k = find_whitespace(&text, a, b);
        let prefix = to_string(&text, a, k);
        let (c, d) = trim_bounds(&text, k, b);
        let arguments = to_string(&text, c, d);
        proof {
            let t = text@.subrange(a as int, b as int);
            assert(t.take(k - a) =~= text@.subrange(a as int, k as int));
            assert(t.skip(k - a) =~= text@.subrange(k as int, b as int));
        }
        match self.get(prefix.as_str()) {
            Some(factory) => factory.try_new(arguments.as_str()),
            None => Err(SqlnessError::UnknownInterceptor { prefix }),
        }
    }

    /// A registry that holds what this one holds.
    pub fn duplicate(&self) -> (r: Registry)
        ensures
            r@ == self@,
    {
        let mut factories: Vec<(String, InterceptorFactoryRef)> = Vec::new();
        let mut i: usize = 0;
        while i < self.factories.len()
            invariant
                i <= self.factories.len(),
                factory_views(factories@) == factory_views(self.factories@).take(i as int),
            decreases self.factories.len() - i,
        {
            let ghost before = factory_views(factories@);
            let prefix = self.factories[i].0.clone();
            let factory = self.factories[i].1.duplicate();
            factories.push((prefix, factory));
            proof {
                assert(factory_views(factories@) =~= before.push((prefix@, factory@)));
                assert(factory_views(self.factories@).take(i + 1) =~= before.push(
                    (prefix@, factory@),
                ));
            }
            i = i + 1;
        }
        proof {
            assert(factory_views(self.factories@).take(i as int) =~= factory_views(
                self.factories@,
            ));
        }
        Registry { factories }
    }
}

} // verus!
