//! `ENV`: fills the values of declared variables into the lines that go to
//! the adapter, and never into what is shown.

use crate::bindings::{bindings, lemma_bound_reads_last, lookup};
use crate::context::{copy_pairs, pair_views, QueryContext};
use crate::error::SqlnessError;
use crate::interceptor::{
    Delay, Directive, FactoryKind, Interceptor, InterceptorFactory, InterceptorRef,
};
use crate::text::{
    push_chars, replace_all, replace_chars, split, split_chars, string_of, texts, to_chars,
    trim, trim_bounds, views,
};
use vstd::prelude::*;

verus! {

/// The prefix of the directive.
pub const PREFIX: &'static str = "ENV";

/// The line with each key replaced by its value, one pair after the other.
pub open spec fn substituted(line: Seq<char>, data: Seq<(Seq<char>, Seq<char>)>) -> Seq<char>
    decreases data.len(),
{
    if data.len() == 0 {
        line
    } else {
        replace_all(substituted(line, data.drop_last()), data.last().0, data.last().1)
    }
}

/// Every line with each key replaced by its value.
pub open spec fn substituted_lines(
    lines: Seq<Seq<char>>,
    data: Seq<(Seq<char>, Seq<char>)>,
) -> Seq<Seq<char>> {
    Seq::new(lines.len(), |i: int| substituted(lines[i], data))
}

/// For each name that `vars` holds, in order: the name behind a `$`, and its
/// value.
pub open spec fn found(names: Seq<Seq<char>>, vars: Map<Seq<char>, Seq<char>>) -> Seq<
    (Seq<char>, Seq<char>),
>
    decreases names.len(),
{
    if names.len() == 0 {
        Seq::empty()
    } else {
        let front = found(names.drop_last(), vars);
        let name = names.last();
        if vars.contains_key(name) {
            front.push((seq!['$'] + name, vars[name]))
        } else {
            front
        }
    }
}

/// What an `ENV` directive replaces: the names between the spaces of its
/// trimmed arguments, as far as `vars` holds them.
pub open spec fn declared(ctx: Seq<char>, vars: Map<Seq<char>, Seq<char>>) -> Seq<
    (Seq<char>, Seq<char>),
> {
    found(split(trim(ctx), ' '), vars)
}

/// Replaces `$NAME` by the value of `NAME` in the lines that go to the
/// adapter.
#[derive(Debug)]
pub struct EnvInterceptor {
    /// The keys, each a name behind a `$`, with the values that replace them.
    pub data: Vec<(String, String)>,
}

impl View for EnvInterceptor {
    type V = Directive;

    open spec fn view(&self) -> Directive {
        Directive::Env { data: pair_views(self.data@) }
    }
}

impl EnvInterceptor {
    /// The line with each key replaced by its value.
    fn substitute(&self, line: &str) -> (r: String)
        ensures
            r@ == substituted(line@, pair_views(self.data@)),
    {
        let mut text = to_chars(line);
        let ghost data = pair_views(self.data@);
        let mut i: usize = 0;
        proof {
            assert(data.take(0) =~= Seq::empty());
        }
        while i < self.data.len()
            invariant
                i <= self.data.len(),
                data == pair_views(self.data@),
                text@ == substituted(line@, data.take(i as int)),
            decreases self.data.len() - i,
        {
            let key = to_chars(self.data[i].0.as_str());
            let value = to_chars(self.data[i].1.as_str());
            proof {
                assert(data.take(i + 1).drop_last() =~= data.take(i as int));
                assert(data.take(i + 1).last() == data[i as int]);
            }
            if key.len() > 0 {
                text = replace_chars(&text, &key, &value);
            }
            i = i + 1;
        }
        proof {
            assert(data.take(i as int) =~= data);
        }
        string_of(&text)
    }
}

impl Interceptor for EnvInterceptor {
    open spec fn directive(&self) -> Directive {
        self@
    }

    fn before_execute(&self, execute_query: &mut Vec<String>, context: &mut QueryContext) {
        let mut lines: Vec<String> = Vec::new();
        let ghost data = pair_views(self.data@);
        let ghost source = views(execute_query@);
        let mut i: usize = 0;
        while i < execute_query.len()
            invariant
                i <= execute_query.len(),
                data == pair_views(self.data@),
                source == views(execute_query@),
                views(lines@) == substituted_lines(source, data).take(i as int),
            decreases execute_query.len() - i,
        {
            let line = self.substitute(execute_query[i].as_str());
            let ghost before = views(lines@);
            lines.push(line);
            proof {
                assert(views(lines@) =~= before.push(line@));
                assert(substituted_lines(source, data).take(i + 1) =~= before.push(line@));
            }
            i = i + 1;
        }
        proof {
            assert(substituted_lines(source, data).take(i as int) =~= substituted_lines(
                source,
                data,
            ));
        }
        *execute_query = lines;
    }

    fn after_execute(&self, result: &mut String) {
    }

    fn delay(&self) -> Delay {
        Delay::none()
    }
}

/// Makes `ENV` interceptors from the variables that it was given.
#[derive(Debug)]
pub struct EnvInterceptorFactory {
    /// The variables by name. A later pair replaces an earlier one with the
    /// same name.
    pub vars: Vec<(String, String)>,
}

impl EnvInterceptorFactory {
    /// A factory that knows no variable.
    pub fn new() -> (r: EnvInterceptorFactory)
        ensures
            r.kind() == (FactoryKind::Env { vars: Map::empty() }),
    {
        let r = EnvInterceptorFactory { vars: Vec::new() };
        proof {
            assert(pair_views(r.vars@) =~= Seq::empty());
        }
        r
    }

    /// A factory that knows the variables `vars`.
    pub fn with_variables(vars: Vec<(String, String)>) -> (r: EnvInterceptorFactory)
        ensures
            r.kind() == (FactoryKind::Env { vars: bindings(pair_views(vars@)) }),
    {
        EnvInterceptorFactory { vars }
    }

    /// A factory that knows what this one knows.
    pub fn duplicate(&self) -> (r: EnvInterceptorFactory)
        ensures
            r.kind() == self.kind(),
    {
        EnvInterceptorFactory { vars: copy_pairs(&self.vars) }
    }

    /// The interceptor for the names that `ctx` declares.
    pub fn create(&self, ctx: &str) -> (r: EnvInterceptor)
        ensures
            r@ == (Directive::Env { data: declared(ctx@, bindings(pair_views(self.vars@))) }),
    {
        let text = to_chars(ctx);
        proof {
            assert(text@.subrange(0, text@.len() as int) =~= text@);
        }
        let (a, b) = trim_bounds(&text, 0, text.len());
        let names = split_chars(&text, a, b, ' ');
        let ghost vars = bindings(pair_views(self.vars@));
        let mut data: Vec<(String, String)> = Vec::new();
        let mut i: usize = 0;
        proof {
            assert(texts(names@).take(0) =~= Seq::empty());
            assert(pair_views(data@) =~= Seq::empty());
        }
        while i < names.len()
            invariant
                i <= names.len(),
                vars == bindings(pair_views(self.vars@)),
                pair_views(data@) == found(texts(names@).take(i as int), vars),
            decreases names.len() - i,
        {
            let name = string_of(&names[i]);
            let ghost before = pair_views(data@);
            proof {
                assert(texts(names@).take(i + 1).drop_last() =~= texts(names@).take(i as int));
                assert(texts(names@).take(i + 1).last() == name@);
            }
            let place = lookup(&self.vars, name.as_str());
            proof {
                let pairs = pair_views(self.vars@);
                lemma_bound_reads_last(Map::empty(), pairs, name@);
                match place {
                    Some(p) => {
                        assert(pairs[p as int].0 == name@);
                        assert forall|j: int| p < j < pairs.len() implies (#[trigger] pairs[j]).0
                            != name@ by {
                            assert(self.vars@[j].0@ != name@);
                        }
                    },
                    None => {
                        assert forall|j: int| 0 <= j < pairs.len() implies (#[trigger] pairs[j]).0
                            != name@ by {
                            assert(self.vars@[j].0@ != name@);
                        }
                    },
                }
            }
            match place {
                Some(p) => {
                    let mut key: Vec<char> = Vec::new();
                    key.push('$');
                    push_chars(&mut key, &names[i]);
                    let key = string_of(&key);
                    let value = self.vars[p].1.clone();
                    data.push((key, value));
                    proof {
                        assert(key@ =~= seq!['$'] + name@);
                        assert(pair_views(data@) =~= before.push((key@, value@)));
                    }
                },
                None => {},
            }
            i = i + 1;
        }
        proof {
            assert(texts(names@).take(i as int) =~= texts(names@));
        }
        EnvInterceptor { data }
    }
}

impl InterceptorFactory for EnvInterceptorFactory {
    open spec fn kind(&self) -> FactoryKind {
        FactoryKind::Env { vars: bindings(pair_views(self.vars@)) }
    }

    fn try_new(&self, ctx: &str) -> (r: Result<InterceptorRef, SqlnessError>) {
        Ok(InterceptorRef::Env(self.create(ctx)))
    }
}

} // verus!
