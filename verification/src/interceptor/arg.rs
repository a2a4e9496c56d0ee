//! `ARG`: binds `key=value` pairs in the context of the statement.

use crate::bindings::{bound, lemma_bound_push};
use crate::context::{pair_views, QueryContext};
use crate::error::SqlnessError;
use crate::interceptor::{
    Delay, Directive, FactoryKind, Interceptor, InterceptorFactory, InterceptorRef,
};
use crate::text::{
    find, join, lemma_position, lemma_split_join, split, split_chars, split_once, texts,
    to_chars, to_string,
};
use vstd::prelude::*;

verus! {

/// The prefix of the directive.
pub const PREFIX: &'static str = "ARG";

/// The pairs that the pieces write: a piece with a `=` gives its two parts
/// around the first one, a piece without gives nothing.
pub open spec fn pairs_of(pieces: Seq<Seq<char>>) -> Seq<(Seq<char>, Seq<char>)>
    decreases pieces.len(),
{
    if pieces.len() == 0 {
        Seq::empty()
    } else {
        let front = pairs_of(pieces.drop_last());
        match split_once(pieces.last(), '=') {
            Some(pair) => front.push(pair),
            None => front,
        }
    }
}

/// The pairs that the arguments of an `ARG` directive write: one for each
/// piece between spaces that holds a `=`.
pub open spec fn key_value_pairs(input: Seq<char>) -> Seq<(Seq<char>, Seq<char>)> {
    pairs_of(split(input, ' '))
}

/// Binds its pairs in the context, in order: where a key is bound already,
/// or comes twice, the later value stays.
#[derive(Debug)]
pub struct ArgInterceptor {
    pub args: Vec<(String, String)>,
}

impl View for ArgInterceptor {
    type V = Directive;

    open spec fn view(&self) -> Directive {
        Directive::Arg { pairs: pair_views(self.args@) }
    }
}

impl Interceptor for ArgInterceptor {
    open spec fn directive(&self) -> Directive {
        self@
    }

    fn before_execute(&self, execute_query: &mut Vec<String>, context: &mut QueryContext) {
        let ghost start = context@;
        let ghost pairs = pair_views(self.args@);
        let mut i: usize = 0;
        proof {
            assert(pairs.take(0) =~= Seq::empty());
        }
        while i < self.args.len()
            invariant
                i <= self.args.len(),
                pairs == pair_views(self.args@),
                context@ == bound(start, pairs.take(i as int)),
            decreases self.args.len() - i,
        {
            let key = self.args[i].0.clone();
            let value = self.args[i].1.clone();
            context.insert(key, value);
            proof {
                assert(pairs.take(i + 1) =~= pairs.take(i as int).push((key@, value@)));
                lemma_bound_push(start, pairs.take(i as int), key@, value@);
            }
            i = i + 1;
        }
        proof {
            assert(pairs.take(i as int) =~= pairs);
        }
    }

    fn after_execute(&self, result: &mut String) {
    }

    fn delay(&self) -> Delay {
        Delay::none()
    }
}

/// Makes `ARG` interceptors.
#[derive(Debug)]
pub struct ArgInterceptorFactory;

impl ArgInterceptorFactory {
    /// The pairs that `input` writes.
    pub fn separate_key_value_pairs(input: &str) -> (result: Vec<(String, String)>)
        ensures
            pair_views(result@) == key_value_pairs(input@),
    {
        let text = to_chars(input);
        proof {
            assert(text@.subrange(0, text@.len() as int) =~= text@);
        }
        let pieces = split_chars(&text, 0, text.len(), ' ');
        let mut result: Vec<(String, String)> = Vec::new();
        let mut i: usize = 0;
        proof {
            assert(texts(pieces@).take(0) =~= Seq::empty());
            assert(pair_views(result@) =~= Seq::empty());
        }
        while i < pieces.len()
            invariant
                i <= pieces.len(),
                pair_views(result@) == pairs_of(texts(pieces@).take(i as int)),
            decreases pieces.len() - i,
        {
            let piece = &pieces[i];
            let n = piece.len();
            let ghost before = pair_views(result@);
            proof {
                assert(piece@.subrange(0, n as int) =~= piece@);
                assert(texts(pieces@).take(i + 1).drop_last() =~= texts(pieces@).take(i as int));
                assert(texts(pieces@).take(i + 1).last() == piece@);
            }
            let k = find(piece, 0, n, '=');
            if k < n {
                let key = to_string(piece, 0, k);
                let value = to_string(piece, k + 1, n);
                result.push((key, value));
                proof {
                    assert(piece@.take(k as int) =~= piece@.subrange(0, k as int));
                    assert(piece@.skip(k + 1) =~= piece@.subrange(k + 1, n as int));
                    assert(pair_views(result@) =~= before.push((key@, value@)));
                }
            }
            i = i + 1;
        }
        proof {
            assert(texts(pieces@).take(i as int) =~= texts(pieces@));
        }
        result
    }

    /// The interceptor that binds the pairs of `ctx`.
    pub fn create(ctx: &str) -> (r: ArgInterceptor)
        ensures
            r@ == (Directive::Arg { pairs: key_value_pairs(ctx@) }),
    {
        ArgInterceptor { args: Self::separate_key_value_pairs(ctx) }
    }
}

impl InterceptorFactory for ArgInterceptorFactory {
    open spec fn kind(&self) -> FactoryKind {
        FactoryKind::Arg
    }

    fn try_new(&self, ctx: &str) -> (r: Result<InterceptorRef, SqlnessError>) {
        Ok(InterceptorRef::Arg(Self::create(ctx)))
    }
}

/// How the pairs are written as the arguments of an `ARG` directive:
/// `key=value`, a space between each two.
pub open spec fn written(pairs: Seq<(Seq<char>, Seq<char>)>) -> Seq<char> {
    join(assignments(pairs), seq![' '])
}

/// Each pair as `key=value`.
pub open spec fn assignments(pairs: Seq<(Seq<char>, Seq<char>)>) -> Seq<Seq<char>> {
    Seq::new(pairs.len(), |i: int| pairs[i].0 + seq!['='] + pairs[i].1)
}

/// Whether the pairs can be written as arguments: no key holds a space or a
/// `=`, and no value holds a space.
pub open spec fn writable(pairs: Seq<(Seq<char>, Seq<char>)>) -> bool {
    forall|i: int|
        0 <= i < pairs.len() ==> !(#[trigger] pairs[i]).0.contains(' ') && !pairs[i].0.contains('=')
            && !pairs[i].1.contains(' ')
}

/// The pieces `key=value` are read as the pairs that they write.
proof fn lemma_pairs_of_assignments(pairs: Seq<(Seq<char>, Seq<char>)>)
    requires
        writable(pairs),
    ensures
        pairs_of(assignments(pairs)) == pairs,
    decreases pairs.len(),
{
    let parts = assignments(pairs);
    if pairs.len() == 0 {
        assert(pairs_of(parts) =~= pairs);
    } else {
        let front = pairs.drop_last();
        assert forall|i: int| 0 <= i < front.len() implies !(#[trigger] front[i]).0.contains(' ')
            && !front[i].0.contains('=') && !front[i].1.contains(' ') by {
            assert(front[i] == pairs[i]);
        }
        lemma_pairs_of_assignments(front);
        assert(parts.drop_last() =~= assignments(front));
        let (key, value) = pairs.last();
        let part = parts.last();
        assert(part == key + seq!['='] + value);
        assert forall|j: int| 0 <= j < key.len() implies #[trigger] part[j] != '=' by {
            assert(part[j] == key[j]);
            assert(key.contains(key[j]));
        }
        assert(part[key.len() as int] == '=');
        lemma_position(part, '=', key.len() as int);
        assert(part.take(key.len() as int) =~= key);
        assert(part.skip(key.len() as int + 1) =~= value);
        assert(pairs_of(parts) =~= front.push((key, value)));
        assert(front.push((key, value)) =~= pairs);
    }
}

/// An `ARG` directive reads the pairs that were written into it: from
/// `k1=v1 k2=v2` it has `(k1, v1)` and `(k2, v2)`, in this order.
pub proof fn lemma_arg_reads_what_was_written(pairs: Seq<(Seq<char>, Seq<char>)>)
    requires
        writable(pairs),
    ensures
        key_value_pairs(written(pairs)) == pairs,
{
    let parts = assignments(pairs);
    lemma_pairs_of_assignments(pairs);
    if pairs.len() == 0 {
        let text = written(pairs);
        assert(text =~= Seq::<char>::empty());
        lemma_position(text, ' ', 0);
        assert(split(text, ' ') =~= seq![text]);
        assert(seq![text].drop_last() =~= Seq::<Seq<char>>::empty());
        lemma_position(text, '=', 0);
        assert(pairs_of(seq![text]) =~= pairs_of(Seq::<Seq<char>>::empty()));
        assert(key_value_pairs(text) =~= pairs);
    } else {
        assert forall|i: int, j: int|
            0 <= i < parts.len() && 0 <= j < parts[i].len() implies #[trigger] parts[i][j]
            != ' ' by {
            let (key, value) = pairs[i];
            if j < key.len() {
                assert(parts[i][j] == key[j]);
                assert(key.contains(key[j]));
            } else if j > key.len() {
                assert(parts[i][j] == value[j - key.len() - 1]);
                assert(value.contains(value[j - key.len() - 1]));
            } else {
                assert(parts[i][j] == '=');
            }
        }
        lemma_split_join(parts, ' ');
    }
}

/// After an `ARG` directive the context binds exactly the keys that it
/// bound before and the keys of the directive's pairs; a key of the
/// directive is bound to the value of the last pair that holds it, and any
/// other key to what it was bound to.
pub proof fn lemma_arg_binds_its_pairs(
    pairs: Seq<(Seq<char>, Seq<char>)>,
    context: Map<Seq<char>, Seq<char>>,
    key: Seq<char>,
)
    ensures
        (Directive::Arg { pairs }).enriched(context).contains_key(key) <==> context.contains_key(
            key,
        ) || exists|i: int| 0 <= i < pairs.len() && (#[trigger] pairs[i]).0 == key,
        forall|i: int|
            0 <= i < pairs.len() && (#[trigger] pairs[i]).0 == key && (forall|j: int|
                i < j < pairs.len() ==> (#[trigger] pairs[j]).0 != key) ==> (Directive::Arg {
                pairs,
            }).enriched(context)[key] == pairs[i].1,
        (forall|i: int| 0 <= i < pairs.len() ==> (#[trigger] pairs[i]).0 != key)
            && context.contains_key(key) ==> (Directive::Arg { pairs }).enriched(context)[key]
            == context[key],
{
    crate::bindings::lemma_bound_reads_last(context, pairs, key);
    crate::bindings::lemma_bound_domain(context, pairs, key);
}

} // verus!
