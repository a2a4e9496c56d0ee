//! `SORT_RESULT`: puts the lines of a result in the order of the dictionary,
//! but for some lines at its head and at its tail.

use crate::error::{ErrorView, SqlnessError};
use crate::interceptor::{
    Delay, Directive, Interceptor, InterceptorFactory, InterceptorRef, FactoryKind,
};
use crate::context::QueryContext;
use crate::text::{
    find, join, lemma_join_split, lemma_lines_of_join, lemma_sorted_holds_the_same,
    lemma_sorted_len, lemma_sorted_twice, lemma_split_keeps_characters, lines, lines_of,
    number_of, parse_number, push_chars, sort_lines, sorted, split, split_once, string_of,
    texts, to_chars, NumberError,
};
use vstd::prelude::*;

verus! {

/// The prefix of the directive.
pub const PREFIX: &'static str = "SORT_RESULT";

/// How many of `count` lines stay at the head.
pub open spec fn kept_head(count: nat, ignore_head: nat) -> nat {
    if ignore_head < count {
        ignore_head
    } else {
        count
    }
}

/// How many of `count` lines stay at the tail, once the head has taken its
/// part.
pub open spec fn kept_tail(count: nat, ignore_head: nat, ignore_tail: nat) -> nat {
    let rest = (count - kept_head(count, ignore_head)) as nat;
    if ignore_tail < rest {
        ignore_tail
    } else {
        rest
    }
}

/// The lines with those between head and tail in the order of the dictionary.
pub open spec fn arranged(all: Seq<Seq<char>>, ignore_head: nat, ignore_tail: nat) -> Seq<
    Seq<char>,
> {
    let head = kept_head(all.len(), ignore_head) as int;
    let tail = kept_tail(all.len(), ignore_head, ignore_tail) as int;
    all.take(head) + sorted(all.subrange(head, all.len() - tail)) + all.skip(all.len() - tail)
}

/// The result with its lines arranged, one line feed between each two.
pub open spec fn sort_result(result: Seq<char>, ignore_head: nat, ignore_tail: nat) -> Seq<char> {
    join(arranged(lines(result), ignore_head, ignore_tail), seq!['\n'])
}

/// The two arguments of the directive: what stands before the first space
/// and what stands after it, the empty ones left out, `0` in place of a
/// missing one.
pub open spec fn arguments(ctx: Seq<char>) -> (Seq<char>, Seq<char>) {
    let (first, second) = match split_once(ctx, ' ') {
        Some(parts) => parts,
        None => (ctx, Seq::<char>::empty()),
    };
    if first.len() > 0 {
        (
            first,
            if second.len() > 0 {
                second
            } else {
                seq!['0']
            },
        )
    } else if second.len() > 0 {
        (second, seq!['0'])
    } else {
        (seq!['0'], seq!['0'])
    }
}

/// Why an argument is refused.
pub open spec fn not_a_number(reason: NumberError) -> ErrorView {
    ErrorView::InvalidContext { prefix: PREFIX@, msg: "Expect number, err:"@ + reason.message() }
}

/// What the directive's arguments ask for.
pub open spec fn requested(ctx: Seq<char>) -> Result<Directive, ErrorView> {
    let (first, second) = arguments(ctx);
    match parse_number(first) {
        Err(reason) => Err(not_a_number(reason)),
        Ok(ignore_head) => match parse_number(second) {
            Err(reason) => Err(not_a_number(reason)),
            Ok(ignore_tail) => Ok(
                Directive::SortResult {
                    ignore_head: ignore_head as nat,
                    ignore_tail: ignore_tail as nat,
                },
            ),
        },
    }
}

/// Sorts the lines of a result.
#[derive(Debug)]
pub struct SortResultInterceptor {
    /// How many lines at the head stay where they are.
    pub ignore_head: usize,
    /// How many lines at the tail stay where they are.
    pub ignore_tail: usize,
}

impl View for SortResultInterceptor {
    type V = Directive;

    open spec fn view(&self) -> Directive {
        Directive::SortResult {
            ignore_head: self.ignore_head as nat,
            ignore_tail: self.ignore_tail as nat,
        }
    }
}

impl Interceptor for SortResultInterceptor {
    open spec fn directive(&self) -> Directive {
        self@
    }

    fn before_execute(&self, execute_query: &mut Vec<String>, context: &mut QueryContext) {
    }

    fn after_execute(&self, result: &mut String) {
        let text = to_chars(result.as_str());
        let all = lines_of(&text);
        let n = all.len();
        let head = if self.ignore_head < n {
            self.ignore_head
        } else {
            n
        };
        let tail = if self.ignore_tail < n - head {
            self.ignore_tail
        } else {
            n - head
        };
        let middle = sort_lines(&all, head, n - tail);
        let mut out: Vec<char> = Vec::new();
        let ghost target = arranged(lines(text@), self.ignore_head as nat, self.ignore_tail as nat);
        proof {
            lemma_sorted_len(texts(all@).subrange(head as int, n - tail));
            assert(target.len() == n);
        }
        let mut i: usize = 0;
        while i < n
            invariant
                i <= n == all.len(),
                head <= n - tail,
                middle.len() == n - tail - head,
                target.len() == n,
                target == texts(all@).take(head as int) + texts(middle@) + texts(all@).skip(
                    n - tail,
                ),
                out@ == join(target.take(i as int), seq!['\n']),
            decreases n - i,
        {
            let ghost before = out@;
            if i > 0 {
                out.push('\n');
            }
            if head <= i && i < n - tail {
                push_chars(&mut out, &middle[i - head]);
            } else {
                push_chars(&mut out, &all[i]);
            }
            proof {
                let next = target.take(i + 1);
                assert(next.drop_last() =~= target.take(i as int));
                if i > 0 {
                    assert(before.push('\n') =~= before + seq!['\n']);
                } else {
                    assert(before + next.last() =~= next.last());
                }
            }
            i = i + 1;
        }
        proof {
            assert(target.take(n as int) =~= target);
        }
        *result = string_of(&out);
    }

    fn delay(&self) -> Delay {
        Delay::none()
    }
}

/// Makes `SORT_RESULT` interceptors.
#[derive(Debug)]
pub struct SortResultInterceptorFactory;

impl SortResultInterceptorFactory {
    /// The failure for an argument that is no number.
    fn refusal(reason: NumberError) -> (e: SqlnessError)
        ensures
            e@ == not_a_number(reason),
    {
        let mut msg: Vec<char> = Vec::new();
        crate::text::push_str(&mut msg, "Expect number, err:");
        crate::text::push_str(&mut msg, reason.describe().as_str());
        SqlnessError::InvalidContext { prefix: PREFIX.to_owned(), msg: string_of(&msg) }
    }

    /// The interceptor that the arguments ask for.
    pub fn create(ctx: &str) -> (r: Result<SortResultInterceptor, SqlnessError>)
        ensures
            match r {
                Ok(i) => requested(ctx@) == Ok::<Directive, ErrorView>(i@),
                Err(e) => requested(ctx@) == Err::<Directive, ErrorView>(e@),
            },
    {
        let text = to_chars(ctx);
        let n = text.len();
        proof {
            assert(text@.subrange(0, n as int) =~= text@);
        }
        let k = find(&text, 0, n, ' ');
        let (a, b, c, d) = if k < n {
            (0, k, k + 1, n)
        } else {
            (0, n, n, n)
        };
        let zero: Vec<char> = vec!['0'];
        proof {
            assert(zero@ =~= seq!['0']);
            assert(zero@.subrange(0, 1) =~= zero@);
            let (first, second) = match split_once(ctx@, ' ') {
                Some(parts) => parts,
                None => (ctx@, Seq::<char>::empty()),
            };
            assert(text@.subrange(a as int, b as int) =~= first);
            assert(text@.subrange(c as int, d as int) =~= second);
        }
        let head = if a < b {
            number_of(&text, a, b)
        } else if c < d {
            number_of(&text, c, d)
        } else {
            number_of(&zero, 0, 1)
        };
        let ignore_head = match head {
            Ok(value) => value,
            Err(reason) => {
                return Err(Self::refusal(reason));
            },
        };
        let tail = if a < b && c < d {
            number_of(&text, c, d)
        } else {
            number_of(&zero, 0, 1)
        };
        let ignore_tail = match tail {
            Ok(value) => value,
            Err(reason) => {
                return Err(Self::refusal(reason));
            },
        };
        Ok(SortResultInterceptor { ignore_head, ignore_tail })
    }
}

impl InterceptorFactory for SortResultInterceptorFactory {
    open spec fn kind(&self) -> FactoryKind {
        FactoryKind::SortResult
    }

    fn try_new(&self, ctx: &str) -> (r: Result<InterceptorRef, SqlnessError>) {
        match Self::create(ctx) {
            Ok(i) => Ok(InterceptorRef::SortResult(i)),
            Err(e) => Err(e),
        }
    }
}

/// Arranging the lines once more changes nothing.
pub proof fn lemma_arranged_twice(all: Seq<Seq<char>>, ignore_head: nat, ignore_tail: nat)
    ensures
        arranged(arranged(all, ignore_head, ignore_tail), ignore_head, ignore_tail) == arranged(
            all,
            ignore_head,
            ignore_tail,
        ),
        arranged(all, ignore_head, ignore_tail).len() == all.len(),
{
    let head = kept_head(all.len(), ignore_head) as int;
    let tail = kept_tail(all.len(), ignore_head, ignore_tail) as int;
    let middle = all.subrange(head, all.len() - tail);
    let once = arranged(all, ignore_head, ignore_tail);
    lemma_sorted_len(middle);
    lemma_sorted_twice(middle);
    assert(once.len() == all.len());
    assert(once.take(head) =~= all.take(head));
    assert(once.subrange(head, once.len() - tail) =~= sorted(middle));
    assert(once.skip(once.len() - tail) =~= all.skip(all.len() - tail));
}

/// `SORT_RESULT` applied to its own result changes nothing, where that
/// result falls into the lines from which it was joined.
pub proof fn lemma_sort_result_twice(result: Seq<char>, ignore_head: nat, ignore_tail: nat)
    requires
        lines(sort_result(result, ignore_head, ignore_tail)) == arranged(
            lines(result),
            ignore_head,
            ignore_tail,
        ),
    ensures
        sort_result(sort_result(result, ignore_head, ignore_tail), ignore_head, ignore_tail)
            == sort_result(result, ignore_head, ignore_tail),
{
    lemma_arranged_twice(lines(result), ignore_head, ignore_tail);
}

/// Arranging brings no line that was not there.
pub proof fn lemma_arranged_holds_the_same(
    all: Seq<Seq<char>>,
    ignore_head: nat,
    ignore_tail: nat,
    i: int,
)
    requires
        0 <= i < arranged(all, ignore_head, ignore_tail).len(),
    ensures
        all.contains(arranged(all, ignore_head, ignore_tail)[i]),
{
    let head = kept_head(all.len(), ignore_head) as int;
    let tail = kept_tail(all.len(), ignore_head, ignore_tail) as int;
    let middle = all.subrange(head, all.len() - tail);
    let once = arranged(all, ignore_head, ignore_tail);
    lemma_sorted_len(middle);
    if i < head {
        assert(once[i] == all[i]);
    } else if i < all.len() - tail {
        assert(once[i] == sorted(middle)[i - head]);
        lemma_sorted_holds_the_same(middle, i - head);
        let m = choose|m: int| 0 <= m < middle.len() && middle[m] == once[i];
        assert(all[head + m] == once[i]);
    } else {
        assert(once[i] == all[i]);
    }
}

/// `SORT_RESULT` applied to its own result changes nothing, for a result
/// without carriage returns and without empty lines.
pub proof fn lemma_sort_result_is_idempotent(
    result: Seq<char>,
    ignore_head: nat,
    ignore_tail: nat,
)
    requires
        !result.contains('\r'),
        forall|i: int| 0 <= i < lines(result).len() ==> (#[trigger] lines(result)[i]).len() > 0,
    ensures
        sort_result(sort_result(result, ignore_head, ignore_tail), ignore_head, ignore_tail)
            == sort_result(result, ignore_head, ignore_tail),
{
    let all = lines(result);
    let once = arranged(all, ignore_head, ignore_tail);
    let pieces = split(result, '\n');
    lemma_join_split(result, '\n');
    lemma_split_keeps_characters(result, '\n');
    assert forall|i: int| 0 <= i < all.len() implies !(#[trigger] all[i]).contains('\n')
        && !all[i].contains('\r') by {
        let piece = pieces[i];
        assert forall|j: int| 0 <= j < piece.len() implies piece[j] != '\n' && piece[j]
            != '\r' by {
            assert(result.contains(pieces[i][j]));
        }
        assert forall|j: int| 0 <= j < all[i].len() implies all[i][j] != '\n' && all[i][j]
            != '\r' by {
            assert(all[i][j] == piece[j]);
        }
    }
    assert forall|i: int| 0 <= i < once.len() implies (#[trigger] once[i]).len() > 0
        && !once[i].contains('\n') && !once[i].contains('\r') by {
        lemma_arranged_holds_the_same(all, ignore_head, ignore_tail, i);
        let m = choose|m: int| 0 <= m < all.len() && all[m] == once[i];
        assert(all[m].len() > 0);
    }
    lemma_lines_of_join(once);
    lemma_sort_result_twice(result, ignore_head, ignore_tail);
}

} // verus!
