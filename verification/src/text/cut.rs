//! Cutting texts at a character and putting them together again: pieces,
//! lines, prefixes and replacements.

use crate::text::{copy_range, push_chars, push_str, texts, views};
use vstd::prelude::*;

verus! {

/// The index of the first `c` in `s`, or `s.len()` where there is none.
pub open spec fn position(s: Seq<char>, c: char) -> int
    decreases s.len(),
{
    if s.len() == 0 || s[0] == c {
        0
    } else {
        1 + position(s.skip(1), c)
    }
}

/// `position(s, c)` is the one `k` before which no `c` stands and at which,
/// if it is inside `s`, one does.
pub proof fn lemma_position(s: Seq<char>, c: char, k: int)
    requires
        0 <= k <= s.len(),
        forall|i: int| 0 <= i < k ==> #[trigger] s[i] != c,
        k < s.len() ==> s[k] == c,
    ensures
        position(s, c) == k,
    decreases k,
{
    if k > 0 {
        let t = s.skip(1);
        assert forall|i: int| 0 <= i < k - 1 implies #[trigger] t[i] != c by {
            assert(t[i] == s[i + 1]);
        }
        lemma_position(t, c, k - 1);
    }
}

/// Where `position(s, c)` points: no `c` stands before it, and one stands
/// at it if it is inside `s`.
pub proof fn lemma_position_bound(s: Seq<char>, c: char)
    ensures
        0 <= position(s, c) <= s.len(),
        forall|i: int| 0 <= i < position(s, c) ==> #[trigger] s[i] != c,
        position(s, c) < s.len() ==> s[position(s, c)] == c,
    decreases s.len(),
{
    if !(s.len() == 0 || s[0] == c) {
        let t = s.skip(1);
        lemma_position_bound(t, c);
        assert forall|i: int| 0 <= i < position(s, c) implies #[trigger] s[i] != c by {
            if i > 0 {
                assert(s[i] == t[i - 1]);
            }
        }
        if position(s, c) < s.len() {
            assert(s[position(s, c)] == t[position(t, c)]);
        }
    }
}

/// The index of the first `c` in `v[from..to]`, or `to`.
pub fn find(v: &Vec<char>, from: usize, to: usize, c: char) -> (k: usize)
    requires
        from <= to <= v.len(),
    ensures
        from <= k <= to,
        k - from == position(v@.subrange(from as int, to as int), c),
{
    let mut k: usize = from;
    while k < to && v[k] != c
        invariant
            from <= k <= to <= v.len(),
            forall|i: int| from <= i < k ==> #[trigger] v@[i] != c,
        decreases to - k,
    {
        k = k + 1;
    }
    proof {
        let s = v@.subrange(from as int, to as int);
        assert forall|i: int| 0 <= i < k - from implies #[trigger] s[i] != c by {
            assert(s[i] == v@[from + i]);
        }
        lemma_position(s, c, k - from);
    }
    k
}

/// The pieces of `s` between the occurrences of `c`: one more piece than
/// there are occurrences, so never none.
pub open spec fn split(s: Seq<char>, c: char) -> Seq<Seq<char>>
    decreases s.len(),
{
    let i = position(s, c);
    if 0 <= i < s.len() {
        seq![s.take(i)] + split(s.skip(i + 1), c)
    } else {
        seq![s]
    }
}

/// The two parts of `s` around its first `c`, where it has one.
pub open spec fn split_once(s: Seq<char>, c: char) -> Option<(Seq<char>, Seq<char>)> {
    let i = position(s, c);
    if 0 <= i < s.len() {
        Some((s.take(i), s.skip(i + 1)))
    } else {
        None
    }
}

/// The pieces of `v[from..to]` between the occurrences of `c`.
pub fn split_chars(v: &Vec<char>, from: usize, to: usize, c: char) -> (pieces: Vec<Vec<char>>)
    requires
        from <= to <= v.len(),
    ensures
        texts(pieces@) == split(v@.subrange(from as int, to as int), c),
{
    let mut pieces: Vec<Vec<char>> = Vec::new();
    let mut start: usize = from;
    let ghost whole = v@.subrange(from as int, to as int);
    loop
        invariant
            from <= start <= to <= v.len(),
            whole == v@.subrange(from as int, to as int),
            split(whole, c) == texts(pieces@) + split(v@.subrange(start as int, to as int), c),
        decreases to - start,
    {
        let k = find(v, start, to, c);
        let piece = copy_range(v, start, k);
        let ghost rest = v@.subrange(start as int, to as int);
        let ghost before = texts(pieces@);
        pieces.push(piece);
        proof {
            assert(texts(pieces@) =~= before.push(piece@));
            assert(rest.take(k - start) =~= piece@);
        }
        if k >= to {
            proof {
                assert(split(rest, c) =~= seq![rest]);
                assert(rest =~= piece@);
                assert(before + seq![rest] =~= texts(pieces@));
            }
            return pieces;
        }
        proof {
            assert(rest.skip(k - start + 1) =~= v@.subrange(k + 1, to as int));
            assert(split(rest, c) =~= seq![piece@] + split(v@.subrange(k + 1, to as int), c));
            assert(before + (seq![piece@] + split(v@.subrange(k + 1, to as int), c))
                =~= texts(pieces@) + split(v@.subrange(k + 1, to as int), c));
        }
        start = k + 1;
    }
}

/// All the parts, one after the other.
pub open spec fn concat(parts: Seq<Seq<char>>) -> Seq<char>
    decreases parts.len(),
{
    if parts.len() == 0 {
        Seq::empty()
    } else {
        concat(parts.drop_last()) + parts.last()
    }
}

/// All the parts, with `sep` between each two neighbours.
pub open spec fn join(parts: Seq<Seq<char>>, sep: Seq<char>) -> Seq<char>
    decreases parts.len(),
{
    if parts.len() == 0 {
        Seq::empty()
    } else if parts.len() == 1 {
        parts[0]
    } else {
        join(parts.drop_last(), sep) + sep + parts.last()
    }
}

/// The characters of all the lines, one line after the other.
pub fn concat_strings(lines: &Vec<String>) -> (r: Vec<char>)
    ensures
        r@ == concat(views(lines@)),
{
    let mut r: Vec<char> = Vec::new();
    let mut i: usize = 0;
    while i < lines.len()
        invariant
            i <= lines.len(),
            r@ == concat(views(lines@).take(i as int)),
        decreases lines.len() - i,
    {
        push_str(&mut r, lines[i].as_str());
        proof {
            let next = views(lines@).take(i + 1);
            assert(next.drop_last() =~= views(lines@).take(i as int));
            assert(next.last() == lines@[i as int]@);
        }
        i = i + 1;
    }
    proof {
        assert(views(lines@).take(i as int) =~= views(lines@));
    }
    r
}

/// The characters of all the lines, with `sep` between each two neighbours.
pub fn join_strings(lines: &Vec<String>, sep: char) -> (r: Vec<char>)
    ensures
        r@ == join(views(lines@), seq![sep]),
{
    let mut r: Vec<char> = Vec::new();
    let mut i: usize = 0;
    while i < lines.len()
        invariant
            i <= lines.len(),
            r@ == join(views(lines@).take(i as int), seq![sep]),
        decreases lines.len() - i,
    {
        let ghost before = r@;
        if i > 0 {
            r.push(sep);
        }
        push_str(&mut r, lines[i].as_str());
        proof {
            let next = views(lines@).take(i + 1);
            assert(next.drop_last() =~= views(lines@).take(i as int));
            assert(next.last() == lines@[i as int]@);
            if i > 0 {
                assert(before.push(sep) =~= before + seq![sep]);
            } else {
                assert(before + lines@[i as int]@ =~= lines@[i as int]@);
            }
        }
        i = i + 1;
    }
    proof {
        assert(views(lines@).take(i as int) =~= views(lines@));
    }
    r
}

/// A line without the carriage return that it may end with.
pub open spec fn strip_cr(line: Seq<char>) -> Seq<char> {
    if line.len() > 0 && line.last() == '\r' {
        line.drop_last()
    } else {
        line
    }
}

/// The lines of a text. A line ends with a line feed, or with a carriage
/// return and a line feed, which are not part of it; what follows the last
/// line feed is a line too unless it is empty.
pub open spec fn lines(text: Seq<char>) -> Seq<Seq<char>> {
    let pieces = split(text, '\n');
    let terminated = pieces.len() - 1;
    let count = if pieces.last().len() == 0 {
        terminated
    } else {
        terminated + 1
    };
    Seq::new(
        count as nat,
        |i: int|
            if i < terminated {
                strip_cr(pieces[i])
            } else {
                pieces[i]
            },
    )
}

/// Cutting gives at least one piece.
pub proof fn lemma_split_nonempty(s: Seq<char>, c: char)
    ensures
        split(s, c).len() >= 1,
    decreases s.len(),
{
    let i = position(s, c);
    if 0 <= i < s.len() {
        lemma_split_nonempty(s.skip(i + 1), c);
    }
}

/// The lines of `v`.
pub fn lines_of(v: &Vec<char>) -> (r: Vec<Vec<char>>)
    ensures
        texts(r@) == lines(v@),
{
    proof {
        assert(v@.subrange(0, v@.len() as int) =~= v@);
        lemma_split_nonempty(v@, '\n');
    }
    let pieces = split_chars(v, 0, v.len(), '\n');
    let n = pieces.len();
    let mut r: Vec<Vec<char>> = Vec::new();
    let mut i: usize = 0;
    while i + 1 < n
        invariant
            n == pieces.len(),
            n >= 1,
            i + 1 <= n,
            texts(pieces@) == split(v@, '\n'),
            texts(r@) == Seq::new(i as nat, |j: int| strip_cr(pieces@[j]@)),
        decreases n - i,
    {
        let piece = &pieces[i];
        let m = piece.len();
        let line = if m > 0 && piece[m - 1] == '\r' {
            copy_range(piece, 0, m - 1)
        } else {
            copy_range(piece, 0, m)
        };
        let ghost before = texts(r@);
        proof {
            assert(piece@.subrange(0, m as int) =~= piece@);
            assert(piece@.subrange(0, m - 1) =~= piece@.drop_last());
        }
        r.push(line);
        proof {
            assert(texts(r@) =~= before.push(strip_cr(piece@)));
            assert(texts(r@) =~= Seq::new((i + 1) as nat, |j: int| strip_cr(pieces@[j]@)));
        }
        i = i + 1;
    }
    let last = &pieces[n - 1];
    if last.len() > 0 {
        let line = copy_range(last, 0, last.len());
        let ghost before = texts(r@);
        proof {
            assert(last@.subrange(0, last@.len() as int) =~= last@);
        }
        r.push(line);
        proof {
            assert(texts(r@) =~= before.push(last@));
        }
    }
    proof {
        assert(texts(r@) =~= lines(v@));
    }
    r
}

/// Whether `s` begins with `prefix`.
pub open spec fn starts_with(s: Seq<char>, prefix: Seq<char>) -> bool {
    prefix.len() <= s.len() && s.take(prefix.len() as int) == prefix
}

/// Whether `v[from..to]` begins with `prefix`.
pub fn has_prefix(v: &Vec<char>, from: usize, to: usize, prefix: &Vec<char>) -> (r: bool)
    requires
        from <= to <= v.len(),
    ensures
        r == starts_with(v@.subrange(from as int, to as int), prefix@),
{
    let ghost s = v@.subrange(from as int, to as int);
    if prefix.len() > to - from {
        return false;
    }
    let mut i: usize = 0;
    while i < prefix.len()
        invariant
            i <= prefix.len() <= to - from,
            from <= to <= v.len(),
            s == v@.subrange(from as int, to as int),
            forall|j: int| 0 <= j < i ==> #[trigger] s[j] == prefix@[j],
        decreases prefix.len() - i,
    {
        if v[from + i] != prefix[i] {
            proof {
                assert(s.take(prefix@.len() as int)[i as int] == s[i as int]);
            }
            return false;
        }
        i = i + 1;
    }
    proof {
        assert(s.take(prefix@.len() as int) =~= prefix@);
    }
    true
}

/// `s` with every occurrence of `from` replaced by `to`, found from left to
/// right, none overlapping another. `from` is not empty.
pub open spec fn replace_all(s: Seq<char>, from: Seq<char>, to: Seq<char>) -> Seq<char>
    decreases s.len(),
{
    if from.len() == 0 || s.len() == 0 {
        s
    } else if starts_with(s, from) {
        to + replace_all(s.skip(from.len() as int), from, to)
    } else {
        seq![s[0]] + replace_all(s.skip(1), from, to)
    }
}

/// `v` with every occurrence of `from` replaced by `to`.
pub fn replace_chars(v: &Vec<char>, from: &Vec<char>, to: &Vec<char>) -> (r: Vec<char>)
    requires
        from.len() > 0,
    ensures
        r@ == replace_all(v@, from@, to@),
{
    let mut r: Vec<char> = Vec::new();
    let mut i: usize = 0;
    let n = v.len();
    proof {
        assert(v@.skip(0) =~= v@);
        assert(r@ + replace_all(v@, from@, to@) =~= replace_all(v@, from@, to@));
    }
    while i < n
        invariant
            i <= n == v.len(),
            from.len() > 0,
            replace_all(v@, from@, to@) == r@ + replace_all(v@.skip(i as int), from@, to@),
        decreases n - i,
    {
        let ghost rest = v@.skip(i as int);
        let ghost before = r@;
        proof {
            assert(v@.subrange(i as int, n as int) =~= rest);
        }
        if has_prefix(v, i, n, from) {
            push_chars(&mut r, to);
            proof {
                assert(rest.skip(from@.len() as int) =~= v@.skip(i + from@.len()));
                assert(before + (to@ + replace_all(v@.skip(i + from@.len()), from@, to@)) =~= (
                before + to@) + replace_all(v@.skip(i + from@.len()), from@, to@));
            }
            i = i + from.len();
        } else {
            r.push(v[i]);
            proof {
                assert(rest[0] == v@[i as int]);
                assert(rest.skip(1) =~= v@.skip(i + 1));
                assert(before + (seq![rest[0]] + replace_all(v@.skip(i + 1), from@, to@))
                    =~= before.push(v@[i as int]) + replace_all(v@.skip(i + 1), from@, to@));
            }
            i = i + 1;
        }
    }
    proof {
        assert(v@.skip(i as int) =~= Seq::<char>::empty());
        assert(r@ + Seq::<char>::empty() =~= r@);
    }
    r
}

/// Joining starts with the first part: the rest follows behind a separator.
pub proof fn lemma_join_first(parts: Seq<Seq<char>>, sep: Seq<char>)
    requires
        parts.len() >= 2,
    ensures
        join(parts, sep) == parts[0] + sep + join(parts.skip(1), sep),
    decreases parts.len(),
{
    let rest = parts.skip(1);
    assert(rest.drop_last() =~= parts.drop_last().skip(1));
    assert(rest.last() == parts.last());
    if parts.len() == 2 {
        assert(parts.drop_last().len() == 1);
        assert(join(parts.drop_last(), sep) == parts[0]);
        assert(join(rest, sep) == parts[1]);
    } else {
        lemma_join_first(parts.drop_last(), sep);
        assert(parts.drop_last()[0] == parts[0]);
        assert(join(parts, sep) =~= parts[0] + sep + join(rest, sep));
    }
}

/// Cutting what was joined gives the parts back, where no part holds the
/// separator.
pub proof fn lemma_split_join(parts: Seq<Seq<char>>, c: char)
    requires
        parts.len() >= 1,
        forall|i: int, j: int|
            0 <= i < parts.len() && 0 <= j < parts[i].len() ==> #[trigger] parts[i][j] != c,
    ensures
        split(join(parts, seq![c]), c) == parts,
    decreases parts.len(),
{
    let text = join(parts, seq![c]);
    if parts.len() == 1 {
        lemma_position(text, c, text.len() as int);
        assert(split(text, c) =~= parts);
    } else {
        let rest = parts.skip(1);
        lemma_join_first(parts, seq![c]);
        let first = parts[0];
        assert forall|k: int| 0 <= k < first.len() implies #[trigger] text[k] != c by {
            assert(text[k] == first[k]);
        }
        assert(text[first.len() as int] == c);
        lemma_position(text, c, first.len() as int);
        assert(text.take(first.len() as int) =~= first);
        assert(text.skip(first.len() as int + 1) =~= join(rest, seq![c]));
        assert forall|i: int, j: int|
            0 <= i < rest.len() && 0 <= j < rest[i].len() implies #[trigger] rest[i][j] != c by {
            assert(rest[i] == parts[i + 1]);
        }
        lemma_split_join(rest, c);
        assert(split(text, c) =~= seq![first] + rest);
        assert(seq![first] + rest =~= parts);
    }
}

/// Joining what was cut gives the text back.
pub proof fn lemma_join_split(s: Seq<char>, c: char)
    ensures
        join(split(s, c), seq![c]) == s,
        split(s, c).len() >= 1,
        forall|i: int, j: int|
            0 <= i < split(s, c).len() && 0 <= j < split(s, c)[i].len() ==> #[trigger] split(
                s,
                c,
            )[i][j] != c,
    decreases s.len(),
{
    let i = position(s, c);
    lemma_position_bound(s, c);
    if 0 <= i < s.len() {
        let rest = s.skip(i + 1);
        lemma_join_split(rest, c);
        let parts = split(s, c);
        assert(parts =~= seq![s.take(i)] + split(rest, c));
        assert(parts.skip(1) =~= split(rest, c));
        lemma_join_first(parts, seq![c]);
        assert(s =~= s.take(i) + seq![c] + rest);
        assert forall|a: int, b: int|
            0 <= a < parts.len() && 0 <= b < parts[a].len() implies #[trigger] parts[a][b]
            != c by {
            if a == 0 {
                assert(parts[0][b] == s[b]);
            } else {
                assert(parts[a] == split(rest, c)[a - 1]);
            }
        }
    } else {
        assert(split(s, c) =~= seq![s]);
    }
}

/// Every character of a piece is a character of the text that was cut.
pub proof fn lemma_split_keeps_characters(s: Seq<char>, c: char)
    ensures
        forall|i: int, j: int|
            0 <= i < split(s, c).len() && 0 <= j < split(s, c)[i].len() ==> s.contains(
                #[trigger] split(s, c)[i][j],
            ),
    decreases s.len(),
{
    let k = position(s, c);
    lemma_position_bound(s, c);
    if 0 <= k < s.len() {
        let rest = s.skip(k + 1);
        lemma_split_keeps_characters(rest, c);
        let parts = split(s, c);
        assert(parts =~= seq![s.take(k)] + split(rest, c));
        assert forall|i: int, j: int|
            0 <= i < parts.len() && 0 <= j < parts[i].len() implies s.contains(
            #[trigger] parts[i][j],
        ) by {
            if i == 0 {
                assert(parts[0][j] == s[j]);
            } else {
                let piece = split(rest, c)[i - 1];
                assert(parts[i] == piece);
                assert(rest.contains(piece[j]));
                let m = choose|m: int| 0 <= m < rest.len() && rest[m] == piece[j];
                assert(s[k + 1 + m] == piece[j]);
            }
        }
    } else {
        assert(split(s, c) =~= seq![s]);
    }
}

/// The lines of a text come back from their join by line feeds where none
/// of them is empty or holds a line feed or a carriage return.
pub proof fn lemma_lines_of_join(all: Seq<Seq<char>>)
    requires
        forall|i: int|
            0 <= i < all.len() ==> (#[trigger] all[i]).len() > 0 && !all[i].contains('\n')
                && !all[i].contains('\r'),
    ensures
        lines(join(all, seq!['\n'])) == all,
{
    let text = join(all, seq!['\n']);
    if all.len() == 0 {
        assert(text =~= Seq::<char>::empty());
        lemma_position(text, '\n', 0);
        assert(split(text, '\n') =~= seq![text]);
        assert(lines(text) =~= all);
    } else {
        assert forall|i: int, j: int|
            0 <= i < all.len() && 0 <= j < all[i].len() implies #[trigger] all[i][j] != '\n' by {
            assert(all[i].contains(all[i][j]));
        }
        lemma_split_join(all, '\n');
        assert forall|i: int| 0 <= i < all.len() implies strip_cr(#[trigger] all[i])
            == all[i] by {
            assert(all[i].contains(all[i].last()));
        }
        assert(lines(text) =~= all);
    }
}

} // verus!
