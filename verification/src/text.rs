//! Text as sequences of characters: the vocabulary in which every contract of
//! this crate speaks, and the executable routines that compute it.

use vstd::prelude::*;

pub mod cut;
pub mod number;
pub mod order;
pub mod space;

pub use crate::text::cut::{
    concat, concat_strings, find, has_prefix, join, join_strings, lemma_join_first,
    lemma_join_split, lemma_lines_of_join, lemma_position, lemma_position_bound,
    lemma_split_join, lemma_split_keeps_characters, lemma_split_nonempty, lines, lines_of,
    position, replace_all, replace_chars, split, split_chars, split_once, starts_with, strip_cr,
};
pub use crate::text::number::{
    NumberError, decimal, digit_value, digits_len, is_digit, lemma_decimal_grows,
    lemma_digits_len, lemma_digits_len_bound, lemma_digits_len_stops, number_of, parse_number,
};
pub use crate::text::order::{
    lemma_lex_le_antisymmetric, lemma_lex_le_connected, lemma_lex_le_reflexive,
    lemma_lex_le_transitive, lemma_lex_order_total, lemma_sorted_holds_the_same,
    lemma_sorted_is_the_ordered_arrangement, lemma_sorted_len, lemma_sorted_twice, lex_le,
    lex_order, precedes, sort_lines, sorted,
};
pub use crate::text::space::{
    find_whitespace, is_blank, is_whitespace, leading_whitespace, lemma_leading_whitespace,
    lemma_leading_whitespace_bound, lemma_trailing_whitespace, lemma_word_len, skip_whitespace,
    skip_whitespace_back, trailing_whitespace, trim, trim_bounds, trim_end, trim_start,
    whitespace, word_len,
};

verus! {

/// `String::push` appends one character.
pub assume_specification[ String::push ](s: &mut String, ch: char)
    ensures
        final(s)@ == old(s)@.push(ch),
;

/// The view of every string in a sequence.
pub open spec fn views(lines: Seq<String>) -> Seq<Seq<char>> {
    Seq::new(lines.len(), |i: int| lines[i]@)
}

/// The view of every vector of characters in a sequence.
pub open spec fn texts(pieces: Seq<Vec<char>>) -> Seq<Seq<char>> {
    Seq::new(pieces.len(), |i: int| pieces[i]@)
}

/// The characters of `s`, in order.
pub fn to_chars(s: &str) -> (v: Vec<char>)
    ensures
        v@ == s@,
{
    let mut v: Vec<char> = Vec::new();
    for c in it: s.chars()
        invariant
            it.seq() == s@,
            v@ == s@.take(it.index() as int),
    {
        v.push(c);
        proof {
            assert(s@.take(it.index() + 1) =~= s@.take(it.index() as int).push(c));
        }
    }
    proof {
        assert(s@.take(s@.len() as int) =~= s@);
    }
    v
}

/// The string made of the characters `v[from..to]`.
pub fn to_string(v: &Vec<char>, from: usize, to: usize) -> (s: String)
    requires
        from <= to <= v.len(),
    ensures
        s@ == v@.subrange(from as int, to as int),
{
    let mut s = String::new();
    let mut i: usize = from;
    while i < to
        invariant
            from <= i <= to <= v.len(),
            s@ == v@.subrange(from as int, i as int),
        decreases to - i,
    {
        s.push(v[i]);
        proof {
            assert(v@.subrange(from as int, i + 1) =~= v@.subrange(from as int, i as int).push(
                v@[i as int],
            ));
        }
        i = i + 1;
    }
    s
}

/// The string made of all the characters of `v`.
pub fn string_of(v: &Vec<char>) -> (s: String)
    ensures
        s@ == v@,
{
    proof {
        assert(v@.subrange(0, v@.len() as int) =~= v@);
    }
    to_string(v, 0, v.len())
}

/// A copy of `v[from..to]`.
pub fn copy_range(v: &Vec<char>, from: usize, to: usize) -> (r: Vec<char>)
    requires
        from <= to <= v.len(),
    ensures
        r@ == v@.subrange(from as int, to as int),
{
    let mut r: Vec<char> = Vec::new();
    let mut i: usize = from;
    while i < to
        invariant
            from <= i <= to <= v.len(),
            r@ == v@.subrange(from as int, i as int),
        decreases to - i,
    {
        r.push(v[i]);
        proof {
            assert(v@.subrange(from as int, i + 1) =~= v@.subrange(from as int, i as int).push(
                v@[i as int],
            ));
        }
        i = i + 1;
    }
    r
}

/// Appends the characters of `s` to `out`.
pub fn push_str(out: &mut Vec<char>, s: &str)
    ensures
        final(out)@ == old(out)@ + s@,
{
    let ghost before = out@;
    for c in it: s.chars()
        invariant
            it.seq() == s@,
            out@ == before + s@.take(it.index() as int),
    {
        out.push(c);
        proof {
            assert(s@.take(it.index() + 1) =~= s@.take(it.index() as int).push(c));
            assert(before + s@.take(it.index() as int).push(c) =~= (before + s@.take(
                it.index() as int,
            )).push(c));
        }
    }
    proof {
        assert(s@.take(s@.len() as int) =~= s@);
    }
}

/// Appends the characters of `s` to `out`.
pub fn push_chars(out: &mut Vec<char>, s: &Vec<char>)
    ensures
        final(out)@ == old(out)@ + s@,
{
    let ghost before = out@;
    let mut i: usize = 0;
    while i < s.len()
        invariant
            i <= s.len(),
            out@ == before + s@.take(i as int),
        decreases s.len() - i,
    {
        out.push(s[i]);
        proof {
            assert(before + s@.take(i + 1) =~= (before + s@.take(i as int)).push(s@[i as int]));
        }
        i = i + 1;
    }
    proof {
        assert(s@.take(i as int) =~= s@);
    }
}

/// The strings of `pieces[..]`, one for one.
pub fn to_strings(pieces: &Vec<Vec<char>>) -> (r: Vec<String>)
    ensures
        views(r@) == texts(pieces@),
{
    let mut r: Vec<String> = Vec::new();
    let mut i: usize = 0;
    while i < pieces.len()
        invariant
            i <= pieces.len(),
            views(r@) == texts(pieces@).take(i as int),
        decreases pieces.len() - i,
    {
        let s = string_of(&pieces[i]);
        let ghost before = views(r@);
        r.push(s);
        proof {
            assert(views(r@) =~= before.push(s@));
            assert(texts(pieces@).take(i + 1) =~= texts(pieces@).take(i as int).push(pieces@[i as int]@));
        }
        i = i + 1;
    }
    proof {
        assert(texts(pieces@).take(i as int) =~= texts(pieces@));
    }
    r
}

} // verus!
