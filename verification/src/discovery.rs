//! Which cases of an environment a run covers, and in which order.

use crate::context::pair_views;
use crate::error::{ErrorView, SqlnessError};
use crate::pattern::{check, is_match, is_pattern, regex_error, regex_matches};
use crate::text::{
    lex_le, precedes, push_chars, push_str, string_of, texts, to_chars, to_string, views,
};
use vstd::prelude::*;

verus! {

/// `text` in lower case, as `str::to_lowercase` gives it.
pub uninterp spec fn lowercase(text: Seq<char>) -> Seq<char>;

/// `str::to_lowercase`: the text with every character in its lower case
/// after Unicode, whatever the locale.
#[verifier::external_body]
pub(crate) fn to_lowercase(text: &str) -> (r: String)
    ensures
        r@ == lowercase(text@),
{
    text.to_lowercase()
}

/// The index of the last `c` in `s`, or `-1` where there is none.
pub open spec fn last_position(s: Seq<char>, c: char) -> int
    decreases s.len(),
{
    if s.len() == 0 {
        -1
    } else if s.last() == c {
        s.len() - 1
    } else {
        last_position(s.drop_last(), c)
    }
}

/// `last_position(s, c)` is the one `k` behind which no `c` stands and at
/// which, if it is inside `s`, one does.
pub proof fn lemma_last_position(s: Seq<char>, c: char, k: int)
    requires
        -1 <= k < s.len(),
        forall|i: int| k < i < s.len() ==> #[trigger] s[i] != c,
        k >= 0 ==> s[k] == c,
    ensures
        last_position(s, c) == k,
    decreases s.len(),
{
    if s.len() > 0 && k < s.len() - 1 {
        let t = s.drop_last();
        assert forall|i: int| k < i < t.len() implies #[trigger] t[i] != c by {
            assert(t[i] == s[i]);
        }
        lemma_last_position(t, c, k);
    }
}

/// The index of the last `c` in `v[from..to]`, counted from `from`; `to`
/// where there is none.
pub fn find_last(v: &Vec<char>, from: usize, to: usize, c: char) -> (k: usize)
    requires
        from <= to <= v.len(),
    ensures
        from <= k <= to,
        k < to ==> k - from == last_position(v@.subrange(from as int, to as int), c),
        k == to ==> last_position(v@.subrange(from as int, to as int), c) == -1,
{
    let mut k: usize = to;
    let ghost s = v@.subrange(from as int, to as int);
    while k > from
        invariant
            from <= k <= to <= v.len(),
            s == v@.subrange(from as int, to as int),
            forall|i: int| k - from <= i < s.len() ==> #[trigger] s[i] != c,
        decreases k,
    {
        k = k - 1;
        if v[k] == c {
            proof {
                assert(s[k - from] == c);
                lemma_last_position(s, c, k - from);
            }
            return k;
        }
        proof {
            assert(s[k - from] == v@[k as int]);
        }
    }
    proof {
        lemma_last_position(s, c, -1);
    }
    to
}

/// The last component of a path whose components stand between `/`.
pub open spec fn file_name(path: Seq<char>) -> Seq<char> {
    path.skip(last_position(path, '/') + 1)
}

/// The extension of a path: what stands behind the last `.` of its file
/// name, unless the name is `..`, has no `.`, or has its only `.` in front.
pub open spec fn extension(path: Seq<char>) -> Option<Seq<char>> {
    let name = file_name(path);
    let dot = last_position(name, '.');
    if name == seq!['.', '.'] || dot <= 0 {
        None
    } else {
        Some(name.skip(dot + 1))
    }
}

/// The path without its extension and the `.` before it.
pub open spec fn without_extension(path: Seq<char>) -> Seq<char> {
    match extension(path) {
        Some(ext) => path.take(path.len() - ext.len() - 1),
        None => path,
    }
}

/// The name under which a case is held against the filter: the name of its
/// environment, a colon, and the name of its file without the extension.
pub open spec fn filter_name(env: Seq<char>, case: Seq<char>) -> Seq<char> {
    env + seq![':'] + file_name(case)
}

/// The cases among the files: each file with the extension `ext`, without
/// it, whose name the filter matches. The filter is a regular expression.
pub open spec fn candidates(
    env: Seq<char>,
    files: Seq<Seq<char>>,
    ext: Seq<char>,
    filter: Seq<char>,
) -> Seq<Seq<char>>
    decreases files.len(),
{
    if files.len() == 0 {
        Seq::empty()
    } else {
        let front = candidates(env, files.drop_last(), ext, filter);
        let file = files.last();
        if extension(file) == Some(ext) && regex_matches(
            filter,
            filter_name(env, without_extension(file)),
        ) {
            front.push(without_extension(file))
        } else {
            front
        }
    }
}

/// How many of the keys at the front of `keys` are no greater than `key` in
/// the order of the dictionary.
pub open spec fn rank(keys: Seq<Seq<char>>, key: Seq<char>) -> nat
    decreases keys.len(),
{
    if keys.len() > 0 && lex_le(keys[0], key) {
        1 + rank(keys.skip(1), key)
    } else {
        0
    }
}

/// The key of every pair.
pub open spec fn keys(pairs: Seq<(Seq<char>, Seq<char>)>) -> Seq<Seq<char>> {
    Seq::new(pairs.len(), |i: int| pairs[i].0)
}

/// What stands under the key in every pair.
pub open spec fn values(pairs: Seq<(Seq<char>, Seq<char>)>) -> Seq<Seq<char>> {
    Seq::new(pairs.len(), |i: int| pairs[i].1)
}

/// The pairs in the order of their keys, those with the same key in the
/// order in which they came.
pub open spec fn ordered_by_key(pairs: Seq<(Seq<char>, Seq<char>)>) -> Seq<
    (Seq<char>, Seq<char>),
>
    decreases pairs.len(),
{
    if pairs.len() == 0 {
        Seq::empty()
    } else {
        let front = ordered_by_key(pairs.drop_last());
        front.insert(rank(keys(front), pairs.last().0) as int, pairs.last())
    }
}

/// Every case under its name in lower case.
pub open spec fn keyed(cases: Seq<Seq<char>>) -> Seq<(Seq<char>, Seq<char>)> {
    Seq::new(cases.len(), |i: int| (lowercase(cases[i]), cases[i]))
}

/// The cases in the order in which they run: sorted by their names in lower
/// case, those with the same name in lower case in the order in which they
/// came.
pub open spec fn ordered(cases: Seq<Seq<char>>) -> Seq<Seq<char>> {
    values(ordered_by_key(keyed(cases)))
}

/// `rank(keys, key)` is the one `k` such that the first `k` keys are no
/// greater than `key` and the next one, if any, is.
pub proof fn lemma_rank(keys: Seq<Seq<char>>, key: Seq<char>, k: int)
    requires
        0 <= k <= keys.len(),
        forall|i: int| 0 <= i < k ==> lex_le(#[trigger] keys[i], key),
        k < keys.len() ==> !lex_le(keys[k], key),
    ensures
        rank(keys, key) == k,
    decreases k,
{
    if k > 0 {
        let t = keys.skip(1);
        assert forall|i: int| 0 <= i < k - 1 implies lex_le(#[trigger] t[i], key) by {
            assert(t[i] == keys[i + 1]);
        }
        lemma_rank(t, key, k - 1);
    }
}

/// What a filter that is no regular expression makes of a run.
pub open spec fn bad_filter(filter: Seq<char>, reason: Seq<char>) -> ErrorView {
    ErrorView::ParseConfig { reason: "Invalid filter `"@ + filter + "`, err:"@ + reason }
}

/// The cases of an environment in the order in which they run, or why the
/// filter is refused.
pub open spec fn cases(
    env: Seq<char>,
    files: Seq<Seq<char>>,
    ext: Seq<char>,
    filter: Seq<char>,
) -> Result<Seq<Seq<char>>, ErrorView> {
    match regex_error(filter) {
        Some(reason) => Err(bad_filter(filter, reason)),
        None => Ok(ordered(candidates(env, files, ext, filter))),
    }
}

/// The failure that a filter causes for which `regex` has the reason
/// `refusal` to refuse it; nothing without such a reason.
pub fn filter_refusal(filter: &str, refusal: Option<String>) -> (r: Option<SqlnessError>)
    ensures
        match r {
            Some(e) => refusal matches Some(reason) && e@ == bad_filter(filter@, reason@),
            None => refusal is None,
        },
{
    match refusal {
        Some(reason) => {
            let mut text: Vec<char> = Vec::new();
            push_str(&mut text, "Invalid filter `");
            push_str(&mut text, filter);
            push_str(&mut text, "`, err:");
            push_str(&mut text, reason.as_str());
            Some(SqlnessError::ParseConfig { reason: string_of(&text) })
        },
        None => None,
    }
}

/// The failure that a filter which is no regular expression causes; nothing
/// for one that is.
pub fn check_filter(filter: &str) -> (r: Option<SqlnessError>)
    ensures
        match r {
            Some(e) => regex_error(filter@) matches Some(reason) && e@ == bad_filter(
                filter@,
                reason,
            ),
            None => is_pattern(filter@),
        },
{
    filter_refusal(filter, check(filter))
}

/// The bounds of the extension of `path` inside it, where it has one.
pub fn extension_bounds(path: &Vec<char>) -> (r: Option<usize>)
    ensures
        match r {
            Some(start) => 0 < start <= path.len() && extension(path@) == Some(
                path@.skip(start as int),
            ),
            None => extension(path@) is None,
        },
{
    let n = path.len();
    proof {
        assert(path@.subrange(0, n as int) =~= path@);
    }
    let slash = find_last(path, 0, n, '/');
    let start: usize = if slash < n {
        slash + 1
    } else {
        0
    };
    proof {
        assert(path@.subrange(start as int, n as int) =~= file_name(path@));
    }
    let dot = find_last(path, start, n, '.');
    let ghost name = file_name(path@);
    if n - start == 2 && path[start] == '.' && path[start + 1] == '.' {
        proof {
            assert(name =~= seq!['.', '.']);
        }
        return None;
    }
    proof {
        if name == seq!['.', '.'] {
            assert(name.len() == 2);
            assert(name[0] == '.');
            assert(name[1] == '.');
            assert(name[0] == path@[start as int]);
            assert(name[1] == path@[start + 1]);
        }
    }
    if dot == n || dot == start {
        return None;
    }
    proof {
        assert(name.skip(dot - start + 1) =~= path@.skip(dot + 1));
    }
    Some(dot + 1)
}

/// The case that a file holds: the path of the file without its extension,
/// where that extension is `ext`.
pub open spec fn case_in(file: Seq<char>, ext: Seq<char>) -> Option<Seq<char>> {
    if extension(file) == Some(ext) {
        Some(without_extension(file))
    } else {
        None
    }
}

/// The case that a file holds.
pub fn case_of(file: &str, ext: &str) -> (r: Option<String>)
    ensures
        match r {
            Some(case) => case_in(file@, ext@) == Some(case@),
            None => case_in(file@, ext@) is None,
        },
{
    let path = to_chars(file);
    let wanted = to_chars(ext);
    match extension_bounds(&path) {
        Some(start) => {
            if same_chars(&path, start, &wanted) {
                proof {
                    assert(path@.subrange(0, start - 1) =~= without_extension(path@));
                }
                Some(to_string(&path, 0, start - 1))
            } else {
                None
            }
        },
        None => None,
    }
}

/// The name under which a case is held against the filter.
pub fn filter_name_of(env: &str, case: &str) -> (r: String)
    ensures
        r@ == filter_name(env@, case@),
{
    let mut name: Vec<char> = Vec::new();
    push_str(&mut name, env);
    name.push(':');
    let path = to_chars(case);
    let n = path.len();
    proof {
        assert(path@.subrange(0, n as int) =~= path@);
    }
    let slash = find_last(&path, 0, n, '/');
    let from: usize = if slash < n {
        slash + 1
    } else {
        0
    };
    let tail = crate::text::copy_range(&path, from, n);
    push_chars(&mut name, &tail);
    proof {
        assert(path@.subrange(from as int, n as int) =~= file_name(path@));
        assert(name@ =~= filter_name(env@, path@));
    }
    string_of(&name)
}

/// The cases of an environment in the order in which they run.
pub fn select_cases(env: &str, files: &Vec<String>, ext: &str, filter: &str) -> (r: Result<
    Vec<String>,
    SqlnessError,
>)
    ensures
        match r {
            Ok(selected) => cases(env@, views(files@), ext@, filter@) == Ok::<
                Seq<Seq<char>>,
                ErrorView,
            >(views(selected@)),
            Err(e) => cases(env@, views(files@), ext@, filter@) == Err::<
                Seq<Seq<char>>,
                ErrorView,
            >(e@),
        },
{
    match check_filter(filter) {
        Some(e) => {
            return Err(e);
        },
        None => {},
    }
    let mut found: Vec<(String, String)> = Vec::new();
    let mut i: usize = 0;
    proof {
        assert(views(files@).take(0) =~= Seq::empty());
        assert(pair_views(found@) =~= keyed(Seq::empty()));
    }
    while i < files.len()
        invariant
            i <= files.len(),
            is_pattern(filter@),
            pair_views(found@) == keyed(
                candidates(env@, views(files@).take(i as int), ext@, filter@),
            ),
        decreases files.len() - i,
    {
        proof {
            assert(views(files@).take(i + 1).drop_last() =~= views(files@).take(i as int));
            assert(views(files@).take(i + 1).last() == files@[i as int]@);
        }
        match case_of(files[i].as_str(), ext) {
            Some(case) => {
                let name = filter_name_of(env, case.as_str());
                match is_match(filter, name.as_str()) {
                    Some(true) => {
                        let ghost before = candidates(
                            env@,
                            views(files@).take(i as int),
                            ext@,
                            filter@,
                        );
                        let key = to_lowercase(case.as_str());
                        found.push((key, case));
                        proof {
                            assert(pair_views(found@) =~= keyed(before).push((key@, case@)));
                            assert(keyed(before).push((key@, case@)) =~= keyed(before.push(case@)));
                        }
                    },
                    _ => {},
                }
            },
            None => {},
        }
        i = i + 1;
    }
    proof {
        assert(views(files@).take(i as int) =~= views(files@));
    }
    let sorted = order_by_key(found);
    let mut selected: Vec<String> = Vec::new();
    let mut j: usize = 0;
    while j < sorted.len()
        invariant
            j <= sorted.len(),
            views(selected@) == values(pair_views(sorted@)).take(j as int),
        decreases sorted.len() - j,
    {
        let ghost before = views(selected@);
        let case = sorted[j].1.clone();
        selected.push(case);
        proof {
            assert(views(selected@) =~= before.push(case@));
            assert(values(pair_views(sorted@)).take(j + 1) =~= before.push(case@));
        }
        j = j + 1;
    }
    proof {
        assert(values(pair_views(sorted@)).take(j as int) =~= values(pair_views(sorted@)));
    }
    Ok(selected)
}

/// Whether `v[from..]` is `other`.
pub fn same_chars(v: &Vec<char>, from: usize, other: &Vec<char>) -> (r: bool)
    requires
        from <= v.len(),
    ensures
        r == (v@.skip(from as int) == other@),
{
    if v.len() - from != other.len() {
        return false;
    }
    let mut i: usize = 0;
    while i < other.len()
        invariant
            i <= other.len(),
            from <= v.len(),
            v.len() - from == other.len(),
            forall|j: int| 0 <= j < i ==> v@[from + j] == other@[j],
        decreases other.len() - i,
    {
        if v[from + i] != other[i] {
            proof {
                assert(v@.skip(from as int)[i as int] == v@[from + i]);
            }
            return false;
        }
        i = i + 1;
    }
    proof {
        assert(v@.skip(from as int) =~= other@);
    }
    true
}

/// The pairs of a key and what stands under it, in the order of their keys:
/// those with the same key in the order in which they came.
pub fn order_by_key(pairs: Vec<(String, String)>) -> (r: Vec<(String, String)>)
    ensures
        pair_views(r@) == ordered_by_key(pair_views(pairs@)),
{
    let ghost input = pair_views(pairs@);
    let mut r: Vec<(String, String)> = Vec::new();
    let mut names: Vec<Vec<char>> = Vec::new();
    let mut i: usize = 0;
    proof {
        assert(input.take(0) =~= Seq::empty());
        assert(pair_views(r@) =~= Seq::empty());
        assert(texts(names@) =~= keys(pair_views(r@)));
    }
    while i < pairs.len()
        invariant
            i <= pairs.len(),
            input == pair_views(pairs@),
            pair_views(r@) == ordered_by_key(input.take(i as int)),
            texts(names@) == keys(pair_views(r@)),
        decreases pairs.len() - i,
    {
        let key = pairs[i].0.clone();
        let value = pairs[i].1.clone();
        let name = to_chars(key.as_str());
        proof {
            assert((key@, value@) == input[i as int]);
            assert(input.take(i + 1).drop_last() =~= input.take(i as int));
            assert(input.take(i + 1).last() == (key@, value@));
            assert(texts(names@).len() == keys(pair_views(r@)).len());
        }
        let mut p: usize = 0;
        while p < names.len() && precedes(&names[p], &name)
            invariant
                p <= names.len(),
                names.len() == r.len(),
                forall|j: int| 0 <= j < p ==> lex_le(#[trigger] texts(names@)[j], name@),
            decreases names.len() - p,
        {
            p = p + 1;
        }
        proof {
            lemma_rank(texts(names@), name@, p as int);
        }
        let ghost before = pair_views(r@);
        let ghost before_names = texts(names@);
        r.insert(p, (key, value));
        names.insert(p, name);
        proof {
            assert(pair_views(r@) =~= before.insert(p as int, (key@, value@)));
            assert(texts(names@) =~= before_names.insert(p as int, name@));
            assert(texts(names@) =~= keys(pair_views(r@)));
        }
        i = i + 1;
    }
    proof {
        assert(input.take(i as int) =~= input);
    }
    r
}

/// What `rank(keys, key)` counts: keys that are no greater than `key`, up to
/// the first one that is.
pub proof fn lemma_rank_bound(keys: Seq<Seq<char>>, key: Seq<char>)
    ensures
        rank(keys, key) <= keys.len(),
        forall|i: int| 0 <= i < rank(keys, key) ==> lex_le(#[trigger] keys[i], key),
        rank(keys, key) < keys.len() ==> !lex_le(keys[rank(keys, key) as int], key),
    decreases keys.len(),
{
    if keys.len() > 0 && lex_le(keys[0], key) {
        let t = keys.skip(1);
        lemma_rank_bound(t, key);
        assert forall|i: int| 0 <= i < rank(keys, key) implies lex_le(#[trigger] keys[i], key) by {
            if i > 0 {
                assert(keys[i] == t[i - 1]);
            }
        }
        if rank(keys, key) < keys.len() {
            assert(keys[rank(keys, key) as int] == t[rank(t, key) as int]);
        }
    }
}

/// Ordering by key gives the same pairs, each as often as before, and no
/// pair comes before one with a smaller key.
pub proof fn lemma_ordered_by_key_is_sorted(pairs: Seq<(Seq<char>, Seq<char>)>)
    ensures
        ordered_by_key(pairs).to_multiset() == pairs.to_multiset(),
        ordered_by_key(pairs).len() == pairs.len(),
        forall|i: int, j: int|
            0 <= i < j < ordered_by_key(pairs).len() ==> lex_le(
                (#[trigger] ordered_by_key(pairs)[i]).0,
                (#[trigger] ordered_by_key(pairs)[j]).0,
            ),
    decreases pairs.len(),
{
    if pairs.len() == 0 {
        assert(ordered_by_key(pairs) =~= pairs);
    } else {
        let front = ordered_by_key(pairs.drop_last());
        let pair = pairs.last();
        let p = rank(keys(front), pair.0) as int;
        lemma_ordered_by_key_is_sorted(pairs.drop_last());
        lemma_rank_bound(keys(front), pair.0);
        let all = ordered_by_key(pairs);
        assert(all =~= front.insert(p, pair));
        vstd::seq_lib::to_multiset_insert(front, p, pair);
        assert(pairs =~= pairs.drop_last().push(pair));
        vstd::seq_lib::to_multiset_build(pairs.drop_last(), pair);
        assert forall|i: int, j: int| 0 <= i < j < all.len() implies lex_le(
            (#[trigger] all[i]).0,
            (#[trigger] all[j]).0,
        ) by {
            if j < p {
                assert(all[i] == front[i] && all[j] == front[j]);
            } else if j == p {
                assert(all[i] == front[i]);
                assert(keys(front)[i] == front[i].0);
            } else if i == p {
                assert(all[j] == front[j - 1]);
                assert(keys(front)[p] == front[p].0);
                crate::text::lemma_lex_le_connected(front[p].0, pair.0);
                if j - 1 > p {
                    assert(lex_le(front[p].0, front[j - 1].0));
                    crate::text::lemma_lex_le_transitive(pair.0, front[p].0, front[j - 1].0);
                }
            } else if i < p {
                assert(all[i] == front[i] && all[j] == front[j - 1]);
            } else {
                assert(all[i] == front[i - 1] && all[j] == front[j - 1]);
            }
        }
    }
}

/// The order in which the cases run holds the same cases, and no case comes
/// before one whose name in lower case is smaller.
pub proof fn lemma_ordered_is_sorted(cases: Seq<Seq<char>>)
    ensures
        ordered(cases).len() == cases.len(),
        forall|i: int|
            0 <= i < ordered(cases).len() ==> cases.contains(#[trigger] ordered(cases)[i]),
        forall|i: int, j: int|
            0 <= i < j < ordered(cases).len() ==> lex_le(
                lowercase(#[trigger] ordered(cases)[i]),
                lowercase(#[trigger] ordered(cases)[j]),
            ),
{
    let pairs = keyed(cases);
    let sorted = ordered_by_key(pairs);
    lemma_ordered_by_key_is_sorted(pairs);
    assert forall|i: int| 0 <= i < sorted.len() implies cases.contains(#[trigger] sorted[i].1)
        && sorted[i].0 == lowercase(sorted[i].1) by {
        assert(sorted.to_multiset().count(sorted[i]) > 0) by {
            vstd::seq_lib::to_multiset_contains(sorted, sorted[i]);
            assert(sorted.contains(sorted[i]));
        }
        vstd::seq_lib::to_multiset_contains(pairs, sorted[i]);
        assert(pairs.contains(sorted[i]));
        let m = choose|m: int| 0 <= m < pairs.len() && pairs[m] == sorted[i];
        assert(cases[m] == sorted[i].1);
    }
    assert forall|i: int| 0 <= i < ordered(cases).len() implies cases.contains(
        #[trigger] ordered(cases)[i],
    ) by {
        assert(ordered(cases)[i] == sorted[i].1);
    }
    assert forall|i: int, j: int| 0 <= i < j < ordered(cases).len() implies lex_le(
        lowercase(#[trigger] ordered(cases)[i]),
        lowercase(#[trigger] ordered(cases)[j]),
    ) by {
        assert(ordered(cases)[i] == sorted[i].1);
        assert(ordered(cases)[j] == sorted[j].1);
        assert(lex_le(sorted[i].0, sorted[j].0));
    }
}

} // verus!
