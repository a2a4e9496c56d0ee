use sqlness::bindings::{lookup, same_text};
use sqlness::text::{
    find, find_whitespace, has_prefix, join_strings, lines_of, number_of, precedes,
    replace_chars, sort_lines, split_chars, to_chars, trim_bounds, whitespace, NumberError,
};
use sqlness::QueryContext;

fn chars(s: &str) -> Vec<char> {
    s.chars().collect()
}

fn strings(pieces: Vec<Vec<char>>) -> Vec<String> {
    pieces.into_iter().map(|p| p.into_iter().collect()).collect()
}

fn number(s: &str) -> Result<usize, NumberError> {
    let v = chars(s);
    number_of(&v, 0, v.len())
}

#[test]
fn whitespace_is_what_trimming_removes() {
    for c in 0..=0x10FFFFu32 {
        if let Some(c) = char::from_u32(c) {
            assert_eq!(whitespace(c), c.is_whitespace());
        }
    }
}

#[test]
fn trimming() {
    for s in ["", " ", "a", "  a b \t\n", "\u{3000}x\u{a0}", " \r\n ", "x  "] {
        let v = chars(s);
        let (a, b) = trim_bounds(&v, 0, v.len());
        let trimmed: String = v[a..b].iter().collect();
        assert_eq!(trimmed, s.trim());
        let k = find_whitespace(&v, 0, v.len());
        assert_eq!(k, s.chars().position(|c| c.is_whitespace()).unwrap_or(v.len()));
    }
}

#[test]
fn splitting() {
    for s in ["", ";", "a;b", ";a;;b;", "no delimiter", "a;"] {
        let v = chars(s);
        let expected: Vec<String> = s.split(';').map(|p| p.to_string()).collect();
        assert_eq!(strings(split_chars(&v, 0, v.len(), ';')), expected);
        assert_eq!(find(&v, 0, v.len(), ';'), s.find(';').unwrap_or(s.len()));
    }
    let v = chars("a b c");
    assert_eq!(strings(split_chars(&v, 2, 5, ' ')), vec!["b", "c"]);
}

#[test]
fn lines_of_a_text() {
    for s in [
        "", "a", "a\n", "a\nb", "a\r\nb\r\n", "\n", "\n\n", "a\n\nb\n\n", "a\r", "a\r\r\n", "\r\n",
        "a\rb\nc",
    ] {
        let expected: Vec<String> = s.lines().map(|l| l.to_string()).collect();
        assert_eq!(strings(lines_of(&chars(s))), expected, "lines of {s:?}");
    }
}

#[test]
fn joining() {
    assert_eq!(join_strings(&vec![], '\n'), chars(""));
    assert_eq!(join_strings(&vec!["a".to_string()], '\n'), chars("a"));
    assert_eq!(
        join_strings(&vec!["a".to_string(), "".to_string(), "b".to_string()], '\n'),
        chars("a\n\nb")
    );
    assert_eq!(to_chars("añ✓"), vec!['a', 'ñ', '✓']);
}

#[test]
fn order_of_the_dictionary() {
    let mut words = vec!["b", "", "ab", "a", "B", "abc", "é", "z", "a", "aa", "\u{10000}"];
    for a in &words {
        for b in &words {
            assert_eq!(precedes(&chars(a), &chars(b)), a <= b, "{a:?} <= {b:?}");
        }
    }
    let lines: Vec<Vec<char>> = words.iter().map(|w| chars(w)).collect();
    let sorted = strings(sort_lines(&lines, 0, lines.len()));
    words.sort();
    assert_eq!(sorted, words);
    let part = strings(sort_lines(&lines, 1, 4));
    assert_eq!(part, vec!["", "a", "ab"]);
}

#[test]
fn prefixes() {
    let v = chars("-- SQLNESS ARG");
    assert!(has_prefix(&v, 0, v.len(), &chars("-- SQLNESS")));
    assert!(has_prefix(&v, 0, v.len(), &chars("")));
    assert!(has_prefix(&v, 3, v.len(), &chars("SQL")));
    assert!(!has_prefix(&v, 0, 5, &chars("-- SQLNESS")));
    assert!(!has_prefix(&v, 0, v.len(), &chars("--SQL")));
}

#[test]
fn replacing() {
    for (s, from, to) in [
        ("aaa", "aa", "b"),
        ("$A$AB", "$A", "1"),
        ("abc", "x", "y"),
        ("", "x", "y"),
        ("xxx", "x", ""),
        ("abab", "ab", "abab"),
    ] {
        let replaced: String = replace_chars(&chars(s), &chars(from), &chars(to)).into_iter().collect();
        assert_eq!(replaced, s.replace(from, to));
    }
}

#[test]
fn numbers() {
    assert_eq!(number("0"), Ok(0));
    assert_eq!(number("10000"), Ok(10000));
    assert_eq!(number("+7"), Ok(7));
    assert_eq!(number("007"), Ok(7));
    assert_eq!(number(""), Err(NumberError::Empty));
    assert_eq!(number("+"), Err(NumberError::InvalidDigit));
    assert_eq!(number("-"), Err(NumberError::InvalidDigit));
    assert_eq!(number("-1"), Err(NumberError::InvalidDigit));
    assert_eq!(number("1 2"), Err(NumberError::InvalidDigit));
    assert_eq!(number("++1"), Err(NumberError::InvalidDigit));
    assert_eq!(number("١"), Err(NumberError::InvalidDigit));
    assert_eq!(number(&usize::MAX.to_string()), Ok(usize::MAX));
    assert_eq!(number(&format!("{}0", usize::MAX)), Err(NumberError::TooLarge));
    assert_eq!(number(&format!("{}0x", usize::MAX)), Err(NumberError::TooLarge));
    assert_eq!(number("18446744073709551616"), Err(NumberError::TooLarge));
    for s in ["", "+", "12", "1x", "99999999999999999999999", "+0"] {
        assert_eq!(number(s).ok(), s.parse::<usize>().ok());
        if let (Err(mine), Err(theirs)) = (number(s), s.parse::<usize>()) {
            assert_eq!(mine.describe(), theirs.to_string());
        }
    }
}

#[test]
fn context_binds() {
    let mut context = QueryContext::default();
    assert_eq!(context.get("a"), None);
    context.insert("a".to_string(), "1".to_string());
    context.insert("b".to_string(), "2".to_string());
    context.insert("a".to_string(), "3".to_string());
    assert_eq!(context.get("a"), Some(&"3".to_string()));
    assert_eq!(context.get("b"), Some(&"2".to_string()));
    assert_eq!(context.get(""), None);
    let copy = context.duplicate();
    assert_eq!(copy.context, context.context);
    assert_eq!(lookup(&context.context, "a"), Some(2));
    assert_eq!(lookup(&context.context, "c"), None);
    assert!(same_text("", ""));
    assert!(same_text("añ", "añ"));
    assert!(!same_text("a", "ab"));
    assert!(!same_text("ab", "ac"));
}
