use sqlness::discovery::{
    case_of, check_filter, extension_bounds, filter_name_of, filter_refusal, order_by_key,
    select_cases,
};
use sqlness::SqlnessError;

fn names(list: &[&str]) -> Vec<String> {
    list.iter().map(|s| s.to_string()).collect()
}

fn chars(s: &str) -> Vec<char> {
    s.chars().collect()
}

#[test]
fn extension_of_a_path() {
    assert_eq!(extension_bounds(&chars("a/b.sql")), Some(4));
    assert_eq!(extension_bounds(&chars("a.d/b")), None);
    assert_eq!(extension_bounds(&chars("a/.hidden")), None);
    assert_eq!(extension_bounds(&chars("a/.hidden.sql")), Some(10));
    assert_eq!(extension_bounds(&chars("a/..")), None);
    assert_eq!(extension_bounds(&chars("..")), None);
    assert_eq!(extension_bounds(&chars("a/b.")), Some(4));
    assert_eq!(extension_bounds(&chars("b.tar.gz")), Some(6));
    assert_eq!(extension_bounds(&chars("")), None);
}

#[test]
fn cases_have_the_extension() {
    let files = names(&["e/a.sql", "e/a.result", "e/b.sql.bak", "e/c", "e/d.sql", "e/.sql"]);
    let cases = select_cases("e", &files, "sql", ".*").unwrap();
    assert_eq!(cases, names(&["e/a", "e/d"]));
}

#[test]
fn cases_match_the_filter() {
    let files = names(&["e/dml/basic.sql", "e/ddl/basic.sql", "e/ddl/alter.sql", "e/x.sql"]);
    assert_eq!(
        select_cases("e", &files, "sql", "^e:basic$").unwrap(),
        names(&["e/ddl/basic", "e/dml/basic"])
    );
    assert_eq!(
        select_cases("e", &files, "sql", "^other:").unwrap(),
        Vec::<String>::new()
    );
    assert_eq!(
        select_cases("e", &files, "sql", "alter|x").unwrap(),
        names(&["e/ddl/alter", "e/x"])
    );
}

fn files(list: &[&str]) -> Vec<String> {
    list.iter().map(|s| format!("{s}.sql")).collect()
}

#[test]
fn cases_run_in_the_order_of_their_names_in_lower_case() {
    let cases = select_cases("e", &files(&["e/b", "e/C", "e/a", "e/B", "e/A/z", "e/c"]), "sql", ".*");
    assert_eq!(cases.unwrap(), names(&["e/a", "e/A/z", "e/b", "e/B", "e/C", "e/c"]));
    assert_eq!(select_cases("e", &Vec::new(), "sql", ".*").unwrap(), Vec::<String>::new());
    assert_eq!(
        select_cases("e", &files(&["Ä", "ä", "z", "Z"]), "sql", ".*").unwrap(),
        names(&["z", "Z", "Ä", "ä"])
    );
}

#[test]
fn pairs_in_the_order_of_their_keys() {
    let pair = |key: &str, value: &str| (key.to_string(), value.to_string());
    let pairs = vec![pair("b", "1"), pair("a", "2"), pair("b", "3"), pair("", "4"), pair("a", "5")];
    assert_eq!(
        order_by_key(pairs),
        vec![pair("", "4"), pair("a", "2"), pair("a", "5"), pair("b", "1"), pair("b", "3")]
    );
    assert_eq!(order_by_key(Vec::new()), Vec::new());
}

#[test]
fn case_of_a_file() {
    assert_eq!(case_of("e/dir/a.sql", "sql"), Some("e/dir/a".to_string()));
    assert_eq!(case_of("e/dir/a.b.sql", "sql"), Some("e/dir/a.b".to_string()));
    assert_eq!(case_of("e/dir/a.sql", "result"), None);
    assert_eq!(case_of("e/dir/a.sqlx", "sql"), None);
    assert_eq!(case_of("e/dir.sql/a", "sql"), None);
    assert_eq!(case_of("e/.sql", "sql"), None);
    assert_eq!(case_of("e/a.", ""), Some("e/a".to_string()));
    assert_eq!(filter_name_of("local", "cases/local/dml/basic"), "local:basic");
    assert_eq!(filter_name_of("local", "basic"), "local:basic");
    assert_eq!(filter_name_of("", "a/"), ":");
}

#[test]
fn filter_is_checked() {
    assert!(filter_refusal("x", None).is_none());
    match filter_refusal("x", Some("why".to_string())) {
        Some(SqlnessError::ParseConfig { reason }) => {
            assert_eq!(reason, "Invalid filter `x`, err:why")
        }
        other => panic!("unexpected: {:?}", other),
    }
    assert!(check_filter(".*").is_none());
    assert!(check_filter("").is_none());
    match check_filter("a(") {
        Some(SqlnessError::ParseConfig { reason }) => {
            assert!(reason.starts_with("Invalid filter `a(`, err:"))
        }
        other => panic!("unexpected: {:?}", other),
    }
    assert!(matches!(
        select_cases("e", &names(&["e/a.sql"]), "sql", "a("),
        Err(SqlnessError::ParseConfig { .. })
    ));
}
