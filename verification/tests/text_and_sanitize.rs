use joogle::db::local::{lines_to_text, text_to_lines};
use joogle::error::StdError;
use joogle::sanitize::{sanitize_string, split_words, sql_decode_uas, sql_encode_uas, sql_escape_ap};
use joogle::text::{decimal_string, join, split_on, to_lowercase};
use joogle::user_agents::UserAgentRules;

fn strings(v: &[&str]) -> Vec<String> {
    v.iter().map(|s| s.to_string()).collect()
}

fn rules_as_pairs(r: &UserAgentRules) -> Vec<(String, Vec<String>)> {
    (0..r.len()).map(|i| (r.agent_at(i).clone(), r.paths_at(i).clone())).collect()
}

#[test]
fn escape_doubles_apostrophes() {
    assert_eq!(sql_escape_ap("it's".to_string()), "it''s");
    assert_eq!(sql_escape_ap("''".to_string()), "''''");
    assert_eq!(sql_escape_ap("plain".to_string()), "plain");
    assert_eq!(sql_escape_ap(String::new()), "");
    assert_eq!(sql_escape_ap("'a'b'".to_string()), "''a''b''");
}

#[test]
fn escape_read_back_as_literal_gives_original() {
    let original = "l'été d'O'Brien";
    let escaped = sql_escape_ap(original.to_string());
    assert_eq!(escaped.replace("''", "'"), original);
}

#[test]
fn sanitize_splits_lowercase_words() {
    assert_eq!(sanitize_string("Hello, World! 42"), strings(&["hello", "world", "42"]));
    assert_eq!(sanitize_string(""), Vec::<String>::new());
    assert_eq!(sanitize_string("--__--"), Vec::<String>::new());
    assert_eq!(sanitize_string("ÀB-c"), strings(&["b", "c"]));
}

#[test]
fn sanitize_uses_unicode_lowercase() {
    // The Kelvin sign lowercases to an ASCII 'k'.
    assert_eq!(sanitize_string("\u{212A}M"), strings(&["km"]));
    assert_eq!(to_lowercase("ÉCOLE"), "école");
}

#[test]
fn split_words_keeps_ascii_alphanumeric_runs() {
    assert_eq!(split_words("a--b c9"), strings(&["a", "b", "c9"]));
    assert_eq!(split_words("été"), strings(&["t"]));
}

#[test]
fn split_and_join_on_characters() {
    assert_eq!(split_on("a\nb\n", '\n'), strings(&["a", "b", ""]));
    assert_eq!(split_on("", ','), strings(&[""]));
    assert_eq!(split_on(",,", ','), strings(&["", "", ""]));
    assert_eq!(join(&strings(&["a", "b", "c"]), ", "), "a, b, c");
    assert_eq!(join(&Vec::new(), ","), "");
}

#[test]
fn queue_file_roundtrip() {
    let urls = strings(&["https://a.com", "https://b.com/x", ""]);
    let text = lines_to_text(&urls);
    assert_eq!(text, "https://a.com\nhttps://b.com/x\n");
    assert_eq!(text_to_lines(&text), urls);
    assert_eq!(text_to_lines(""), Vec::<String>::new());
    assert_eq!(text_to_lines(&lines_to_text(&Vec::new())), Vec::<String>::new());
}

#[test]
fn decimal_forms() {
    assert_eq!(decimal_string(0), "0");
    assert_eq!(decimal_string(7), "7");
    assert_eq!(decimal_string(1234567890123), "1234567890123");
    assert_eq!(decimal_string(u128::MAX), u128::MAX.to_string());
}

#[test]
fn rules_encode_in_order() {
    let mut r = UserAgentRules::new();
    r.add(&"*".to_string(), "/a".to_string());
    r.add(&"bot".to_string(), "/c".to_string());
    r.add(&"*".to_string(), "/b".to_string());
    assert_eq!(sql_encode_uas(r), "*:/a,/b bot:/c");
    assert_eq!(sql_encode_uas(UserAgentRules::new()), "");
}

#[test]
fn rules_roundtrip_through_storage() {
    let mut r = UserAgentRules::new();
    r.set("googlebot".to_string(), strings(&["/x", "/y:z"]));
    r.set("*".to_string(), strings(&[""]));
    let expected = rules_as_pairs(&r);
    let decoded = sql_decode_uas(sql_encode_uas(r));
    assert_eq!(rules_as_pairs(&decoded), expected);
}

#[test]
fn rules_decode_later_entry_wins() {
    let d = sql_decode_uas("a:1 b:2 a:3,4".to_string());
    assert_eq!(
        rules_as_pairs(&d),
        vec![("a".to_string(), strings(&["3", "4"])), ("b".to_string(), strings(&["2"]))]
    );
    let e = sql_decode_uas("a:".to_string());
    assert_eq!(rules_as_pairs(&e), vec![("a".to_string(), strings(&[""]))]);
}

#[test]
fn rules_lookup_and_copy() {
    let mut r = UserAgentRules::new();
    r.add(&"*".to_string(), "/a".to_string());
    assert_eq!(r.position(&"*".to_string()), Some(0));
    assert_eq!(r.position(&"x".to_string()), None);
    assert_eq!(r.get(&"*".to_string()), Some(&strings(&["/a"])));
    let copy = r.duplicate();
    assert_eq!(rules_as_pairs(&copy), rules_as_pairs(&r));
}

#[test]
fn std_error_messages() {
    let e = StdError("Unsuccesful response code".to_string());
    assert_eq!(e.message(), "Standard error: Unsuccesful response code");
    assert_eq!(e.to_boxed().0, "Unsuccesful response code");
    match e.to_boxed_err() {
        Err(b) => assert_eq!(b.0, e.0),
        Ok(()) => panic!("expected an error"),
    }
}

#[test]
fn ascii_lowercasing() {
    assert_eq!(to_lowercase("Hello, WORLD 42!"), "hello, world 42!");
    assert_eq!(sanitize_string("Hello"), vec!["hello".to_string()]);
}
