use joogle::data_pool::DataPool;
use joogle::indexer::localization::get_localization;
use joogle::db::words::{page_score_statements, save_word_score};
use joogle::indexer::page::{discovered_links, indexable_status, read_page, record_texts, score_page};
use joogle::url_parts::url_domain;
use joogle::indexer::url::{get_all_texts, selection_content, IndexData, QueueBot, QueueBotAction};
use joogle::url_parts::UrlParseError;

fn strings(v: &[&str]) -> Vec<String> {
    v.iter().map(|s| s.to_string()).collect()
}

fn scores(d: &IndexData) -> Vec<(String, usize)> {
    (0..d.len()).map(|i| { let (w, s) = d.entry_at(i); (w.clone(), s) }).collect()
}

#[test]
fn data_pool_is_first_in_first_out() {
    let mut pool = DataPool::init();
    assert_eq!(pool.get_next(), None);
    pool.add_item("a".to_string());
    pool.add_batch(strings(&["b", "c"]));
    assert_eq!(pool.get_content(), strings(&["a", "b", "c"]));
    assert_eq!(pool.get_next(), Some("a".to_string()));
    assert_eq!(pool.get_next(), Some("b".to_string()));
    pool.add_item("d".to_string());
    assert_eq!(pool.get_next(), Some("c".to_string()));
    assert_eq!(pool.get_next(), Some("d".to_string()));
    assert_eq!(pool.get_next(), None);
}

#[test]
fn scores_count_occurrences_times_rate() {
    let mut d = IndexData::new();
    d.incr_score(strings(&["Hello hello, world"]), 20);
    d.incr_score(strings(&["world peace", ""]), 1);
    assert_eq!(
        scores(&d),
        vec![("hello".to_string(), 40), ("world".to_string(), 21), ("peace".to_string(), 1)]
    );
}

#[test]
fn scores_refuse_overflow() {
    let mut d = IndexData::new();
    assert!(d.try_incr_score(strings(&["big"]), usize::MAX));
    assert!(!d.try_incr_score(strings(&["big"]), 1));
    assert_eq!(scores(&d), vec![("big".to_string(), usize::MAX)]);
    assert!(!d.try_incr_score(strings(&["x x"]), usize::MAX));
    assert!(d.try_incr_score(strings(&["other"]), 3));
    assert_eq!(scores(&d), vec![("big".to_string(), usize::MAX), ("other".to_string(), 3)]);
    assert!(d.fits_after(&strings(&["other"]), 5));
}

#[test]
fn texts_of_every_node_in_document_order() {
    // <p>a <b>b <i>c</i></b></p>: the element, "a ", <b>, "b ", <i>, "c".
    let nodes = strings(&["", "a ", "", "b ", "", "c"]);
    assert_eq!(get_all_texts(&nodes), strings(&["a ", "b ", "c"]));
    assert_eq!(get_all_texts(&vec![]), Vec::<String>::new());
}

#[test]
fn scores_from_selected_elements() {
    let selected = vec![strings(&["", "Rust rocks"]), strings(&["", "", "rust"])];
    assert_eq!(selection_content(&selected), strings(&["Rust rocks", "rust"]));
    let mut d = IndexData::new();
    d.incr_score_selector(&selected, 15);
    assert_eq!(scores(&d), vec![("rust".to_string(), 30), ("rocks".to_string(), 15)]);
    assert!(d.try_incr_score_selector(&selected, 1));
    assert_eq!(scores(&d), vec![("rust".to_string(), 32), ("rocks".to_string(), 16)]);
}

#[test]
fn two_scorings_are_one_on_the_joined_lines() {
    let mut d1 = IndexData::new();
    d1.incr_score(strings(&["a b", "c"]), 2);
    d1.incr_score(strings(&["b d"]), 2);
    let mut d2 = IndexData::new();
    d2.incr_score(strings(&["a b", "c", "b d"]), 2);
    assert_eq!(scores(&d1), scores(&d2));
}

const PAGE: &str = "<html lang=\"fr\"><head><title>Rust Page</title>\
    <meta name=\"description\" content=\"About rust\"></head>\
    <body><h1>Rust</h1><p>rust is <b>fast <i>rust</i></b></p><span>fast</span>\
    <h2>Speed</h2><h3>x</h3><h4>x</h4><h5>x</h5>\
    <a href=\"/about\">a</a><a>no link</a><a href=\"https://b.org/%41\">b</a></body></html>";

#[test]
fn page_parts_are_read() {
    let p = read_page(PAGE);
    assert_eq!(p.title, Some(Some("Rust Page".to_string())));
    assert_eq!(p.description, Some(Some("About rust".to_string())));
    assert_eq!(p.html_lang, Some("fr".to_string()));
    assert_eq!(p.meta_lang, None);
    assert_eq!(p.links, vec![Some("/about".to_string()), None, Some("https://b.org/%41".to_string())]);
    assert_eq!(selection_content(&p.paragraphs), strings(&["rust is ", "fast ", "rust", "fast"]));
    assert_eq!(selection_content(&p.h1), strings(&["Rust"]));
    assert_eq!(record_texts(&p), ("Rust Page".to_string(), "About rust".to_string()));
    assert_eq!(
        discovered_links(&"https://a.com/x/".to_string(), &p),
        Some(strings(&["https://a.com/about", "https://b.org/A"]))
    );
    let ip_link = read_page("<a href=\"http://127.0.0.1/x\">x</a>");
    assert_eq!(discovered_links(&"file:///tmp".to_string(), &ip_link), None);
}

#[test]
fn page_scores_follow_the_rule() {
    let p = read_page(PAGE);
    let d = score_page(&p).unwrap();
    let got = scores(&d);
    // rust: title 20, description 8, p/span 2 x 1, h1 15.
    assert!(got.contains(&("rust".to_string(), 45)));
    assert!(got.contains(&("page".to_string(), 20)));
    assert!(got.contains(&("about".to_string(), 8)));
    assert!(got.contains(&("fast".to_string(), 2)));
    assert!(got.contains(&("speed".to_string(), 10)));
    // x: h3 7, h4 5, h5 3.
    assert!(got.contains(&("x".to_string(), 15)));
    assert!(!got.iter().any(|(w, _)| w == "link"));
}

#[test]
fn page_without_title_or_description() {
    let p = read_page("<p>hi</p>");
    assert_eq!(p.title, None);
    assert_eq!(record_texts(&p), ("unnamed".to_string(), "No description.".to_string()));
    assert_eq!(scores(&score_page(&p).unwrap()), vec![("hi".to_string(), 1)]);
}

#[test]
fn url_format_keeps_absolute_urls() {
    let r = QueueBot::ensure_url_format("https://example.com/page".to_string(), "https://other.org/a%20b".to_string());
    assert_eq!(r, Ok("https://other.org/a b".to_string()));
}

#[test]
fn url_format_resolves_relative_links_against_the_source() {
    let r = QueueBot::ensure_url_format("https://a.com/x/".to_string(), "/about".to_string());
    assert_eq!(r, Ok("https://a.com/about".to_string()));
    let r = QueueBot::ensure_url_format("https://a.com/x/y".to_string(), "z%20w".to_string());
    assert_eq!(r, Ok("https://a.com/x/z w".to_string()));
    let r = QueueBot::ensure_url_format("https://example.com/".to_string(), "http://127.0.0.1/x".to_string());
    assert_eq!(r, Ok("https://example.com/x".to_string()));
    assert_eq!(QueueBot::try_ensure_url_format("file:///tmp".to_string(), "http://127.0.0.1/".to_string()), None);
    assert_eq!(
        QueueBot::try_ensure_url_format("https://a.com".to_string(), "https://b.com/".to_string()),
        Some(Ok("https://b.com/".to_string()))
    );
}

#[test]
fn url_format_errors() {
    assert_eq!(
        QueueBot::ensure_url_format("not a url".to_string(), "https://a.com".to_string()),
        Err(UrlParseError::RelativeUrlWithoutBase)
    );
    assert_eq!(
        QueueBot::ensure_url_format("https://a.com".to_string(), "https://[::1".to_string()),
        Err(UrlParseError::Other)
    );
    assert_eq!(
        QueueBot::ensure_url_format("mailto:me@a.com".to_string(), "/about".to_string()),
        Err(UrlParseError::Other)
    );
}

#[test]
fn queue_bot_takes_urls_in_order_and_keeps_them_while_paused() {
    let mut bot = QueueBot::init();
    assert!(matches!(bot.next_action(), QueueBotAction::Idle));
    bot.queue_url(strings(&["u1", "u2", "u3"]));
    assert_eq!(bot.get_remaining_urls(), strings(&["u1", "u2", "u3"]));
    match bot.next_action() {
        QueueBotAction::Index(u) => assert_eq!(u, "u1"),
        _ => panic!("expected u1"),
    }
    bot.is_paused = true;
    assert!(matches!(bot.next_action(), QueueBotAction::Wait));
    assert!(matches!(bot.next_action(), QueueBotAction::Wait));
    assert_eq!(bot.get_remaining_urls(), strings(&["u2", "u3"]));
    bot.is_paused = false;
    match bot.next_action() {
        QueueBotAction::Index(u) => assert_eq!(u, "u2"),
        _ => panic!("expected u2"),
    }
    match bot.next_action() {
        QueueBotAction::Index(u) => assert_eq!(u, "u3"),
        _ => panic!("expected u3"),
    }
    assert_eq!(bot.get_remaining_urls(), Vec::<String>::new());
}

#[test]
fn localization_prefers_html_lang() {
    let l = get_localization(Some("fr".to_string()), None);
    assert_eq!((l.code.as_str(), l.declared), ("fr", true));
    let l = get_localization(None, Some(Some("de".to_string())));
    assert_eq!((l.code.as_str(), l.declared), ("de", true));
    let l = get_localization(None, Some(None));
    assert_eq!((l.code.as_str(), l.declared), ("en-US", false));
    let l = get_localization(None, None);
    assert_eq!((l.code.as_str(), l.declared), ("en-US", false));
}

#[test]
fn legacy_queue_bot() {
    let mut bot = joogle::indexing::QueueBot::init();
    bot.queue_url(strings(&["a", "b"]));
    bot.queue_url(strings(&["c"]));
    assert_eq!(bot.take_queue(), strings(&["a", "b", "c"]));
    assert_eq!(bot.take_queue(), Vec::<String>::new());
    assert_eq!(
        joogle::indexing::QueueBot::ensure_url_format("https://a.com".to_string(), "https://b.com/%41".to_string()),
        Ok("https://b.com/A".to_string())
    );
}

#[test]
fn word_score_rows_of_a_page() {
    let p = read_page("<html lang='en'><title>Rust</title><h1>rust</h1><p>rust lang</p></html>");
    let d = score_page(&p).unwrap();
    assert_eq!(scores(&d), vec![("rust".to_string(), 36), ("lang".to_string(), 1)]);
    let url = "https://a.com/".to_string();
    assert_eq!(
        page_score_statements(&url, &d),
        strings(&[
            "CREATE TABLE IF NOT EXISTS w_rust (url TEXT PRIMARY KEY, score INTEGER)",
            "INSERT OR REPLACE INTO w_rust (url, score) VALUES ('https://a.com/', 36)",
            "CREATE TABLE IF NOT EXISTS w_lang (url TEXT PRIMARY KEY, score INTEGER)",
            "INSERT OR REPLACE INTO w_lang (url, score) VALUES ('https://a.com/', 1)",
        ])
    );
    assert_eq!(
        save_word_score(&"https://a.com/it's".to_string(), &"w".to_string(), 7).1,
        "INSERT OR REPLACE INTO w_w (url, score) VALUES ('https://a.com/it''s', 7)"
    );
    assert_eq!(p.html_lang, Some("en".to_string()));
    assert_eq!(url_domain("https://a.com/"), Some("a.com".to_string()));
    assert_eq!(url_domain("http://127.0.0.1/"), None);
    assert_eq!(url_domain("nope"), None);
}

#[test]
fn only_2xx_pages_are_indexed() {
    assert!(indexable_status(200));
    assert!(indexable_status(299));
    assert!(!indexable_status(199));
    assert!(!indexable_status(301));
    assert!(!indexable_status(404));
}
