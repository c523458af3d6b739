use joogle::api::ownership::{
    check_domain_ownership, checked_extract_domain_from_str, create_dns_record_for_domain_reg,
    extract_domain_from_str, get_domain_ownership_key, may_read_domain_analytics,
    try_get_domain_ownership_key, ResOwnershipVerification,
};
use joogle::db::domains::{
    create_row, create_row_iff_empty, get_domain_ownership_record, known_domain_query, update_domain_ownership_record,
};
use joogle::db::jwt_auth::{authenticate, claims_user_uuid, AuthClaims, AuthFailure, SessionRow};
use joogle::db::sites::{get_rows_number, new_url_record, sites_of_domain_query, try_new_url_record, update_site_loc};
use joogle::debug::gatherers::TimingGatherer;
use joogle::pages::console::console_ui;
use joogle::searching::{feeling_lucky_queries, word_query};
use joogle::url_parts::UrlParseError;
use joogle::user_agents::UserAgentRules;

fn strings(v: &[&str]) -> Vec<String> {
    v.iter().map(|s| s.to_string()).collect()
}

#[test]
fn domain_tables_statements() {
    assert!(joogle::db::domains::init_table().contains("CREATE TABLE IF NOT EXISTS domains ("));
    assert!(joogle::db::sites::init_table().starts_with("CREATE TABLE IF NOT EXISTS sites ("));
    let mut allow = UserAgentRules::new();
    allow.add(&"*".to_string(), "/it's".to_string());
    let stmt = create_row("o'k.com".to_string(), 12, 3, allow.duplicate(), UserAgentRules::new(), "uid".to_string());
    assert_eq!(
        stmt,
        "\n        INSERT OR REPLACE INTO domains (\n            domain,\n            last_robots_txt_visit,\n            last_ownership_check,\n            uas_allow,\n            uas_disallow,\n            owned_by_uid\n        )\n        VALUES (\n            'o''k.com',\n            12,\n            3,\n            '*:/it''s',\n            '',\n            'uid'\n        )\n    "
    );
    assert_eq!(
        create_row_iff_empty("o'k.com".to_string(), 12, 3, allow, UserAgentRules::new(), "uid".to_string()),
        stmt.replace("INSERT OR REPLACE", "INSERT OR IGNORE")
    );
    assert!(!stmt.contains("IGNORE"));
}

#[test]
fn site_record_statements() {
    let (del, ins) = new_url_record("https://ex.com/l'a".to_string(), "T'".to_string(), "D".to_string()).unwrap();
    assert_eq!(del, "DELETE FROM sites WHERE url = 'https://ex.com/l''a'");
    assert_eq!(
        ins,
        "\n            INSERT INTO sites (url, domain, title, description, ttr, loc) \n            VALUES ('https://ex.com/l''a', 'ex.com', 'T''', 'D', 0.0, 'en')\n    "
    );
    assert_eq!(new_url_record("nope".to_string(), String::new(), String::new()), Err(UrlParseError::RelativeUrlWithoutBase));
    assert_eq!(try_new_url_record("http://127.0.0.1/".to_string(), String::new(), String::new()), None);
    assert!(try_new_url_record("http://a.org/".to_string(), String::new(), String::new()).is_some());
    assert_eq!(update_site_loc(&"u'".to_string(), &"fr".to_string()), "UPDATE sites SET loc = 'fr' WHERE url = 'u'''");
    assert_eq!(sites_of_domain_query(&"a.com".to_string()), "\n        SELECT *\n        FROM sites\n        WHERE domain LIKE '%a.com'\n    ");
    assert_eq!(get_rows_number(Some(42)), 42);
    assert_eq!(get_rows_number(None), -1);
}

#[test]
fn ownership_update() {
    let (stmt, row) = update_domain_ownership_record("a'b.com".to_string(), "67e55044-10b1-426f-9247-bb680e5fe0c8".to_string(), true)
        .ok()
        .unwrap()
        .unwrap();
    assert_eq!(row.domain, "a''b.com");
    assert_eq!(row.owned_by, 0x67e5504410b1426f9247bb680e5fe0c8);
    assert_eq!(stmt, "\n        UPDATE domains\n        SET owned_by_uid = '67e55044-10b1-426f-9247-bb680e5fe0c8'\n        WHERE domain LIKE '%a''b.com'\n    ");
    assert!(update_domain_ownership_record("a.com".to_string(), "not-a-uuid".to_string(), true).is_err());
    assert!(update_domain_ownership_record("a.com".to_string(), "not-a-uuid".to_string(), false).is_err());
    assert!(matches!(
        update_domain_ownership_record("a.com".to_string(), "67e55044-10b1-426f-9247-bb680e5fe0c8".to_string(), false),
        Ok(None)
    ));
    assert_eq!(known_domain_query(&"a'b.com".to_string()), "SELECT COUNT(1) FROM domains WHERE domain LIKE '%a''b.com'");
}

#[test]
fn ownership_record_lookup_needs_exactly_one() {
    assert_eq!(get_domain_ownership_record::<u8>(vec![]), Err(()));
    assert_eq!(get_domain_ownership_record(vec![7u8]), Ok(7));
    assert_eq!(get_domain_ownership_record(vec![7u8, 8]), Err(()));
}

#[test]
fn domain_extraction() {
    assert_eq!(extract_domain_from_str("example.com/path".to_string()), Ok("example.com".to_string()));
    assert_eq!(extract_domain_from_str("https://sub.example.org/x".to_string()), Ok("sub.example.org".to_string()));
    assert_eq!(checked_extract_domain_from_str("http://127.0.0.1".to_string()), None);
    assert_eq!(checked_extract_domain_from_str("https://[::1".to_string()), None);
    assert_eq!(checked_extract_domain_from_str("a.fr".to_string()), Some("a.fr".to_string()));
}

#[test]
fn ownership_key_and_check() {
    assert_eq!(create_dns_record_for_domain_reg("a.com".to_string(), "u1".to_string()), "joogleown:a.com>u1");
    let key = get_domain_ownership_key("https://a.com/x".to_string(), "u1".to_string());
    assert_eq!(key.for_domain, "a.com");
    assert_eq!(key.for_user, "u1");
    assert_eq!(key.txt_record_content, "joogleown:a.com>u1");
    assert!(try_get_domain_ownership_key("http://10.0.0.1".to_string(), "u".to_string()).is_none());
    let txts = strings(&["v=spf1", "joogleown:a.com>u1"]);
    assert!(check_domain_ownership("a.com".to_string(), "u1".to_string(), &txts));
    assert!(!check_domain_ownership("a.com".to_string(), "u2".to_string(), &txts));
    let v = ResOwnershipVerification::verified(3);
    assert_eq!((v.queue_position, v.ownership_verified), (3, true));
    let u = ResOwnershipVerification::unverified();
    assert_eq!((u.queue_position, u.ownership_verified), (0, false));
}

#[test]
fn analytics_access() {
    let uid = "u1".to_string();
    assert!(may_read_domain_analytics(true, Some("u1".to_string()), &uid));
    assert!(!may_read_domain_analytics(false, Some("u1".to_string()), &uid));
    assert!(!may_read_domain_analytics(true, Some("u2".to_string()), &uid));
    assert!(!may_read_domain_analytics(true, None, &uid));
}

fn claims() -> AuthClaims {
    AuthClaims { email: "a@b.c".to_string(), user_id: "u".to_string(), session_id: "s".to_string() }
}

fn row(email: &str, user: &str, session: &str) -> SessionRow {
    SessionRow {
        email: email.to_string(),
        user_id: user.to_string(),
        session_id: session.to_string(),
        ip: Some("10.0.0.1".to_string()),
    }
}

fn ip() -> Option<String> {
    Some("10.0.0.1".to_string())
}

#[test]
fn authentication_needs_exactly_one_session() {
    let ok = authenticate(claims(), ip(), &vec![row("a@b.c", "u", "other"), row("a@b.c", "u", "s")]).ok().unwrap();
    assert!(ok.verified);
    assert_eq!(ok.from_claims.session_id, "s");
    assert_eq!(authenticate(claims(), ip(), &vec![]).err(), Some(AuthFailure::CannotAuthenticate));
    let twice = vec![row("a@b.c", "u", "s"), row("a@b.c", "u", "s")];
    assert_eq!(authenticate(claims(), ip(), &twice).err(), Some(AuthFailure::CannotAuthenticate));
    let one = vec![row("a@b.c", "u", "s")];
    assert!(authenticate(claims(), ip(), &one).is_ok());
    assert_eq!(
        authenticate(claims(), Some("10.0.0.2".to_string()), &one).err(),
        Some(AuthFailure::CannotAuthenticate)
    );
    assert_eq!(authenticate(claims(), None, &one).err(), Some(AuthFailure::CannotAuthenticate));
    let mut unrecorded = row("a@b.c", "u", "s");
    unrecorded.ip = None;
    assert_eq!(authenticate(claims(), ip(), &vec![unrecorded]).err(), Some(AuthFailure::CannotAuthenticate));
    assert_eq!(claims_user_uuid(&claims()), None);
    let mut c = claims();
    c.user_id = "67e55044-10b1-426f-9247-bb680e5fe0c8".to_string();
    assert_eq!(claims_user_uuid(&c), Some(0x67e55044_10b1_426f_9247_bb680e5fe0c8u128));
    assert_eq!(AuthFailure::MissingHeader.status(), 400);
    assert_eq!(AuthFailure::MissingHeader.message(), "Authorization header is missing");
    assert_eq!(AuthFailure::InvalidJwt.status(), 500);
    assert_eq!(AuthFailure::InvalidJwt.message(), "JWT decoding failed: invalid JWT");
    assert_eq!(AuthFailure::CannotRetrieveData.message(), "JWT decoding failed: cannot retrieve data");
    assert_eq!(AuthFailure::CannotAuthenticate.message(), "JWT decoding failed: cannot authenticate");
}

#[test]
fn timing_gatherer() {
    let mut g = TimingGatherer::init();
    assert_eq!((g.start_time, g.actions_done), (0, 0));
    assert!(g.log_due());
    g.start_gathering(1000);
    g.action_done();
    assert_eq!((g.start_time, g.actions_done), (1000, 1));
    assert!(!g.log_due());
    for _ in 0..9 {
        g.action_done();
    }
    assert!(g.log_due());
    g.start_gathering(2000);
    assert_eq!((g.start_time, g.actions_done), (2000, 0));
}

#[test]
fn search_queries_per_word() {
    let qs = feeling_lucky_queries("Rust, LANG!");
    assert_eq!(qs.len(), 2);
    assert_eq!(qs[0], word_query(&"rust".to_string()));
    assert!(qs[1].contains("FROM w_lang \n"));
    assert!(qs[1].contains("ORDER BY w_lang.score DESC\n                LIMIT 100"));
    assert!(feeling_lucky_queries("!!").is_empty());
}

#[test]
fn console_placeholder() {
    assert_eq!(console_ui(), "SEARCH CONSOLE APP SHOULD BE INCLUDED");
}
