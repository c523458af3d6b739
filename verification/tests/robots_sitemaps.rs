use joogle::indexer::robots::{robots_txt_url, try_robots_txt_url, RobotsDefinition};
use joogle::indexer::sitemaps::{route_all, route_sitemap, sitemaps_from_tar, SitemapBot, SitemapDefinition, SitemapRoute, SitemapSource};
use joogle::sanitize::sql_encode_uas;
use joogle::url_parts::UrlParseError;
use joogle::user_agents::UserAgentRules;

fn strings(v: &[&str]) -> Vec<String> {
    v.iter().map(|s| s.to_string()).collect()
}

fn pairs(r: &UserAgentRules) -> Vec<(String, Vec<String>)> {
    (0..r.len()).map(|i| (r.agent_at(i).clone(), r.paths_at(i).clone())).collect()
}

const ROBOTS: &str = "User-agent: *\nDisallow: /private\nAllow: /public \r\n# a comment\n\nSitemap: https://x.com/sitemap.xml\nUSER-AGENT: bot\nDisallow: /a b\nCrawl-delay: 10\nAllow: /c";

#[test]
fn robots_rules_per_user_agent() {
    assert!(RobotsDefinition::parsable(ROBOTS));
    let def = RobotsDefinition::from_robots_txt("x.com".to_string(), ROBOTS);
    assert_eq!(def.domain, "x.com");
    assert_eq!(pairs(&def.uas_allow), vec![("*".to_string(), strings(&["/public"])), ("bot".to_string(), strings(&["/c"]))]);
    assert_eq!(
        pairs(&def.uas_disallow),
        vec![("*".to_string(), strings(&["/private"])), ("bot".to_string(), strings(&["/ab"]))]
    );
    assert_eq!(def.sitemaps, strings(&["https://x.com/sitemap.xml"]));
}

#[test]
fn robots_rules_without_user_agent_go_to_the_empty_one() {
    let def = RobotsDefinition::from_robots_txt("d".to_string(), "Allow: /x\r\nallow:/y\n");
    assert_eq!(pairs(&def.uas_allow), vec![(String::new(), strings(&["/x", "/y"]))]);
}

#[test]
fn robots_lines_without_colon_are_not_parsable() {
    assert!(!RobotsDefinition::parsable("User-agent: *\nDisallow /x\n"));
    assert!(RobotsDefinition::parsable("# only: comments\n\n"));
    assert!(RobotsDefinition::parsable(""));
}

#[test]
fn robots_url() {
    assert_eq!(robots_txt_url(&"http://example.com/some/page".to_string()), Ok("https://example.com/robots.txt".to_string()));
    assert_eq!(robots_txt_url(&"example.com".to_string()), Ok("https://example.com/robots.txt".to_string()));
    assert_eq!(robots_txt_url(&"http://[::1".to_string()), Err(UrlParseError::Other));
    assert_eq!(try_robots_txt_url(&"foo:bar".to_string()), None);
    assert_eq!(try_robots_txt_url(&"https://a.org".to_string()), Some(Ok("https://a.org/robots.txt".to_string())));
}

#[test]
fn robots_saved_then_recovered() {
    let def = RobotsDefinition::from_robots_txt("x.com".to_string(), "User-agent: *\nAllow: /a\nDisallow: /b\nSitemap: s.xml\n");
    let stmt = def.db_save(1700000000000);
    assert!(stmt.contains("'x.com',\n            1700000000000,\n            0,\n            '*:/a',\n            '*:/b',\n            ''"));
    assert!(!stmt.contains("s.xml"));
    let allow = sql_encode_uas(def.uas_allow.duplicate());
    let disallow = sql_encode_uas(def.uas_disallow.duplicate());
    let back = RobotsDefinition::from_db("x.com".to_string(), vec![(allow, disallow)]);
    assert_eq!(pairs(&back.uas_allow), pairs(&def.uas_allow));
    assert_eq!(pairs(&back.uas_disallow), pairs(&def.uas_disallow));
    assert!(back.sitemaps.is_empty());
}

#[test]
fn robots_from_db_escapes_domain() {
    let back = RobotsDefinition::from_db("o'x.com".to_string(), vec![("a:1".to_string(), "b:2,3".to_string())]);
    assert_eq!(back.domain, "o''x.com");
    assert_eq!(
        RobotsDefinition::from_db_query(&"o'x.com".to_string()),
        "\n            SELECT uas_allow, uas_disallow\n            FROM domains\n            WHERE domain = 'o''x.com'\n        "
    );
}

const URLSET: &str = "<?xml version=\"1.0\"?><urlset><url><loc>https://a.com/</loc></url><url><loc>https://a.com/b</loc></url></urlset>";
const INDEX: &str = "<sitemapindex><sitemap><loc>https://a.com/s1.xml</loc></sitemap><sitemap><loc>https://a.com/s2.xml.gz</loc></sitemap></sitemapindex>";

#[test]
fn sitemap_of_pages() {
    let def = SitemapDefinition::parser(URLSET.to_string());
    assert_eq!(def.outgoing_urls, strings(&["https://a.com/", "https://a.com/b"]));
    assert!(!def.is_index);
    match route_sitemap(def) {
        SitemapRoute::QueueUrls(u) => assert_eq!(u, strings(&["https://a.com/", "https://a.com/b"])),
        SitemapRoute::QueueSitemaps(_) => panic!("not an index"),
    }
}

#[test]
fn sitemap_index() {
    let def = SitemapDefinition::parser(INDEX.to_string());
    assert!(def.is_index);
    match route_sitemap(def) {
        SitemapRoute::QueueSitemaps(s) => assert_eq!(s, strings(&["https://a.com/s1.xml", "https://a.com/s2.xml.gz"])),
        SitemapRoute::QueueUrls(_) => panic!("an index"),
    }
}

#[test]
fn sitemap_invalid_xml() {
    assert!(SitemapDefinition::try_parser("<urlset><url></urlset>".to_string()).is_none());
    assert!(SitemapDefinition::try_parser(URLSET.to_string()).is_some());
}

#[test]
fn sitemap_sources() {
    assert_eq!(SitemapDefinition::source_of("https://a.com/s.xml"), SitemapSource::Xml);
    assert_eq!(SitemapDefinition::source_of("https://a.com/s.tar.gz"), SitemapSource::TarGz);
    assert_eq!(SitemapDefinition::source_of("https://a.com/s.gz"), SitemapSource::Unsupported);
}

#[test]
fn sitemap_bot_queue() {
    let mut bot = SitemapBot::init();
    bot.queue_sitemap("a.xml".to_string());
    bot.queue_sitemap("b.xml".to_string());
    assert_eq!(bot.take_queue(), strings(&["a.xml", "b.xml"]));
    assert!(bot.queue.is_empty());
}

fn tarball(files: &[(&str, &str)]) -> Vec<u8> {
    let mut builder = tar::Builder::new(Vec::new());
    for (name, content) in files {
        let mut header = tar::Header::new_gnu();
        header.set_size(content.len() as u64);
        header.set_mode(0o644);
        header.set_cksum();
        builder.append_data(&mut header, name, content.as_bytes()).unwrap();
    }
    builder.into_inner().unwrap()
}

#[test]
fn tarball_sitemaps_are_read_file_by_file() {
    let buf = tarball(&[("a.xml", URLSET), ("b.xml", INDEX)]);
    let defs = sitemaps_from_tar(&buf).unwrap();
    assert_eq!(defs.len(), 2);
    assert_eq!(defs[0].outgoing_urls, strings(&["https://a.com/", "https://a.com/b"]));
    assert!(!defs[0].is_index);
    assert_eq!(defs[1].outgoing_urls, strings(&["https://a.com/s1.xml", "https://a.com/s2.xml.gz"]));
    assert!(defs[1].is_index);
    assert!(sitemaps_from_tar(&tarball(&[("a.xml", URLSET), ("bad.xml", "<urlset><url></urlset>")])).is_none());
    assert_eq!(sitemaps_from_tar(&tarball(&[])).unwrap().len(), 0);
}

#[test]
fn routing_every_sitemap_of_a_source() {
    let defs = vec![
        SitemapDefinition { outgoing_urls: strings(&["https://a.com/1"]), is_index: false },
        SitemapDefinition { outgoing_urls: strings(&["https://a.com/s.xml"]), is_index: true },
        SitemapDefinition { outgoing_urls: strings(&["https://a.com/2", "https://a.com/3"]), is_index: false },
    ];
    let (urls, sitemaps) = route_all(defs);
    assert_eq!(urls, strings(&["https://a.com/1", "https://a.com/2", "https://a.com/3"]));
    assert_eq!(sitemaps, strings(&["https://a.com/s.xml"]));
    let mut bot = SitemapBot::init();
    bot.queue_sitemap("s1".to_string());
    bot.queue_sitemap("s2".to_string());
    assert_eq!(bot.take_queue(), strings(&["s1", "s2"]));
    bot.queue_sitemap("s3".to_string());
    assert_eq!(bot.take_queue(), strings(&["s3"]));
    assert_eq!(bot.take_queue(), Vec::<String>::new());
}
