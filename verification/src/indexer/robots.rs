//! robots.txt files: reading their rules, and storing them per domain.
//!
//! We need a custom robots.txt parser as none exists for Rust. The convention
//! for robots.txt is fairly easy so there should not be implementation issues.
//! Sitemaps declared in the robots file are not saved on the database.
use vstd::prelude::*;
use vstd::string::*;
use crate::db::domains::{create_row, domain_row_stmt};
use crate::sanitize::{
    decode_uas, encode_uas, escape_apostrophes, lemma_escape_roundtrip, lemma_uas_roundtrip,
    sql_decode_uas, sql_escape_ap, uas_decodable, uas_storable, unescape_apostrophes,
};
use crate::text::{
    chars_of, find_char, first_index_of, lemma_first_index_of, lowercase, split_on,
    split_on_char, substring, to_lowercase, views,
};
use crate::url_parts::{
    parse_url, rewrite_scheme_and_path, url_parse, url_with_scheme_and_path, opt_view,
    UrlParseError, UrlPartsView,
};
use crate::user_agents::{lemma_paths_after_add, paths_of, rules_add, RulesView, UserAgentRules};

verus! {

broadcast use vstd::string::group_string_axioms;

// ---------------------------------------------------------------------------
// The abstract reading of a robots.txt file
// ---------------------------------------------------------------------------

/// A line without the carriage return that ends it, if any.
pub open spec fn strip_cr(l: Seq<char>) -> Seq<char> {
    if l.len() > 0 && l.last() == '\r' {
        l.drop_last()
    } else {
        l
    }
}

/// The lines of a text as `str::lines` gives them: split at each `\n`, with a
/// `\r` just before the `\n` removed (a final empty line is kept; it is
/// skipped as every empty line is).
pub open spec fn robots_lines(content: Seq<char>) -> Seq<Seq<char>> {
    let parts = split_on_char(content, '\n');
    Seq::new(parts.len(), |i: int| if i < parts.len() - 1 { strip_cr(parts[i]) } else { parts[i] })
}

/// A line that holds a directive: not empty and not a comment.
pub open spec fn is_directive(l: Seq<char>) -> bool {
    l.len() > 0 && l[0] != '#'
}

/// `s` without its spaces.
pub open spec fn without_spaces(s: Seq<char>) -> Seq<char>
    decreases s.len(),
{
    if s.len() == 0 {
        s
    } else if s.last() == ' ' {
        without_spaces(s.drop_last())
    } else {
        without_spaces(s.drop_last()).push(s.last())
    }
}

/// The directive of a line: what stands before its first `:`, lowercased.
pub open spec fn directive_of(l: Seq<char>) -> Seq<char> {
    lowercase(l.take(first_index_of(l, ':')))
}

/// The value of a line: what follows its first `:`, without spaces.
pub open spec fn value_of(l: Seq<char>) -> Seq<char> {
    without_spaces(l.skip(first_index_of(l, ':') + 1))
}

pub open spec fn user_agent_word() -> Seq<char> {
    seq!['u', 's', 'e', 'r', '-', 'a', 'g', 'e', 'n', 't']
}

pub open spec fn allow_word() -> Seq<char> {
    seq!['a', 'l', 'l', 'o', 'w']
}

pub open spec fn disallow_word() -> Seq<char> {
    seq!['d', 'i', 's', 'a', 'l', 'l', 'o', 'w']
}

pub open spec fn sitemap_word() -> Seq<char> {
    seq!['s', 'i', 't', 'e', 'm', 'a', 'p']
}

/// What reading a robots.txt file has gathered so far.
pub struct RobotsState {
    /// The user agent the following rules apply to.
    pub agent: Seq<char>,
    pub allow: RulesView,
    pub disallow: RulesView,
    pub sitemaps: Seq<Seq<char>>,
}

/// Reading one line: `user-agent` sets the current user agent, `allow` and
/// `disallow` add a path to its rules, `sitemap` adds a sitemap; any other
/// directive, empty line or comment changes nothing.
pub open spec fn robots_step(st: RobotsState, l: Seq<char>) -> RobotsState {
    if !is_directive(l) {
        st
    } else {
        let d = directive_of(l);
        let v = value_of(l);
        if d == user_agent_word() {
            RobotsState { agent: v, ..st }
        } else if d == allow_word() {
            RobotsState { allow: rules_add(st.allow, st.agent, v), ..st }
        } else if d == disallow_word() {
            RobotsState { disallow: rules_add(st.disallow, st.agent, v), ..st }
        } else if d == sitemap_word() {
            RobotsState { sitemaps: st.sitemaps.push(v), ..st }
        } else {
            st
        }
    }
}

/// Reading lines in order, from no user agent (the empty one) and no rules.
pub open spec fn robots_read(ls: Seq<Seq<char>>) -> RobotsState
    decreases ls.len(),
{
    if ls.len() == 0 {
        RobotsState { agent: Seq::empty(), allow: Seq::empty(), disallow: Seq::empty(), sitemaps: Seq::empty() }
    } else {
        robots_step(robots_read(ls.drop_last()), ls.last())
    }
}

/// The user agent named by the last `user-agent` line of `ls` (the empty
/// one before any).
pub open spec fn agent_after(ls: Seq<Seq<char>>) -> Seq<char>
    decreases ls.len(),
{
    if ls.len() == 0 {
        Seq::empty()
    } else if is_directive(ls.last()) && directive_of(ls.last()) == user_agent_word() {
        value_of(ls.last())
    } else {
        agent_after(ls.drop_last())
    }
}

/// The values of the lines of `ls` whose directive is `word` and that stand
/// in the group of user agent `a` (the last `user-agent` line before them
/// names `a`), in file order.
pub open spec fn group_values(ls: Seq<Seq<char>>, a: Seq<char>, word: Seq<char>) -> Seq<Seq<char>>
    decreases ls.len(),
{
    if ls.len() == 0 {
        Seq::empty()
    } else {
        let l = ls.last();
        let earlier = group_values(ls.drop_last(), a, word);
        if is_directive(l) && directive_of(l) == word && agent_after(ls.drop_last()) == a {
            earlier.push(value_of(l))
        } else {
            earlier
        }
    }
}

/// The sitemaps of `ls`: the values of its `sitemap` lines, in file order.
pub open spec fn declared_sitemaps(ls: Seq<Seq<char>>) -> Seq<Seq<char>>
    decreases ls.len(),
{
    if ls.len() == 0 {
        Seq::empty()
    } else if is_directive(ls.last()) && directive_of(ls.last()) == sitemap_word() {
        declared_sitemaps(ls.drop_last()).push(value_of(ls.last()))
    } else {
        declared_sitemaps(ls.drop_last())
    }
}

/// Reading a robots.txt file: each user agent's disallowed paths are all the
/// values of the `Disallow` lines of its groups, in file order (a line adds
/// its value and keeps the earlier ones), and likewise its allowed paths
/// with the `Allow` lines; the sitemaps are the values of the `Sitemap`
/// lines, in order.
pub proof fn lemma_robots_groups(ls: Seq<Seq<char>>)
    ensures
        robots_read(ls).agent == agent_after(ls),
        forall|a: Seq<char>| #[trigger] paths_of(robots_read(ls).disallow, a) == group_values(ls, a, disallow_word()),
        forall|a: Seq<char>| #[trigger] paths_of(robots_read(ls).allow, a) == group_values(ls, a, allow_word()),
        robots_read(ls).sitemaps == declared_sitemaps(ls),
    decreases ls.len(),
{
    if ls.len() == 0 {
        assert forall|a: Seq<char>| #[trigger] paths_of(robots_read(ls).disallow, a) == group_values(ls, a, disallow_word()) by {
        }
        assert forall|a: Seq<char>| #[trigger] paths_of(robots_read(ls).allow, a) == group_values(ls, a, allow_word()) by {
        }
    } else {
        let d = ls.drop_last();
        lemma_robots_groups(d);
        let st = robots_read(d);
        let l = ls.last();
        assert(user_agent_word() != disallow_word());
        assert(user_agent_word() != allow_word());
        assert(allow_word() != disallow_word());
        assert(sitemap_word() != disallow_word());
        assert(sitemap_word() != allow_word());
        assert(sitemap_word() != user_agent_word());
        assert forall|a: Seq<char>| #[trigger] paths_of(robots_read(ls).disallow, a) == group_values(ls, a, disallow_word()) by {
            assert(paths_of(st.disallow, a) == group_values(d, a, disallow_word()));
            lemma_paths_after_add(st.disallow, st.agent, value_of(l), a);
        }
        assert forall|a: Seq<char>| #[trigger] paths_of(robots_read(ls).allow, a) == group_values(ls, a, allow_word()) by {
            assert(paths_of(st.allow, a) == group_values(d, a, allow_word()));
            lemma_paths_after_add(st.allow, st.agent, value_of(l), a);
        }
    }
}

/// Every directive line of the file holds a `:` (a line without one stops
/// the reading).
pub open spec fn robots_parsable(content: Seq<char>) -> bool {
    forall|i: int|
        0 <= i < robots_lines(content).len() && is_directive(#[trigger] robots_lines(content)[i])
            ==> first_index_of(robots_lines(content)[i], ':') >= 0
}

// ---------------------------------------------------------------------------
// Reading, executable
// ---------------------------------------------------------------------------

/// `s` without its spaces.
pub fn remove_spaces(s: &str) -> (out: String)
    ensures
        out@ == without_spaces(s@),
{
    let chars = chars_of(s);
    let n = chars.len();
    let mut out = String::new();
    let mut start: usize = 0;
    let mut i: usize = 0;
    proof {
        assert(s@.take(0) =~= Seq::<char>::empty());
    }
    while i < n
        invariant
            0 <= start <= i <= n,
            n == s@.len(),
            chars@ == s@,
            out@ + s@.subrange(start as int, i as int) == without_spaces(s@.take(i as int)),
        decreases n - i,
    {
        proof {
            assert(s@.take(i + 1).drop_last() =~= s@.take(i as int));
            assert(s@.take(i + 1).last() == s@[i as int]);
        }
        if chars[i] == ' ' {
            let piece = substring(s, start, i);
            out.append(piece.as_str());
            start = i + 1;
            proof {
                assert(s@.subrange(start as int, i + 1) =~= Seq::<char>::empty());
                assert(out@ + s@.subrange(start as int, i + 1) =~= out@);
            }
        } else {
            proof {
                assert(s@.subrange(start as int, i + 1) =~= s@.subrange(start as int, i as int).push(s@[i as int]));
                assert(out@ + s@.subrange(start as int, i + 1) =~= (out@ + s@.subrange(start as int, i as int)).push(s@[i as int]));
            }
        }
        i = i + 1;
    }
    let last = substring(s, start, n);
    out.append(last.as_str());
    proof {
        assert(s@.take(n as int) =~= s@);
    }
    out
}

/// The line without the carriage return that ends it, if any.
fn strip_carriage_return(l: &str) -> (out: String)
    ensures
        out@ == strip_cr(l@),
{
    let chars = chars_of(l);
    let n = chars.len();
    if n > 0 && chars[n - 1] == '\r' {
        substring(l, 0, n - 1)
    } else {
        substring(l, 0, n)
    }
}

struct RobotsReader {
    agent: String,
    allow: UserAgentRules,
    disallow: UserAgentRules,
    sitemaps: Vec<String>,
}

impl RobotsReader {
    spec fn state(&self) -> RobotsState {
        RobotsState { agent: self.agent@, allow: self.allow@, disallow: self.disallow@, sitemaps: views(self.sitemaps@) }
    }

    fn read_line(&mut self, l: &str)
        requires
            is_directive(l@) ==> first_index_of(l@, ':') >= 0,
        ensures
            final(self).state() == robots_step(old(self).state(), l@),
            old(self).allow.wf() ==> final(self).allow.wf(),
            old(self).disallow.wf() ==> final(self).disallow.wf(),
    {
        let chars = chars_of(l);
        let n = chars.len();
        if n == 0 || chars[0] == '#' {
            return;
        }
        proof {
            lemma_first_index_of(chars@, ':');
        }
        let colon = match find_char(&chars, ':') {
            Some(c) => c,
            None => {
                return;  // unreachable: see the requires
            },
        };
        let directive = to_lowercase(substring(l, 0, colon).as_str());
        let value = remove_spaces(substring(l, colon + 1, n).as_str());
        proof {
            assert(l@.subrange(0, colon as int) =~= l@.take(colon as int));
            assert(l@.subrange(colon + 1, n as int) =~= l@.skip(colon + 1));
            reveal_strlit("user-agent");
            reveal_strlit("allow");
            reveal_strlit("disallow");
            reveal_strlit("sitemap");
            assert("user-agent"@ =~= user_agent_word());
            assert("allow"@ =~= allow_word());
            assert("disallow"@ =~= disallow_word());
            assert("sitemap"@ =~= sitemap_word());
        }
        if directive == String::from_str("user-agent") {
            self.agent = value;
        } else if directive == String::from_str("allow") {
            self.allow.add(&self.agent, value);
        } else if directive == String::from_str("disallow") {
            self.disallow.add(&self.agent, value);
        } else if directive == String::from_str("sitemap") {
            let ghost before = views(self.sitemaps@);
            self.sitemaps.push(value);
            assert(views(self.sitemaps@) =~= before.push(value@));
        }
    }
}

/// What was read of a robots.txt file of a domain: per user agent, the paths
/// allowed and disallowed, and the sitemaps declared.
pub struct RobotsDefinition {
    pub domain: String,
    pub uas_disallow: UserAgentRules,
    pub uas_allow: UserAgentRules,
    pub sitemaps: Vec<String>,
}

impl RobotsDefinition {
    /// Reads the rules of a robots.txt file of `domain`.
    pub fn from_robots_txt(domain: String, content: &str) -> (def: Self)
        requires
            robots_parsable(content@),
        ensures
            def.domain@ == domain@,
            def.uas_allow@ == robots_read(robots_lines(content@)).allow,
            def.uas_disallow@ == robots_read(robots_lines(content@)).disallow,
            views(def.sitemaps@) == robots_read(robots_lines(content@)).sitemaps,
            def.uas_allow.wf(),
            def.uas_disallow.wf(),
    {
        let parts = split_on(content, '\n');
        let ghost ls = robots_lines(content@);
        let n = parts.len();
        proof {
            crate::text::lemma_split_nonempty(content@, '\n');
        }
        let mut reader = RobotsReader {
            agent: String::new(),
            allow: UserAgentRules::new(),
            disallow: UserAgentRules::new(),
            sitemaps: Vec::new(),
        };
        let mut i: usize = 0;
        proof {
            assert(ls.take(0) =~= Seq::<Seq<char>>::empty());
            assert(views(reader.sitemaps@) =~= Seq::<Seq<char>>::empty());
            assert(reader.state() == robots_read(ls.take(0)));
        }
        while i < n
            invariant
                i <= n,
                n == ls.len(),
                n >= 1,
                ls == robots_lines(content@),
                views(parts@) == split_on_char(content@, '\n'),
                robots_parsable(content@),
                reader.state() == robots_read(ls.take(i as int)),
                reader.allow.wf(),
                reader.disallow.wf(),
            decreases n - i,
        {
            let line = if i + 1 < n {
                strip_carriage_return(parts[i].as_str())
            } else {
                parts[i].clone()
            };
            proof {
                assert(line@ == ls[i as int]);
                assert(ls.take(i + 1).drop_last() =~= ls.take(i as int));
                assert(ls.take(i + 1).last() == ls[i as int]);
            }
            reader.read_line(line.as_str());
            i = i + 1;
        }
        proof {
            assert(ls.take(n as int) =~= ls);
        }
        RobotsDefinition {
            domain,
            uas_disallow: reader.disallow,
            uas_allow: reader.allow,
            sitemaps: reader.sitemaps,
        }
    }

    /// The query that reads the stored rules of `domain` (escaped).
    pub fn from_db_query(domain: &String) -> (q: String)
        ensures
            q@ == "\n            SELECT uas_allow, uas_disallow\n            FROM domains\n            WHERE domain = '"@
                + escape_apostrophes(domain@) + "'\n        "@,
    {
        let domain = sql_escape_ap(domain.clone());
        let mut q = String::from_str("\n            SELECT uas_allow, uas_disallow\n            FROM domains\n            WHERE domain = '");
        q.append(domain.as_str());
        q.append("'\n        ");
        q
    }

    /// Recovers a domain's rules from the rows its query gave (the allowed
    /// and the disallowed rules, as stored), reading the first row.
    /// WARN: Using this function to recover a domain's data will not recover
    /// sitemaps.
    pub fn from_db(domain: String, rows: Vec<(String, String)>) -> (def: Self)
        requires
            rows@.len() >= 1,
            uas_decodable(rows@[0].0@),
            uas_decodable(rows@[0].1@),
        ensures
            def.domain@ == escape_apostrophes(domain@),
            def.uas_allow@ == decode_uas(rows@[0].0@),
            def.uas_disallow@ == decode_uas(rows@[0].1@),
            def.sitemaps@.len() == 0,
            def.uas_allow.wf(),
            def.uas_disallow.wf(),
    {
        let domain = sql_escape_ap(domain);
        let uas_allow = sql_decode_uas(rows[0].0.clone());
        let uas_disallow = sql_decode_uas(rows[0].1.clone());
        RobotsDefinition { domain, uas_allow, uas_disallow, sitemaps: Vec::new() }
    }

    /// The statement that saves the domain and its rules, visited at
    /// `now_millis` (milliseconds since the Unix epoch). The domain is not
    /// marked as checked for ownership (0) and has no owner (empty).
    /// Sitemaps are not saved.
    pub fn db_save(&self, now_millis: u128) -> (stmt: String)
        ensures
            stmt@ == domain_row_stmt(
                true,
                self.domain@,
                now_millis as nat,
                0,
                encode_uas(self.uas_allow@),
                encode_uas(self.uas_disallow@),
                Seq::empty(),
            ),
    {
        create_row(
            self.domain.clone(),
            now_millis,
            0,
            self.uas_allow.duplicate(),
            self.uas_disallow.duplicate(),
            String::new(),
        )
    }

    /// Whether every directive line of `content` holds a `:`, which reading
    /// it needs.
    pub fn parsable(content: &str) -> (b: bool)
        ensures
            b == robots_parsable(content@),
    {
        let parts = split_on(content, '\n');
        let ghost ls = robots_lines(content@);
        let n = parts.len();
        let mut i: usize = 0;
        while i < n
            invariant
                i <= n,
                n == ls.len(),
                ls == robots_lines(content@),
                views(parts@) == split_on_char(content@, '\n'),
                forall|k: int| 0 <= k < i && is_directive(#[trigger] ls[k]) ==> first_index_of(ls[k], ':') >= 0,
            decreases n - i,
        {
            let line = if i + 1 < n {
                strip_carriage_return(parts[i].as_str())
            } else {
                parts[i].clone()
            };
            assert(line@ == ls[i as int]);
            let chars = chars_of(line.as_str());
            if chars.len() > 0 && chars[0] != '#' {
                if find_char(&chars, ':').is_none() {
                    return false;
                }
            }
            i = i + 1;
        }
        true
    }
}

/// The URL the robots.txt location is built from: `domain` itself, or, when
/// it is a bare domain (a relative URL), `domain` behind `https://`.
pub open spec fn robots_base(domain: Seq<char>) -> Seq<char> {
    if url_parse(domain) == Err::<UrlPartsView, UrlParseError>(UrlParseError::RelativeUrlWithoutBase) {
        "https://"@ + domain
    } else {
        domain
    }
}

/// `robots_txt_url` does not fail on `domain`: when its base parses, the
/// base's scheme can be changed to `https`.
pub open spec fn robots_url_defined(domain: Seq<char>) -> bool {
    url_parse(robots_base(domain)) is Ok ==> url_with_scheme_and_path(robots_base(domain), "https"@, "robots.txt"@) is Some
}

/// What `robots_txt_url` gives: the base's URL with the `https` scheme and
/// the path `robots.txt`, or why the base does not parse.
pub open spec fn robots_url_result(r: Result<String, UrlParseError>, domain: Seq<char>) -> bool {
    match url_parse(robots_base(domain)) {
        Err(e) => r == Err::<String, UrlParseError>(e),
        Ok(_) => r matches Ok(u) && Some(u@) == url_with_scheme_and_path(robots_base(domain), "https"@, "robots.txt"@),
    }
}

/// The base URL of `domain`, as `robots_base` gives it.
fn robots_base_of(domain: &String) -> (b: String)
    ensures
        b@ == robots_base(domain@),
{
    match parse_url(domain.as_str()) {
        Err(UrlParseError::RelativeUrlWithoutBase) => {
            let mut b = String::from_str("https://");
            b.append(domain.as_str());
            proof {
                reveal_strlit("https://");
            }
            b
        },
        _ => domain.clone(),
    }
}

/// The URL of the robots.txt file of `domain`: a bare domain such as
/// `example.com` is read as `https://example.com`.
pub fn robots_txt_url(domain: &String) -> (r: Result<String, UrlParseError>)
    requires
        robots_url_defined(domain@),
    ensures
        robots_url_result(r, domain@),
{
    let base = robots_base_of(domain);
    let _ = parse_url(base.as_str())?;
    match rewrite_scheme_and_path(base.as_str(), "https", "robots.txt") {
        Some(u) => Ok(u),
        None => Err(UrlParseError::Other),  // unreachable: see the requires
    }
}

/// `robots_txt_url` where it is defined; `None` for a domain whose scheme
/// cannot become `https`.
pub fn try_robots_txt_url(domain: &String) -> (r: Option<Result<String, UrlParseError>>)
    ensures
        r is None <==> !robots_url_defined(domain@),
        r matches Some(res) ==> robots_url_result(res, domain@),
{
    let base = robots_base_of(domain);
    if parse_url(base.as_str()).is_ok() {
        if rewrite_scheme_and_path(base.as_str(), "https", "robots.txt").is_none() {
            return None;
        }
    }
    Some(robots_txt_url(domain))
}

/// What a robots.txt rule set saved by `db_save` is read back as by
/// `from_db`: the database keeps the escaped text as the unescaped literal,
/// and decoding it gives the rules again, whenever they are storable (at least
/// one user agent, no user agent holding a space or a `:`, every user agent
/// with at least one path, no path holding a space or a `,`).
pub proof fn lemma_rules_storage_roundtrip(r: RulesView)
    requires
        uas_storable(r),
    ensures
        uas_decodable(unescape_apostrophes(escape_apostrophes(encode_uas(r)))),
        decode_uas(unescape_apostrophes(escape_apostrophes(encode_uas(r)))) == r,
{
    lemma_escape_roundtrip(encode_uas(r));
    lemma_uas_roundtrip(r);
}

} // verus!
