//! Text sanitizing for indexing and search, and the encodings used to store
//! text in SQL statements.
use vstd::prelude::*;
use vstd::string::*;
use crate::text::{
    ascii_lowercase, chars_of, find_char, is_ascii_text, lowercase, to_lowercase, first_index_of, join, join_with, lacks, lemma_first_index_after,
    lemma_first_index_of, lemma_join_step, lemma_split_join, split_on, split_on_char, substring,
    views,
};
use crate::user_agents::{
    key_position, keys_distinct, lemma_key_position, rules_set, RulesView, UserAgentRules,
};

verus! {

broadcast use vstd::string::group_string_axioms;

// ---------------------------------------------------------------------------
// Words of a text
// ---------------------------------------------------------------------------

/// `c` is an ASCII letter or digit.
pub open spec fn is_word_char(c: char) -> bool {
    ('a' <= c && c <= 'z') || ('A' <= c && c <= 'Z') || ('0' <= c && c <= '9')
}

/// The pieces of `s` between the characters that are not ASCII letters or
/// digits (each such character separates two pieces; the empty text gives one
/// empty piece).
pub open spec fn split_on_non_word(s: Seq<char>) -> Seq<Seq<char>>
    decreases s.len(),
{
    if s.len() == 0 {
        seq![Seq::<char>::empty()]
    } else {
        let rest = split_on_non_word(s.drop_last());
        if !is_word_char(s.last()) {
            rest.push(Seq::<char>::empty())
        } else {
            rest.update(rest.len() - 1, rest.last().push(s.last()))
        }
    }
}

/// The pieces that are not empty, in order.
pub open spec fn nonempty_pieces(ps: Seq<Seq<char>>) -> Seq<Seq<char>>
    decreases ps.len(),
{
    if ps.len() == 0 {
        Seq::empty()
    } else if ps.last().len() == 0 {
        nonempty_pieces(ps.drop_last())
    } else {
        nonempty_pieces(ps.drop_last()).push(ps.last())
    }
}

/// The words of a text: the maximal runs of ASCII letters and digits of its
/// lowercase form.
pub open spec fn sanitized(s: Seq<char>) -> Seq<Seq<char>> {
    nonempty_pieces(split_on_non_word(lowercase(s)))
}

/// The pattern that matches one character that is not an ASCII letter or digit.
pub open spec fn non_word_pattern() -> Seq<char> {
    seq!['[', '^', 'a', '-', 'z', 'A', '-', 'Z', '0', '-', '9', ']']
}

/// Calls `regex::Regex::new(pattern)` and `Regex::split` on `text`. For the one
/// pattern admitted, a class that matches exactly one character that is not an
/// ASCII letter or digit, the regex crate documents `split` as yielding the
/// parts of the text between consecutive matches (with an empty part around
/// adjacent or boundary matches, and one empty part for an empty text); the
/// contract states that, and that compiling this pattern succeeds.
#[verifier::external_body]
fn regex_split(pattern: &str, text: &str) -> (pieces: Vec<String>)
    requires
        pattern@ == non_word_pattern(),
    ensures
        views(pieces@) == split_on_non_word(text@),
{
    regex::Regex::new(pattern).unwrap().split(text).map(|w| w.to_string()).collect()
}

proof fn lemma_nonempty_pieces_words(ps: Seq<Seq<char>>)
    ensures
        forall|i: int| 0 <= i < nonempty_pieces(ps).len() ==> #[trigger] nonempty_pieces(ps)[i].len() > 0,
    decreases ps.len(),
{
    if ps.len() > 0 {
        let d = ps.drop_last();
        lemma_nonempty_pieces_words(d);
        let r = nonempty_pieces(ps);
        assert forall|i: int| 0 <= i < r.len() implies #[trigger] r[i].len() > 0 by {
            if i < nonempty_pieces(d).len() {
                assert(r[i] == nonempty_pieces(d)[i]);
            }
        }
    }
}

proof fn lemma_split_non_word_chars(s: Seq<char>)
    ensures
        forall|i: int, j: int|
            0 <= i < split_on_non_word(s).len() && 0 <= j < split_on_non_word(s)[i].len()
                ==> is_word_char(#[trigger] split_on_non_word(s)[i][j]),
        split_on_non_word(s).len() >= 1,
    decreases s.len(),
{
    if s.len() > 0 {
        lemma_split_non_word_chars(s.drop_last());
        let rest = split_on_non_word(s.drop_last());
        let r = split_on_non_word(s);
        assert forall|i: int, j: int|
            0 <= i < r.len() && 0 <= j < r[i].len() implies is_word_char(#[trigger] r[i][j]) by {
            if i < rest.len() - 1 {
                assert(r[i] == rest[i]);
            } else if i == rest.len() - 1 && is_word_char(s.last()) {
                if j < rest[i].len() {
                    assert(r[i][j] == rest[i][j]);
                }
            } else if i == rest.len() - 1 {
                assert(r[i] == rest[i]);
            }
        }
    }
}

proof fn lemma_nonempty_pieces_from(ps: Seq<Seq<char>>)
    ensures
        forall|i: int| 0 <= i < nonempty_pieces(ps).len() ==> exists|k: int| 0 <= k < ps.len() && ps[k] == #[trigger] nonempty_pieces(ps)[i],
    decreases ps.len(),
{
    if ps.len() > 0 {
        let d = ps.drop_last();
        lemma_nonempty_pieces_from(d);
        assert forall|i: int| 0 <= i < nonempty_pieces(ps).len() implies exists|k: int| 0 <= k < ps.len() && ps[k] == #[trigger] nonempty_pieces(ps)[i] by {
            if i < nonempty_pieces(d).len() {
                let k = choose|k: int| 0 <= k < d.len() && d[k] == nonempty_pieces(d)[i];
                assert(ps[k] == d[k]);
            } else {
                assert(ps[ps.len() - 1] == nonempty_pieces(ps)[i]);
            }
        }
    }
}

/// Every word of a sanitized text is non-empty and made only of ASCII letters
/// and digits.
pub proof fn lemma_sanitized_words(s: Seq<char>)
    ensures
        forall|i: int| 0 <= i < sanitized(s).len() ==> (#[trigger] sanitized(s)[i]).len() > 0,
        forall|i: int, j: int|
            0 <= i < sanitized(s).len() && 0 <= j < sanitized(s)[i].len() ==> is_word_char(#[trigger] sanitized(s)[i][j]),
{
    let ps = split_on_non_word(lowercase(s));
    lemma_nonempty_pieces_words(ps);
    lemma_nonempty_pieces_from(ps);
    lemma_split_non_word_chars(lowercase(s));
    assert forall|i: int, j: int|
        0 <= i < sanitized(s).len() && 0 <= j < sanitized(s)[i].len() implies is_word_char(#[trigger] sanitized(s)[i][j]) by {
        let k = choose|k: int| 0 <= k < ps.len() && ps[k] == #[trigger] nonempty_pieces(ps)[i];
        assert(ps[k][j] == sanitized(s)[i][j]);
    }
}

/// The non-empty runs of ASCII letters and digits of `lowered`, in order.
pub fn split_words(lowered: &str) -> (words: Vec<String>)
    ensures
        views(words@) == nonempty_pieces(split_on_non_word(lowered@)),
{
    let pattern = "[^a-zA-Z0-9]";
    proof {
        reveal_strlit("[^a-zA-Z0-9]");
        assert(pattern@ =~= non_word_pattern());
    }
    let pieces = regex_split(pattern, lowered);
    let ghost ps = views(pieces@);
    let n = pieces.len();
    let mut words: Vec<String> = Vec::new();
    let mut i: usize = 0;
    proof {
        assert(ps.take(0) =~= Seq::<Seq<char>>::empty());
    }
    while i < n
        invariant
            i <= n,
            n == ps.len(),
            ps == views(pieces@),
            views(words@) == nonempty_pieces(ps.take(i as int)),
        decreases n - i,
    {
        proof {
            assert(ps.take(i + 1).drop_last() =~= ps.take(i as int));
            assert(ps[i as int] == pieces@[i as int]@);
        }
        if !pieces[i].as_str().is_empty() {
            let ghost before = words@;
            words.push(pieces[i].clone());
            assert(views(words@) =~= views(before).push(pieces@[i as int]@));
        }
        i = i + 1;
    }
    proof {
        assert(ps.take(n as int) =~= ps);
    }
    words
}

/// Sanitize a string by removing every non alphanumeric char, lowercasing
/// everything, and splitting the string into a Vec of words.
pub fn sanitize_string(s: &str) -> (words: Vec<String>)
    ensures
        views(words@) == sanitized(s@),
        is_ascii_text(s@) ==> views(words@) == nonempty_pieces(split_on_non_word(ascii_lowercase(s@))),
{
    let lowered = to_lowercase(s);
    split_words(lowered.as_str())
}

// ---------------------------------------------------------------------------
// Apostrophe escaping
// ---------------------------------------------------------------------------

/// `s` with every `'` doubled, as `str::replace("'", "''")` gives it.
pub open spec fn escape_apostrophes(s: Seq<char>) -> Seq<char>
    decreases s.len(),
{
    if s.len() == 0 {
        Seq::<char>::empty()
    } else if s[0] == '\'' {
        seq!['\'', '\''] + escape_apostrophes(s.skip(1))
    } else {
        seq![s[0]] + escape_apostrophes(s.skip(1))
    }
}

/// The text an SQL string literal stands for: each `''` read as one `'`.
pub open spec fn unescape_apostrophes(s: Seq<char>) -> Seq<char>
    decreases s.len(),
{
    if s.len() == 0 {
        Seq::<char>::empty()
    } else if s.len() >= 2 && s[0] == '\'' && s[1] == '\'' {
        seq!['\''] + unescape_apostrophes(s.skip(2))
    } else {
        seq![s[0]] + unescape_apostrophes(s.skip(1))
    }
}

pub proof fn lemma_escape_concat(a: Seq<char>, b: Seq<char>)
    ensures
        escape_apostrophes(a + b) == escape_apostrophes(a) + escape_apostrophes(b),
    decreases a.len(),
{
    if a.len() == 0 {
        assert(a + b =~= b);
    } else {
        lemma_escape_concat(a.skip(1), b);
        assert((a + b).skip(1) =~= a.skip(1) + b);
        assert((a + b)[0] == a[0]);
        if a[0] == '\'' {
            assert(escape_apostrophes(a + b) =~= escape_apostrophes(a) + escape_apostrophes(b));
        } else {
            assert(escape_apostrophes(a + b) =~= escape_apostrophes(a) + escape_apostrophes(b));
        }
    }
}

pub proof fn lemma_escape_clean(s: Seq<char>)
    requires
        lacks(s, '\''),
    ensures
        escape_apostrophes(s) == s,
    decreases s.len(),
{
    if s.len() > 0 {
        assert(lacks(s.skip(1), '\'')) by {
            assert forall|i: int| 0 <= i < s.skip(1).len() implies #[trigger] s.skip(1)[i] != '\'' by {
                assert(s.skip(1)[i] == s[i + 1]);
            }
        }
        lemma_escape_clean(s.skip(1));
        assert(s =~= seq![s[0]] + s.skip(1));
    }
}

/// Reading an escaped text back as the content of an SQL string literal gives
/// the original text: escaping loses nothing.
pub proof fn lemma_escape_roundtrip(s: Seq<char>)
    ensures
        unescape_apostrophes(escape_apostrophes(s)) == s,
    decreases s.len(),
{
    if s.len() > 0 {
        lemma_escape_roundtrip(s.skip(1));
        let e = escape_apostrophes(s);
        if s[0] == '\'' {
            assert(e.skip(2) =~= escape_apostrophes(s.skip(1)));
        } else {
            assert(e.skip(1) =~= escape_apostrophes(s.skip(1)));
        }
        assert(unescape_apostrophes(e) =~= s);
    }
}

/// Escape ' to avoid issues on SQL insertion.
pub fn sql_escape_ap(item: String) -> (out: String)
    ensures
        out@ == escape_apostrophes(item@),
{
    let s = item.as_str();
    let chars = chars_of(s);
    let n = chars.len();
    let mut out = String::new();
    let mut start: usize = 0;
    let mut i: usize = 0;
    proof {
        reveal_strlit("'");
        assert(s@.take(0) =~= Seq::<char>::empty());
    }
    while i < n
        invariant
            0 <= start <= i <= n,
            n == s@.len(),
            chars@ == s@,
            s@ == item@,
            out@ == escape_apostrophes(s@.take(start as int)),
            lacks(s@.subrange(start as int, i as int), '\''),
            "'"@ == seq!['\''],
        decreases n - i,
    {
        if chars[i] == '\'' {
            let piece = substring(s, start, i + 1);
            out.append(piece.as_str());
            out.append("'");
            proof {
                let a = s@.take(start as int);
                let m = s@.subrange(start as int, i as int);
                assert(s@.take(i + 1) =~= a + m + seq!['\'']);
                assert(piece@ =~= m + seq!['\'']);
                lemma_escape_concat(a + m, seq!['\'']);
                lemma_escape_concat(a, m);
                lemma_escape_clean(m);
                assert(seq!['\''].skip(1) =~= Seq::<char>::empty());
                assert(escape_apostrophes(Seq::<char>::empty()) == Seq::<char>::empty());
                assert(escape_apostrophes(seq!['\'']) =~= seq!['\'', '\'']);
                assert(out@ =~= escape_apostrophes(s@.take(i + 1)));
                assert(s@.subrange(i + 1, i + 1) =~= Seq::<char>::empty());
            }
            start = i + 1;
        } else {
            proof {
                assert(lacks(s@.subrange(start as int, i + 1), '\'')) by {
                    assert forall|k: int| 0 <= k < i + 1 - start implies #[trigger] s@.subrange(start as int, i + 1)[k] != '\'' by {
                        if k < i - start {
                            assert(s@.subrange(start as int, i + 1)[k] == s@.subrange(start as int, i as int)[k]);
                        }
                    }
                }
            }
        }
        i = i + 1;
    }
    let last = substring(s, start, n);
    out.append(last.as_str());
    proof {
        let a = s@.take(start as int);
        let m = s@.subrange(start as int, n as int);
        assert(s@ =~= a + m);
        lemma_escape_concat(a, m);
        lemma_escape_clean(m);
    }
    out
}

// ---------------------------------------------------------------------------
// User-agent rules in the database
// ---------------------------------------------------------------------------

/// One entry as stored: `agent:path1,path2,...`.
pub open spec fn encode_entry(e: (Seq<char>, Seq<Seq<char>>)) -> Seq<char> {
    e.0 + seq![':'] + join_with(e.1, seq![','])
}

/// The stored form of each entry, in order.
pub open spec fn encoded_entries(r: RulesView) -> Seq<Seq<char>> {
    r.map_values(|e: (Seq<char>, Seq<Seq<char>>)| encode_entry(e))
}

/// The stored form of rules: the entries, in order, separated by spaces.
pub open spec fn encode_uas(r: RulesView) -> Seq<char> {
    join_with(encoded_entries(r), seq![' '])
}

/// The user agent of a stored entry: what stands before its first `:`.
pub open spec fn stored_agent(p: Seq<char>) -> Seq<char> {
    p.take(first_index_of(p, ':'))
}

/// The paths of a stored entry: what follows its first `:`, split at `,`.
pub open spec fn stored_paths(p: Seq<char>) -> Seq<Seq<char>> {
    split_on_char(p.skip(first_index_of(p, ':') + 1), ',')
}

/// The rules that stored entries stand for; a later entry of the same user
/// agent replaces the paths of an earlier one.
pub open spec fn decode_entries(ps: Seq<Seq<char>>) -> RulesView
    decreases ps.len(),
{
    if ps.len() == 0 {
        Seq::empty()
    } else {
        rules_set(decode_entries(ps.drop_last()), stored_agent(ps.last()), stored_paths(ps.last()))
    }
}

/// The rules that a stored text stands for.
pub open spec fn decode_uas(s: Seq<char>) -> RulesView {
    decode_entries(split_on_char(s, ' '))
}

/// Every space-separated entry of `s` holds a `:`.
pub open spec fn uas_decodable(s: Seq<char>) -> bool {
    forall|i: int|
        0 <= i < split_on_char(s, ' ').len() ==> first_index_of(#[trigger] split_on_char(s, ' ')[i], ':') >= 0
}

/// Encode a User-Agent restrictions map for storage in the database.
pub fn sql_encode_uas(source: UserAgentRules) -> (out: String)
    ensures
        out@ == encode_uas(source@),
{
    let n = source.len();
    let ghost enc = encoded_entries(source@);
    let mut pieces: Vec<String> = Vec::new();
    let mut i: usize = 0;
    while i < n
        invariant
            i <= n,
            n == source@.len(),
            enc == encoded_entries(source@),
            views(pieces@) == enc.take(i as int),
        decreases n - i,
    {
        proof {
            reveal_strlit(":");
            reveal_strlit(",");
            assert(":"@ =~= seq![':']);
            assert(","@ =~= seq![',']);
        }
        let mut piece = source.agent_at(i).clone();
        piece.append(":");
        let paths = join(source.paths_at(i), ",");
        assert(paths@ == join_with(source@[i as int].1, seq![',']));
        piece.append(paths.as_str());
        assert(piece@ =~= encode_entry(source@[i as int]));
        let ghost before = pieces@;
        pieces.push(piece);
        assert(views(pieces@) =~= enc.take(i + 1)) by {
            assert(views(pieces@) =~= views(before).push(piece@));
        }
        i = i + 1;
    }
    proof {
        assert(enc.take(n as int) =~= enc);
        reveal_strlit(" ");
        assert(" "@ =~= seq![' ']);
    }
    join(&pieces, " ")
}

/// Decode a User-Agent restrictions map encoded by `sql_encode_uas`.
pub fn sql_decode_uas(source: String) -> (out: UserAgentRules)
    requires
        uas_decodable(source@),
    ensures
        out@ == decode_uas(source@),
        out.wf(),
{
    let pieces = split_on(source.as_str(), ' ');
    let ghost ps = views(pieces@);
    let n = pieces.len();
    let mut out = UserAgentRules::new();
    let mut i: usize = 0;
    proof {
        assert(ps.take(0) =~= Seq::<Seq<char>>::empty());
    }
    while i < n
        invariant
            i <= n,
            n == ps.len(),
            ps == views(pieces@),
            ps == split_on_char(source@, ' '),
            uas_decodable(source@),
            out@ == decode_entries(ps.take(i as int)),
            out.wf(),
        decreases n - i,
    {
        let piece = pieces[i].as_str();
        let chars = chars_of(piece);
        let found = find_char(&chars, ':');
        proof {
            assert(ps[i as int] == piece@);
            assert(first_index_of(split_on_char(source@, ' ')[i as int], ':') >= 0);
            lemma_first_index_of(piece@, ':');
            lemma_first_index_of(chars@, ':');
        }
        let colon = match found {
            Some(c) => c,
            None => {
                return out;  // unreachable: every entry holds a ':'
            },
        };
        let clen = chars.len();
        let agent = substring(piece, 0, colon);
        let rest = substring(piece, colon + 1, clen);
        let paths = split_on(rest.as_str(), ',');
        out.set(agent, paths);
        proof {
            assert(ps.take(i + 1).drop_last() =~= ps.take(i as int));
            assert(piece@.take(colon as int) =~= piece@.subrange(0, colon as int));
        }
        i = i + 1;
    }
    proof {
        assert(ps.take(n as int) =~= ps);
    }
    out
}

/// The paths of stored rules keep their meaning when each is free of the
/// characters that separate them.
pub open spec fn uas_storable(r: RulesView) -> bool {
    &&& r.len() >= 1
    &&& keys_distinct(r)
    &&& forall|i: int|
        0 <= i < r.len() ==> {
            &&& lacks(#[trigger] r[i].0, ' ')
            &&& lacks(r[i].0, ':')
            &&& r[i].1.len() >= 1
            &&& forall|j: int| 0 <= j < r[i].1.len() ==> lacks(#[trigger] r[i].1[j], ' ') && lacks(r[i].1[j], ',')
        }
}

proof fn lemma_join_lacks(parts: Seq<Seq<char>>, sep: Seq<char>, c: char)
    requires
        lacks(sep, c),
        forall|i: int| 0 <= i < parts.len() ==> lacks(#[trigger] parts[i], c),
    ensures
        lacks(join_with(parts, sep), c),
    decreases parts.len(),
{
    if parts.len() > 1 {
        let init = parts.drop_last();
        assert forall|i: int| 0 <= i < init.len() implies lacks(#[trigger] init[i], c) by {
            assert(init[i] == parts[i]);
        }
        lemma_join_lacks(init, sep, c);
        let j = join_with(init, sep);
        let l = parts.last();
        assert(lacks(l, c));
        assert forall|k: int| 0 <= k < (j + sep + l).len() implies #[trigger] (j + sep + l)[k] != c by {
            if k < j.len() {
                assert((j + sep + l)[k] == j[k]);
            } else if k < j.len() + sep.len() {
                assert((j + sep + l)[k] == sep[k - j.len()]);
            } else {
                assert((j + sep + l)[k] == l[k - j.len() - sep.len()]);
            }
        }
    } else if parts.len() == 1 {
        assert(lacks(parts[0], c));
    }
}

/// Decoding the first `i` stored entries of storable rules gives their first
/// `i` entries.
proof fn lemma_decode_prefix(r: RulesView, i: int)
    requires
        uas_storable(r),
        0 <= i <= r.len(),
    ensures
        decode_entries(encoded_entries(r).take(i)) == r.take(i),
    decreases i,
{
    let enc = encoded_entries(r);
    if i == 0 {
        assert(enc.take(0) =~= Seq::<Seq<char>>::empty());
        assert(r.take(0) =~= Seq::<(Seq<char>, Seq<Seq<char>>)>::empty());
    } else {
        lemma_decode_prefix(r, i - 1);
        assert(enc.take(i).drop_last() =~= enc.take(i - 1));
        let e = r[i - 1];
        let p = enc[i - 1];
        assert(p == encode_entry(e));
        assert(lacks(e.0, ':'));
        let tail = seq![':'] + join_with(e.1, seq![',']);
        assert(p =~= e.0 + tail);
        lemma_first_index_after(e.0, tail, ':');
        assert(stored_agent(p) =~= e.0);
        assert(p.skip(e.0.len() as int + 1) =~= join_with(e.1, seq![',']));
        assert forall|j: int| 0 <= j < e.1.len() implies lacks(#[trigger] e.1[j], ',') by {
            assert(lacks(r[i - 1].1[j], ','));
        }
        lemma_split_join(e.1, ',');
        assert(stored_paths(p) == e.1);
        lemma_key_position(r.take(i - 1), e.0);
        if key_position(r.take(i - 1), e.0) >= 0 {
            let k = key_position(r.take(i - 1), e.0);
            assert(r[k].0 == r.take(i - 1)[k].0);
        }
        assert(r.take(i) =~= r.take(i - 1).push(e));
    }
}

/// Rules stored with `sql_encode_uas` are read back unchanged by
/// `sql_decode_uas`, provided there is at least one user agent, no user agent
/// holds a space or a `:`, and every user agent has at least one path, none
/// holding a space or a `,`.
pub proof fn lemma_uas_roundtrip(r: RulesView)
    requires
        uas_storable(r),
    ensures
        uas_decodable(encode_uas(r)),
        decode_uas(encode_uas(r)) == r,
{
    let enc = encoded_entries(r);
    assert forall|i: int| 0 <= i < enc.len() implies lacks(#[trigger] enc[i], ' ') by {
        let e = r[i];
        assert(lacks(e.0, ' '));
        assert forall|j: int| 0 <= j < e.1.len() implies lacks(#[trigger] e.1[j], ' ') by {
            assert(lacks(r[i].1[j], ' '));
        }
        lemma_join_lacks(e.1, seq![','], ' ');
        let w = join_with(e.1, seq![',']);
        let x = e.0 + seq![':'] + w;
        assert forall|k: int| 0 <= k < x.len() implies #[trigger] x[k] != ' ' by {
            if k < e.0.len() {
                assert(x[k] == e.0[k]);
            } else if k > e.0.len() {
                assert(x[k] == w[k - e.0.len() - 1]);
            }
        }
    }
    lemma_split_join(enc, ' ');
    assert(split_on_char(encode_uas(r), ' ') == enc);
    assert forall|i: int| 0 <= i < enc.len() implies first_index_of(#[trigger] enc[i], ':') >= 0 by {
        let e = r[i];
        assert(lacks(e.0, ':'));
        let tail = seq![':'] + join_with(e.1, seq![',']);
        assert(enc[i] =~= e.0 + tail);
        lemma_first_index_after(e.0, tail, ':');
    }
    lemma_decode_prefix(r, r.len() as int);
    assert(enc.take(r.len() as int) =~= enc);
    assert(r.take(r.len() as int) =~= r);
}

} // verus!
