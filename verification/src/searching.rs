//! Searching: the queries a search runs.
//!
//! A query string is decomposed into a list of words; each word's table gives
//! the best scored sites for it (at most 100).
use vstd::prelude::*;
use vstd::string::*;
use crate::sanitize::{sanitize_string, sanitized};
use crate::text::views;

verus! {

broadcast use vstd::string::group_string_axioms;

/// The query that reads the 100 best scored sites of word `w`, with their
/// score, type-token ratio, title and description.
pub open spec fn word_query_text(w: Seq<char>) -> Seq<char> {
    "\n                SELECT w_"@ + w + ".url, \n                    w_"@ + w
        + ".score, \n                    sites.ttr, \n                    sites.title,\n                    sites.description \n                FROM w_"@
        + w + " \n                INNER JOIN sites ON w_"@ + w + ".url = sites.url\n                ORDER BY w_"@ + w
        + ".score DESC\n                LIMIT 100\n            "@
}

/// The query that reads the best scored sites of word `w`.
pub fn word_query(w: &String) -> (q: String)
    ensures
        q@ == word_query_text(w@),
{
    let mut q = String::from_str("\n                SELECT w_");
    q.append(w.as_str());
    q.append(".url, \n                    w_");
    q.append(w.as_str());
    q.append(".score, \n                    sites.ttr, \n                    sites.title,\n                    sites.description \n                FROM w_");
    q.append(w.as_str());
    q.append(" \n                INNER JOIN sites ON w_");
    q.append(w.as_str());
    q.append(".url = sites.url\n                ORDER BY w_");
    q.append(w.as_str());
    q.append(".score DESC\n                LIMIT 100\n            ");
    q
}

/// The queries a search for `query` runs: one per word of the query, in
/// order.
pub fn feeling_lucky_queries(query: &str) -> (qs: Vec<String>)
    ensures
        qs@.len() == sanitized(query@).len(),
        forall|i: int| 0 <= i < qs@.len() ==> (#[trigger] qs@[i])@ == word_query_text(sanitized(query@)[i]),
{
    let words = sanitize_string(query);
    let n = words.len();
    let mut qs: Vec<String> = Vec::new();
    let mut i: usize = 0;
    while i < n
        invariant
            i <= n,
            n == words@.len(),
            views(words@) == sanitized(query@),
            qs@.len() == i,
            forall|k: int| 0 <= k < i ==> (#[trigger] qs@[k])@ == word_query_text(sanitized(query@)[k]),
        decreases n - i,
    {
        let q = word_query(&words[i]);
        assert(words@[i as int]@ == sanitized(query@)[i as int]);
        qs.push(q);
        i = i + 1;
    }
    qs
}

/// `t` stands in `s` at position `i`.
pub open spec fn occurs_at(s: Seq<char>, t: Seq<char>, i: int) -> bool {
    0 <= i && i + t.len() <= s.len() && s.subrange(i, i + t.len()) == t
}

/// The word query selects, in this order and before its `FROM`, the url and
/// the score of the word's table, then `sites.ttr`, `sites.title` and
/// `sites.description`: a row read from it gives the url, score, TTR,
/// title and description of a site, in that order.
pub proof fn lemma_word_query_columns(w: Seq<char>)
    ensures
        exists|i1: int, i2: int, i3: int, i4: int, i5: int, f: int|
            #![trigger occurs_at(word_query_text(w), "w_"@ + w + ".url"@, i1), occurs_at(word_query_text(w), "w_"@ + w + ".score"@, i2), occurs_at(word_query_text(w), "sites.ttr"@, i3), occurs_at(word_query_text(w), "sites.title"@, i4), occurs_at(word_query_text(w), "sites.description"@, i5), occurs_at(word_query_text(w), "FROM"@, f)]
            i1 < i2 < i3 < i4 < i5 < f && occurs_at(word_query_text(w), "w_"@ + w + ".url"@, i1) && occurs_at(
                word_query_text(w),
                "w_"@ + w + ".score"@,
                i2,
            ) && occurs_at(word_query_text(w), "sites.ttr"@, i3) && occurs_at(word_query_text(w), "sites.title"@, i4)
                && occurs_at(word_query_text(w), "sites.description"@, i5) && occurs_at(word_query_text(w), "FROM"@, f),
{
    let q = word_query_text(w);
    let n = w.len() as int;
    reveal_strlit("\n                SELECT w_");
    reveal_strlit(".url, \n                    w_");
    reveal_strlit(".score, \n                    sites.ttr, \n                    sites.title,\n                    sites.description \n                FROM w_");
    reveal_strlit(" \n                INNER JOIN sites ON w_");
    reveal_strlit(".url = sites.url\n                ORDER BY w_");
    reveal_strlit(".score DESC\n                LIMIT 100\n            ");
    reveal_strlit("w_");
    reveal_strlit(".url");
    reveal_strlit(".score");
    reveal_strlit("sites.ttr");
    reveal_strlit("sites.title");
    reveal_strlit("sites.description");
    reveal_strlit("FROM");
    let a = "\n                SELECT w_"@;
    let b = ".url, \n                    w_"@;
    let c = ".score, \n                    sites.ttr, \n                    sites.title,\n                    sites.description \n                FROM w_"@;
    assert(a.len() == 26);
    assert(b.len() == 29);
    assert(c.len() == 136);
    let base = 55 + 2 * n;
    assert(q.subrange(24, 24 + 6 + n) =~= "w_"@ + w + ".url"@);
    assert(q.subrange(53 + n, 53 + n + 8 + n) =~= "w_"@ + w + ".score"@);
    assert(q.subrange(base + 29, base + 38) =~= "sites.ttr"@);
    assert(q.subrange(base + 61, base + 72) =~= "sites.title"@);
    assert(q.subrange(base + 94, base + 111) =~= "sites.description"@);
    assert(q.subrange(base + 129, base + 133) =~= "FROM"@);
    assert(occurs_at(q, "w_"@ + w + ".url"@, 24));
    assert(occurs_at(q, "w_"@ + w + ".score"@, 53 + n));
    assert(occurs_at(q, "sites.ttr"@, base + 29));
    assert(occurs_at(q, "sites.title"@, base + 61));
    assert(occurs_at(q, "sites.description"@, base + 94));
    assert(occurs_at(q, "FROM"@, base + 129));
}

} // verus!
