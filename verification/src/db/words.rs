//! The word tables: for each word, the table `w_{word}` holds the score of
//! every page the word occurs in.
use vstd::prelude::*;
use vstd::string::*;
use crate::indexer::url::IndexData;
use crate::sanitize::{escape_apostrophes, sql_escape_ap};
use crate::text::{decimal, decimal_string};

verus! {

broadcast use vstd::string::group_string_axioms;

/// The statement that creates the table of word `w`, if it does not exist.
pub open spec fn word_table_stmt(w: Seq<char>) -> Seq<char> {
    "CREATE TABLE IF NOT EXISTS w_"@ + w + " (url TEXT PRIMARY KEY, score INTEGER)"@
}

/// The statement that records `score` as the score of the page at `url` in
/// the table of word `w` (replacing an earlier score of the page); the URL
/// is escaped.
pub open spec fn word_score_stmt(url: Seq<char>, w: Seq<char>, score: nat) -> Seq<char> {
    "INSERT OR REPLACE INTO w_"@ + w + " (url, score) VALUES ('"@ + escape_apostrophes(url) + "', "@ + decimal(score)
        + ")"@
}

/// Saves the score of a page for a word: the statement that creates the
/// word's table and the one that records the score.
pub fn save_word_score(url: &String, word: &String, score: usize) -> (stmts: (String, String))
    ensures
        stmts.0@ == word_table_stmt(word@),
        stmts.1@ == word_score_stmt(url@, word@, score as nat),
{
    let mut create = String::from_str("CREATE TABLE IF NOT EXISTS w_");
    create.append(word.as_str());
    create.append(" (url TEXT PRIMARY KEY, score INTEGER)");
    let escaped = sql_escape_ap(url.clone());
    let mut insert = String::from_str("INSERT OR REPLACE INTO w_");
    insert.append(word.as_str());
    insert.append(" (url, score) VALUES ('");
    insert.append(escaped.as_str());
    insert.append("', ");
    insert.append(decimal_string(score as u128).as_str());
    insert.append(")");
    (create, insert)
}

/// The statements that store every score of a page: for each scored word,
/// in order, the statement that creates its table and the one that records
/// the page's score.
pub fn page_score_statements(url: &String, scores: &IndexData) -> (stmts: Vec<String>)
    ensures
        stmts@.len() == 2 * scores@.len(),
        forall|i: int|
            0 <= i < scores@.len() ==> (#[trigger] stmts@[2 * i])@ == word_table_stmt(scores@[i].0)
                && stmts@[2 * i + 1]@ == word_score_stmt(url@, scores@[i].0, scores@[i].1),
{
    let n = scores.len();
    let mut stmts: Vec<String> = Vec::new();
    let mut i: usize = 0;
    while i < n
        invariant
            i <= n,
            n == scores@.len(),
            stmts@.len() == 2 * i,
            forall|k: int|
                0 <= k < i ==> (#[trigger] stmts@[2 * k])@ == word_table_stmt(scores@[k].0)
                    && stmts@[2 * k + 1]@ == word_score_stmt(url@, scores@[k].0, scores@[k].1),
        decreases n - i,
    {
        let (word, score) = scores.entry_at(i);
        let (create, insert) = save_word_score(url, word, score);
        let ghost before = stmts@;
        stmts.push(create);
        stmts.push(insert);
        proof {
            assert forall|k: int| 0 <= k < i + 1 implies (#[trigger] stmts@[2 * k])@ == word_table_stmt(scores@[k].0)
                && stmts@[2 * k + 1]@ == word_score_stmt(url@, scores@[k].0, scores@[k].1) by {
                if k < i {
                    assert(stmts@[2 * k] == before[2 * k]);
                    assert(stmts@[2 * k + 1] == before[2 * k + 1]);
                }
            }
        }
        i = i + 1;
    }
    stmts
}

} // verus!
