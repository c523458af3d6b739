//! Statements on the `sites` table.
use vstd::prelude::*;
use vstd::string::*;
use crate::sanitize::{escape_apostrophes, sql_escape_ap};
use crate::url_parts::{parse_url, url_parse, UrlParseError};

verus! {

broadcast use vstd::string::group_string_axioms;

/// The statement that creates this table if it does not exist on the database.
pub fn init_table() -> (stmt: String)
    ensures
        stmt@ == "CREATE TABLE IF NOT EXISTS sites (\n        url TEXT PRIMARY KEY,\n        domain TEXT,\n        title TEXT,\n        description TEXT,\n        ttr REAL,\n        loc TEXT,\n        CONSTRAINT domain FOREIGN KEY (domain) REFERENCES domains(domain)\n    )"@,
{
    String::from_str("CREATE TABLE IF NOT EXISTS sites (\n        url TEXT PRIMARY KEY,\n        domain TEXT,\n        title TEXT,\n        description TEXT,\n        ttr REAL,\n        loc TEXT,\n        CONSTRAINT domain FOREIGN KEY (domain) REFERENCES domains(domain)\n    )")
}

/// The query that counts the rows of the `sites` table.
pub fn rows_number_query() -> (q: String)
    ensures
        q@ == "SELECT COUNT(1) FROM sites"@,
{
    String::from_str("SELECT COUNT(1) FROM sites")
}

/// Returns the number of rows of the `sites` table, from what the count
/// query gave: the count, or -1 when the query could not run.
pub fn get_rows_number(counted: Option<isize>) -> (n: isize)
    ensures
        n == match counted {
            Some(c) => c as int,
            None => -1,
        },
{
    match counted {
        Some(c) => c,
        None => -1,
    }
}

/// `new_url_record` does not fail on `url`: when it parses, it has a domain.
pub open spec fn url_record_defined(url: Seq<char>) -> bool {
    url_parse(url) matches Ok(u) ==> u.domain is Some
}

/// The statement that deletes the record of `url` (already escaped).
pub open spec fn delete_site_stmt(url: Seq<char>) -> Seq<char> {
    "DELETE FROM sites WHERE url = '"@ + url + "'"@
}

/// The statement that inserts a fresh record (every text already escaped).
pub open spec fn insert_site_stmt(url: Seq<char>, domain: Seq<char>, title: Seq<char>, description: Seq<char>) -> Seq<char> {
    "\n            INSERT INTO sites (url, domain, title, description, ttr, loc) \n            VALUES ('"@ + url
        + "', '"@ + domain + "', '"@ + title + "', '"@ + description + "', 0.0, 'en')\n    "@
}

/// The statements that renew a site's record, or why the URL did not parse.
pub type SiteRecordStatements = Result<(String, String), UrlParseError>;

/// What `new_url_record` gives: when the URL parses, the delete and insert
/// statements with every text escaped; otherwise the parse error.
pub open spec fn url_record_result(
    r: Result<(String, String), UrlParseError>,
    url: Seq<char>,
    title: Seq<char>,
    description: Seq<char>,
) -> bool {
    match (r, url_parse(url)) {
        (Ok(stmts), Ok(u)) => stmts.0@ == delete_site_stmt(escape_apostrophes(url))
            && stmts.1@ == insert_site_stmt(
                escape_apostrophes(url),
                escape_apostrophes(u.domain->0),
                escape_apostrophes(title),
                escape_apostrophes(description),
            ),
        (Err(e), Err(pe)) => e == pe,
        _ => false,
    }
}

/// Create a new record of an indexed URL, multiple URLs of the same websites
/// will always have a unique record here: the statement that deletes the
/// previous record of the URL and the one that inserts the new record.
/// WARN: If this is run with an URL already present in the database, the
/// previous record and all the data linked to it will be deleted.
pub fn new_url_record(url: String, title: String, description: String) -> (r: Result<(String, String), UrlParseError>)
    requires
        url_record_defined(url@),
    ensures
        url_record_result(r, url@, title@, description@),
{
    let url_obj = parse_url(url.as_str())?;
    let domain = match url_obj.domain {
        Some(d) => sql_escape_ap(d),
        None => {
            return Err(UrlParseError::Other);  // unreachable: see the requires
        },
    };
    let url = sql_escape_ap(url);
    let title = sql_escape_ap(title);
    let description = sql_escape_ap(description);

    let mut delete = String::from_str("DELETE FROM sites WHERE url = '");
    delete.append(url.as_str());
    delete.append("'");

    let mut insert = String::from_str("\n            INSERT INTO sites (url, domain, title, description, ttr, loc) \n            VALUES ('");
    insert.append(url.as_str());
    insert.append("', '");
    insert.append(domain.as_str());
    insert.append("', '");
    insert.append(title.as_str());
    insert.append("', '");
    insert.append(description.as_str());
    insert.append("', 0.0, 'en')\n    ");
    Ok((delete, insert))
}

/// `new_url_record` where it is defined; `None` for a URL that parses
/// without a domain.
pub fn try_new_url_record(url: String, title: String, description: String) -> (r: Option<SiteRecordStatements>)
    ensures
        r is None <==> !url_record_defined(url@),
        r matches Some(res) ==> url_record_result(res, url@, title@, description@),
{
    match parse_url(url.as_str()) {
        Ok(u) => {
            if u.domain.is_none() {
                return None;
            }
        },
        Err(_) => {},
    }
    Some(new_url_record(url, title, description))
}

/// The statement that updates the localization of a site.
pub fn update_site_loc(url: &String, loc: &String) -> (stmt: String)
    ensures
        stmt@ == "UPDATE sites SET loc = '"@ + loc@ + "' WHERE url = '"@ + escape_apostrophes(url@) + "'"@,
{
    let url = sql_escape_ap(url.clone());
    let mut stmt = String::from_str("UPDATE sites SET loc = '");
    stmt.append(loc.as_str());
    stmt.append("' WHERE url = '");
    stmt.append(url.as_str());
    stmt.append("'");
    stmt
}

/// The query that selects every site whose domain ends with `domain` (not
/// escaped, as the indexer has it).
pub fn sites_of_domain_query(domain: &String) -> (q: String)
    ensures
        q@ == "\n        SELECT *\n        FROM sites\n        WHERE domain LIKE '%"@ + domain@ + "'\n    "@,
{
    let mut q = String::from_str("\n        SELECT *\n        FROM sites\n        WHERE domain LIKE '%");
    q.append(domain.as_str());
    q.append("'\n    ");
    q
}

} // verus!
