//! Statements on the `domains` table.
//
// WARN: IMPORTANT NOTICE FOR THIS TABLE
// The `uas_allow` and `uas_disallow` columns are stringified maps, those
// must be encoded and decoded using the `sql_encode_uas` and `sql_decode_uas`
// functions from the `sanitize` module.
use vstd::prelude::*;
use vstd::string::*;
use crate::models::AddDomainOwnership;
use crate::sanitize::{encode_uas, escape_apostrophes, sql_encode_uas, sql_escape_ap};
use crate::text::{decimal, decimal_string};
use crate::user_agents::UserAgentRules;

verus! {

broadcast use vstd::string::group_string_axioms;

/// The statement that creates the table if it doesn't exist already.
pub fn init_table() -> (stmt: String)
    ensures
        stmt@ == "\n        CREATE TABLE IF NOT EXISTS domains (\n            domain TEXT PRIMARY KEY,\n            last_robots_txt_visit INTEGER,\n            last_ownership_check INTEGER,\n            uas_allow TEXT,\n            uas_disallow TEXT,\n            owned_by_uid TEXT\n        )\n    "@,
{
    String::from_str("\n        CREATE TABLE IF NOT EXISTS domains (\n            domain TEXT PRIMARY KEY,\n            last_robots_txt_visit INTEGER,\n            last_ownership_check INTEGER,\n            uas_allow TEXT,\n            uas_disallow TEXT,\n            owned_by_uid TEXT\n        )\n    ")
}

/// The statement that saves a domain's row: replacing an existing row when
/// `replace`, otherwise leaving an existing row as it is. The domain and both
/// rule texts are escaped, the owner is not.
pub open spec fn domain_row_stmt(
    replace: bool,
    domain: Seq<char>,
    last_robots_txt_visit: nat,
    last_ownership_check: nat,
    uas_allow: Seq<char>,
    uas_disallow: Seq<char>,
    owned_by_uid: Seq<char>,
) -> Seq<char> {
    "\n        INSERT OR "@ + (if replace { "REPLACE"@ } else { "IGNORE"@ }) + " INTO domains (\n            domain,\n            last_robots_txt_visit,\n            last_ownership_check,\n            uas_allow,\n            uas_disallow,\n            owned_by_uid\n        )\n        VALUES (\n            '"@
        + escape_apostrophes(domain) + "',\n            "@
        + decimal(last_robots_txt_visit) + ",\n            "@
        + decimal(last_ownership_check) + ",\n            '"@
        + escape_apostrophes(uas_allow) + "',\n            '"@
        + escape_apostrophes(uas_disallow) + "',\n            '"@
        + owned_by_uid + "'\n        )\n    "@
}

fn domain_row(
    replace: bool,
    domain: String,
    last_robots_txt_visit: u128,
    last_ownership_check: u128,
    uas_allow: UserAgentRules,
    uas_disallow: UserAgentRules,
    owned_by_uid: String,
) -> (stmt: String)
    ensures
        stmt@ == domain_row_stmt(
            replace,
            domain@,
            last_robots_txt_visit as nat,
            last_ownership_check as nat,
            encode_uas(uas_allow@),
            encode_uas(uas_disallow@),
            owned_by_uid@,
        ),
{
    let domain = sql_escape_ap(domain);
    let uas_allow = sql_escape_ap(sql_encode_uas(uas_allow));
    let uas_disallow = sql_escape_ap(sql_encode_uas(uas_disallow));
    let mut stmt = String::from_str("\n        INSERT OR ");
    if replace {
        stmt.append("REPLACE");
    } else {
        stmt.append("IGNORE");
    }
    stmt.append(" INTO domains (\n            domain,\n            last_robots_txt_visit,\n            last_ownership_check,\n            uas_allow,\n            uas_disallow,\n            owned_by_uid\n        )\n        VALUES (\n            '");
    stmt.append(domain.as_str());
    stmt.append("',\n            ");
    stmt.append(decimal_string(last_robots_txt_visit).as_str());
    stmt.append(",\n            ");
    stmt.append(decimal_string(last_ownership_check).as_str());
    stmt.append(",\n            '");
    stmt.append(uas_allow.as_str());
    stmt.append("',\n            '");
    stmt.append(uas_disallow.as_str());
    stmt.append("',\n            '");
    stmt.append(owned_by_uid.as_str());
    stmt.append("'\n        )\n    ");
    stmt
}

/// Saves data of a domain to the database: the statement.
/// WARN: If a row for this domain already exists, every value get updated.
pub fn create_row(
    domain: String,
    last_robots_txt_visit: u128,
    last_ownership_check: u128,
    uas_allow: UserAgentRules,
    uas_disallow: UserAgentRules,
    owned_by_uid: String,
) -> (stmt: String)
    ensures
        stmt@ == domain_row_stmt(
            true,
            domain@,
            last_robots_txt_visit as nat,
            last_ownership_check as nat,
            encode_uas(uas_allow@),
            encode_uas(uas_disallow@),
            owned_by_uid@,
        ),
{
    domain_row(true, domain, last_robots_txt_visit, last_ownership_check, uas_allow, uas_disallow, owned_by_uid)
}

/// Save data of a domain to the database iff a row for this domain doesn't
/// already exist: the statement, which leaves an existing row as it is.
pub fn create_row_iff_empty(
    domain: String,
    last_robots_txt_visit: u128,
    last_ownership_check: u128,
    uas_allow: UserAgentRules,
    uas_disallow: UserAgentRules,
    owned_by_uid: String,
) -> (stmt: String)
    ensures
        stmt@ == domain_row_stmt(
            false,
            domain@,
            last_robots_txt_visit as nat,
            last_ownership_check as nat,
            encode_uas(uas_allow@),
            encode_uas(uas_disallow@),
            owned_by_uid@,
        ),
{
    domain_row(false, domain, last_robots_txt_visit, last_ownership_check, uas_allow, uas_disallow, owned_by_uid)
}

/// What `uuid::Uuid::from_str` gives for a text: the UUID's 128-bit value,
/// or `None` when the text is not a UUID.
pub uninterp spec fn uuid_value(s: Seq<char>) -> Option<u128>;

/// Calls `uuid::Uuid::from_str` and reads the value with `Uuid::as_u128`. The
/// contract claims only that the result is the named parse of the text, a
/// function of the text alone; which texts are UUIDs is left unsaid.
#[verifier::external_body]
pub(crate) fn parse_uuid(s: &str) -> (r: Option<u128>)
    ensures
        r == uuid_value(s@),
{
    <uuid::Uuid as std::str::FromStr>::from_str(s).ok().map(|u| u.as_u128())
}

/// Why an ownership update was refused: the owner is not a UUID.
pub struct InvalidOwner;

/// The statement that sets the owner of every domain ending with `domain`
/// (escaped); the owner is not escaped.
pub open spec fn ownership_stmt(domain: Seq<char>, owned_by: Seq<char>) -> Seq<char> {
    "\n        UPDATE domains\n        SET owned_by_uid = '"@ + owned_by + "'\n        WHERE domain LIKE '%"@
        + escape_apostrophes(domain) + "'\n    "@
}

/// The query that counts the domains ending with `domain` (escaped): the
/// rows an ownership update would change.
pub open spec fn known_domain_query_text(domain: Seq<char>) -> Seq<char> {
    "SELECT COUNT(1) FROM domains WHERE domain LIKE '%"@ + escape_apostrophes(domain) + "'"@
}

/// The query that tells whether `domain` is known: the number of domains
/// ending with it.
pub fn known_domain_query(domain: &String) -> (q: String)
    ensures
        q@ == known_domain_query_text(domain@),
{
    let domain = sql_escape_ap(domain.clone());
    let mut q = String::from_str("SELECT COUNT(1) FROM domains WHERE domain LIKE '%");
    q.append(domain.as_str());
    q.append("'");
    q
}

/// Update ownership data for a domain: `InvalidOwner` when `owned_by` is not
/// a UUID; otherwise, when the domain is unknown (`domain_known` is false:
/// no stored domain ends with it), the operation is aborted (`None`: nothing
/// to change in either database); else the statement for the local database
/// and the row for the Postgres database.
pub fn update_domain_ownership_record(
    domain: String,
    owned_by: String,
    domain_known: bool,
) -> (r: Result<Option<(String, AddDomainOwnership)>, InvalidOwner>)
    ensures
        match r {
            Ok(None) => uuid_value(owned_by@) is Some && !domain_known,
            Ok(Some((stmt, row))) => domain_known && uuid_value(owned_by@) == Some(row.owned_by)
                && row.domain@ == escape_apostrophes(domain@)
                && stmt@ == ownership_stmt(domain@, owned_by@),
            Err(_) => uuid_value(owned_by@) is None,
        },
{
    let domain = sql_escape_ap(domain);
    let owner = match parse_uuid(owned_by.as_str()) {
        Some(v) => v,
        None => {
            return Err(InvalidOwner);
        },
    };
    if !domain_known {
        return Ok(None);
    }
    let mut stmt = String::from_str("\n        UPDATE domains\n        SET owned_by_uid = '");
    stmt.append(owned_by.as_str());
    stmt.append("'\n        WHERE domain LIKE '%");
    stmt.append(domain.as_str());
    stmt.append("'\n    ");
    Ok(Some((stmt, AddDomainOwnership { domain, owned_by: owner })))
}

/// The one record a lookup must find: `Ok` with it when there is exactly one,
/// `Err` otherwise.
pub fn get_domain_ownership_record<T>(mut records: Vec<T>) -> (r: Result<T, ()>)
    ensures
        records@.len() == 1 <==> r is Ok,
        r matches Ok(t) ==> t == records@[0],
{
    if records.len() != 1 {
        return Err(());
    }
    Ok(records.remove(0))
}

} // verus!
