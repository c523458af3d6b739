//! Domain ownership, proven by a DNS TXT record.
//!
//! Indexing a domain can be done by any actors. However, we allow users to
//! own their domains by modifying DNS registries. To properly identify domain
//! owners, we create a challenge that has to be added to the DNS as a TXT
//! key. This challenge will contain the user UID only.
use vstd::prelude::*;
use vstd::string::*;
use crate::url_parts::{parse_url, url_parse, UrlParseError};

verus! {

broadcast use vstd::string::group_string_axioms;

/// The answer to an ownership check.
pub struct ResOwnershipVerification {
    pub queue_position: usize,
    pub ownership_verified: bool,
}

/// The TXT record a user has to add to prove they own a domain.
pub struct ResOwnershipVerificationTXTValue {
    pub for_domain: String,
    pub for_user: String,
    pub txt_record_content: String,
}

/// The TXT record that proves `uid` owns `domain`: `joogleown:{domain}>{uid}`.
pub open spec fn ownership_record(domain: Seq<char>, uid: Seq<char>) -> Seq<char> {
    "joogleown:"@ + domain + ">"@ + uid
}

/// The TXT record that proves `uid` owns `domain`.
pub fn create_dns_record_for_domain_reg(domain: String, uid: String) -> (rec: String)
    ensures
        rec@ == ownership_record(domain@, uid@),
{
    let mut rec = String::from_str("joogleown:");
    rec.append(domain.as_str());
    rec.append(">");
    rec.append(uid.as_str());
    rec
}

/// `http://` in front of `from`.
pub open spec fn with_http(from: Seq<char>) -> Seq<char> {
    "http://"@ + from
}

/// The URL that the domain is read from: `from` itself, or, when it is a
/// relative URL, `from` behind `http://`.
pub open spec fn domain_source(from: Seq<char>) -> Seq<char> {
    if url_parse(from) == Err::<crate::url_parts::UrlPartsView, UrlParseError>(UrlParseError::RelativeUrlWithoutBase) {
        with_http(from)
    } else {
        from
    }
}

/// `extract_domain_from_str` does not fail on `from`: the URL it reads
/// parses and has a domain.
pub open spec fn domain_extractable(from: Seq<char>) -> bool {
    url_parse(domain_source(from)) matches Ok(u) && u.domain is Some
}

/// The domain `extract_domain_from_str` gives.
pub open spec fn extracted_domain(from: Seq<char>) -> Seq<char> {
    url_parse(domain_source(from))->Ok_0.domain->0
}

/// Since URL parsing fails with `RelativeUrlWithoutBase` on user input that
/// has no scheme, a base is added to the URL when none is provided: the
/// domain of `from`, or of `http://{from}` when `from` is relative.
pub fn extract_domain_from_str(from: String) -> (r: Result<String, UrlParseError>)
    requires
        domain_extractable(from@),
    ensures
        r matches Ok(d) && d@ == extracted_domain(from@),
{
    let parsed = match parse_url(from.as_str()) {
        Err(UrlParseError::RelativeUrlWithoutBase) => {
            // Hoping it will cover most cases.
            let mut with_base = String::from_str("http://");
            with_base.append(from.as_str());
            parse_url(with_base.as_str())
        },
        other => other,
    };
    match parsed {
        Ok(u) => match u.domain {
            Some(d) => Ok(d),
            None => Err(UrlParseError::Other),  // unreachable: see the requires
        },
        Err(e) => Err(e),  // unreachable: see the requires
    }
}

/// `extract_domain_from_str` where it is defined; `None` where the URL read
/// does not parse or has no domain.
pub fn checked_extract_domain_from_str(from: String) -> (r: Option<String>)
    ensures
        r is Some <==> domain_extractable(from@),
        r matches Some(d) ==> d@ == extracted_domain(from@),
{
    let source = match parse_url(from.as_str()) {
        Err(UrlParseError::RelativeUrlWithoutBase) => {
            let mut with_base = String::from_str("http://");
            with_base.append(from.as_str());
            with_base
        },
        _ => from.clone(),
    };
    match parse_url(source.as_str()) {
        Ok(u) => {
            if u.domain.is_none() {
                return None;
            }
        },
        Err(_) => {
            return None;
        },
    }
    match extract_domain_from_str(from) {
        Ok(d) => Some(d),
        Err(_) => None,
    }
}

/// The TXT record to add to the DNS of the domain of `domain` to prove that
/// `uid` owns it.
pub fn get_domain_ownership_key(domain: String, uid: String) -> (res: ResOwnershipVerificationTXTValue)
    requires
        domain_extractable(domain@),
    ensures
        res.for_domain@ == extracted_domain(domain@),
        res.for_user@ == uid@,
        res.txt_record_content@ == ownership_record(extracted_domain(domain@), uid@),
{
    let domain = match extract_domain_from_str(domain) {
        Ok(d) => d,
        Err(_) => String::new(),  // unreachable: see the requires
    };
    ResOwnershipVerificationTXTValue {
        for_domain: domain.clone(),
        for_user: uid.clone(),
        txt_record_content: create_dns_record_for_domain_reg(domain, uid),
    }
}

/// `get_domain_ownership_key` where the domain can be read; `None` otherwise.
pub fn try_get_domain_ownership_key(domain: String, uid: String) -> (res: Option<ResOwnershipVerificationTXTValue>)
    ensures
        res is Some <==> domain_extractable(domain@),
        res matches Some(r) ==> r.for_domain@ == extracted_domain(domain@) && r.for_user@ == uid@
            && r.txt_record_content@ == ownership_record(extracted_domain(domain@), uid@),
{
    if checked_extract_domain_from_str(domain.clone()).is_none() {
        return None;
    }
    Some(get_domain_ownership_key(domain, uid))
}

/// Whether one of the TXT records of `domain` is the one that proves `uid`
/// owns it.
pub fn check_domain_ownership(domain: String, uid: String, txt_records: &Vec<String>) -> (owned: bool)
    ensures
        owned <==> exists|i: int| 0 <= i < txt_records@.len() && #[trigger] txt_records@[i]@ == ownership_record(domain@, uid@),
{
    let rec = create_dns_record_for_domain_reg(domain, uid);
    let n = txt_records.len();
    let mut i: usize = 0;
    while i < n
        invariant
            i <= n,
            n == txt_records@.len(),
            rec@ == ownership_record(domain@, uid@),
            forall|k: int| 0 <= k < i ==> #[trigger] txt_records@[k]@ != rec@,
        decreases n - i,
    {
        if txt_records[i] == rec {
            return true;
        }
        i = i + 1;
    }
    false
}

impl ResOwnershipVerification {
    /// Ownership verified; the domain waits at `queue_position` in the queue.
    pub fn verified(queue_position: usize) -> (r: Self)
        ensures
            r.queue_position == queue_position,
            r.ownership_verified,
    {
        ResOwnershipVerification { queue_position, ownership_verified: true }
    }

    /// Ownership not verified.
    pub fn unverified() -> (r: Self)
        ensures
            r.queue_position == 0,
            !r.ownership_verified,
    {
        ResOwnershipVerification { queue_position: 0, ownership_verified: false }
    }
}

/// Whether a user may read the analytics of a domain: the request is
/// authenticated, the domain's ownership record was found, and its owner is
/// the user.
pub fn may_read_domain_analytics(auth_verified: bool, owner: Option<String>, user_id: &String) -> (ok: bool)
    ensures
        ok <==> (auth_verified && (owner matches Some(o) && o@ == user_id@)),
{
    if !auth_verified {
        return false;
    }
    match owner {
        Some(o) => o == *user_id,
        None => false,
    }
}

} // verus!
