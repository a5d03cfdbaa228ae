//! The measurement store's write side: buckets, identities and requests.
//!
//! A stored measurement lives in a day bucket named `YYYYMMDD` after the
//! calendar date of its truncated timestamp, under a document identity
//! `YYYYMMDDTHHMMSS-<address>`, so that a second write for the same
//! address and second replaces the first instead of duplicating it, and
//! whole days can later be dropped wholesale. This module builds those
//! names, the replace-or-create document body, and the recency-ordered
//! search body, each pinned to its exact text; the unverified transport
//! around the library only carries them.

use vstd::prelude::*;
use vstd::string::*;
use crate::temperature::Celsius;
use crate::text::chars_to_string;
use crate::text::push_dec_u64;
use crate::text::push_json_escaped;
use crate::text::push_pad3;
use crate::text::push_str_chars;
use crate::text::spec_dec_digits;
use crate::text::spec_digit_char;
use crate::text::spec_digit_val;
use crate::text::spec_json_escape;
use crate::text::spec_pad2;
use crate::text::spec_pad3;
use crate::text::spec_pad4;
use crate::text::lemma_digit_char_val;
use crate::time::UtcTime;
use crate::time::lemma_digits2;
use crate::time::lemma_digits4;
use crate::time::push_rfc3339;
use crate::time::spec_rfc3339;

verus! {

/// Errors that can occur when using the store.
#[derive(Clone, Copy, Debug, PartialEq, Eq, Structural)]
pub enum DatabaseError {
    /// The target location could not be constructed from the base endpoint.
    InvalidDestination,
    /// The request could not be transmitted or the endpoint was unreachable.
    RequestFailed,
    /// The response envelope was missing the expected nested structure.
    InvalidResponse,
    /// An individual record in the response did not decode into the
    /// expected shape.
    UnexpectedResponse,
}

impl DatabaseError {
    /// The fixed description of each error.
    pub open spec fn spec_message(self) -> Seq<char> {
        match self {
            DatabaseError::InvalidDestination => "Invalid destination"@,
            DatabaseError::RequestFailed => "The request to the database failed"@,
            DatabaseError::InvalidResponse => "The database returned an invalid response"@,
            DatabaseError::UnexpectedResponse => "The database returned unexpected results"@,
        }
    }

    /// A human-readable description of the error.
    pub fn message(&self) -> (m: &'static str)
        ensures
            m@ == self.spec_message(),
    {
        match self {
            DatabaseError::InvalidDestination => "Invalid destination",
            DatabaseError::RequestFailed => "The request to the database failed",
            DatabaseError::InvalidResponse => "The database returned an invalid response",
            DatabaseError::UnexpectedResponse => "The database returned unexpected results",
        }
    }
}

/// The day bucket that holds a measurement: the calendar date of its
/// timestamp, written `YYYYMMDD`.
pub open spec fn spec_bucket_key(t: UtcTime) -> Seq<char> {
    spec_pad4(t.year as int) + spec_pad2(t.month as int) + spec_pad2(t.day as int)
}

/// The second-resolution stamp inside a document identity,
/// `YYYYMMDDTHHMMSS`.
pub open spec fn spec_doc_stamp(t: UtcTime) -> Seq<char> {
    spec_bucket_key(t) + seq!['T'] + spec_pad2(t.hour as int) + spec_pad2(t.minute as int)
        + spec_pad2(t.second as int)
}

/// The document identity: stamp and address. Writing again under the same
/// identity overwrites rather than adds.
pub open spec fn spec_doc_id(t: UtcTime, address: Seq<char>) -> Seq<char> {
    spec_doc_stamp(t) + seq!['-'] + address
}

/// The bucket-and-identity path a document write is addressed to.
pub open spec fn spec_doc_path(t: UtcTime, address: Seq<char>) -> Seq<char> {
    spec_bucket_key(t) + "/_doc/"@ + spec_doc_id(t, address)
}

/// The day bucket name of `t`.
pub fn bucket_key(t: &UtcTime) -> (s: String)
    requires
        t.wf(),
    ensures
        s@ == spec_bucket_key(*t),
{
    let mut v: Vec<char> = Vec::new();
    crate::text::push_pad4(&mut v, t.year);
    crate::text::push_pad2(&mut v, t.month);
    crate::text::push_pad2(&mut v, t.day);
    assert(v@ =~= spec_bucket_key(*t));
    chars_to_string(&v)
}

/// Append the document identity of (`t`, `address`).
fn push_doc_id(v: &mut Vec<char>, t: &UtcTime, address: &str)
    requires
        t.wf(),
    ensures
        final(v)@ == old(v)@ + spec_doc_id(*t, address@),
{
    crate::text::push_pad4(v, t.year);
    crate::text::push_pad2(v, t.month);
    crate::text::push_pad2(v, t.day);
    v.push('T');
    crate::text::push_pad2(v, t.hour);
    crate::text::push_pad2(v, t.minute);
    crate::text::push_pad2(v, t.second);
    v.push('-');
    push_str_chars(v, address);
    assert(v@ =~= old(v)@ + spec_doc_id(*t, address@));
}

/// The document identity of (`t`, `address`).
pub fn doc_id(t: &UtcTime, address: &str) -> (s: String)
    requires
        t.wf(),
    ensures
        s@ == spec_doc_id(*t, address@),
{
    let mut v: Vec<char> = Vec::new();
    push_doc_id(&mut v, t, address);
    assert(v@ =~= spec_doc_id(*t, address@));
    chars_to_string(&v)
}

/// The bucket-and-identity path of (`t`, `address`).
pub fn doc_path(t: &UtcTime, address: &str) -> (s: String)
    requires
        t.wf(),
    ensures
        s@ == spec_doc_path(*t, address@),
{
    let mut v: Vec<char> = Vec::new();
    crate::text::push_pad4(&mut v, t.year);
    crate::text::push_pad2(&mut v, t.month);
    crate::text::push_pad2(&mut v, t.day);
    push_str_chars(&mut v, "/_doc/");
    push_doc_id(&mut v, t, address);
    assert(v@ =~= spec_doc_path(*t, address@));
    chars_to_string(&v)
}

/// The decimal text of a millidegree value, written as whole degrees, a
/// dot, and exactly three fractional digits.
pub open spec fn spec_milli_text(m: int) -> Seq<char> {
    if m >= 0 {
        spec_dec_digits((m / 1000) as nat) + seq!['.'] + spec_pad3(m % 1000)
    } else {
        seq!['-'] + spec_dec_digits(((-m) / 1000) as nat) + seq!['.'] + spec_pad3((-m) % 1000)
    }
}

/// Append the decimal text of a millidegree value.
pub fn push_milli_text(v: &mut Vec<char>, m: i64)
    requires
        m > i64::MIN,
    ensures
        final(v)@ == old(v)@ + spec_milli_text(m as int),
{
    if m >= 0 {
        let mag = m as u64;
        push_dec_u64(v, mag / 1000);
        v.push('.');
        push_pad3(v, (mag % 1000) as u16);
        assert(v@ =~= old(v)@ + spec_milli_text(m as int));
    } else {
        v.push('-');
        let mag = (-m) as u64;
        push_dec_u64(v, mag / 1000);
        v.push('.');
        push_pad3(v, (mag % 1000) as u16);
        assert(v@ =~= old(v)@ + spec_milli_text(m as int));
    }
}

/// The replace-or-create document body: the address, the timestamp in its
/// interchange form, and the raw temperature.
pub open spec fn spec_insert_body(address: Seq<char>, t: UtcTime, temperature: Celsius) -> Seq<
    char,
> {
    "{\"address\":\""@ + spec_json_escape(address) + "\",\"date\":\""@ + spec_rfc3339(t)
        + "\",\"temp_c\":"@ + spec_milli_text(temperature.0 as int) + "}"@
}

/// The document body written for one measurement.
pub fn insert_body(address: &str, t: &UtcTime, temperature: Celsius) -> (s: String)
    requires
        t.wf(),
        temperature.0 > i64::MIN,
    ensures
        s@ == spec_insert_body(address@, *t, temperature),
{
    proof {
        reveal_strlit("{\"address\":\"");
        reveal_strlit("\",\"date\":\"");
        reveal_strlit("\",\"temp_c\":");
        reveal_strlit("}");
    }
    let mut v: Vec<char> = Vec::new();
    push_str_chars(&mut v, "{\"address\":\"");
    push_json_escaped(&mut v, address);
    push_str_chars(&mut v, "\",\"date\":\"");
    push_rfc3339(&mut v, *t);
    push_str_chars(&mut v, "\",\"temp_c\":");
    push_milli_text(&mut v, temperature.0);
    push_str_chars(&mut v, "}");
    assert(v@ =~= spec_insert_body(address@, *t, temperature));
    chars_to_string(&v)
}

/// The cross-bucket search body: at most `limit` hits for an exact address
/// match, most recent first.
pub open spec fn spec_search_body(address: Seq<char>, limit: int) -> Seq<char> {
    "{\"size\":"@ + spec_dec_digits(limit as nat)
        + ",\"sort\":{\"date\":\"desc\"},\"query\":{\"bool\":{\"filter\":{\"term\":{\"address\":\""@
        + spec_json_escape(address) + "\"}}}}}"@
}

/// The search body sent for one read.
pub fn search_body(address: &str, limit: u32) -> (s: String)
    ensures
        s@ == spec_search_body(address@, limit as int),
{
    proof {
        reveal_strlit("{\"size\":");
        reveal_strlit(",\"sort\":{\"date\":\"desc\"},\"query\":{\"bool\":{\"filter\":{\"term\":{\"address\":\"");
        reveal_strlit("\"}}}}}");
    }
    let mut v: Vec<char> = Vec::new();
    push_str_chars(&mut v, "{\"size\":");
    push_dec_u64(&mut v, limit as u64);
    push_str_chars(
        &mut v,
        ",\"sort\":{\"date\":\"desc\"},\"query\":{\"bool\":{\"filter\":{\"term\":{\"address\":\"",
    );
    push_json_escaped(&mut v, address);
    push_str_chars(&mut v, "\"}}}}}");
    assert(v@ =~= spec_search_body(address@, limit as int));
    chars_to_string(&v)
}

/// The engine's persisted state, as the contracts see it: document body
/// text keyed by bucket-and-identity path.
pub open spec fn store_after_write(
    docs: Map<Seq<char>, Seq<char>>,
    t: UtcTime,
    address: Seq<char>,
    body: Seq<char>,
) -> Map<Seq<char>, Seq<char>> {
    docs.insert(spec_doc_path(t.truncated(), address), body)
}

/// Idempotent write: writing the same address and truncated timestamp
/// twice leaves exactly one stored document for that identity, holding the
/// second body; the set of stored identities grows by at most that one.
pub proof fn lemma_idempotent_write(
    docs: Map<Seq<char>, Seq<char>>,
    t: UtcTime,
    address: Seq<char>,
    b1: Seq<char>,
    b2: Seq<char>,
)
    ensures
        store_after_write(store_after_write(docs, t, address, b1), t, address, b2)
            == store_after_write(docs, t, address, b2),
        store_after_write(store_after_write(docs, t, address, b1), t, address, b2).dom()
            == docs.dom().insert(spec_doc_path(t.truncated(), address)),
        store_after_write(store_after_write(docs, t, address, b1), t, address, b2)[spec_doc_path(
            t.truncated(),
            address,
        )] == b2,
{
    assert(store_after_write(store_after_write(docs, t, address, b1), t, address, b2)
        =~= store_after_write(docs, t, address, b2));
    assert(store_after_write(store_after_write(docs, t, address, b1), t, address, b2).dom()
        =~= docs.dom().insert(spec_doc_path(t.truncated(), address)));
}

/// Truncation: two timestamps that differ only in their sub-second
/// component write to the same document identity, so the second write
/// replaces the first.
pub proof fn lemma_truncation_collapses(
    docs: Map<Seq<char>, Seq<char>>,
    t1: UtcTime,
    t2: UtcTime,
    address: Seq<char>,
    b1: Seq<char>,
    b2: Seq<char>,
)
    requires
        t1.truncated() == t2.truncated(),
    ensures
        spec_doc_path(t1.truncated(), address) == spec_doc_path(t2.truncated(), address),
        store_after_write(store_after_write(docs, t1, address, b1), t2, address, b2)
            == store_after_write(docs, t2, address, b2),
{
    lemma_idempotent_write(docs, t2, address, b1, b2);
    assert(store_after_write(store_after_write(docs, t1, address, b1), t2, address, b2)
        =~= store_after_write(docs, t2, address, b2));
}

/// Bucketing: timestamps on different calendar days go to different day
/// buckets.
#[verifier::rlimit(100)]
#[verifier::spinoff_prover]
pub proof fn lemma_distinct_day_buckets(t1: UtcTime, t2: UtcTime)
    requires
        t1.wf(),
        t2.wf(),
        !(t1.year == t2.year && t1.month == t2.month && t1.day == t2.day),
    ensures
        spec_bucket_key(t1) != spec_bucket_key(t2),
{
    if spec_bucket_key(t1) == spec_bucket_key(t2) {
        let s1 = spec_bucket_key(t1);
        let s2 = spec_bucket_key(t2);
        assert(s1[0] == spec_digit_char(t1.year as int / 1000 % 10));
        assert(s1[1] == spec_digit_char(t1.year as int / 100 % 10));
        assert(s1[2] == spec_digit_char(t1.year as int / 10 % 10));
        assert(s1[3] == spec_digit_char(t1.year as int % 10));
        assert(s1[4] == spec_digit_char(t1.month as int / 10 % 10));
        assert(s1[5] == spec_digit_char(t1.month as int % 10));
        assert(s1[6] == spec_digit_char(t1.day as int / 10 % 10));
        assert(s1[7] == spec_digit_char(t1.day as int % 10));
        assert(s2[0] == spec_digit_char(t2.year as int / 1000 % 10));
        assert(s2[1] == spec_digit_char(t2.year as int / 100 % 10));
        assert(s2[2] == spec_digit_char(t2.year as int / 10 % 10));
        assert(s2[3] == spec_digit_char(t2.year as int % 10));
        assert(s2[4] == spec_digit_char(t2.month as int / 10 % 10));
        assert(s2[5] == spec_digit_char(t2.month as int % 10));
        assert(s2[6] == spec_digit_char(t2.day as int / 10 % 10));
        assert(s2[7] == spec_digit_char(t2.day as int % 10));
        lemma_digit_char_val(t1.year as int / 1000 % 10);
        lemma_digit_char_val(t1.year as int / 100 % 10);
        lemma_digit_char_val(t1.year as int / 10 % 10);
        lemma_digit_char_val(t1.year as int % 10);
        lemma_digit_char_val(t1.month as int / 10 % 10);
        lemma_digit_char_val(t1.month as int % 10);
        lemma_digit_char_val(t1.day as int / 10 % 10);
        lemma_digit_char_val(t1.day as int % 10);
        lemma_digit_char_val(t2.year as int / 1000 % 10);
        lemma_digit_char_val(t2.year as int / 100 % 10);
        lemma_digit_char_val(t2.year as int / 10 % 10);
        lemma_digit_char_val(t2.year as int % 10);
        lemma_digit_char_val(t2.month as int / 10 % 10);
        lemma_digit_char_val(t2.month as int % 10);
        lemma_digit_char_val(t2.day as int / 10 % 10);
        lemma_digit_char_val(t2.day as int % 10);
        lemma_digits4(t1.year as int);
        lemma_digits4(t2.year as int);
        lemma_digits2(t1.month as int);
        lemma_digits2(t2.month as int);
        lemma_digits2(t1.day as int);
        lemma_digits2(t2.day as int);
        assert(t1.year == t2.year);
        assert(t1.month == t2.month);
        assert(t1.day == t2.day);
        assert(false);
    }
}

/// What resolving path text against base location text yields: the
/// resolved location's text, or nothing when no location can be
/// constructed from the two. URL resolution is a function of the two
/// texts alone; its definition fills a standards document, so the result
/// only carries this name.
pub uninterp spec fn spec_join(base: Seq<char>, path: Seq<char>) -> Option<Seq<char>>;

/// Relies on `url::Url::parse` and `url::Url::join`: the base text is
/// parsed back into a location and the (possibly relative) path reference
/// is resolved against it, `None` exactly when no target location can be
/// constructed from the two texts.
#[verifier::external_body]
fn join_location(base: &str, path: &str) -> (r: Option<String>)
    ensures
        (match r {
            Some(u) => Some(u@),
            None => None,
        }) == spec_join(base@, path@),
{
    match url::Url::parse(base) {
        Ok(b) => match b.join(path) {
            Ok(u) => Some(u.as_str().to_string()),
            Err(_) => None,
        },
        Err(_) => None,
    }
}

/// A connection point for the backing search engine: the base location
/// that every bucket path and search path is resolved against.
pub struct Database {
    base: String,
}

/// A ready replace-or-create document write: where it goes and what it
/// carries. The unverified transport sends it without looking inside.
pub struct DocumentWrite {
    /// The resolved target location.
    pub url: String,
    /// The bucket-and-identity path the location was resolved from.
    pub path: String,
    /// The JSON document body.
    pub body: String,
}

/// A ready cross-bucket search: where it goes and the query it carries.
pub struct SearchQuery {
    /// The resolved target location.
    pub url: String,
    /// The JSON query body.
    pub body: String,
}

impl Database {
    /// The text of the base location this store was given.
    pub closed spec fn base_text(self) -> Seq<char> {
        self.base@
    }

    /// A store addressed at the given base location.
    pub fn new(url: String) -> (db: Database)
        ensures
            db.base_text() == url@,
    {
        Database { base: url }
    }

    /// Build the idempotent write for one measurement: the timestamp is
    /// truncated to whole seconds, the bucket and identity are computed
    /// from the truncated timestamp, and the body carries the address, the
    /// interchange-form date and the raw temperature. The write goes to
    /// the document path resolved against the base location; it fails,
    /// with `InvalidDestination`, exactly when that path cannot be
    /// resolved against the base.
    pub fn insert_request(&self, address: &str, date: UtcTime, temperature: Celsius) -> (r: Result<
        DocumentWrite,
        DatabaseError,
    >)
        requires
            date.wf(),
            temperature.0 > i64::MIN,
        ensures
            match r {
                Ok(w) => {
                    &&& spec_join(self.base_text(), spec_doc_path(date.truncated(), address@))
                        == Some(w.url@)
                    &&& w.path@ == spec_doc_path(date.truncated(), address@)
                    &&& w.body@ == spec_insert_body(address@, date.truncated(), temperature)
                },
                Err(e) => {
                    &&& e == DatabaseError::InvalidDestination
                    &&& spec_join(self.base_text(), spec_doc_path(date.truncated(), address@))
                        is None
                },
            },
    {
        let truncated = date.truncate_subsec();
        let path = doc_path(&truncated, address);
        let body = insert_body(address, &truncated, temperature);
        match join_location(self.base.as_str(), path.as_str()) {
            Some(url) => Ok(DocumentWrite { url, path, body }),
            None => Err(DatabaseError::InvalidDestination),
        }
    }

    /// Build the read for the most recent measurements of one address: a
    /// search across all buckets, filtered to the exact address, sorted by
    /// date descending, truncated to `limit` hits. The search goes to the
    /// cross-bucket search path resolved against the base location; it
    /// fails, with `InvalidDestination`, exactly when that path cannot be
    /// resolved against the base.
    pub fn search_request(&self, address: &str, limit: u32) -> (r: Result<
        SearchQuery,
        DatabaseError,
    >)
        ensures
            match r {
                Ok(q) => {
                    &&& spec_join(self.base_text(), "/*/_search"@) == Some(q.url@)
                    &&& q.body@ == spec_search_body(address@, limit as int)
                },
                Err(e) => {
                    &&& e == DatabaseError::InvalidDestination
                    &&& spec_join(self.base_text(), "/*/_search"@) is None
                },
            },
    {
        let body = search_body(address, limit);
        match join_location(self.base.as_str(), "/*/_search") {
            Some(url) => Ok(SearchQuery { url, body }),
            None => Err(DatabaseError::InvalidDestination),
        }
    }
}

} // verus!
