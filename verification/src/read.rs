//! The measurement store's read side: decoding the engine's reply.
//!
//! A search reply is an envelope — a collection of hits containing a
//! collection of hits — whose records each carry an address, a date and a
//! raw temperature, every field independently optional. The envelope walk
//! crosses opaque JSON values and can state little; everything after it is
//! exact: which record shapes are accepted, that a missing date or
//! temperature drops nothing but that record's field, that a present but
//! malformed field fails the whole read, and that the reply's
//! most-recent-first order is reversed into chronological order.

use vstd::prelude::*;
use vstd::string::*;
use crate::jsonval::json_as_array;
use crate::jsonval::json_as_number;
use crate::jsonval::json_as_str;
use crate::jsonval::json_get;
use crate::jsonval::json_is_null;
use crate::jsonval::json_is_object;
use crate::jsonval::json_number_text;
use crate::jsonval::parse_json;
use crate::store::DatabaseError;
use crate::temperature::Celsius;
use crate::text::decimal_matches;
use crate::text::decimal_parseable;
use crate::text::parse_decimal_milli;
use crate::time::UtcTime;
use crate::time::parse_rfc3339;
use crate::time::rfc_parseable;
use crate::time::spec_rfc3339;
use crate::time::spec_rfc3339_z;

verus! {

/// One decoded record of a search reply: each field stands on its own and
/// may be missing.
pub struct MeasurementResult {
    /// The address for this measurement.
    pub address: Option<String>,
    /// The time the measurement was taken.
    pub date: Option<UtcTime>,
    /// The raw temperature reading at that time.
    pub temperature: Option<Celsius>,
}

/// What one optional field of a hit record held: nothing (missing or
/// null), usable text, or a value of the wrong kind.
#[derive(Debug)]
pub enum JsonField {
    Absent,
    Text(String),
    Other,
}

/// One hit of the reply, reduced to plain values: whether its required
/// envelope fields decoded, and the text of its three record fields.
#[derive(Debug)]
pub struct RawHit {
    /// `_id` was present and a string.
    pub id_ok: bool,
    /// `_index` was present and a string.
    pub index_ok: bool,
    /// `_type` was present and a string.
    pub type_ok: bool,
    /// `_score` was absent, null, or a number.
    pub score_ok: bool,
    /// `_source` was present and an object.
    pub source_ok: bool,
    /// The record's `address` field.
    pub address: JsonField,
    /// The record's `date` field.
    pub date: JsonField,
    /// The record's `temp_c` field.
    pub temp: JsonField,
}

/// A hit decodes into the expected shape: the envelope fields are there,
/// no record field holds a value of the wrong kind, and whatever date or
/// temperature text is present parses.
pub open spec fn hit_shape_ok(h: RawHit) -> bool {
    &&& h.id_ok
    &&& h.index_ok
    &&& h.type_ok
    &&& h.score_ok
    &&& h.source_ok
    &&& match h.address {
        JsonField::Absent => true,
        JsonField::Text(_) => true,
        JsonField::Other => false,
    }
    &&& match h.date {
        JsonField::Absent => true,
        JsonField::Text(s) => rfc_parseable(s@),
        JsonField::Other => false,
    }
    &&& match h.temp {
        JsonField::Absent => true,
        JsonField::Text(s) => decimal_parseable(s@),
        JsonField::Other => false,
    }
}

/// How one decoded record relates to the hit it came from: absent fields
/// stay absent, address text is carried over, date text names exactly the
/// instant stored in the record, and temperature text names exactly its
/// millidegree value.
pub open spec fn result_matches_hit(m: MeasurementResult, h: RawHit) -> bool {
    &&& match h.address {
        JsonField::Absent => m.address is None,
        JsonField::Text(s) => match m.address {
            Some(a) => a@ == s@,
            None => false,
        },
        JsonField::Other => false,
    }
    &&& match h.date {
        JsonField::Absent => m.date is None,
        JsonField::Text(s) => match m.date {
            Some(t) => t.wf() && t.nanos == 0 && (s@ == spec_rfc3339(t) || s@ == spec_rfc3339_z(
                t,
            )),
            None => false,
        },
        JsonField::Other => false,
    }
    &&& match h.temp {
        JsonField::Absent => m.temperature is None,
        JsonField::Text(s) => match m.temperature {
            Some(c) => decimal_matches(s@, c.0 as int),
            None => false,
        },
        JsonField::Other => false,
    }
}

/// The decoded records correspond, in reversed order, to well-shaped
/// hits: the reply arrives most recent first and is handed out oldest
/// first.
pub open spec fn results_correspond(ms: Seq<MeasurementResult>, hs: Seq<RawHit>) -> bool {
    &&& forall|i: int| 0 <= i < hs.len() ==> hit_shape_ok(#[trigger] hs[i])
    &&& ms.len() == hs.len()
    &&& forall|i: int|
        0 <= i < ms.len() ==> result_matches_hit(#[trigger] ms[i], hs[hs.len() - 1 - i])
}

/// Decode the reduced hits of a reply into records, reversing them into
/// chronological order; any hit of an unexpected shape fails the read.
pub fn measurements_from_hits(hits: &Vec<RawHit>) -> (r: Result<
    Vec<MeasurementResult>,
    DatabaseError,
>)
    ensures
        match r {
            Ok(ms) => results_correspond(ms@, hits@),
            Err(e) => {
                &&& e == DatabaseError::UnexpectedResponse
                &&& exists|i: int| 0 <= i < hits@.len() && !hit_shape_ok(#[trigger] hits@[i])
            },
        },
{
    let ghost n = hits@.len();
    let mut out: Vec<MeasurementResult> = Vec::new();
    let mut k: usize = 0;
    while k < hits.len()
        invariant
            n == hits@.len(),
            k <= n,
            out@.len() == k,
            forall|j: int| 0 <= j < k ==> hit_shape_ok(#[trigger] hits@[n - 1 - j]),
            forall|j: int|
                0 <= j < k ==> result_matches_hit(#[trigger] out@[j], hits@[n - 1 - j]),
        decreases hits@.len() - k,
    {
        let idx = hits.len() - 1 - k;
        let h = &hits[idx];
        if !(h.id_ok && h.index_ok && h.type_ok && h.score_ok && h.source_ok) {
            proof {
                assert(!hit_shape_ok(hits@[idx as int]));
            }
            return Err(DatabaseError::UnexpectedResponse);
        }
        let address: Option<String> = match &h.address {
            JsonField::Absent => None,
            JsonField::Text(s) => Some(s.clone()),
            JsonField::Other => {
                proof {
                    assert(!hit_shape_ok(hits@[idx as int]));
                }
                return Err(DatabaseError::UnexpectedResponse);
            },
        };
        let date: Option<UtcTime> = match &h.date {
            JsonField::Absent => None,
            JsonField::Text(s) => {
                match parse_rfc3339(s.as_str()) {
                    Some(t) => Some(t),
                    None => {
                        proof {
                            assert(!hit_shape_ok(hits@[idx as int]));
                        }
                        return Err(DatabaseError::UnexpectedResponse);
                    },
                }
            },
            JsonField::Other => {
                proof {
                    assert(!hit_shape_ok(hits@[idx as int]));
                }
                return Err(DatabaseError::UnexpectedResponse);
            },
        };
        let temperature: Option<Celsius> = match &h.temp {
            JsonField::Absent => None,
            JsonField::Text(s) => {
                match parse_decimal_milli(s.as_str()) {
                    Some(m) => Some(Celsius(m)),
                    None => {
                        proof {
                            assert(!hit_shape_ok(hits@[idx as int]));
                        }
                        return Err(DatabaseError::UnexpectedResponse);
                    },
                }
            },
            JsonField::Other => {
                proof {
                    assert(!hit_shape_ok(hits@[idx as int]));
                }
                return Err(DatabaseError::UnexpectedResponse);
            },
        };
        out.push(MeasurementResult { address, date, temperature });
        k += 1;
    }
    proof {
        assert forall|i: int| 0 <= i < hits@.len() implies hit_shape_ok(#[trigger] hits@[i]) by {
            let j = hits@.len() - 1 - i;
            assert(hit_shape_ok(hits@[hits@.len() - 1 - j]));
        }
    }
    Ok(out)
}

/// Which kind one optional string field of a record held.
fn classify_string_field(obj: &serde_json::Value, key: &str) -> JsonField {
    match json_get(obj, key) {
        None => JsonField::Absent,
        Some(f) => {
            if json_is_null(f) {
                JsonField::Absent
            } else {
                match json_as_str(f) {
                    Some(s) => JsonField::Text(s.to_owned()),
                    None => JsonField::Other,
                }
            }
        },
    }
}

/// Which kind one optional number field of a record held, keeping the
/// number's decimal text.
fn classify_number_field(obj: &serde_json::Value, key: &str) -> JsonField {
    match json_get(obj, key) {
        None => JsonField::Absent,
        Some(f) => {
            if json_is_null(f) {
                JsonField::Absent
            } else {
                match json_as_number(f) {
                    Some(num) => JsonField::Text(json_number_text(num)),
                    None => JsonField::Other,
                }
            }
        },
    }
}

/// Whether a required envelope field is present and a string.
fn string_field_ok(obj: &serde_json::Value, key: &str) -> bool {
    match json_get(obj, key) {
        Some(f) => json_as_str(f).is_some(),
        None => false,
    }
}

/// Reduce one hit of the reply to plain values.
fn extract_hit(hit: &serde_json::Value) -> RawHit {
    let score_ok = match json_get(hit, "_score") {
        None => true,
        Some(f) => json_is_null(f) || json_as_number(f).is_some(),
    };
    let (source_ok, address, date, temp) = match json_get(hit, "_source") {
        Some(src) => {
            if json_is_object(src) {
                (
                    true,
                    classify_string_field(src, "address"),
                    classify_string_field(src, "date"),
                    classify_number_field(src, "temp_c"),
                )
            } else {
                (false, JsonField::Absent, JsonField::Absent, JsonField::Absent)
            }
        },
        None => { (false, JsonField::Absent, JsonField::Absent, JsonField::Absent) },
    };
    RawHit {
        id_ok: string_field_ok(hit, "_id"),
        index_ok: string_field_ok(hit, "_index"),
        type_ok: string_field_ok(hit, "_type"),
        score_ok,
        source_ok,
        address,
        date,
        temp,
    }
}

/// Decode a whole search reply: peel the nested hits envelope, reduce each
/// hit to plain values, and hand the hits to the verified record decoder.
/// The envelope walk crosses opaque JSON values, so the contract classifies
/// the errors; what every returned record looks like is pinned by the
/// correspondence the decoder establishes.
pub fn parse_search_response(body: &str) -> (r: Result<Vec<MeasurementResult>, DatabaseError>)
    ensures
        match r {
            Ok(ms) => exists|hs: Seq<RawHit>| #[trigger] results_correspond(ms@, hs),
            Err(e) => e == DatabaseError::InvalidResponse || e == DatabaseError::UnexpectedResponse,
        },
{
    let parsed = match parse_json(body) {
        Some(v) => v,
        None => {
            return Err(DatabaseError::InvalidResponse);
        },
    };
    let outer = match json_get(&parsed, "hits") {
        Some(h) => h,
        None => {
            return Err(DatabaseError::InvalidResponse);
        },
    };
    let inner = match json_get(outer, "hits") {
        Some(h) => h,
        None => {
            return Err(DatabaseError::InvalidResponse);
        },
    };
    let arr = match json_as_array(inner) {
        Some(a) => a,
        None => {
            return Err(DatabaseError::UnexpectedResponse);
        },
    };
    let mut raw: Vec<RawHit> = Vec::new();
    let mut i: usize = 0;
    while i < arr.len()
        decreases arr@.len() - i,
    {
        let h = extract_hit(&arr[i]);
        raw.push(h);
        i += 1;
    }
    match measurements_from_hits(&raw) {
        Ok(ms) => {
            proof {
                assert(results_correspond(ms@, raw@));
            }
            Ok(ms)
        },
        Err(e) => Err(e),
    }
}

} // verus!
