//! One input line's decoded form: a billing record with nested groups of
//! negotiated prices, and the decoder that builds it from a JSON line.
//!
//! The decoder is strict about the required members — `billing_code` and
//! `name` must be strings, `negotiated_rates` an array of objects whose
//! `negotiated_prices` are arrays of objects carrying a numeric
//! `negotiated_rate` — and ignores any other members.
use vstd::prelude::*;

use crate::json::{json_of, parse_json, Json, JsonField};

verus! {

/// One group of negotiated prices inside a record.
pub struct PriceGroup {
    pub prices: Vec<serde_json::Number>,
}

/// One decoded input record.
pub struct Record {
    pub name: Vec<u8>,
    pub billing_code: Vec<u8>,
    pub groups: Vec<PriceGroup>,
}

/// The mathematical form of a [`Record`]: its two text fields as byte
/// sequences and its price groups as a sequence of sequences of numbers.
pub struct RecordModel {
    pub name: Seq<u8>,
    pub billing_code: Seq<u8>,
    pub groups: Seq<Seq<serde_json::Number>>,
}

impl View for Record {
    type V = RecordModel;

    open spec fn view(&self) -> RecordModel {
        RecordModel {
            name: self.name@,
            billing_code: self.billing_code@,
            groups: Seq::new(self.groups@.len(), |i: int| self.groups@[i].prices@),
        }
    }
}

/// Why a line was rejected: not one valid JSON document, or a JSON document
/// without the required record shape.
pub enum DecodeError {
    Syntax,
    Shape,
}

pub open spec fn key_billing_code() -> Seq<u8> {
    seq!['b' as u8, 'i' as u8, 'l' as u8, 'l' as u8, 'i' as u8, 'n' as u8, 'g' as u8, '_' as u8, 'c' as u8, 'o' as u8, 'd' as u8, 'e' as u8]
}

pub open spec fn key_name() -> Seq<u8> {
    seq!['n' as u8, 'a' as u8, 'm' as u8, 'e' as u8]
}

pub open spec fn key_negotiated_rates() -> Seq<u8> {
    seq!['n' as u8, 'e' as u8, 'g' as u8, 'o' as u8, 't' as u8, 'i' as u8, 'a' as u8, 't' as u8, 'e' as u8, 'd' as u8, '_' as u8, 'r' as u8, 'a' as u8, 't' as u8, 'e' as u8, 's' as u8]
}

pub open spec fn key_negotiated_prices() -> Seq<u8> {
    seq!['n' as u8, 'e' as u8, 'g' as u8, 'o' as u8, 't' as u8, 'i' as u8, 'a' as u8, 't' as u8, 'e' as u8, 'd' as u8, '_' as u8, 'p' as u8, 'r' as u8, 'i' as u8, 'c' as u8, 'e' as u8, 's' as u8]
}

pub open spec fn key_negotiated_rate() -> Seq<u8> {
    seq!['n' as u8, 'e' as u8, 'g' as u8, 'o' as u8, 't' as u8, 'i' as u8, 'a' as u8, 't' as u8, 'e' as u8, 'd' as u8, '_' as u8, 'r' as u8, 'a' as u8, 't' as u8, 'e' as u8]
}

/// The first member of `fields` at or after position `i` whose key is `key`.
pub open spec fn obj_get_from(fields: Seq<JsonField>, key: Seq<u8>, i: int) -> Option<Json>
    decreases fields.len() - i,
{
    if i < 0 || i >= fields.len() {
        None
    } else if fields[i].key@ == key {
        Some(fields[i].value)
    } else {
        obj_get_from(fields, key, i + 1)
    }
}

/// The member of `fields` named `key`, if any.
pub open spec fn obj_get(fields: Seq<JsonField>, key: Seq<u8>) -> Option<Json> {
    obj_get_from(fields, key, 0)
}

/// The price carried by one member of a `negotiated_prices` array: the object
/// must carry a numeric `negotiated_rate`.
pub open spec fn price_of(j: Json) -> Option<serde_json::Number> {
    match j {
        Json::Obj(fields) => match obj_get(fields@, key_negotiated_rate()) {
            Some(Json::Num(n)) => Some(n),
            _ => None,
        },
        _ => None,
    }
}

/// The prices of a whole `negotiated_prices` array, in order; `None` when any
/// member lacks one.
pub open spec fn prices_of(items: Seq<Json>) -> Option<Seq<serde_json::Number>> {
    if forall|i: int| 0 <= i < items.len() ==> price_of(#[trigger] items[i]) is Some {
        Some(Seq::new(items.len(), |i: int| price_of(items[i])->Some_0))
    } else {
        None
    }
}

/// The prices of one member of a `negotiated_rates` array: the object must
/// carry a `negotiated_prices` array.
pub open spec fn group_of(j: Json) -> Option<Seq<serde_json::Number>> {
    match j {
        Json::Obj(fields) => match obj_get(fields@, key_negotiated_prices()) {
            Some(Json::Arr(items)) => prices_of(items@),
            _ => None,
        },
        _ => None,
    }
}

/// The price groups of a whole `negotiated_rates` array, in order; `None`
/// when any member is malformed.
pub open spec fn groups_of(items: Seq<Json>) -> Option<Seq<Seq<serde_json::Number>>> {
    if forall|i: int| 0 <= i < items.len() ==> group_of(#[trigger] items[i]) is Some {
        Some(Seq::new(items.len(), |i: int| group_of(items[i])->Some_0))
    } else {
        None
    }
}

/// The record described by a JSON document: an object whose `billing_code`
/// and `name` are strings and whose `negotiated_rates` is a well-formed array
/// of price groups. Members beyond those three are ignored.
pub open spec fn record_of(j: Json) -> Option<RecordModel> {
    match j {
        Json::Obj(fields) => match (
            obj_get(fields@, key_name()),
            obj_get(fields@, key_billing_code()),
            obj_get(fields@, key_negotiated_rates()),
        ) {
            (Some(Json::Str(nm)), Some(Json::Str(code)), Some(Json::Arr(items))) => match groups_of(
                items@,
            ) {
                Some(gs) => Some(RecordModel { name: nm@, billing_code: code@, groups: gs }),
                None => None,
            },
            _ => None,
        },
        _ => None,
    }
}

/// The record on a whole input line: `None` marks a line the run must reject.
pub open spec fn record_of_line(line: Seq<u8>) -> Option<RecordModel> {
    match json_of(line) {
        Some(j) => record_of(j),
        None => None,
    }
}

fn get_field<'a>(fields: &'a Vec<JsonField>, key: &Vec<u8>) -> (r: Option<&'a Json>)
    ensures
        match obj_get(fields@, key@) {
            Some(v) => r matches Some(p) && *p == v,
            None => r is None,
        },
{
    let n = fields.len();
    for i in 0..n
        invariant
            n == fields.len(),
            obj_get(fields@, key@) == obj_get_from(fields@, key@, i as int),
    {
        if fields[i].key == *key {
            proof {
                assert(fields@[i as int].key@ =~= key@);
            }
            return Some(&fields[i].value);
        }
        proof {
            assert(fields@[i as int].key@ != key@) by {
                if fields@[i as int].key@ == key@ {
                    assert(fields@[i as int].key@ =~= key@);
                }
            }
        }
    }
    None
}

fn key_billing_code_vec() -> (r: Vec<u8>)
    ensures
        r@ == key_billing_code(),
{
    let r = vec!['b' as u8, 'i' as u8, 'l' as u8, 'l' as u8, 'i' as u8, 'n' as u8, 'g' as u8, '_' as u8, 'c' as u8, 'o' as u8, 'd' as u8, 'e' as u8];
    proof {
        assert(r@ =~= key_billing_code());
    }
    r
}

fn key_name_vec() -> (r: Vec<u8>)
    ensures
        r@ == key_name(),
{
    let r = vec!['n' as u8, 'a' as u8, 'm' as u8, 'e' as u8];
    proof {
        assert(r@ =~= key_name());
    }
    r
}

fn key_negotiated_rates_vec() -> (r: Vec<u8>)
    ensures
        r@ == key_negotiated_rates(),
{
    let r = vec!['n' as u8, 'e' as u8, 'g' as u8, 'o' as u8, 't' as u8, 'i' as u8, 'a' as u8, 't' as u8, 'e' as u8, 'd' as u8, '_' as u8, 'r' as u8, 'a' as u8, 't' as u8, 'e' as u8, 's' as u8];
    proof {
        assert(r@ =~= key_negotiated_rates());
    }
    r
}

fn key_negotiated_prices_vec() -> (r: Vec<u8>)
    ensures
        r@ == key_negotiated_prices(),
{
    let r = vec!['n' as u8, 'e' as u8, 'g' as u8, 'o' as u8, 't' as u8, 'i' as u8, 'a' as u8, 't' as u8, 'e' as u8, 'd' as u8, '_' as u8, 'p' as u8, 'r' as u8, 'i' as u8, 'c' as u8, 'e' as u8, 's' as u8];
    proof {
        assert(r@ =~= key_negotiated_prices());
    }
    r
}

fn key_negotiated_rate_vec() -> (r: Vec<u8>)
    ensures
        r@ == key_negotiated_rate(),
{
    let r = vec!['n' as u8, 'e' as u8, 'g' as u8, 'o' as u8, 't' as u8, 'i' as u8, 'a' as u8, 't' as u8, 'e' as u8, 'd' as u8, '_' as u8, 'r' as u8, 'a' as u8, 't' as u8, 'e' as u8];
    proof {
        assert(r@ =~= key_negotiated_rate());
    }
    r
}

fn extract_price(j: &Json) -> (r: Option<serde_json::Number>)
    ensures
        r == price_of(*j),
{
    match j {
        Json::Obj(fields) => {
            let key = key_negotiated_rate_vec();
            match get_field(fields, &key) {
                Some(Json::Num(n)) => Some(n.clone()),
                _ => None,
            }
        },
        _ => None,
    }
}

fn extract_prices(items: &Vec<Json>) -> (r: Option<Vec<serde_json::Number>>)
    ensures
        match prices_of(items@) {
            Some(s) => r matches Some(v) && v@ == s,
            None => r is None,
        },
{
    let mut out: Vec<serde_json::Number> = Vec::new();
    let n = items.len();
    for i in 0..n
        invariant
            n == items.len(),
            out@.len() == i,
            forall|k: int| 0 <= k < i ==> price_of(#[trigger] items@[k]) is Some,
            forall|k: int| 0 <= k < i ==> out@[k] == price_of(#[trigger] items@[k])->Some_0,
    {
        match extract_price(&items[i]) {
            Some(p) => out.push(p),
            None => {
                proof {
                    assert(price_of(items@[i as int]) is None);
                }
                return None;
            },
        }
    }
    proof {
        let s = prices_of(items@)->Some_0;
        assert(out@ =~= s);
    }
    Some(out)
}

fn extract_group(j: &Json) -> (r: Option<PriceGroup>)
    ensures
        match group_of(*j) {
            Some(s) => r matches Some(g) && g.prices@ == s,
            None => r is None,
        },
{
    match j {
        Json::Obj(fields) => {
            let key = key_negotiated_prices_vec();
            match get_field(fields, &key) {
                Some(Json::Arr(items)) => match extract_prices(items) {
                    Some(prices) => Some(PriceGroup { prices }),
                    None => None,
                },
                _ => None,
            }
        },
        _ => None,
    }
}

fn extract_groups(items: &Vec<Json>) -> (r: Option<Vec<PriceGroup>>)
    ensures
        match groups_of(items@) {
            Some(s) => r matches Some(v) && v@.len() == s.len() && (forall|k: int|
                0 <= k < s.len() ==> #[trigger] v@[k].prices@ == s[k]),
            None => r is None,
        },
{
    let mut out: Vec<PriceGroup> = Vec::new();
    let n = items.len();
    for i in 0..n
        invariant
            n == items.len(),
            out@.len() == i,
            forall|k: int| 0 <= k < i ==> group_of(#[trigger] items@[k]) is Some,
            forall|k: int| 0 <= k < i ==> #[trigger] out@[k].prices@ == group_of(items@[k])->Some_0,
    {
        match extract_group(&items[i]) {
            Some(g) => out.push(g),
            None => {
                proof {
                    assert(group_of(items@[i as int]) is None);
                }
                return None;
            },
        }
    }
    Some(out)
}

fn extract_record(j: &Json) -> (r: Option<Record>)
    ensures
        match record_of(*j) {
            Some(m) => r matches Some(rec) && rec@ == m,
            None => r is None,
        },
{
    match j {
        Json::Obj(fields) => {
            let kname = key_name_vec();
            let kcode = key_billing_code_vec();
            let krates = key_negotiated_rates_vec();
            match (get_field(fields, &kname), get_field(fields, &kcode), get_field(fields, &krates)) {
                (Some(Json::Str(nm)), Some(Json::Str(code)), Some(Json::Arr(items))) => {
                    match extract_groups(items) {
                        Some(groups) => {
                            let rec = Record {
                                name: clone_bytes(nm),
                                billing_code: clone_bytes(code),
                                groups,
                            };
                            proof {
                                assert(rec@.groups =~= record_of(*j)->Some_0.groups);
                                assert(rec@ == record_of(*j)->Some_0);
                            }
                            Some(rec)
                        },
                        None => None,
                    }
                },
                _ => None,
            }
        },
        _ => None,
    }
}

fn clone_bytes(b: &Vec<u8>) -> (r: Vec<u8>)
    ensures
        r@ == b@,
{
    let mut r: Vec<u8> = Vec::new();
    let n = b.len();
    for i in 0..n
        invariant
            n == b.len(),
            r@ == b@.take(i as int),
    {
        r.push(b[i]);
        proof {
            assert(r@ =~= b@.take(i + 1));
        }
    }
    proof {
        assert(r@ =~= b@);
    }
    r
}

/// Every negotiated price of the record: groups in order, and prices in
/// order within each group.
pub open spec fn all_rates(m: RecordModel) -> Seq<serde_json::Number> {
    m.groups.flatten()
}

/// Collects every negotiated price of the record, groups in order and prices
/// in order within each group. `None` exactly when the record holds no price
/// at all — the case in which no mean exists and the record is skipped.
pub fn rates_for_average(rec: &Record) -> (r: Option<Vec<serde_json::Number>>)
    ensures
        r is None <==> all_rates(rec@).len() == 0,
        r matches Some(v) ==> v@ == all_rates(rec@) && v@.len() > 0,
{
    let mut out: Vec<serde_json::Number> = Vec::new();
    let n = rec.groups.len();
    proof {
        assert(rec@.groups.take(0).flatten_alt() =~= Seq::<serde_json::Number>::empty());
    }
    for i in 0..n
        invariant
            n == rec.groups.len(),
            out@ == rec@.groups.take(i as int).flatten_alt(),
    {
        let m = rec.groups[i].prices.len();
        proof {
            assert(out@ =~= rec@.groups.take(i as int).flatten_alt() + rec@.groups[i as int].take(
                0,
            ));
        }
        for j in 0..m
            invariant
                n == rec.groups.len(),
                i < n,
                m == rec.groups@[i as int].prices.len(),
                out@ == rec@.groups.take(i as int).flatten_alt() + rec@.groups[i as int].take(
                    j as int,
                ),
        {
            out.push(rec.groups[i].prices[j].clone());
            proof {
                assert(rec@.groups[i as int].take(j + 1) =~= rec@.groups[i as int].take(
                    j as int,
                ).push(rec.groups@[i as int].prices@[j as int]));
                assert(out@ =~= rec@.groups.take(i as int).flatten_alt() + rec@.groups[
                    i as int
                ].take(j + 1));
            }
        }
        proof {
            assert(rec@.groups[i as int].take(m as int) =~= rec@.groups[i as int]);
            assert(rec@.groups.take(i + 1).drop_last() =~= rec@.groups.take(i as int));
            assert(rec@.groups.take(i + 1).last() == rec@.groups[i as int]);
            assert(rec@.groups.take(i + 1).flatten_alt() == rec@.groups.take(
                i as int,
            ).flatten_alt() + rec@.groups[i as int]);
            assert(out@ =~= rec@.groups.take(i + 1).flatten_alt());
        }
    }
    proof {
        assert(rec@.groups.take(n as int) =~= rec@.groups);
        rec@.groups.lemma_flatten_and_flatten_alt_are_equivalent();
    }
    if out.len() == 0 {
        None
    } else {
        Some(out)
    }
}

/// Decodes one input line. The line must be one valid JSON document
/// (otherwise `Err(Syntax)`) describing a record as [`record_of`] demands
/// (otherwise `Err(Shape)`); the decoded record is exactly that record.
pub fn decode_record(line: &Vec<u8>) -> (r: Result<Record, DecodeError>)
    ensures
        match json_of(line@) {
            None => r matches Err(e) && e matches DecodeError::Syntax,
            Some(j) => match record_of(j) {
                None => r matches Err(e) && e matches DecodeError::Shape,
                Some(m) => r matches Ok(rec) && rec@ == m,
            },
        },
        r matches Ok(rec) ==> record_of_line(line@) matches Some(m) && rec@ == m,
        r is Err <==> record_of_line(line@) is None,
{
    match parse_json(line) {
        None => Err(DecodeError::Syntax),
        Some(j) => match extract_record(&j) {
            None => Err(DecodeError::Shape),
            Some(rec) => Ok(rec),
        },
    }
}

} // verus!
