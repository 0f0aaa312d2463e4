//! The M7 telemetry record schema, and the check that a decrypted payload is
//! a JSON array of such records.
//!
//! A record has 23 fields. It is written either as a JSON object that holds
//! every field under its name exactly once (other members are ignored), or
//! as a JSON array of exactly 23 values in field order. Text fields take
//! JSON strings, real fields any JSON number, and 32-bit integer fields an
//! integer number within the range of `i32`.
//!
//! A payload is first read whole by serde_json, which rejects it where it is
//! not JSON (the syntax check comes before any record). The records are then
//! read in text order, member by member, and the first problem met is
//! reported: a repeated or ill-typed field as its member is read, a missing
//! field once the object has been read, and for an array record each value
//! in turn before the count.
use crate::json::{json_node, json_skips, parse_json_node, skip_json, JsonNode, JsonNumber};
use crate::scan::{array_items, items_from, members_from, object_members, skip_ws};
use vstd::prelude::*;
use vstd::slice::slice_subrange;
use vstd::utf8::encode_utf8;

verus! {

/// The number of fields in a record.
pub const FIELD_COUNT: usize = 23;

/// The JSON type that a field takes.
#[derive(Clone, Copy, Debug, PartialEq, Eq, Structural)]
pub enum FieldKind {
    /// A JSON string.
    Text,
    /// Any JSON number (read as a 32-bit float).
    Real,
    /// An integer JSON number within the range of `i32`.
    Int32,
}

/// Why one record does not fit the schema. Field positions count from 0 in
/// the order of `field_name`.
#[derive(Clone, Copy, Debug, PartialEq, Eq, Structural)]
pub enum RecordFault {
    /// The value is neither an object nor an array.
    NotARecord,
    /// The record is an array of this many values, not `FIELD_COUNT` (too
    /// few, or more, past which serde_json reports trailing characters).
    WrongLength(usize),
    /// The object has no member for the field at this position.
    MissingField(usize),
    /// The object has a second member for the field at this position.
    DuplicateField(usize),
    /// The value for the field at this position has the wrong JSON type.
    WrongType(usize),
    /// serde_json does not read a member key of the object as a string.
    UnreadableKey,
}

/// Why a payload is not a list of records.
#[derive(Debug)]
pub enum JsonError {
    /// serde_json does not read the text as one JSON value.
    Syntax(serde_json::Error),
    /// The text is JSON, but not an array.
    NotAnArray,
    /// The element at `index` is not a record.
    BadRecord { index: usize, fault: RecordFault },
}

/// The name of the field at position `j`.
pub open spec fn field_name(j: int) -> Seq<char> {
    if j == 0 { "date"@ }
    else if j == 1 { "time"@ }
    else if j == 2 { "heading"@ }
    else if j == 3 { "lat"@ }
    else if j == 4 { "lathemi"@ }
    else if j == 5 { "lon"@ }
    else if j == 6 { "lonhemi"@ }
    else if j == 7 { "truckid"@ }
    else if j == 8 { "mph"@ }
    else if j == 9 { "gun1"@ }
    else if j == 10 { "gun2"@ }
    else if j == 11 { "gun3"@ }
    else if j == 12 { "gun4"@ }
    else if j == 13 { "gun5"@ }
    else if j == 14 { "gun6"@ }
    else if j == 15 { "gun7"@ }
    else if j == 16 { "gun8"@ }
    else if j == 17 { "yellowmil"@ }
    else if j == 18 { "whitemil"@ }
    else if j == 19 { "beads"@ }
    else if j == 20 { "project"@ }
    else if j == 21 { "company"@ }
    else { "region"@ }
}

/// The type of the field at position `j`.
pub open spec fn field_kind(j: int) -> FieldKind {
    if j == 3 || j == 5 { FieldKind::Real }
    else if j == 7 || (9 <= j && j <= 16) { FieldKind::Int32 }
    else { FieldKind::Text }
}

/// Whether a field of kind `kind` takes the JSON text whose node is `node`.
pub open spec fn kind_accepts(kind: FieldKind, node: Option<JsonNode>) -> bool {
    match kind {
        FieldKind::Text => node matches Some(JsonNode::String(_)),
        FieldKind::Real => node matches Some(JsonNode::Number(_)),
        FieldKind::Int32 => match node {
            Some(JsonNode::Number(JsonNumber::PosInt(n))) => n <= i32::MAX,
            Some(JsonNode::Number(JsonNumber::NegInt(n))) => n >= i32::MIN,
            _ => false,
        },
    }
}

/// The position of the field named `key`, looking from position `j` on.
pub open spec fn field_index_from(key: Seq<char>, j: int) -> Option<int>
    decreases FIELD_COUNT - j,
{
    if j < 0 || j >= FIELD_COUNT {
        None
    } else if field_name(j) == key {
        Some(j)
    } else {
        field_index_from(key, j + 1)
    }
}

/// No field read yet.
pub open spec fn no_fields_seen() -> Seq<bool> {
    Seq::new(FIELD_COUNT as nat, |j: int| false)
}

/// The first field, from position `j` on, that has not been read.
pub open spec fn first_unseen(seen: Seq<bool>, j: int) -> Option<RecordFault>
    decreases FIELD_COUNT - j,
{
    if j < 0 || j >= FIELD_COUNT {
        None
    } else if !seen[j] {
        Some(RecordFault::MissingField(j as usize))
    } else {
        first_unseen(seen, j + 1)
    }
}

/// The first problem met reading the members of an object record of the
/// text `t`, from member `k` on, with the fields in `seen` read before.
pub open spec fn members_fault(t: Seq<u8>, members: Seq<(int, int, int, int)>, k: int, seen: Seq<bool>) -> Option<RecordFault>
    decreases members.len() - k,
{
    if k < 0 || k >= members.len() {
        first_unseen(seen, 0)
    } else {
        let m = members[k];
        match json_node(t.subrange(m.0, m.1)) {
            Some(JsonNode::String(name)) => match field_index_from(name@, 0) {
                None => members_fault(t, members, k + 1, seen),
                Some(j) => if seen[j] {
                    Some(RecordFault::DuplicateField(j as usize))
                } else if !kind_accepts(field_kind(j), json_node(t.subrange(m.2, m.3))) {
                    Some(RecordFault::WrongType(j as usize))
                } else {
                    members_fault(t, members, k + 1, seen.update(j, true))
                },
            },
            _ => Some(RecordFault::UnreadableKey),
        }
    }
}

/// The first problem met reading the values of an array record of the text
/// `t`, from field position `j` on.
pub open spec fn values_fault(t: Seq<u8>, items: Seq<(int, int)>, j: int) -> Option<RecordFault>
    decreases FIELD_COUNT - j,
{
    if j < 0 || j >= FIELD_COUNT {
        if items.len() > FIELD_COUNT {
            Some(RecordFault::WrongLength(items.len() as usize))
        } else {
            None
        }
    } else if j >= items.len() {
        Some(RecordFault::WrongLength(items.len() as usize))
    } else if !kind_accepts(field_kind(j), json_node(t.subrange(items[j].0, items[j].1))) {
        Some(RecordFault::WrongType(j as usize))
    } else {
        values_fault(t, items, j + 1)
    }
}

/// The first problem met reading the record that starts at position `a` of
/// the text `t`, if any.
pub open spec fn record_fault(t: Seq<u8>, a: int) -> Option<RecordFault> {
    if 0 <= a < t.len() && t[a] == 123 {
        members_fault(t, members_from(t, a + 1), 0, no_fields_seen())
    } else if 0 <= a < t.len() && t[a] == 91 {
        values_fault(t, items_from(t, a + 1), 0)
    } else {
        Some(RecordFault::NotARecord)
    }
}

/// The element spans of the text `t` where it is an array.
pub open spec fn document_items(t: Seq<u8>) -> Option<Seq<(int, int)>> {
    let j = skip_ws(t, 0);
    if 0 <= j < t.len() && t[j] == 91 {
        Some(items_from(t, j + 1))
    } else {
        None
    }
}

/// The first element, from position `i` on, that is not a record, with its
/// problem.
pub open spec fn first_bad_record(t: Seq<u8>, items: Seq<(int, int)>, i: int) -> Option<(int, RecordFault)>
    decreases items.len() - i,
{
    if i < 0 || i >= items.len() {
        None
    } else {
        match record_fault(t, items[i].0) {
            Some(f) => Some((i, f)),
            None => first_bad_record(t, items, i + 1),
        }
    }
}

/// Whether `text` is a JSON array whose elements are all records.
pub open spec fn is_record_list(text: Seq<char>) -> bool {
    let t = encode_utf8(text);
    &&& json_skips(text)
    &&& document_items(t) matches Some(items)
    &&& forall|i: int| 0 <= i < items.len() ==> (#[trigger] record_fault(t, items[i].0)) is None
}

/// The outcome of checking the payload `text`, with the payload of a syntax
/// error left out.
pub open spec fn check_outcome(text: Seq<char>, r: Result<(), JsonError>) -> bool {
    let t = encode_utf8(text);
    if !json_skips(text) {
        r matches Err(JsonError::Syntax(_))
    } else {
        match document_items(t) {
            None => r matches Err(JsonError::NotAnArray),
            Some(items) => match first_bad_record(t, items, 0) {
                None => r is Ok,
                Some((i, f)) => r matches Err(JsonError::BadRecord { index, fault })
                    && index == i && fault == f,
            },
        }
    }
}

fn field_name_text(j: usize) -> (r: String)
    requires
        j < FIELD_COUNT,
    ensures
        r@ == field_name(j as int),
{
    let s: &str = if j == 0 { "date" }
    else if j == 1 { "time" }
    else if j == 2 { "heading" }
    else if j == 3 { "lat" }
    else if j == 4 { "lathemi" }
    else if j == 5 { "lon" }
    else if j == 6 { "lonhemi" }
    else if j == 7 { "truckid" }
    else if j == 8 { "mph" }
    else if j == 9 { "gun1" }
    else if j == 10 { "gun2" }
    else if j == 11 { "gun3" }
    else if j == 12 { "gun4" }
    else if j == 13 { "gun5" }
    else if j == 14 { "gun6" }
    else if j == 15 { "gun7" }
    else if j == 16 { "gun8" }
    else if j == 17 { "yellowmil" }
    else if j == 18 { "whitemil" }
    else if j == 19 { "beads" }
    else if j == 20 { "project" }
    else if j == 21 { "company" }
    else { "region" };
    s.to_owned()
}

fn field_kind_of(j: usize) -> (r: FieldKind)
    ensures
        r == field_kind(j as int),
{
    if j == 3 || j == 5 {
        FieldKind::Real
    } else if j == 7 || (9 <= j && j <= 16) {
        FieldKind::Int32
    } else {
        FieldKind::Text
    }
}

/// The position of the field named `key`.
fn field_index(key: &String) -> (r: Option<usize>)
    ensures
        r is None <==> field_index_from(key@, 0) is None,
        r matches Some(j) ==> j < FIELD_COUNT && field_index_from(key@, 0) == Some(j as int),
{
    let mut j: usize = 0;
    while j < FIELD_COUNT
        invariant
            j <= FIELD_COUNT,
            field_index_from(key@, 0) == field_index_from(key@, j as int),
        decreases FIELD_COUNT - j,
    {
        if field_name_text(j) == *key {
            return Some(j);
        }
        j = j + 1;
    }
    None
}

/// Whether a field of kind `kind` takes the JSON text `value`.
pub fn value_fits(kind: FieldKind, value: &[u8]) -> (r: bool)
    ensures
        r == kind_accepts(kind, json_node(value@)),
{
    let node = parse_json_node(value);
    match kind {
        FieldKind::Text => matches!(node, Ok(JsonNode::String(_))),
        FieldKind::Real => matches!(node, Ok(JsonNode::Number(_))),
        FieldKind::Int32 => match node {
            Ok(JsonNode::Number(JsonNumber::PosInt(n))) => n <= 2147483647u64,
            Ok(JsonNode::Number(JsonNumber::NegInt(n))) => n >= -2147483648i64,
            _ => false,
        },
    }
}

fn first_unseen_of(seen: &Vec<bool>) -> (r: Option<RecordFault>)
    requires
        seen@.len() == FIELD_COUNT,
    ensures
        r == first_unseen(seen@, 0),
{
    let mut j: usize = 0;
    while j < FIELD_COUNT
        invariant
            j <= FIELD_COUNT,
            seen@.len() == FIELD_COUNT,
            first_unseen(seen@, 0) == first_unseen(seen@, j as int),
        decreases FIELD_COUNT - j,
    {
        if !seen[j] {
            return Some(RecordFault::MissingField(j));
        }
        j = j + 1;
    }
    None
}

/// The first problem met reading the object record whose `{` is at
/// position `start` of the text `t`.
fn check_object_record(t: &[u8], start: usize) -> (r: Option<RecordFault>)
    requires
        start < t@.len(),
    ensures
        r == members_fault(t@, members_from(t@, start + 1), 0, no_fields_seen()),
{
    let _len = t.len();
    let members = object_members(t, start + 1);
    let ghost ms = members_from(t@, start + 1);
    let mut seen: Vec<bool> = Vec::new();
    while seen.len() < FIELD_COUNT
        invariant
            seen@.len() <= FIELD_COUNT,
            forall|j: int| 0 <= j < seen@.len() ==> !(#[trigger] seen@[j]),
        decreases FIELD_COUNT - seen@.len(),
    {
        seen.push(false);
    }
    assert(seen@ =~= no_fields_seen());
    let mut k: usize = 0;
    while k < members.len()
        invariant
            k <= members@.len(),
            ms == crate::scan::member_spans(members@),
            ms == members_from(t@, start + 1),
            seen@.len() == FIELD_COUNT,
            forall|q: int| 0 <= q < members@.len() ==> {
                &&& (#[trigger] members@[q]).0 <= members@[q].1 <= t@.len()
                &&& members@[q].2 <= members@[q].3 <= t@.len()
            },
            members_fault(t@, ms, 0, no_fields_seen()) == members_fault(t@, ms, k as int, seen@),
        decreases members@.len() - k,
    {
        let (ks, ke, vs, ve) = members[k];
        let ghost m = ms[k as int];
        assert(m == (ks as int, ke as int, vs as int, ve as int));
        let key = slice_subrange(t, ks, ke);
        assert(key@ == t@.subrange(m.0, m.1));
        let ghost before = seen@;
        match parse_json_node(key) {
            Ok(JsonNode::String(name)) => {
                match field_index(&name) {
                    None => {
                        assert(members_fault(t@, ms, k as int, before) == members_fault(t@, ms, k + 1, before));
                    },
                    Some(j) => {
                        if seen[j] {
                            assert(members_fault(t@, ms, k as int, before) == Some(RecordFault::DuplicateField(j)));
                            return Some(RecordFault::DuplicateField(j));
                        }
                        let value = slice_subrange(t, vs, ve);
                        assert(value@ == t@.subrange(m.2, m.3));
                        if !value_fits(field_kind_of(j), value) {
                            assert(members_fault(t@, ms, k as int, before) == Some(RecordFault::WrongType(j)));
                            return Some(RecordFault::WrongType(j));
                        }
                        seen.set(j, true);
                        assert(seen@ == before.update(j as int, true));
                        assert(members_fault(t@, ms, k as int, before) == members_fault(t@, ms, k + 1, seen@));
                    },
                }
            },
            _ => {
                assert(members_fault(t@, ms, k as int, before) == Some(RecordFault::UnreadableKey));
                return Some(RecordFault::UnreadableKey);
            },
        }
        k = k + 1;
    }
    first_unseen_of(&seen)
}

/// The first problem met reading the array record whose `[` is at position
/// `start` of the text `t`.
fn check_array_record(t: &[u8], start: usize) -> (r: Option<RecordFault>)
    requires
        start < t@.len(),
    ensures
        r == values_fault(t@, items_from(t@, start + 1), 0),
{
    let _len = t.len();
    let items = array_items(t, start + 1);
    let ghost its = items_from(t@, start + 1);
    let mut j: usize = 0;
    while j < FIELD_COUNT
        invariant
            j <= FIELD_COUNT,
            its == crate::scan::item_spans(items@),
            its == items_from(t@, start + 1),
            forall|q: int| 0 <= q < items@.len() ==> (#[trigger] items@[q]).0 <= items@[q].1 <= t@.len(),
            values_fault(t@, its, 0) == values_fault(t@, its, j as int),
        decreases FIELD_COUNT - j,
    {
        if j >= items.len() {
            return Some(RecordFault::WrongLength(items.len()));
        }
        let (a, b) = items[j];
        assert(its[j as int] == (a as int, b as int));
        let value = slice_subrange(t, a, b);
        assert(value@ == t@.subrange(its[j as int].0, its[j as int].1));
        if !value_fits(field_kind_of(j), value) {
            assert(!kind_accepts(field_kind(j as int), json_node(t@.subrange(its[j as int].0, its[j as int].1))));
            assert(values_fault(t@, its, j as int) == Some(RecordFault::WrongType(j)));
            return Some(RecordFault::WrongType(j));
        }
        j = j + 1;
    }
    if items.len() > FIELD_COUNT {
        Some(RecordFault::WrongLength(items.len()))
    } else {
        None
    }
}

/// The first problem met reading the record that starts at position
/// `start` of the text `t`, if any.
pub fn check_record(t: &[u8], start: usize) -> (r: Option<RecordFault>)
    ensures
        r == record_fault(t@, start as int),
{
    if start < t.len() && t[start] == 123 {
        check_object_record(t, start)
    } else if start < t.len() && t[start] == 91 {
        check_array_record(t, start)
    } else {
        Some(RecordFault::NotARecord)
    }
}

/// Checks that the decrypted payload `m7data` is a JSON array of records.
pub fn convert_from_str(m7data: &str) -> (r: Result<(), JsonError>)
    ensures
        check_outcome(m7data@, r),
        r is Ok <==> is_record_list(m7data@),
{
    if let Err(e) = skip_json(m7data) {
        return Err(JsonError::Syntax(e));
    }
    let t = m7data.as_bytes();
    let ghost tb = encode_utf8(m7data@);
    assert(t@ == tb);
    let j = crate::scan::skip_ws_at(t, 0);
    if !(j < t.len() && t[j] == 91) {
        return Err(JsonError::NotAnArray);
    }
    let items = array_items(t, j + 1);
    let ghost its = items_from(tb, j + 1);
    let mut i: usize = 0;
    while i < items.len()
        invariant
            i <= items@.len(),
            t@ == tb,
            tb == encode_utf8(m7data@),
            json_skips(m7data@),
            document_items(tb) == Some(its),
            its == crate::scan::item_spans(items@),
            first_bad_record(tb, its, 0) == first_bad_record(tb, its, i as int),
            forall|k: int| 0 <= k < i ==> (#[trigger] record_fault(tb, its[k].0)) is None,
        decreases items@.len() - i,
    {
        let (a, _) = items[i];
        assert(its[i as int].0 == a as int);
        match check_record(t, a) {
            Some(fault) => {
                proof { lemma_first_bad_record_found(tb, its, 0, i as int); }
                return Err(JsonError::BadRecord { index: i, fault });
            },
            None => {},
        }
        i = i + 1;
    }
    proof { lemma_first_bad_record_none(tb, its, 0); }
    Ok(())
}

proof fn lemma_first_bad_record_found(t: Seq<u8>, items: Seq<(int, int)>, from: int, i: int)
    requires
        0 <= from <= i < items.len(),
        record_fault(t, items[i].0) is Some,
        forall|k: int| from <= k < i ==> (#[trigger] record_fault(t, items[k].0)) is None,
    ensures
        first_bad_record(t, items, from) is Some,
    decreases i - from,
{
    if from < i {
        lemma_first_bad_record_found(t, items, from + 1, i);
    }
}

proof fn lemma_first_bad_record_none(t: Seq<u8>, items: Seq<(int, int)>, from: int)
    requires
        0 <= from,
        first_bad_record(t, items, from) is None,
    ensures
        forall|k: int| from <= k < items.len() ==> (#[trigger] record_fault(t, items[k].0)) is None,
    decreases items.len() - from,
{
    if from < items.len() {
        lemma_first_bad_record_none(t, items, from + 1);
    }
}

/// The field that the key of member `k` names, where the key reads as a
/// string that is a field name.
pub open spec fn member_field(t: Seq<u8>, members: Seq<(int, int, int, int)>, k: int) -> Option<int> {
    match json_node(t.subrange(members[k].0, members[k].1)) {
        Some(JsonNode::String(name)) => field_index_from(name@, 0),
        _ => None,
    }
}

proof fn lemma_field_index_range(key: Seq<char>, j: int)
    requires
        0 <= j,
    ensures
        field_index_from(key, j) matches Some(x) ==> j <= x < FIELD_COUNT,
    decreases FIELD_COUNT - j,
{
    if j < FIELD_COUNT && field_name(j) != key {
        lemma_field_index_range(key, j + 1);
    }
}

/// Reading on without a problem from member `k` to a member that names
/// field `j` means `j` was not read before `k`.
proof fn lemma_unseen_until_named(t: Seq<u8>, ms: Seq<(int, int, int, int)>, k: int, seen: Seq<bool>, k2: int, j: int)
    requires
        0 <= k <= k2 < ms.len(),
        seen.len() == FIELD_COUNT,
        member_field(t, ms, k2) == Some(j),
        members_fault(t, ms, k, seen) is None,
    ensures
        !seen[j],
    decreases k2 - k,
{
    if let Some(JsonNode::String(name)) = json_node(t.subrange(ms[k2].0, ms[k2].1)) {
        lemma_field_index_range(name@, 0);
    }
    if k < k2 {
        match json_node(t.subrange(ms[k].0, ms[k].1)) {
            Some(JsonNode::String(name)) => {
                lemma_field_index_range(name@, 0);
                match field_index_from(name@, 0) {
                    None => lemma_unseen_until_named(t, ms, k + 1, seen, k2, j),
                    Some(j0) => {
                        lemma_unseen_until_named(t, ms, k + 1, seen.update(j0, true), k2, j);
                    },
                }
            },
            _ => {},
        }
    }
}

proof fn lemma_repeat_faults(t: Seq<u8>, ms: Seq<(int, int, int, int)>, k: int, seen: Seq<bool>, k1: int, k2: int, j: int)
    requires
        0 <= k <= k1 < k2 < ms.len(),
        seen.len() == FIELD_COUNT,
        member_field(t, ms, k1) == Some(j),
        member_field(t, ms, k2) == Some(j),
    ensures
        members_fault(t, ms, k, seen) is Some,
    decreases k1 - k,
{
    if members_fault(t, ms, k, seen) is None {
        match json_node(t.subrange(ms[k].0, ms[k].1)) {
            Some(JsonNode::String(name)) => {
                lemma_field_index_range(name@, 0);
                match field_index_from(name@, 0) {
                    None => {
                        lemma_repeat_faults(t, ms, k + 1, seen, k1, k2, j);
                    },
                    Some(j0) => {
                        let next = seen.update(j0, true);
                        if k < k1 {
                            lemma_repeat_faults(t, ms, k + 1, next, k1, k2, j);
                        } else {
                            lemma_unseen_until_named(t, ms, k + 1, next, k2, j);
                        }
                    },
                }
            },
            _ => {},
        }
    }
}

/// Law: an object record in which two members name the same field is never
/// a record, whatever the values; a repeated field is not overwritten.
pub proof fn law_repeated_field_is_rejected(t: Seq<u8>, a: int, k1: int, k2: int)
    requires
        0 <= a < t.len(),
        t[a] == 123,
        0 <= k1 < k2 < members_from(t, a + 1).len(),
        member_field(t, members_from(t, a + 1), k1) is Some,
        member_field(t, members_from(t, a + 1), k1) == member_field(t, members_from(t, a + 1), k2),
    ensures
        record_fault(t, a) is Some,
{
    let ms = members_from(t, a + 1);
    lemma_repeat_faults(t, ms, 0, no_fields_seen(), k1, k2, member_field(t, ms, k1).unwrap());
}

/// Whether the key of member `m` of the text `t` reads as a string that is
/// no field name.
pub open spec fn names_no_field(t: Seq<u8>, m: (int, int, int, int)) -> bool {
    json_node(t.subrange(m.0, m.1)) matches Some(JsonNode::String(name))
        && field_index_from(name@, 0) is None
}

proof fn lemma_members_after_insert(t: Seq<u8>, ms: Seq<(int, int, int, int)>, p: int, m: (int, int, int, int), k: int, seen: Seq<bool>)
    requires
        0 <= p <= k <= ms.len(),
    ensures
        members_fault(t, ms.insert(p, m), k + 1, seen) == members_fault(t, ms, k, seen),
    decreases ms.len() - k,
{
    let ms2 = ms.insert(p, m);
    if k < ms.len() {
        assert(ms2[k + 1] == ms[k]);
        match json_node(t.subrange(ms[k].0, ms[k].1)) {
            Some(JsonNode::String(name)) => match field_index_from(name@, 0) {
                None => lemma_members_after_insert(t, ms, p, m, k + 1, seen),
                Some(j) => lemma_members_after_insert(t, ms, p, m, k + 1, seen.update(j, true)),
            },
            _ => {},
        }
    }
}

proof fn lemma_members_before_insert(t: Seq<u8>, ms: Seq<(int, int, int, int)>, p: int, m: (int, int, int, int), k: int, seen: Seq<bool>)
    requires
        0 <= k <= p <= ms.len(),
        names_no_field(t, m),
    ensures
        members_fault(t, ms.insert(p, m), k, seen) == members_fault(t, ms, k, seen),
    decreases p - k,
{
    let ms2 = ms.insert(p, m);
    if k == p {
        assert(ms2[p] == m);
        lemma_members_after_insert(t, ms, p, m, p, seen);
    } else {
        assert(ms2[k] == ms[k]);
        match json_node(t.subrange(ms[k].0, ms[k].1)) {
            Some(JsonNode::String(name)) => match field_index_from(name@, 0) {
                None => lemma_members_before_insert(t, ms, p, m, k + 1, seen),
                Some(j) => lemma_members_before_insert(t, ms, p, m, k + 1, seen.update(j, true)),
            },
            _ => {},
        }
    }
}

/// Law: a member whose key is a string that names no field is ignored;
/// putting one anywhere among the members of an object record changes
/// nothing of what the check of that record finds.
pub proof fn law_unknown_member_is_ignored(t: Seq<u8>, ms: Seq<(int, int, int, int)>, p: int, m: (int, int, int, int))
    requires
        0 <= p <= ms.len(),
        names_no_field(t, m),
    ensures
        members_fault(t, ms.insert(p, m), 0, no_fields_seen()) == members_fault(t, ms, 0, no_fields_seen()),
{
    lemma_members_before_insert(t, ms, p, m, 0, no_fields_seen());
}

/// Whether member `i` can be read with the fields in `seen` read before: its
/// key is a string, and where it names a field, that field was not read and
/// the value is of the field's kind.
spec fn member_ok(t: Seq<u8>, ms: Seq<(int, int, int, int)>, i: int, seen: Seq<bool>) -> bool {
    &&& json_node(t.subrange(ms[i].0, ms[i].1)) matches Some(JsonNode::String(_))
    &&& member_field(t, ms, i) matches Some(j) ==> !seen[j] && kind_accepts(
        field_kind(j),
        json_node(t.subrange(ms[i].2, ms[i].3)),
    )
}

/// Whether field `j` was read before or is named by a member from `k` on.
spec fn covered(t: Seq<u8>, ms: Seq<(int, int, int, int)>, k: int, seen: Seq<bool>, j: int) -> bool {
    seen[j] || exists|i: int| k <= i < ms.len() && member_field(t, ms, i) == Some(j)
}

/// The members from `k` on fit a record, stated without their order.
spec fn members_fit(t: Seq<u8>, ms: Seq<(int, int, int, int)>, k: int, seen: Seq<bool>) -> bool {
    &&& forall|i: int| k <= i < ms.len() ==> #[trigger] member_ok(t, ms, i, seen)
    &&& forall|i1: int, i2: int|
        k <= i1 < ms.len() && k <= i2 < ms.len() && i1 != i2 && (member_field(t, ms, i1) is Some)
            ==> #[trigger] member_field(t, ms, i1) != #[trigger] member_field(t, ms, i2)
    &&& forall|j: int| 0 <= j < FIELD_COUNT ==> #[trigger] covered(t, ms, k, seen, j)
}

proof fn lemma_member_field_range(t: Seq<u8>, ms: Seq<(int, int, int, int)>, i: int)
    ensures
        member_field(t, ms, i) matches Some(j) ==> 0 <= j < FIELD_COUNT,
{
    if let Some(JsonNode::String(name)) = json_node(t.subrange(ms[i].0, ms[i].1)) {
        lemma_field_index_range(name@, 0);
    }
}

proof fn lemma_first_unseen_none(seen: Seq<bool>, j0: int)
    requires
        0 <= j0 <= FIELD_COUNT,
        seen.len() == FIELD_COUNT,
    ensures
        first_unseen(seen, j0) is None <==> forall|j: int| j0 <= j < FIELD_COUNT ==> #[trigger] seen[j],
    decreases FIELD_COUNT - j0,
{
    if j0 < FIELD_COUNT {
        lemma_first_unseen_none(seen, j0 + 1);
    }
}

proof fn lemma_members_fit(t: Seq<u8>, ms: Seq<(int, int, int, int)>, k: int, seen: Seq<bool>)
    requires
        0 <= k <= ms.len(),
        seen.len() == FIELD_COUNT,
    ensures
        members_fault(t, ms, k, seen) is None <==> members_fit(t, ms, k, seen),
    decreases ms.len() - k,
{
    if k == ms.len() {
        lemma_first_unseen_none(seen, 0);
        if members_fit(t, ms, k, seen) {
            assert forall|j: int| 0 <= j < FIELD_COUNT implies #[trigger] seen[j] by {
                assert(covered(t, ms, k, seen, j));
            }
        }
        if first_unseen(seen, 0) is None {
            assert forall|j: int| 0 <= j < FIELD_COUNT implies #[trigger] covered(t, ms, k, seen, j) by {
                assert(seen[j]);
            }
        }
    } else {
        let key = json_node(t.subrange(ms[k].0, ms[k].1));
        if let Some(JsonNode::String(name)) = key {
            lemma_field_index_range(name@, 0);
            match field_index_from(name@, 0) {
                None => {
                    lemma_members_fit(t, ms, k + 1, seen);
                    assert(member_field(t, ms, k) is None);
                    if members_fit(t, ms, k, seen) {
                        assert forall|j: int| 0 <= j < FIELD_COUNT implies #[trigger] covered(t, ms, k + 1, seen, j) by {
                            assert(covered(t, ms, k, seen, j));
                        }
                    }
                    if members_fit(t, ms, k + 1, seen) {
                        assert(member_ok(t, ms, k, seen));
                        assert forall|j: int| 0 <= j < FIELD_COUNT implies #[trigger] covered(t, ms, k, seen, j) by {
                            assert(covered(t, ms, k + 1, seen, j));
                        }
                    }
                },
                Some(j0) => {
                    assert(member_field(t, ms, k) == Some(j0));
                    if seen[j0] || !kind_accepts(field_kind(j0), json_node(t.subrange(ms[k].2, ms[k].3))) {
                        assert(!member_ok(t, ms, k, seen));
                    } else {
                        let s2 = seen.update(j0, true);
                        lemma_members_fit(t, ms, k + 1, s2);
                        if members_fit(t, ms, k, seen) {
                            assert forall|i: int| k + 1 <= i < ms.len() implies #[trigger] member_ok(t, ms, i, s2) by {
                                assert(member_ok(t, ms, i, seen));
                                lemma_member_field_range(t, ms, i);
                                if member_field(t, ms, i) is Some {
                                    assert(member_field(t, ms, k) != member_field(t, ms, i));
                                }
                            }
                            assert forall|j: int| 0 <= j < FIELD_COUNT implies #[trigger] covered(t, ms, k + 1, s2, j) by {
                                assert(covered(t, ms, k, seen, j));
                                if j != j0 && !seen[j] {
                                    let i = choose|i: int| k <= i < ms.len() && member_field(t, ms, i) == Some(j);
                                    assert(i != k);
                                }
                            }
                        }
                        if members_fit(t, ms, k + 1, s2) {
                            assert forall|i: int| k + 1 <= i < ms.len() implies member_field(t, ms, i) != Some(j0) by {
                                assert(member_ok(t, ms, i, s2));
                            }
                            assert forall|i1: int, i2: int|
                                k <= i1 < ms.len() && k <= i2 < ms.len() && i1 != i2 && (member_field(t, ms, i1) is Some)
                                implies #[trigger] member_field(t, ms, i1) != #[trigger] member_field(t, ms, i2) by {
                                if i1 != k && i2 != k {
                                    assert(member_field(t, ms, i1) != member_field(t, ms, i2));
                                }
                            }
                            assert forall|i: int| k <= i < ms.len() implies #[trigger] member_ok(t, ms, i, seen) by {
                                if i > k {
                                    lemma_member_field_range(t, ms, i);
                                    assert(member_ok(t, ms, i, s2));
                                }
                            }
                            assert forall|j: int| 0 <= j < FIELD_COUNT implies #[trigger] covered(t, ms, k, seen, j) by {
                                assert(covered(t, ms, k + 1, s2, j));
                                if j == j0 {
                                    assert(member_field(t, ms, k) == Some(j));
                                } else if !seen[j] {
                                    let i = choose|i: int| k + 1 <= i < ms.len() && member_field(t, ms, i) == Some(j);
                                    assert(k <= i < ms.len() && member_field(t, ms, i) == Some(j));
                                }
                            }
                        }
                    }
                },
            }
        } else {
            assert(!member_ok(t, ms, k, seen));
        }
    }
}

/// Law: the order of the members of an object record does not decide
/// whether it is a record. Where `ms2` holds the members of `ms` rearranged
/// (member `i` of `ms2` is member `perm[i]` of `ms`, and `perm` is a
/// bijection), the check finds no problem in one exactly when it finds none
/// in the other.
pub proof fn law_member_order_does_not_matter(
    t: Seq<u8>,
    ms: Seq<(int, int, int, int)>,
    ms2: Seq<(int, int, int, int)>,
    perm: Seq<int>,
)
    requires
        ms2.len() == ms.len(),
        perm.len() == ms.len(),
        forall|i: int| 0 <= i < ms.len() ==> 0 <= #[trigger] perm[i] < ms.len() && ms2[i] == ms[perm[i]],
        forall|i1: int, i2: int| 0 <= i1 < ms.len() && 0 <= i2 < ms.len() && i1 != i2 ==> #[trigger] perm[i1] != #[trigger] perm[i2],
        forall|p: int| 0 <= p < ms.len() ==> #[trigger] perm.contains(p),
    ensures
        members_fault(t, ms2, 0, no_fields_seen()) is None <==> members_fault(t, ms, 0, no_fields_seen()) is None,
{
    let seen = no_fields_seen();
    lemma_members_fit(t, ms, 0, seen);
    lemma_members_fit(t, ms2, 0, seen);
    assert forall|i: int| 0 <= i < ms.len() implies member_field(t, ms2, i) == member_field(t, ms, perm[i])
        && (member_ok(t, ms2, i, seen) <==> member_ok(t, ms, perm[i], seen)) by {
        assert(ms2[i] == ms[perm[i]]);
    }
    if members_fit(t, ms, 0, seen) {
        assert forall|i: int| 0 <= i < ms2.len() implies #[trigger] member_ok(t, ms2, i, seen) by {
            assert(member_ok(t, ms, perm[i], seen));
        }
        assert forall|i1: int, i2: int|
            0 <= i1 < ms2.len() && 0 <= i2 < ms2.len() && i1 != i2 && (member_field(t, ms2, i1) is Some)
            implies #[trigger] member_field(t, ms2, i1) != #[trigger] member_field(t, ms2, i2) by {
            assert(perm[i1] != perm[i2]);
            assert(member_field(t, ms, perm[i1]) != member_field(t, ms, perm[i2]));
        }
        assert forall|j: int| 0 <= j < FIELD_COUNT implies #[trigger] covered(t, ms2, 0, seen, j) by {
            assert(covered(t, ms, 0, seen, j));
            let p = choose|p: int| 0 <= p < ms.len() && member_field(t, ms, p) == Some(j);
            assert(perm.contains(p));
            let i = choose|i: int| 0 <= i < perm.len() && perm[i] == p;
            assert(member_field(t, ms2, i) == Some(j));
        }
    }
    if members_fit(t, ms2, 0, seen) {
        assert forall|p: int| 0 <= p < ms.len() implies #[trigger] member_ok(t, ms, p, seen) by {
            assert(perm.contains(p));
            let i = choose|i: int| 0 <= i < perm.len() && perm[i] == p;
            assert(member_ok(t, ms2, i, seen));
        }
        assert forall|p1: int, p2: int|
            0 <= p1 < ms.len() && 0 <= p2 < ms.len() && p1 != p2 && (member_field(t, ms, p1) is Some)
            implies #[trigger] member_field(t, ms, p1) != #[trigger] member_field(t, ms, p2) by {
            assert(perm.contains(p1) && perm.contains(p2));
            let i1 = choose|i: int| 0 <= i < perm.len() && perm[i] == p1;
            let i2 = choose|i: int| 0 <= i < perm.len() && perm[i] == p2;
            assert(member_field(t, ms2, i1) != member_field(t, ms2, i2));
        }
        assert forall|j: int| 0 <= j < FIELD_COUNT implies #[trigger] covered(t, ms, 0, seen, j) by {
            assert(covered(t, ms2, 0, seen, j));
            let i = choose|i: int| 0 <= i < ms2.len() && member_field(t, ms2, i) == Some(j);
            assert(member_field(t, ms, perm[i]) == Some(j));
        }
    }
}

/// Law: the elements of a payload are checked one by one. The check finds
/// no bad element exactly when every element is a record, and where it
/// reports element `i` with problem `f`, every element before `i` is a
/// record and `f` is the problem of element `i` itself.
pub proof fn law_first_bad_record_is_reported(t: Seq<u8>, items: Seq<(int, int)>, i0: int)
    requires
        0 <= i0 <= items.len(),
    ensures
        first_bad_record(t, items, i0) is None <==> forall|i: int| i0 <= i < items.len() ==> (#[trigger] record_fault(t, items[i].0)) is None,
        first_bad_record(t, items, i0) matches Some((i, f)) ==> i0 <= i < items.len() && record_fault(t, items[i].0) == Some(f)
            && forall|k: int| i0 <= k < i ==> (#[trigger] record_fault(t, items[k].0)) is None,
    decreases items.len() - i0,
{
    if i0 < items.len() {
        law_first_bad_record_is_reported(t, items, i0 + 1);
    }
}

/// Law: the record schema, field by field, in the order of the M7 record:
/// `lat` and `lon` are real numbers; `truckid` and `gun1` to `gun8` are
/// 32-bit integers; every other field is text.
pub proof fn law_record_schema()
    ensures
        field_name(0) == "date"@ && field_kind(0) == FieldKind::Text,
        field_name(1) == "time"@ && field_kind(1) == FieldKind::Text,
        field_name(2) == "heading"@ && field_kind(2) == FieldKind::Text,
        field_name(3) == "lat"@ && field_kind(3) == FieldKind::Real,
        field_name(4) == "lathemi"@ && field_kind(4) == FieldKind::Text,
        field_name(5) == "lon"@ && field_kind(5) == FieldKind::Real,
        field_name(6) == "lonhemi"@ && field_kind(6) == FieldKind::Text,
        field_name(7) == "truckid"@ && field_kind(7) == FieldKind::Int32,
        field_name(8) == "mph"@ && field_kind(8) == FieldKind::Text,
        field_name(9) == "gun1"@ && field_kind(9) == FieldKind::Int32,
        field_name(10) == "gun2"@ && field_kind(10) == FieldKind::Int32,
        field_name(11) == "gun3"@ && field_kind(11) == FieldKind::Int32,
        field_name(12) == "gun4"@ && field_kind(12) == FieldKind::Int32,
        field_name(13) == "gun5"@ && field_kind(13) == FieldKind::Int32,
        field_name(14) == "gun6"@ && field_kind(14) == FieldKind::Int32,
        field_name(15) == "gun7"@ && field_kind(15) == FieldKind::Int32,
        field_name(16) == "gun8"@ && field_kind(16) == FieldKind::Int32,
        field_name(17) == "yellowmil"@ && field_kind(17) == FieldKind::Text,
        field_name(18) == "whitemil"@ && field_kind(18) == FieldKind::Text,
        field_name(19) == "beads"@ && field_kind(19) == FieldKind::Text,
        field_name(20) == "project"@ && field_kind(20) == FieldKind::Text,
        field_name(21) == "company"@ && field_kind(21) == FieldKind::Text,
        field_name(22) == "region"@ && field_kind(22) == FieldKind::Text,
        forall|j: int| 0 <= j < FIELD_COUNT ==> (field_kind(j) == FieldKind::Real <==> (j == 3 || j == 5)),
        forall|j: int| 0 <= j < FIELD_COUNT ==> (field_kind(j) == FieldKind::Int32 <==> (j == 7 || (9 <= j && j <= 16))),
{
}

/// Law: what each kind of field takes. A text field takes every JSON
/// string, the empty one included, and nothing else; a real field takes
/// every JSON number and nothing else; a 32-bit integer field takes exactly
/// the integers from -2147483648 to 2147483647.
pub proof fn law_field_kinds_take(node: Option<JsonNode>)
    ensures
        kind_accepts(FieldKind::Text, node) <==> (node matches Some(JsonNode::String(_))),
        kind_accepts(FieldKind::Real, node) <==> (node matches Some(JsonNode::Number(_))),
        kind_accepts(FieldKind::Int32, node) <==> (
            (node matches Some(JsonNode::Number(JsonNumber::PosInt(n))) && n <= 2147483647u64)
            || (node matches Some(JsonNode::Number(JsonNumber::NegInt(n))) && n >= -2147483648i64)),
{
}

/// Law: a text field takes every JSON string, whatever it holds.
pub proof fn law_text_field_takes_every_string(s: String)
    ensures
        kind_accepts(FieldKind::Text, Some(JsonNode::String(s))),
{
}

/// Whether some member names field `j`.
pub open spec fn field_named(t: Seq<u8>, ms: Seq<(int, int, int, int)>, j: int) -> bool {
    exists|i: int| 0 <= i < ms.len() && member_field(t, ms, i) == Some(j)
}

/// Law: an object record passes the check exactly when every member key
/// reads as a string, no two members name the same field, each member that
/// names a field holds a value of that field's kind, and every field is
/// named by some member. Members whose keys name no field are ignored.
pub proof fn law_object_record_accepted_iff(t: Seq<u8>, ms: Seq<(int, int, int, int)>)
    ensures
        members_fault(t, ms, 0, no_fields_seen()) is None <==> {
            &&& forall|i: int| 0 <= i < ms.len()
                ==> (json_node(t.subrange((#[trigger] ms[i]).0, ms[i].1)) matches Some(JsonNode::String(_)))
            &&& forall|i: int| 0 <= i < ms.len() ==> (#[trigger] member_field(t, ms, i) matches Some(j) ==> kind_accepts(
                field_kind(j),
                json_node(t.subrange(ms[i].2, ms[i].3)),
            ))
            &&& forall|i1: int, i2: int|
                0 <= i1 < ms.len() && 0 <= i2 < ms.len() && i1 != i2 && (member_field(t, ms, i1) is Some)
                    ==> #[trigger] member_field(t, ms, i1) != #[trigger] member_field(t, ms, i2)
            &&& forall|j: int| 0 <= j < FIELD_COUNT ==> #[trigger] field_named(t, ms, j)
        },
{
    let seen = no_fields_seen();
    lemma_members_fit(t, ms, 0, seen);
    if members_fit(t, ms, 0, seen) {
        assert forall|i: int| 0 <= i < ms.len()
            implies (json_node(t.subrange((#[trigger] ms[i]).0, ms[i].1)) matches Some(JsonNode::String(_))) by {
            assert(member_ok(t, ms, i, seen));
        }
        assert forall|i: int| 0 <= i < ms.len() implies (#[trigger] member_field(t, ms, i) matches Some(j) ==> kind_accepts(
            field_kind(j),
            json_node(t.subrange(ms[i].2, ms[i].3)),
        )) by {
            assert(member_ok(t, ms, i, seen));
        }
        assert forall|j: int| 0 <= j < FIELD_COUNT implies #[trigger] field_named(t, ms, j) by {
            assert(covered(t, ms, 0, seen, j));
        }
    } else {
        if forall|i: int| 0 <= i < ms.len()
            ==> (json_node(t.subrange((#[trigger] ms[i]).0, ms[i].1)) matches Some(JsonNode::String(_))) {
            if forall|i: int| 0 <= i < ms.len() ==> (#[trigger] member_field(t, ms, i) matches Some(j) ==> kind_accepts(
                field_kind(j),
                json_node(t.subrange(ms[i].2, ms[i].3)),
            )) {
                if forall|j: int| 0 <= j < FIELD_COUNT ==> #[trigger] field_named(t, ms, j) {
                    assert forall|i: int| 0 <= i < ms.len() implies #[trigger] member_ok(t, ms, i, seen) by {
                        assert(json_node(t.subrange(ms[i].0, ms[i].1)) matches Some(JsonNode::String(_)));
                        lemma_member_field_range(t, ms, i);
                        assert(member_field(t, ms, i) matches Some(j) ==> kind_accepts(
                            field_kind(j),
                            json_node(t.subrange(ms[i].2, ms[i].3)),
                        ));
                    }
                    assert forall|j: int| 0 <= j < FIELD_COUNT implies #[trigger] covered(t, ms, 0, seen, j) by {
                        assert(field_named(t, ms, j));
                    }
                }
            }
        }
    }
}

proof fn lemma_values_fit(t: Seq<u8>, items: Seq<(int, int)>, j0: int)
    requires
        0 <= j0 <= FIELD_COUNT,
    ensures
        values_fault(t, items, j0) is None <==> (items.len() <= FIELD_COUNT && forall|j: int| j0 <= j < FIELD_COUNT
            ==> j < items.len() && kind_accepts(field_kind(j), json_node(t.subrange((#[trigger] items[j]).0, items[j].1)))),
    decreases FIELD_COUNT - j0,
{
    if j0 < FIELD_COUNT {
        lemma_values_fit(t, items, j0 + 1);
        if j0 < items.len() && kind_accepts(field_kind(j0), json_node(t.subrange(items[j0].0, items[j0].1))) {
            if values_fault(t, items, j0 + 1) is None {
                assert forall|j: int| j0 <= j < FIELD_COUNT
                    implies j < items.len() && kind_accepts(field_kind(j), json_node(t.subrange((#[trigger] items[j]).0, items[j].1))) by {
                    if j > j0 {
                        assert(j < items.len() && kind_accepts(field_kind(j), json_node(t.subrange(items[j].0, items[j].1))));
                    }
                }
            }
        } else {
            let x = items[j0];
            assert(!(j0 < items.len() && kind_accepts(field_kind(j0), json_node(t.subrange(x.0, x.1)))));
        }
    }
}

/// Law: an array record passes the check exactly when it has 23 values and
/// the value at each position is of the kind of the field at that position.
pub proof fn law_array_record_accepted_iff(t: Seq<u8>, items: Seq<(int, int)>)
    ensures
        values_fault(t, items, 0) is None <==> (items.len() == 23 && forall|j: int| 0 <= j < 23
            ==> kind_accepts(field_kind(j), json_node(t.subrange((#[trigger] items[j]).0, items[j].1)))),
{
    lemma_values_fit(t, items, 0);
    if values_fault(t, items, 0) is None {
        assert(22 < items.len() && kind_accepts(field_kind(22), json_node(t.subrange(items[22].0, items[22].1))));
    }
}

} // verus!
