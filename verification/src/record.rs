//! The documents that are sent: records of named fields.
use vstd::prelude::*;
use vstd::string::*;
use crate::message::CallsignHash;
use crate::text::{decimal_text, same};
use crate::wire::HashModel;

verus! {

#[derive(Debug)]
pub enum Field {
    Null,
    Flag(bool),
    Integer(i64),
    Count(usize),
    /// Bit pattern of a single precision value.
    Single(u32),
    /// A duration in nanoseconds, sent as milliseconds.
    Milliseconds(u64),
    Text(String),
    List(Vec<Field>),
    Record(Vec<(&'static str, Field)>),
}

/// The names of the fields of a record, in order.
pub open spec fn names(record: Field) -> Seq<Seq<char>> {
    match record {
        Field::Record(entries) => Seq::new(entries@.len(), |i: int| entries@[i].0@),
        _ => Seq::empty(),
    }
}

/// Field `i` of a record.
pub open spec fn nth(record: Field, i: int) -> Field {
    match record {
        Field::Record(entries) => entries@[i].1,
        _ => Field::Null,
    }
}

pub open spec fn is_text(field: Field, text: Seq<char>) -> bool {
    field matches Field::Text(found) && found@ == text
}

pub open spec fn is_text_or_null(field: Field, text: Option<Seq<char>>) -> bool {
    match text {
        Some(expected) => is_text(field, expected),
        None => field == Field::Null,
    }
}

pub open spec fn is_integer(field: Field, n: int) -> bool {
    field matches Field::Integer(found) && found == n
}

pub open spec fn is_integer_or_null(field: Field, n: Option<int>) -> bool {
    match n {
        Some(expected) => is_integer(field, expected),
        None => field == Field::Null,
    }
}

/// A callsign hash with its width, value and resolution.
pub open spec fn is_hash(field: Field, hash: HashModel) -> bool {
    &&& names(field) == seq!["width"@, "value"@, "resolved"@]
    &&& is_integer(nth(field, 0), hash.width as int)
    &&& is_integer(nth(field, 1), hash.value as int)
    &&& is_text_or_null(nth(field, 2), hash.resolved)
}

pub open spec fn is_hash_or_null(field: Field, hash: Option<HashModel>) -> bool {
    match hash {
        Some(expected) => is_hash(field, expected),
        None => field == Field::Null,
    }
}

pub open spec fn is_hash_list(field: Field, hashes: Seq<HashModel>) -> bool {
    field matches Field::List(items) && items@.len() == hashes.len() && forall|i: int|
        0 <= i < hashes.len() ==> is_hash(#[trigger] items@[i], hashes[i])
}

pub fn text_field(text: &str) -> (r: Field)
    ensures
        is_text(r, text@),
{
    Field::Text(text.to_owned())
}

pub fn optional_text(text: &Option<String>) -> (r: Field)
    ensures
        is_text_or_null(r, text.deep_view()),
{
    match text {
        Some(text) => Field::Text(text.clone()),
        None => Field::Null,
    }
}

/// A number of 64 bits travels as text.
pub fn number_text(n: u64) -> (r: Field)
    ensures
        is_text(r, crate::text::decimal(n as nat)),
{
    Field::Text(decimal_text(n))
}

pub fn hash_field(hash: &CallsignHash) -> (r: Field)
    ensures
        is_hash(r, hash.deep_view()),
{
    let mut entries: Vec<(&'static str, Field)> = Vec::new();
    entries.push(("width", Field::Integer(hash.width as i64)));
    entries.push(("value", Field::Integer(hash.value as i64)));
    entries.push(("resolved", optional_text(&hash.resolved)));
    let r = Field::Record(entries);
    assert(names(r) =~= seq!["width"@, "value"@, "resolved"@]);
    r
}

pub fn optional_hash(hash: &Option<CallsignHash>) -> (r: Field)
    ensures
        is_hash_or_null(r, hash.deep_view()),
{
    match hash {
        Some(hash) => hash_field(hash),
        None => Field::Null,
    }
}

pub fn hash_list(hashes: &Vec<CallsignHash>) -> (r: Field)
    ensures
        is_hash_list(r, hashes.deep_view()),
{
    let mut items: Vec<Field> = Vec::new();
    let mut i: usize = 0;
    while i < hashes.len()
        invariant
            i <= hashes.len(),
            items.len() == i,
            forall|k: int| 0 <= k < i ==> is_hash(#[trigger] items@[k], hashes.deep_view()[k]),
        decreases hashes.len() - i,
    {
        assert(hashes.deep_view()[i as int] == hashes@[i as int].deep_view());
        items.push(hash_field(&hashes[i]));
        i = i + 1;
    }
    Field::List(items)
}

/// A header as a server sends it: without a payload, and with all other members as they
/// were.
pub fn server_header(record: Field) -> (r: Result<Field, String>)
    ensures
        match r {
            Ok(header) => {
                &&& record is Record
                &&& header is Record
                &&& names(header) == (if names(record).contains("payload_bytes"@) {
                    names(record)
                } else {
                    names(record).push("payload_bytes"@)
                })
                &&& forall|i: int|
                    0 <= i < names(header).len() ==> #[trigger] nth(header, i) == (if names(
                        header,
                    )[i] == "payload_bytes"@ {
                        Field::Count(0)
                    } else {
                        nth(record, i)
                    })
            },
            Err(error) => !(record is Record) && error@ == "output header must be an object"@,
        },
{
    let mut entries: Vec<(&'static str, Field)> = match record {
        Field::Record(entries) => entries,
        _ => {
            return Err("output header must be an object".to_owned());
        },
    };
    let ghost before = entries@;
    let count: usize = entries.len();
    let mut found: bool = false;
    let mut i: usize = 0;
    while i < count
        invariant
            i <= count,
            count == before.len(),
            entries.len() == count,
            forall|k: int| 0 <= k < count ==> (#[trigger] entries@[k]).0 == before[k].0,
            forall|k: int|
                0 <= k < i ==> (#[trigger] entries@[k]).1 == (if before[k].0@ == "payload_bytes"@ {
                    Field::Count(0)
                } else {
                    before[k].1
                }),
            forall|k: int| i <= k < count ==> (#[trigger] entries@[k]).1 == before[k].1,
            found == (exists|k: int| 0 <= k < i && (#[trigger] before[k]).0@ == "payload_bytes"@),
        decreases count - i,
    {
        let name: &'static str = entries[i].0;
        assert(name@ == before[i as int].0@);
        if same(name, "payload_bytes") {
            entries.set(i, (name, Field::Count(0)));
            found = true;
        }
        i = i + 1;
    }
    if !found {
        entries.push(("payload_bytes", Field::Count(0)));
    }
    let header: Field = Field::Record(entries);
    proof {
        let kept = names(record);
        assert(kept =~= Seq::new(before.len(), |k: int| before[k].0@));
        if found {
            let k = choose|k: int| 0 <= k < before.len() && (#[trigger] before[k]).0@
                == "payload_bytes"@;
            assert(kept[k] == "payload_bytes"@);
            assert(names(header) =~= kept);
        } else {
            assert(!kept.contains("payload_bytes"@));
            assert(names(header) =~= kept.push("payload_bytes"@));
        }
    }
    Ok(header)
}

} // verus!
