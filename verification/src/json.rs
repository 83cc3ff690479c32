//! JSON documents as the commands of a stream read them.
use vstd::prelude::*;
use vstd::string::*;
use crate::text::same;

verus! {

/// A number: its value where it is a nonnegative integer of 64 bits, and the bit
/// pattern of its value in single precision.
#[derive(Debug, Clone, Copy, PartialEq, Eq)]
pub struct Number {
    pub unsigned: Option<u64>,
    pub single: u32,
}

#[derive(Debug)]
pub enum Json {
    Null,
    Bool(bool),
    Number(Number),
    Text(String),
    Array(Vec<Json>),
    Object(Vec<(String, Json)>),
}

/// The value of the first entry with the given name, from `from` on.
pub open spec fn find_entry(entries: Seq<(String, Json)>, name: Seq<char>, from: int) -> Option<
    Json,
>
    decreases entries.len() - from,
{
    if from >= entries.len() {
        None
    } else if entries[from].0@ == name {
        Some(entries[from].1)
    } else {
        find_entry(entries, name, from + 1)
    }
}

/// The member of an object.
pub open spec fn member(document: Json, name: Seq<char>) -> Option<Json> {
    match document {
        Json::Object(entries) => find_entry(entries@, name, 0),
        _ => None,
    }
}

pub open spec fn text_of(value: Option<Json>) -> Option<Seq<char>> {
    match value {
        Some(Json::Text(text)) => Some(text@),
        _ => None,
    }
}

pub open spec fn unsigned_of(value: Option<Json>) -> Option<u64> {
    match value {
        Some(Json::Number(number)) => number.unsigned,
        _ => None,
    }
}

pub open spec fn single_of(value: Option<Json>) -> Option<u32> {
    match value {
        Some(Json::Number(number)) => Some(number.single),
        _ => None,
    }
}

pub open spec fn bool_of(value: Option<Json>) -> Option<bool> {
    match value {
        Some(Json::Bool(flag)) => Some(flag),
        _ => None,
    }
}

pub open spec fn is_null(value: Option<Json>) -> bool {
    value matches Some(Json::Null)
}

/// The name stands in the list.
pub open spec fn listed(names: Seq<&'static str>, name: Seq<char>) -> bool {
    exists|i: int| 0 <= i < names.len() && (#[trigger] names[i])@ == name
}

/// The first entry from `from` on whose name is not listed; the length without
/// one.
pub open spec fn first_unlisted(
    entries: Seq<(String, Json)>,
    names: Seq<&'static str>,
    from: int,
) -> int
    decreases entries.len() - from,
{
    if from >= entries.len() || !listed(names, entries[from].0@) {
        from
    } else {
        first_unlisted(entries, names, from + 1)
    }
}

/// What is wrong with the members of a document, if anything.
pub open spec fn fields_complaint(document: Json, names: Seq<&'static str>) -> Option<Seq<char>> {
    match document {
        Json::Object(entries) => {
            let at = first_unlisted(entries@, names, 0);
            if at < entries@.len() {
                Some("unknown field "@ + entries@[at].0@)
            } else {
                None
            }
        },
        _ => Some("expected a JSON object"@),
    }
}

pub fn is_listed(names: &[&'static str], name: &str) -> (r: bool)
    ensures
        r == listed(names@, name@),
{
    let mut i: usize = 0;
    while i < names.len()
        invariant
            i <= names@.len(),
            forall|k: int| 0 <= k < i ==> (#[trigger] names@[k])@ != name@,
        decreases names@.len() - i,
    {
        if same(names[i], name) {
            assert(names@[i as int]@ == name@);
            return true;
        }
        i = i + 1;
    }
    false
}

/// Checks that a document is an object whose members all have listed names.
pub fn fields(document: &Json, names: &[&'static str]) -> (r: Result<(), String>)
    ensures
        match r {
            Ok(_) => fields_complaint(*document, names@) is None,
            Err(error) => fields_complaint(*document, names@) == Some(error@),
        },
{
    match document {
        Json::Object(entries) => {
            let mut i: usize = 0;
            while i < entries.len()
                invariant
                    i <= entries.len(),
                    *document == Json::Object(*entries),
                    first_unlisted(entries@, names@, 0) == first_unlisted(
                        entries@,
                        names@,
                        i as int,
                    ),
                decreases entries.len() - i,
            {
                if !is_listed(names, entries[i].0.as_str()) {
                    let mut error: String = "unknown field ".to_owned();
                    error.append(entries[i].0.as_str());
                    return Err(error);
                }
                i = i + 1;
            }
            Ok(())
        },
        _ => Err("expected a JSON object".to_owned()),
    }
}

impl Json {
    /// The member of an object.
    pub fn get<'a>(&'a self, name: &str) -> (r: Option<&'a Json>)
        ensures
            match r {
                Some(value) => member(*self, name@) == Some(*value),
                None => member(*self, name@) is None,
            },
    {
        match self {
            Json::Object(entries) => {
                let mut i: usize = 0;
                while i < entries.len()
                    invariant
                        i <= entries.len(),
                        *self == Json::Object(*entries),
                        find_entry(entries@, name@, 0) == find_entry(entries@, name@, i as int),
                    decreases entries.len() - i,
                {
                    if same(entries[i].0.as_str(), name) {
                        return Some(&entries[i].1);
                    }
                    i = i + 1;
                }
                None
            },
            _ => None,
        }
    }

    pub fn has(&self, name: &str) -> (r: bool)
        ensures
            r == member(*self, name@) is Some,
    {
        self.get(name).is_some()
    }

    /// The text of a member.
    pub fn text<'a>(&'a self, name: &str) -> (r: Option<&'a str>)
        ensures
            match r {
                Some(text) => text_of(member(*self, name@)) == Some(text@),
                None => text_of(member(*self, name@)) is None,
            },
    {
        match self.get(name) {
            Some(Json::Text(text)) => Some(text.as_str()),
            _ => None,
        }
    }

    /// The value of a member that is a nonnegative integer.
    pub fn unsigned(&self, name: &str) -> (r: Option<u64>)
        ensures
            r == unsigned_of(member(*self, name@)),
    {
        match self.get(name) {
            Some(Json::Number(number)) => number.unsigned,
            _ => None,
        }
    }

    /// The bit pattern of a numeric member in single precision.
    pub fn single(&self, name: &str) -> (r: Option<u32>)
        ensures
            r == single_of(member(*self, name@)),
    {
        match self.get(name) {
            Some(Json::Number(number)) => Some(number.single),
            _ => None,
        }
    }

    pub fn flag(&self, name: &str) -> (r: Option<bool>)
        ensures
            r == bool_of(member(*self, name@)),
    {
        match self.get(name) {
            Some(Json::Bool(flag)) => Some(*flag),
            _ => None,
        }
    }

    pub fn null(&self, name: &str) -> (r: bool)
        ensures
            r == is_null(member(*self, name@)),
    {
        match self.get(name) {
            Some(Json::Null) => true,
            _ => false,
        }
    }
}

} // verus!
