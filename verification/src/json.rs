//! The crate's own decoded form of a JSON document. The surrounding
//! application parses input bytes with its JSON library of choice and hands
//! the engine this tree; the engine never touches raw input bytes.
//!
//! Field access mirrors the dynamic style the engine relies on: reading a
//! field of a non-object, or an absent field, yields `Null` rather than an
//! error, and an object with a repeated key exposes the first binding.

use vstd::prelude::*;

verus! {

/// A decoded JSON value. Numbers are kept only as the unsigned integers the
/// engine reads (type ids, array lengths); anything else numeric decodes as
/// `Null`, which every consumer treats as an absent value.
#[derive(Debug)]
pub enum Json {
    Null,
    Bool(bool),
    Num(u64),
    Str(String),
    Array(Vec<Json>),
    Object(Vec<(String, Json)>),
}

/// The value bound to `key` by the first matching entry, or `Null`.
pub open spec fn spec_get(fields: Seq<(String, Json)>, key: Seq<char>) -> Json
    decreases fields.len(),
{
    if fields.len() == 0 {
        Json::Null
    } else if fields[0].0@ == key {
        fields[0].1
    } else {
        spec_get(fields.drop_first(), key)
    }
}

/// The value of a field of an object, and `Null` on any other value.
pub open spec fn spec_field(j: Json, key: Seq<char>) -> Json {
    match j {
        Json::Object(fields) => spec_get(fields@, key),
        _ => Json::Null,
    }
}

/// The string content of a value, where it is a string.
pub open spec fn spec_as_str(j: Json) -> Option<Seq<char>> {
    match j {
        Json::Str(s) => Some(s@),
        _ => None,
    }
}

/// The elements of a value, with every non-array read as empty.
pub open spec fn spec_members(j: Json) -> Seq<Json> {
    match j {
        Json::Array(v) => v@,
        _ => Seq::empty(),
    }
}

/// True exactly where the field is a string equal to `val`.
pub open spec fn spec_field_is(j: Json, key: Seq<char>, val: Seq<char>) -> bool {
    spec_as_str(spec_field(j, key)) == Some(val)
}

pub(crate) fn str_eq(a: &str, b: &str) -> (r: bool)
    ensures
        r == (a@ == b@),
{
    a.to_owned() == b.to_owned()
}

impl Json {
    /// Reads a field, with `Null` standing in for anything absent.
    pub fn field<'a>(&'a self, key: &str) -> (r: &'a Json)
        ensures
            *r == spec_field(*self, key@),
    {
        match self {
            Json::Object(fields) => {
                proof {
                    assert(fields@.skip(0) =~= fields@);
                }
                let mut i: usize = 0;
                #[verifier::loop_isolation(false)]
                while i < fields.len()
                    invariant
                        i <= fields@.len(),
                        spec_get(fields@, key@) == spec_get(fields@.skip(i as int), key@),
                    decreases fields@.len() - i,
                {
                    if str_eq(fields[i].0.as_str(), key) {
                        proof {
                            assert(fields@.skip(i as int)[0] == fields@[i as int]);
                            assert(spec_get(fields@.skip(i as int), key@) == fields@[i as int].1);
                        }
                        return &fields[i].1;
                    }
                    proof {
                        assert(fields@.skip(i as int).drop_first() =~= fields@.skip(i + 1));
                    }
                    i = i + 1;
                }
                &Json::Null
            },
            _ => &Json::Null,
        }
    }

    /// The string content of this value, where it is a string.
    pub fn as_str(&self) -> (r: Option<&String>)
        ensures
            r matches Some(s) ==> spec_as_str(*self) == Some(s@),
            r is None ==> spec_as_str(*self) is None,
    {
        match self {
            Json::Str(s) => Some(s),
            _ => None,
        }
    }

    /// True exactly where the field named `key` is the string `val`.
    pub fn field_is(&self, key: &str, val: &str) -> (r: bool)
        ensures
            r == spec_field_is(*self, key@, val@),
    {
        match self.field(key).as_str() {
            Some(s) => str_eq(s.as_str(), val),
            None => false,
        }
    }
}

} // verus!
