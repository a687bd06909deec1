//! A semi-structured document value: a tagged union of null, booleans,
//! integers, strings, arrays and objects, with absence-tolerant field access.
//! The inbound webhook payload is read through this type; a field that is
//! missing or of the wrong shape yields an absent result, never an error.

use vstd::prelude::*;

verus! {

use crate::text::str_eq;

/// One node of a semi-structured document.
pub enum JsonValue {
    Null,
    Bool(bool),
    Int(i64),
    Str(String),
    Arr(Vec<JsonValue>),
    Obj(Vec<(String, JsonValue)>),
}

/// The value under the first field named `key` among `fields`, if any.
pub open spec fn spec_obj_get(fields: Seq<(String, JsonValue)>, key: Seq<char>) -> Option<
    JsonValue,
>
    decreases fields.len(),
{
    if fields.len() == 0 {
        None
    } else if fields[0].0@ == key {
        Some(fields[0].1)
    } else {
        spec_obj_get(fields.drop_first(), key)
    }
}

/// The value of field `key` of `v`, when `v` is an object that has such a
/// field; absent otherwise.
pub open spec fn spec_field(v: JsonValue, key: Seq<char>) -> Option<JsonValue> {
    match v {
        JsonValue::Obj(fields) => spec_obj_get(fields@, key),
        _ => None,
    }
}

impl JsonValue {
    /// Looks up field `key`, tolerating a non-object value or a missing field.
    pub fn field<'a>(&'a self, key: &str) -> (r: Option<&'a JsonValue>)
        ensures
            match r {
                Some(v) => spec_field(*self, key@) == Some(*v),
                None => spec_field(*self, key@) is None,
            },
    {
        match self {
            JsonValue::Obj(fields) => {
                let mut i: usize = 0;
                proof {
                    assert(fields@.skip(0) =~= fields@);
                }
                while i < fields.len()
                    invariant
                        i <= fields@.len(),
                        *self == JsonValue::Obj(*fields),
                        spec_obj_get(fields@, key@) == spec_obj_get(fields@.skip(i as int), key@),
                    decreases fields@.len() - i,
                {
                    proof {
                        assert(fields@.skip(i as int)[0] == fields@[i as int]);
                    }
                    let pair: &(String, JsonValue) = &fields[i];
                    if str_eq(pair.0.as_str(), key) {
                        proof {
                            assert(fields@.skip(i as int)[0].0@ == key@);
                            assert(spec_obj_get(fields@.skip(i as int), key@) == Some(
                                fields@[i as int].1,
                            ));
                        }
                        return Some(&pair.1);
                    }
                    proof {
                        assert(fields@.skip(i as int).drop_first() =~= fields@.skip(i as int + 1));
                    }
                    i += 1;
                }
                proof {
                    assert(fields@.skip(fields@.len() as int) =~= Seq::<(
                        String,
                        JsonValue,
                    )>::empty());
                }
                None
            },
            _ => None,
        }
    }
}

} // verus!
