//! A plain model of generic JSON values.
//!
//! The decoder works over this type so that every decoding rule is stated
//! and checked on ordinary data.  The application converts whatever its
//! JSON parser produced into this shape, one constructor per node.  A
//! number is kept exactly as the parser classified it: an unsigned or
//! signed integer, or the bit pattern of a binary64 float; the decoder
//! never does arithmetic on it.

use vstd::prelude::*;

verus! {

/// A JSON number: a non-negative integer, a negative integer, or the
/// IEEE-754 binary64 bit pattern of a float.
#[derive(Debug, Clone, Copy, PartialEq, Eq, Structural)]
pub enum JsonNumber {
    PosInt(u64),
    NegInt(i64),
    FloatBits(u64),
}

/// A generic JSON value.  Objects keep their bindings in order; keys are
/// expected to be unique, and lookup takes the first binding of a key.
#[derive(Debug)]
pub enum JsonValue {
    Null,
    Bool(bool),
    Num(JsonNumber),
    Str(String),
    Arr(Vec<JsonValue>),
    Obj(Vec<(String, JsonValue)>),
}

/// The value bound to `key` in an object's field list: the first binding
/// wins.
pub open spec fn spec_obj_get(fields: Seq<(String, JsonValue)>, key: Seq<char>) -> Option<
    JsonValue,
>
    decreases fields.len(),
{
    if fields.len() == 0 {
        None
    } else if fields[0].0@ == key {
        Some(fields[0].1)
    } else {
        spec_obj_get(fields.skip(1), key)
    }
}

/// Character-for-character string equality.
pub fn str_eq(a: &str, b: &str) -> (r: bool)
    ensures
        r == (a@ == b@),
{
    let n: usize = a.unicode_len();
    let m: usize = b.unicode_len();
    if n != m {
        proof {
            assert(a@.len() != b@.len());
        }
        return false;
    }
    let mut i: usize = 0;
    while i < n
        invariant
            0 <= i <= n,
            n == a@.len(),
            n == b@.len(),
            forall|j: int| 0 <= j < i ==> a@[j] == #[trigger] b@[j],
        decreases n - i,
    {
        if a.get_char(i) != b.get_char(i) {
            return false;
        }
        i = i + 1;
    }
    proof {
        assert(a@ =~= b@);
    }
    true
}

/// Look `key` up in an object's field list.
pub fn obj_get<'a>(fields: &'a Vec<(String, JsonValue)>, key: &str) -> (r: Option<&'a JsonValue>)
    ensures
        match r {
            Some(v) => spec_obj_get(fields@, key@) == Some(*v),
            None => spec_obj_get(fields@, key@) is None,
        },
{
    let n = fields.len();
    let mut i: usize = 0;
    proof {
        assert(fields@.skip(0) =~= fields@);
    }
    while i < n
        invariant
            0 <= i <= n,
            n == fields@.len(),
            spec_obj_get(fields@, key@) == spec_obj_get(fields@.skip(i as int), key@),
        decreases n - i,
    {
        proof {
            assert(fields@.skip(i as int)[0] == fields@[i as int]);
            assert(fields@.skip(i as int).skip(1) =~= fields@.skip(i + 1));
        }
        if str_eq(fields[i].0.as_str(), key) {
            return Some(&fields[i].1);
        }
        i = i + 1;
    }
    proof {
        assert(fields@.skip(n as int) =~= Seq::<(String, JsonValue)>::empty());
    }
    None
}

/// A successful lookup hands back one of the object's own field values,
/// so the result sits strictly inside the object value.
pub proof fn lemma_obj_get_is_field(fields: Seq<(String, JsonValue)>, key: Seq<char>)
    requires
        spec_obj_get(fields, key) is Some,
    ensures
        exists|i: int|
            0 <= i < fields.len() && #[trigger] fields[i].1 == spec_obj_get(fields, key).unwrap(),
    decreases fields.len(),
{
    if fields.len() > 0 && fields[0].0@ != key {
        lemma_obj_get_is_field(fields.skip(1), key);
        let j = choose|j: int|
            0 <= j < fields.skip(1).len() && #[trigger] fields.skip(1)[j].1 == spec_obj_get(
                fields.skip(1),
                key,
            ).unwrap();
        assert(fields[j + 1].1 == spec_obj_get(fields, key).unwrap());
    }
}

/// A field value of a JSON object is below the object in the
/// well-founded order used for `decreases`.
pub proof fn lemma_obj_get_decreases(v: JsonValue, key: Seq<char>)
    requires
        v is Obj,
        spec_obj_get(v->Obj_0@, key) is Some,
    ensures
        decreases_to!(v => spec_obj_get(v->Obj_0@, key).unwrap()),
{
    let fields = v->Obj_0@;
    lemma_obj_get_is_field(fields, key);
    let i = choose|i: int|
        0 <= i < fields.len() && #[trigger] fields[i].1 == spec_obj_get(fields, key).unwrap();
    assert(decreases_to!(v => v->Obj_0));
    assert(decreases_to!(v->Obj_0 => v->Obj_0@));
    assert(decreases_to!(v->Obj_0@ => v->Obj_0@[i]));
    assert(decreases_to!(v->Obj_0@[i] => v->Obj_0@[i].1));
}

} // verus!
