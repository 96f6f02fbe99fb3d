//! The value cell: `nil`, a boolean, a number or a string reference.
use crate::number::{number_eq, number_equal};
use crate::object::{Obj, StringObj, StringPool};
use vstd::prelude::*;
use vstd::slice::slice_to_vec;
use vstd::string::StringSliceAdditionalSpecFns;

verus! {

/// A value of the language. It is copied freely: a string is a reference
/// into the string pool, a number the 64 bits of a double.
#[derive(Copy, Clone, Debug)]
pub enum Value {
    Nil,
    Bool(bool),
    Number(u64),
    Obj(Obj),
}

/// Whether every string among `values` refers to a buffer of `pool`.
pub open spec fn all_live(values: Seq<Value>, pool: Seq<Seq<u8>>) -> bool {
    forall|i: int| 0 <= i < values.len() ==> (#[trigger] values[i]).live_in(pool)
}

/// Whether two byte strings hold the same bytes.
pub fn bytes_equal(a: &[u8], b: &[u8]) -> (r: bool)
    ensures
        r == (a@ == b@),
{
    if a.len() != b.len() {
        return false;
    }
    let mut i: usize = 0;
    while i < a.len()
        invariant
            a@.len() == b@.len(),
            i <= a@.len(),
            a@.subrange(0, i as int) == b@.subrange(0, i as int),
        decreases a@.len() - i,
    {
        if a[i] != b[i] {
            assert(a@[i as int] != b@[i as int]);
            return false;
        }
        assert(a@.subrange(0, i + 1) =~= a@.subrange(0, i as int).push(a@[i as int]));
        assert(b@.subrange(0, i + 1) =~= b@.subrange(0, i as int).push(b@[i as int]));
        i += 1;
    }
    assert(a@ =~= a@.subrange(0, i as int));
    assert(b@ =~= b@.subrange(0, i as int));
    true
}

impl Value {
    /// Whether the value, if it is a string, refers to a buffer of `pool`.
    pub open spec fn live_in(self, pool: Seq<Seq<u8>>) -> bool {
        match self {
            Value::Obj(Obj::StringObj(s)) => s.live_in(pool),
            _ => true,
        }
    }

    /// The values that count as false: `nil` and `false`, and no other.
    pub open spec fn falsey(self) -> bool {
        self == Value::Nil || self == Value::Bool(false)
    }

    /// Equality of the language: the same kind of value with the same
    /// content. Numbers compare as doubles do, strings by their bytes.
    pub open spec fn same(self, other: Value, pool: Seq<Seq<u8>>) -> bool {
        match (self, other) {
            (Value::Nil, Value::Nil) => true,
            (Value::Bool(a), Value::Bool(b)) => a == b,
            (Value::Number(a), Value::Number(b)) => number_eq(a, b),
            (Value::Obj(Obj::StringObj(a)), Value::Obj(Obj::StringObj(b))) => a.bytes(pool)
                == b.bytes(pool),
            _ => false,
        }
    }

    /// What the value prints as, but for a number, whose decimal form is
    /// the host's: `nil`, `true` or `false`, or the bytes of the string.
    pub open spec fn text_spec(self, pool: Seq<Seq<u8>>) -> Option<Seq<u8>> {
        match self {
            Value::Nil => Some("nil".spec_bytes()),
            Value::Bool(true) => Some("true".spec_bytes()),
            Value::Bool(false) => Some("false".spec_bytes()),
            Value::Number(_) => None,
            Value::Obj(Obj::StringObj(s)) => Some(s.bytes(pool)),
        }
    }

    /// A string value for the buffer `index` of the pool, `len` bytes long.
    pub fn string(index: usize, len: usize) -> (r: Value)
        ensures
            r == Value::Obj(Obj::StringObj(StringObj { index, len })),
    {
        Value::Obj(Obj::StringObj(StringObj { index, len }))
    }

    /// A number value from the bits of a double.
    pub fn number(bits: u64) -> (r: Value)
        ensures
            r == Value::Number(bits),
    {
        Value::Number(bits)
    }

    /// Compares two values as the language's `==` does.
    pub fn equals(&self, other: &Value, pool: &StringPool) -> (r: bool)
        requires
            self.live_in(pool@),
            other.live_in(pool@),
        ensures
            r == self.same(*other, pool@),
    {
        match (*self, *other) {
            (Value::Nil, Value::Nil) => true,
            (Value::Bool(a), Value::Bool(b)) => a == b,
            (Value::Number(a), Value::Number(b)) => number_equal(a, b),
            (Value::Obj(Obj::StringObj(a)), Value::Obj(Obj::StringObj(b))) => {
                a.len == b.len && bytes_equal(a.as_slice(pool), b.as_slice(pool))
            },
            _ => false,
        }
    }

    /// The bytes the value prints as, or `None` for a number.
    pub fn text(&self, pool: &StringPool) -> (r: Option<Vec<u8>>)
        requires
            self.live_in(pool@),
        ensures
            r is Some <==> self.text_spec(pool@) is Some,
            r is Some ==> r.unwrap()@ == self.text_spec(pool@).unwrap(),
    {
        match *self {
            Value::Nil => Some(slice_to_vec("nil".as_bytes())),
            Value::Bool(true) => Some(slice_to_vec("true".as_bytes())),
            Value::Bool(false) => Some(slice_to_vec("false".as_bytes())),
            Value::Number(_) => None,
            Value::Obj(Obj::StringObj(s)) => Some(slice_to_vec(s.as_slice(pool))),
        }
    }
}

/// `nil` and `false` are falsey; `true`, every number (zero too) and every
/// string (the empty one too) are truthy.
pub proof fn lemma_falsey(v: Value)
    ensures
        v.falsey() <==> (v == Value::Nil || v == Value::Bool(false)),
        v is Number ==> !v.falsey(),
        v is Obj ==> !v.falsey(),
        v == Value::Bool(true) ==> !v.falsey(),
{
}

/// The language's equality is structural: values of different kinds are
/// never equal, `nil` equals `nil`, booleans are equal when they are the
/// same, numbers when IEEE equality holds, strings when their bytes agree.
pub proof fn lemma_same_is_structural(a: Value, b: Value, pool: Seq<Seq<u8>>)
    ensures
        a is Nil && b is Nil ==> a.same(b, pool),
        a is Bool && b is Bool ==> (a.same(b, pool) <==> a->Bool_0 == b->Bool_0),
        a is Number && b is Number ==> (a.same(b, pool) <==> number_eq(
            a->Number_0,
            b->Number_0,
        )),
        a is Obj && b is Obj ==> (a.same(b, pool) <==> a->Obj_0->StringObj_0.bytes(pool)
            == b->Obj_0->StringObj_0.bytes(pool)),
        (a is Nil) != (b is Nil) ==> !a.same(b, pool),
        (a is Bool) != (b is Bool) ==> !a.same(b, pool),
        (a is Number) != (b is Number) ==> !a.same(b, pool),
        (a is Obj) != (b is Obj) ==> !a.same(b, pool),
        a.same(b, pool) == b.same(a, pool),
{
}

} // verus!
