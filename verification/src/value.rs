//! The owned, recursive value tree that the encoder and decoder walk.

use vstd::prelude::*;

use crate::signature::{sig_eq, sig_view, Signature, SpecSignature};

verus! {

/// Mathematical model of a [`Value`].
#[verifier::ext_equal]
pub enum SpecValue {
    U8(u8),
    Bool(bool),
    I16(i16),
    U16(u16),
    I32(i32),
    U32(u32),
    I64(i64),
    U64(u64),
    Double(u64),
    Str(Seq<u8>),
    ObjectPath(Seq<u8>),
    Signature(Seq<u8>),
    Fd(i32),
    Variant(Box<SpecSignature>, Box<SpecValue>),
    Array(Seq<SpecValue>),
    Dict(Seq<(SpecValue, SpecValue)>),
    Structure(Seq<SpecValue>),
    Maybe(Option<Box<SpecValue>>),
}

/// An owned, recursive tagged value mirroring [`Signature`].
///
/// Each container exclusively owns its children; values are built bottom-up
/// and immutable afterwards.  String-like values carry their UTF-8 bytes; a
/// `Double` carries the raw bit pattern of a 64-bit IEEE value; a `Fd`
/// carries the platform descriptor number, which the encoder turns into an
/// index into the out-of-band descriptor table.  Only a `Variant` embeds a
/// type: the concrete signature of the value it carries.
#[derive(Debug)]
pub enum Value {
    U8(u8),
    Bool(bool),
    I16(i16),
    U16(u16),
    I32(i32),
    U32(u32),
    I64(i64),
    U64(u64),
    Double(u64),
    Str(Vec<u8>),
    ObjectPath(Vec<u8>),
    Signature(Vec<u8>),
    Fd(i32),
    Variant(Box<Signature>, Box<Value>),
    Array(Vec<Value>),
    Dict(Vec<(Value, Value)>),
    Structure(Vec<Value>),
    Maybe(Option<Box<Value>>),
}

pub open spec fn val_view(v: Value) -> SpecValue
    decreases v,
{
    match v {
        Value::U8(x) => SpecValue::U8(x),
        Value::Bool(x) => SpecValue::Bool(x),
        Value::I16(x) => SpecValue::I16(x),
        Value::U16(x) => SpecValue::U16(x),
        Value::I32(x) => SpecValue::I32(x),
        Value::U32(x) => SpecValue::U32(x),
        Value::I64(x) => SpecValue::I64(x),
        Value::U64(x) => SpecValue::U64(x),
        Value::Double(x) => SpecValue::Double(x),
        Value::Str(s) => SpecValue::Str(s@),
        Value::ObjectPath(s) => SpecValue::ObjectPath(s@),
        Value::Signature(s) => SpecValue::Signature(s@),
        Value::Fd(x) => SpecValue::Fd(x),
        Value::Variant(t, inner) => SpecValue::Variant(
            Box::new(sig_view(*t)),
            Box::new(val_view(*inner)),
        ),
        Value::Array(elems) => SpecValue::Array(vals_view(elems@)),
        Value::Dict(entries) => SpecValue::Dict(pairs_view(entries@)),
        Value::Structure(fields) => SpecValue::Structure(vals_view(fields@)),
        Value::Maybe(inner) => match inner {
            Option::None => SpecValue::Maybe(Option::None),
            Option::Some(b) => SpecValue::Maybe(Option::Some(Box::new(val_view(*b)))),
        },
    }
}

/// The models of a sequence of values, in order.
pub open spec fn vals_view(vs: Seq<Value>) -> Seq<SpecValue>
    decreases vs,
{
    if vs.len() == 0 {
        Seq::empty()
    } else {
        seq![val_view(vs[0])] + vals_view(vs.drop_first())
    }
}

/// The models of a sequence of key/value pairs, in order.
pub open spec fn pairs_view(vs: Seq<(Value, Value)>) -> Seq<(SpecValue, SpecValue)>
    decreases vs,
{
    if vs.len() == 0 {
        Seq::empty()
    } else {
        seq![(val_view(vs[0].0), val_view(vs[0].1))] + pairs_view(vs.drop_first())
    }
}

pub proof fn lemma_vals_view(vs: Seq<Value>)
    ensures
        vals_view(vs).len() == vs.len(),
        forall|i: int| 0 <= i < vs.len() ==> vals_view(vs)[i] == val_view(vs[i]),
    decreases vs.len(),
{
    if vs.len() > 0 {
        lemma_vals_view(vs.drop_first());
        assert forall|i: int| 0 <= i < vs.len() implies vals_view(vs)[i] == val_view(vs[i]) by {
            if i > 0 {
                assert(vs.drop_first()[i - 1] == vs[i]);
            }
        }
    }
}

pub proof fn lemma_pairs_view(vs: Seq<(Value, Value)>)
    ensures
        pairs_view(vs).len() == vs.len(),
        forall|i: int|
            0 <= i < vs.len() ==> pairs_view(vs)[i] == (val_view(vs[i].0), val_view(vs[i].1)),
    decreases vs.len(),
{
    if vs.len() > 0 {
        lemma_pairs_view(vs.drop_first());
        assert forall|i: int|
            0 <= i < vs.len() implies pairs_view(vs)[i] == (val_view(vs[i].0), val_view(
            vs[i].1,
        )) by {
            if i > 0 {
                assert(vs.drop_first()[i - 1] == vs[i]);
            }
        }
    }
}

impl View for Value {
    type V = SpecValue;

    open spec fn view(&self) -> SpecValue {
        val_view(*self)
    }
}

/// Byte-wise equality of two byte vectors.
pub fn bytes_eq(a: &Vec<u8>, b: &Vec<u8>) -> (r: bool)
    ensures
        r == (a@ == b@),
{
    if a.len() != b.len() {
        return false;
    }
    let mut i: usize = 0;
    while i < a.len()
        invariant
            0 <= i <= a.len(),
            a.len() == b.len(),
            forall|j: int| 0 <= j < i ==> a@[j] == b@[j],
        decreases a.len() - i,
    {
        if a[i] != b[i] {
            return false;
        }
        i = i + 1;
    }
    proof {
        assert(a@ =~= b@);
    }
    true
}

/// Structural equality of two values.
pub fn value_eq(a: &Value, b: &Value) -> (r: bool)
    ensures
        r == (a@ == b@),
    decreases *a,
{
    match (a, b) {
        (Value::U8(x), Value::U8(y)) => x == y,
        (Value::Bool(x), Value::Bool(y)) => x == y,
        (Value::I16(x), Value::I16(y)) => x == y,
        (Value::U16(x), Value::U16(y)) => x == y,
        (Value::I32(x), Value::I32(y)) => x == y,
        (Value::U32(x), Value::U32(y)) => x == y,
        (Value::I64(x), Value::I64(y)) => x == y,
        (Value::U64(x), Value::U64(y)) => x == y,
        (Value::Double(x), Value::Double(y)) => x == y,
        (Value::Str(x), Value::Str(y)) => bytes_eq(x, y),
        (Value::ObjectPath(x), Value::ObjectPath(y)) => bytes_eq(x, y),
        (Value::Signature(x), Value::Signature(y)) => bytes_eq(x, y),
        (Value::Fd(x), Value::Fd(y)) => x == y,
        (Value::Variant(t1, v1), Value::Variant(t2, v2)) => sig_eq(t1, t2) && value_eq(v1, v2),
        (Value::Array(e1), Value::Array(e2)) => {
            proof {
                assert(decreases_to!(*a => (*a)->Array_0));
                assert((*a)->Array_0 == *e1);
            }
            vals_eq_from(a, e1, e2)
        },
        (Value::Structure(e1), Value::Structure(e2)) => {
            proof {
                assert(decreases_to!(*a => (*a)->Structure_0));
                assert((*a)->Structure_0 == *e1);
            }
            vals_eq_from(a, e1, e2)
        },
        (Value::Dict(e1), Value::Dict(e2)) => {
            proof {
                lemma_pairs_view(e1@);
                lemma_pairs_view(e2@);
            }
            if e1.len() != e2.len() {
                assert(pairs_view(e1@) != pairs_view(e2@));
                false
            } else {
                let mut i: usize = 0;
                let mut ok = true;
                while i < e1.len()
                    invariant
                        0 <= i <= e1.len(),
                        e1.len() == e2.len(),
                        a == Value::Dict(*e1),
                        b == Value::Dict(*e2),
                        ok == forall|j: int|
                            0 <= j < i ==> (val_view(e1@[j].0), val_view(e1@[j].1)) == (val_view(
                                e2@[j].0,
                            ), val_view(e2@[j].1)),
                    decreases e1.len() - i,
                {
                    proof {
                        assert(decreases_to!(*a => (*a)->Dict_0));
                        assert((*a)->Dict_0 == *e1);
                        assert(decreases_to!(*e1 => e1@));
                        assert(decreases_to!(e1@ => e1@[i as int]));
                        assert(decreases_to!(e1@[i as int] => e1@[i as int].0));
                        assert(decreases_to!(e1@[i as int] => e1@[i as int].1));
                    }
                    let eq_here = value_eq(&e1[i].0, &e2[i].0) && value_eq(&e1[i].1, &e2[i].1);
                    if !eq_here {
                        ok = false;
                        i = e1.len();
                    } else {
                        i = i + 1;
                    }
                }
                proof {
                    lemma_pairs_view(e1@);
                    lemma_pairs_view(e2@);
                    if ok {
                        assert(pairs_view(e1@) =~= pairs_view(e2@));
                    } else {
                        let j = choose|j: int|
                            0 <= j < e1@.len() && (val_view(e1@[j].0), val_view(e1@[j].1)) != (
                            val_view(e2@[j].0),
                            val_view(e2@[j].1),
                            );
                        assert(pairs_view(e1@)[j] != pairs_view(e2@)[j]);
                    }
                }
                ok
            }
        },
        (Value::Maybe(m1), Value::Maybe(m2)) => match (m1, m2) {
            (Option::None, Option::None) => true,
            (Option::Some(v1), Option::Some(v2)) => {
                proof {
                    assert(decreases_to!(*a => (*a)->Maybe_0));
                    assert(decreases_to!((*a)->Maybe_0 => (*a)->Maybe_0->Some_0));
                }
                value_eq(v1, v2)
            },
            _ => {
                assert(a@ != b@);
                false
            },
        },
        _ => {
            assert(a@ != b@);
            false
        },
    }
}

/// Element-wise equality of two value vectors that are fields of `a`.
fn vals_eq_from(a: &Value, e1: &Vec<Value>, e2: &Vec<Value>) -> (r: bool)
    requires
        decreases_to!(*a => *e1),
    ensures
        r == (vals_view(e1@) == vals_view(e2@)),
    decreases *a, 0int,
{
    proof {
        lemma_vals_view(e1@);
        lemma_vals_view(e2@);
    }
    if e1.len() != e2.len() {
        assert(vals_view(e1@) != vals_view(e2@));
        return false;
    }
    let mut i: usize = 0;
    let mut ok = true;
    while i < e1.len()
        invariant
            0 <= i <= e1.len(),
            e1.len() == e2.len(),
            decreases_to!(*a => *e1),
            ok == forall|j: int| 0 <= j < i ==> val_view(e1@[j]) == val_view(e2@[j]),
        decreases e1.len() - i,
    {
        proof {
            assert(decreases_to!(*e1 => e1@));
            assert(decreases_to!(e1@ => e1@[i as int]));
        }
        if !value_eq(&e1[i], &e2[i]) {
            ok = false;
            i = e1.len();
        } else {
            i = i + 1;
        }
    }
    proof {
        lemma_vals_view(e1@);
        lemma_vals_view(e2@);
        if ok {
            assert(vals_view(e1@) =~= vals_view(e2@));
        } else {
            let j = choose|j: int| 0 <= j < e1@.len() && val_view(e1@[j]) != val_view(e2@[j]);
            assert(vals_view(e1@)[j] != vals_view(e2@)[j]);
        }
    }
    ok
}

impl PartialEq for Value {
    fn eq(&self, other: &Self) -> (r: bool) {
        value_eq(self, other)
    }
}

impl vstd::std_specs::cmp::PartialEqSpecImpl for Value {
    open spec fn obeys_eq_spec() -> bool {
        true
    }

    open spec fn eq_spec(&self, other: &Value) -> bool {
        self@ == other@
    }
}

/// Whether a byte sequence is valid UTF-8.  The precise shape of valid
/// UTF-8 is delegated to the platform's checker; see [`is_utf8`].
pub uninterp spec fn utf8_valid(s: Seq<u8>) -> bool;

/// Relies on core::str::from_utf8, which returns `Ok` exactly when the
/// byte slice is valid UTF-8; the result depends on the bytes alone.
#[verifier::external_body]
pub fn is_utf8(b: &[u8]) -> (r: bool)
    ensures
        r == utf8_valid(b@),
{
    core::str::from_utf8(b).is_ok()
}

/// A byte legal inside an object path: ASCII alphanumeric, underscore or
/// the separator slash.
pub open spec fn path_char(c: u8) -> bool {
    (48 <= c <= 57) || (65 <= c <= 90) || (97 <= c <= 122) || c == 95 || c == 47
}

/// The object-path grammar: absolute, each segment non-empty and composed
/// only of ASCII alphanumerics and underscore, no trailing slash except on
/// the root path itself.
pub open spec fn is_object_path(s: Seq<u8>) -> bool {
    &&& s.len() >= 1
    &&& s[0] == 47
    &&& (s.len() == 1 || s[s.len() - 1] != 47)
    &&& forall|i: int| 1 <= i < s.len() ==> path_char(#[trigger] s[i])
    &&& forall|i: int| 1 <= i < s.len() ==> !(#[trigger] s[i] == 47 && s[i - 1] == 47)
}

/// Check the object-path grammar over raw bytes.
pub fn check_object_path(b: &[u8]) -> (r: bool)
    ensures
        r == is_object_path(b@),
{
    if b.len() == 0 || b[0] != 47 {
        return false;
    }
    if b.len() > 1 && b[b.len() - 1] == 47 {
        return false;
    }
    let mut i: usize = 1;
    while i < b.len()
        invariant
            1 <= i <= b@.len(),
            b@.len() >= 1,
            b@[0] == 47,
            b@.len() == 1 || b@[b@.len() - 1] != 47,
            forall|j: int| 1 <= j < i ==> path_char(#[trigger] b@[j]),
            forall|j: int| 1 <= j < i ==> !(#[trigger] b@[j] == 47 && b@[j - 1] == 47),
        decreases b@.len() - i,
    {
        let c = b[i];
        if !(48 <= c && c <= 57 || 65 <= c && c <= 90 || 97 <= c && c <= 122 || c == 95 || c == 47)
        {
            return false;
        }
        if c == 47 && b[i - 1] == 47 {
            return false;
        }
        i = i + 1;
    }
    true
}

} // verus!
