//! The compact textual type-signature grammar and its parsed type tree.
//!
//! A signature is parsed left to right, in a single pass and without
//! backtracking, into a recursive [`Signature`] tree.  Re-serializing a tree
//! with [`to_text`] yields exactly the text it was parsed from.

use vstd::prelude::*;

use crate::error::{Error, MaxDepthExceeded, SpecError};
use crate::serialized::{Depths, Limits};

verus! {

/// Mathematical model of a parsed type: the same tree with ghost sequences
/// for structure fields.
#[verifier::ext_equal]
pub enum SpecSignature {
    U8,
    Bool,
    I16,
    U16,
    I32,
    U32,
    I64,
    U64,
    Double,
    Str,
    ObjectPath,
    Signature,
    Fd,
    Variant,
    Array(Box<SpecSignature>),
    Dict(Box<SpecSignature>, Box<SpecSignature>),
    Structure(Seq<SpecSignature>),
    Maybe(Box<SpecSignature>),
}

/// A parsed type: an immutable description of a value's shape.
///
/// Basic leaves describe scalars and string-like values; `Variant` is a
/// dynamically-typed slot whose concrete signature travels next to the
/// value; `Array` is a homogeneous sequence; `Dict` is an array of
/// key/value entries whose key type must be basic; `Structure` is a fixed,
/// never-empty field list; `Maybe` (compact format only) is an optional
/// element.  The `Double` leaf describes a 64-bit IEEE value, carried on
/// the wire and in [`crate::value::Value`] as its raw bit pattern.
#[derive(Debug)]
pub enum Signature {
    U8,
    Bool,
    I16,
    U16,
    I32,
    U32,
    I64,
    U64,
    Double,
    Str,
    ObjectPath,
    Signature,
    Fd,
    Variant,
    Array(Box<Signature>),
    Dict(Box<Signature>, Box<Signature>),
    Structure(Vec<Signature>),
    Maybe(Box<Signature>),
}

/// Error from parsing a signature, carrying the offending position.
#[derive(Debug, Clone, Copy, PartialEq, Eq, Structural)]
pub struct SignatureError {
    /// Byte offset of the offending fragment in the signature text.
    pub pos: usize,
    /// What went wrong there.
    pub kind: SignatureErrorKind,
}

/// The ways a signature text can be rejected.
#[derive(Debug, Clone, Copy, PartialEq, Eq, Structural)]
pub enum SignatureErrorKind {
    /// A reserved type code was expected but the text ended.
    UnexpectedEnd,
    /// The byte is not a reserved type code.
    UnknownTypeCode(u8),
    /// A dictionary key whose type is not basic.
    DictKeyNotBasic,
    /// A dictionary entry not closed by `}`.
    MissingDictClose,
    /// Text left over after one complete type.
    Trailing,
    /// The signature nests deeper than the configured limit.
    DepthExceeded(MaxDepthExceeded),
}

pub open spec fn sig_view(s: Signature) -> SpecSignature
    decreases s,
{
    match s {
        Signature::U8 => SpecSignature::U8,
        Signature::Bool => SpecSignature::Bool,
        Signature::I16 => SpecSignature::I16,
        Signature::U16 => SpecSignature::U16,
        Signature::I32 => SpecSignature::I32,
        Signature::U32 => SpecSignature::U32,
        Signature::I64 => SpecSignature::I64,
        Signature::U64 => SpecSignature::U64,
        Signature::Double => SpecSignature::Double,
        Signature::Str => SpecSignature::Str,
        Signature::ObjectPath => SpecSignature::ObjectPath,
        Signature::Signature => SpecSignature::Signature,
        Signature::Fd => SpecSignature::Fd,
        Signature::Variant => SpecSignature::Variant,
        Signature::Array(e) => SpecSignature::Array(Box::new(sig_view(*e))),
        Signature::Dict(k, v) => SpecSignature::Dict(Box::new(sig_view(*k)), Box::new(sig_view(*v))),
        Signature::Structure(fields) => SpecSignature::Structure(sigs_view(fields@)),
        Signature::Maybe(e) => SpecSignature::Maybe(Box::new(sig_view(*e))),
    }
}

/// The models of a sequence of parsed types, in order.
pub open spec fn sigs_view(fields: Seq<Signature>) -> Seq<SpecSignature>
    decreases fields,
{
    if fields.len() == 0 {
        Seq::empty()
    } else {
        seq![sig_view(fields[0])] + sigs_view(fields.drop_first())
    }
}

pub proof fn lemma_sigs_view(fields: Seq<Signature>)
    ensures
        sigs_view(fields).len() == fields.len(),
        forall|i: int| 0 <= i < fields.len() ==> sigs_view(fields)[i] == sig_view(fields[i]),
    decreases fields.len(),
{
    if fields.len() > 0 {
        lemma_sigs_view(fields.drop_first());
        assert forall|i: int| 0 <= i < fields.len() implies sigs_view(fields)[i] == sig_view(
            fields[i],
        ) by {
            if i > 0 {
                assert(fields.drop_first()[i - 1] == fields[i]);
            }
        }
    }
}

impl View for Signature {
    type V = SpecSignature;

    open spec fn view(&self) -> SpecSignature {
        sig_view(*self)
    }
}

/// Structural equality of two parsed types.
pub fn sig_eq(a: &Signature, b: &Signature) -> (r: bool)
    ensures
        r == (a@ == b@),
    decreases *a,
{
    match (a, b) {
        (Signature::U8, Signature::U8) => true,
        (Signature::Bool, Signature::Bool) => true,
        (Signature::I16, Signature::I16) => true,
        (Signature::U16, Signature::U16) => true,
        (Signature::I32, Signature::I32) => true,
        (Signature::U32, Signature::U32) => true,
        (Signature::I64, Signature::I64) => true,
        (Signature::U64, Signature::U64) => true,
        (Signature::Double, Signature::Double) => true,
        (Signature::Str, Signature::Str) => true,
        (Signature::ObjectPath, Signature::ObjectPath) => true,
        (Signature::Signature, Signature::Signature) => true,
        (Signature::Fd, Signature::Fd) => true,
        (Signature::Variant, Signature::Variant) => true,
        (Signature::Array(e1), Signature::Array(e2)) => sig_eq(e1, e2),
        (Signature::Dict(k1, v1), Signature::Dict(k2, v2)) => sig_eq(k1, k2) && sig_eq(v1, v2),
        (Signature::Structure(f1), Signature::Structure(f2)) => {
            proof {
                lemma_sigs_view(f1@);
                lemma_sigs_view(f2@);
            }
            if f1.len() != f2.len() {
                assert(sigs_view(f1@) != sigs_view(f2@));
                false
            } else {
                let mut i: usize = 0;
                let mut ok = true;
                while i < f1.len()
                    invariant
                        0 <= i <= f1.len(),
                        f1.len() == f2.len(),
                        a == Signature::Structure(*f1),
                        b == Signature::Structure(*f2),
                        ok == forall|j: int| 0 <= j < i ==> sig_view(f1@[j]) == sig_view(f2@[j]),
                    decreases f1.len() - i,
                {
                    proof {
                        assert(decreases_to!(*a => (*a)->Structure_0));
                        assert((*a)->Structure_0 == *f1);
                        assert(decreases_to!(*f1 => f1@));
                        assert(decreases_to!(f1@ => f1@[i as int]));
                    }
                    if !sig_eq(&f1[i], &f2[i]) {
                        ok = false;
                        i = f1.len();
                    } else {
                        i = i + 1;
                    }
                }
                proof {
                    lemma_sigs_view(f1@);
                    lemma_sigs_view(f2@);
                    if ok {
                        assert(sigs_view(f1@) =~= sigs_view(f2@));
                    } else {
                        let j = choose|j: int|
                            0 <= j < f1@.len() && sig_view(f1@[j]) != sig_view(f2@[j]);
                        assert(sigs_view(f1@)[j] != sigs_view(f2@)[j]);
                    }
                }
                ok
            }
        },
        (Signature::Maybe(e1), Signature::Maybe(e2)) => sig_eq(e1, e2),
        _ => {
            assert(a@ != b@);
            false
        },
    }
}

/// Whether a type is basic: a one-character scalar or string-like type,
/// legal as a dictionary key.
pub open spec fn spec_is_basic(t: SpecSignature) -> bool {
    match t {
        SpecSignature::Variant => false,
        SpecSignature::Array(_) => false,
        SpecSignature::Dict(_, _) => false,
        SpecSignature::Structure(_) => false,
        SpecSignature::Maybe(_) => false,
        _ => true,
    }
}

/// The reserved one-byte codes of the basic types.
pub open spec fn spec_basic_code(c: u8) -> Option<SpecSignature> {
    if c == 121 {  // y
        Some(SpecSignature::U8)
    } else if c == 98 {  // b
        Some(SpecSignature::Bool)
    } else if c == 110 {  // n
        Some(SpecSignature::I16)
    } else if c == 113 {  // q
        Some(SpecSignature::U16)
    } else if c == 105 {  // i
        Some(SpecSignature::I32)
    } else if c == 117 {  // u
        Some(SpecSignature::U32)
    } else if c == 120 {  // x
        Some(SpecSignature::I64)
    } else if c == 116 {  // t
        Some(SpecSignature::U64)
    } else if c == 100 {  // d
        Some(SpecSignature::Double)
    } else if c == 115 {  // s
        Some(SpecSignature::Str)
    } else if c == 111 {  // o
        Some(SpecSignature::ObjectPath)
    } else if c == 103 {  // g
        Some(SpecSignature::Signature)
    } else if c == 104 {  // h
        Some(SpecSignature::Fd)
    } else {
        None
    }
}

/// The signature text of a type: each basic type is its reserved code,
/// `a` prefixes an array element, `a{` key value `}` spells a dictionary,
/// `(` fields `)` a structure and `m` a maybe element.
pub open spec fn spec_to_text(t: SpecSignature) -> Seq<u8>
    decreases t,
{
    match t {
        SpecSignature::U8 => seq![121u8],
        SpecSignature::Bool => seq![98u8],
        SpecSignature::I16 => seq![110u8],
        SpecSignature::U16 => seq![113u8],
        SpecSignature::I32 => seq![105u8],
        SpecSignature::U32 => seq![117u8],
        SpecSignature::I64 => seq![120u8],
        SpecSignature::U64 => seq![116u8],
        SpecSignature::Double => seq![100u8],
        SpecSignature::Str => seq![115u8],
        SpecSignature::ObjectPath => seq![111u8],
        SpecSignature::Signature => seq![103u8],
        SpecSignature::Fd => seq![104u8],
        SpecSignature::Variant => seq![118u8],
        SpecSignature::Array(e) => seq![97u8] + spec_to_text(*e),
        SpecSignature::Dict(k, v) => seq![97u8, 123u8] + spec_to_text(*k) + spec_to_text(*v)
            + seq![125u8],
        SpecSignature::Structure(fields) => seq![40u8] + spec_to_text_fields(fields) + seq![41u8],
        SpecSignature::Maybe(e) => seq![109u8] + spec_to_text(*e),
    }
}

pub open spec fn spec_to_text_fields(fields: Seq<SpecSignature>) -> Seq<u8>
    decreases fields,
{
    if fields.len() == 0 {
        Seq::empty()
    } else {
        spec_to_text(fields[0]) + spec_to_text_fields(fields.drop_first())
    }
}

/// Internal shorthand for a parse error at a given position.
pub open spec fn sp_sig_err(pos: int, kind: SignatureErrorKind) -> SpecError {
    SpecError::SignatureParse(SignatureError { pos: pos as usize, kind })
}

/// One complete type, parsed from `s` at `pos` with current nesting `d`.
/// Returns the parsed type and the position one past its text.
pub open spec fn sp_parse_one(s: Seq<u8>, pos: int, d: Depths, lim: Limits) -> Result<
    (SpecSignature, int),
    SpecError,
>
    decreases s.len() - pos, 0int,
{
    if pos < 0 || pos >= s.len() {
        Err(sp_sig_err(pos, SignatureErrorKind::UnexpectedEnd))
    } else {
        let c = s[pos];
        if spec_basic_code(c) is Some {
            Ok((spec_basic_code(c)->Some_0, pos + 1))
        } else if c == 118 {  // v
            Ok((SpecSignature::Variant, pos + 1))
        } else if c == 97 {  // a
            if d.array >= lim.array {
                Err(sp_sig_err(pos, SignatureErrorKind::DepthExceeded(MaxDepthExceeded::Array)))
            } else if d.container >= lim.container {
                Err(sp_sig_err(pos, SignatureErrorKind::DepthExceeded(MaxDepthExceeded::Container)))
            } else if pos + 1 < s.len() && s[pos + 1] == 123 {  // {
                let d1 = Depths {
                    array: (d.array + 1) as u32,
                    container: (d.container + 1) as u32,
                    ..d
                };
                if d1.structure >= lim.structure {
                    Err(
                        sp_sig_err(
                            pos + 1,
                            SignatureErrorKind::DepthExceeded(MaxDepthExceeded::Structure),
                        ),
                    )
                } else if d1.container >= lim.container {
                    Err(
                        sp_sig_err(
                            pos + 1,
                            SignatureErrorKind::DepthExceeded(MaxDepthExceeded::Container),
                        ),
                    )
                } else if pos + 2 >= s.len() {
                    Err(sp_sig_err(pos + 2, SignatureErrorKind::UnexpectedEnd))
                } else if spec_basic_code(s[pos + 2]) is None {
                    Err(sp_sig_err(pos + 2, SignatureErrorKind::DictKeyNotBasic))
                } else {
                    let k = spec_basic_code(s[pos + 2])->Some_0;
                    let d2 = Depths {
                        structure: (d1.structure + 1) as u32,
                        container: (d1.container + 1) as u32,
                        ..d1
                    };
                    match sp_parse_one(s, pos + 3, d2, lim) {
                        Err(e) => Err(e),
                        Ok((v, p2)) => if p2 >= s.len() {
                            Err(sp_sig_err(p2, SignatureErrorKind::UnexpectedEnd))
                        } else if s[p2] != 125 {  // }
                            Err(sp_sig_err(p2, SignatureErrorKind::MissingDictClose))
                        } else {
                            Ok((SpecSignature::Dict(Box::new(k), Box::new(v)), p2 + 1))
                        },
                    }
                }
            } else {
                let d1 = Depths {
                    array: (d.array + 1) as u32,
                    container: (d.container + 1) as u32,
                    ..d
                };
                match sp_parse_one(s, pos + 1, d1, lim) {
                    Err(e) => Err(e),
                    Ok((elem, p2)) => Ok((SpecSignature::Array(Box::new(elem)), p2)),
                }
            }
        } else if c == 40 {  // (
            if d.structure >= lim.structure {
                Err(sp_sig_err(pos, SignatureErrorKind::DepthExceeded(MaxDepthExceeded::Structure)))
            } else if d.container >= lim.container {
                Err(sp_sig_err(pos, SignatureErrorKind::DepthExceeded(MaxDepthExceeded::Container)))
            } else if pos + 1 >= s.len() {
                Err(sp_sig_err(pos + 1, SignatureErrorKind::UnexpectedEnd))
            } else if s[pos + 1] == 41 {  // )
                Err(SpecError::EmptyStructure)
            } else {
                let d1 = Depths {
                    structure: (d.structure + 1) as u32,
                    container: (d.container + 1) as u32,
                    ..d
                };
                match sp_parse_fields(s, pos + 1, d1, lim) {
                    Err(e) => Err(e),
                    Ok((fields, p2)) => Ok((SpecSignature::Structure(fields), p2)),
                }
            }
        } else if c == 109 {  // m
            if d.container >= lim.container {
                Err(sp_sig_err(pos, SignatureErrorKind::DepthExceeded(MaxDepthExceeded::Container)))
            } else {
                let d1 = Depths { container: (d.container + 1) as u32, ..d };
                match sp_parse_one(s, pos + 1, d1, lim) {
                    Err(e) => Err(e),
                    Ok((elem, p2)) => Ok((SpecSignature::Maybe(Box::new(elem)), p2)),
                }
            }
        } else {
            Err(sp_sig_err(pos, SignatureErrorKind::UnknownTypeCode(c)))
        }
    }
}

/// The fields of a structure, up to and past the closing parenthesis.
pub open spec fn sp_parse_fields(s: Seq<u8>, pos: int, d: Depths, lim: Limits) -> Result<
    (Seq<SpecSignature>, int),
    SpecError,
>
    decreases s.len() - pos, 1int,
{
    if pos < 0 || pos >= s.len() {
        Err(sp_sig_err(pos, SignatureErrorKind::UnexpectedEnd))
    } else if s[pos] == 41 {  // )
        Ok((Seq::empty(), pos + 1))
    } else {
        match sp_parse_one(s, pos, d, lim) {
            Err(e) => Err(e),
            Ok((t, p2)) => if p2 <= pos || p2 > s.len() {
                Err(sp_sig_err(p2, SignatureErrorKind::UnexpectedEnd))
            } else {
                match sp_parse_fields(s, p2, d, lim) {
                    Err(e) => Err(e),
                    Ok((rest, p3)) => Ok((seq![t] + rest, p3)),
                }
            },
        }
    }
}

/// A full signature text: exactly one complete type spanning all of `s`.
pub open spec fn sp_parse(s: Seq<u8>, lim: Limits) -> Result<SpecSignature, SpecError> {
    match sp_parse_one(s, 0, Depths::zero_spec(), lim) {
        Err(e) => Err(e),
        Ok((t, p)) => if p == s.len() {
            Ok(t)
        } else {
            Err(sp_sig_err(p, SignatureErrorKind::Trailing))
        },
    }
}

/// Zero or more complete types spanning `s` from `pos` to the end; each
/// top-level type is measured against fresh depth counters.
pub open spec fn sp_parse_rest(s: Seq<u8>, pos: int, lim: Limits) -> Result<(), SpecError>
    decreases s.len() - pos, 1int,
{
    if pos >= s.len() {
        Ok(())
    } else {
        match sp_parse_one(s, pos, Depths::zero_spec(), lim) {
            Err(e) => Err(e),
            Ok((t, p2)) => if p2 <= pos || p2 > s.len() {
                Err(sp_sig_err(p2, SignatureErrorKind::UnexpectedEnd))
            } else {
                sp_parse_rest(s, p2, lim)
            },
        }
    }
}

/// Whether `s` is a valid signature text of zero or more complete types,
/// as carried by a signature-typed value.
pub open spec fn sp_sig_text_ok(s: Seq<u8>, lim: Limits) -> bool {
    sp_parse_rest(s, 0, lim) is Ok
}

/// The basic type of a reserved one-byte code, if it is one.
pub fn basic_code(c: u8) -> (r: Option<Signature>)
    ensures
        match r {
            Some(t) => spec_basic_code(c) == Some(t@),
            None => spec_basic_code(c) is None,
        },
{
    match c {
        121u8 => Some(Signature::U8),
        98u8 => Some(Signature::Bool),
        110u8 => Some(Signature::I16),
        113u8 => Some(Signature::U16),
        105u8 => Some(Signature::I32),
        117u8 => Some(Signature::U32),
        120u8 => Some(Signature::I64),
        116u8 => Some(Signature::U64),
        100u8 => Some(Signature::Double),
        115u8 => Some(Signature::Str),
        111u8 => Some(Signature::ObjectPath),
        103u8 => Some(Signature::Signature),
        104u8 => Some(Signature::Fd),
        _ => None,
    }
}

/// One complete type, parsed from `s` at `pos`.
pub fn parse_one(s: &[u8], pos: usize, d: Depths, lim: &Limits) -> (r: Result<
    (Signature, usize),
    Error,
>)
    ensures
        match r {
            Ok((t, p)) => sp_parse_one(s@, pos as int, d, *lim) == Ok::<_, SpecError>(
                (t@, p as int),
            ) && pos < p <= s@.len(),
            Err(e) => sp_parse_one(s@, pos as int, d, *lim) == Err::<(SpecSignature, int),
                _,
            >(e@),
        },
    decreases s@.len() - pos, 0int,
{
    if pos >= s.len() {
        return Err(
            Error::SignatureParse(SignatureError { pos, kind: SignatureErrorKind::UnexpectedEnd }),
        );
    }
    let c = s[pos];
    if let Some(t) = basic_code(c) {
        return Ok((t, pos + 1));
    }
    if c == 118u8 {
        return Ok((Signature::Variant, pos + 1));
    }
    if c == 97u8 {
        if d.array >= lim.array {
            return Err(
                Error::SignatureParse(
                    SignatureError {
                        pos,
                        kind: SignatureErrorKind::DepthExceeded(MaxDepthExceeded::Array),
                    },
                ),
            );
        }
        if d.container >= lim.container {
            return Err(
                Error::SignatureParse(
                    SignatureError {
                        pos,
                        kind: SignatureErrorKind::DepthExceeded(MaxDepthExceeded::Container),
                    },
                ),
            );
        }
        if pos + 1 < s.len() && s[pos + 1] == 123u8 {
            let d1 = Depths { array: d.array + 1, container: d.container + 1, ..d };
            if d1.structure >= lim.structure {
                return Err(
                    Error::SignatureParse(
                        SignatureError {
                            pos: pos + 1,
                            kind: SignatureErrorKind::DepthExceeded(MaxDepthExceeded::Structure),
                        },
                    ),
                );
            }
            if d1.container >= lim.container {
                return Err(
                    Error::SignatureParse(
                        SignatureError {
                            pos: pos + 1,
                            kind: SignatureErrorKind::DepthExceeded(MaxDepthExceeded::Container),
                        },
                    ),
                );
            }
            if pos + 2 >= s.len() {
                return Err(
                    Error::SignatureParse(
                        SignatureError { pos: pos + 2, kind: SignatureErrorKind::UnexpectedEnd },
                    ),
                );
            }
            let k = match basic_code(s[pos + 2]) {
                Some(k) => k,
                None => {
                    return Err(
                        Error::SignatureParse(
                            SignatureError {
                                pos: pos + 2,
                                kind: SignatureErrorKind::DictKeyNotBasic,
                            },
                        ),
                    );
                },
            };
            let d2 = Depths { structure: d1.structure + 1, container: d1.container + 1, ..d1 };
            let (v, p2) = parse_one(s, pos + 3, d2, lim)?;
            if p2 >= s.len() {
                return Err(
                    Error::SignatureParse(
                        SignatureError { pos: p2, kind: SignatureErrorKind::UnexpectedEnd },
                    ),
                );
            }
            if s[p2] != 125u8 {
                return Err(
                    Error::SignatureParse(
                        SignatureError { pos: p2, kind: SignatureErrorKind::MissingDictClose },
                    ),
                );
            }
            return Ok((Signature::Dict(Box::new(k), Box::new(v)), p2 + 1));
        }
        let d1 = Depths { array: d.array + 1, container: d.container + 1, ..d };
        let (elem, p2) = parse_one(s, pos + 1, d1, lim)?;
        return Ok((Signature::Array(Box::new(elem)), p2));
    }
    if c == 40u8 {
        if d.structure >= lim.structure {
            return Err(
                Error::SignatureParse(
                    SignatureError {
                        pos,
                        kind: SignatureErrorKind::DepthExceeded(MaxDepthExceeded::Structure),
                    },
                ),
            );
        }
        if d.container >= lim.container {
            return Err(
                Error::SignatureParse(
                    SignatureError {
                        pos,
                        kind: SignatureErrorKind::DepthExceeded(MaxDepthExceeded::Container),
                    },
                ),
            );
        }
        if pos + 1 >= s.len() {
            return Err(
                Error::SignatureParse(
                    SignatureError { pos: pos + 1, kind: SignatureErrorKind::UnexpectedEnd },
                ),
            );
        }
        if s[pos + 1] == 41u8 {
            return Err(Error::EmptyStructure);
        }
        let d1 = Depths { structure: d.structure + 1, container: d.container + 1, ..d };
        let (fields, p2) = parse_fields(s, pos + 1, d1, lim)?;
        return Ok((Signature::Structure(fields), p2));
    }
    if c == 109u8 {
        if d.container >= lim.container {
            return Err(
                Error::SignatureParse(
                    SignatureError {
                        pos,
                        kind: SignatureErrorKind::DepthExceeded(MaxDepthExceeded::Container),
                    },
                ),
            );
        }
        let d1 = Depths { container: d.container + 1, ..d };
        let (elem, p2) = parse_one(s, pos + 1, d1, lim)?;
        return Ok((Signature::Maybe(Box::new(elem)), p2));
    }
    Err(Error::SignatureParse(SignatureError { pos, kind: SignatureErrorKind::UnknownTypeCode(c) }))
}

/// The fields of a structure, up to and past the closing parenthesis.
pub fn parse_fields(s: &[u8], pos: usize, d: Depths, lim: &Limits) -> (r: Result<
    (Vec<Signature>, usize),
    Error,
>)
    ensures
        match r {
            Ok((fields, p)) => sp_parse_fields(s@, pos as int, d, *lim) == Ok::<_, SpecError>(
                (sigs_view(fields@), p as int),
            ) && pos < p <= s@.len(),
            Err(e) => sp_parse_fields(s@, pos as int, d, *lim) == Err::<(Seq<SpecSignature>, int),
                _,
            >(e@),
        },
    decreases s@.len() - pos, 1int,
{
    if pos >= s.len() {
        return Err(
            Error::SignatureParse(SignatureError { pos, kind: SignatureErrorKind::UnexpectedEnd }),
        );
    }
    if s[pos] == 41u8 {
        let fields: Vec<Signature> = Vec::new();
        assert(sigs_view(fields@) =~= Seq::<SpecSignature>::empty());
        return Ok((fields, pos + 1));
    }
    let (t, p2) = parse_one(s, pos, d, lim)?;
    let (mut rest, p3) = parse_fields(s, p2, d, lim)?;
    let ghost tail = rest@;
    rest.insert(0, t);
    proof {
        assert(rest@.drop_first() =~= tail);
        assert(rest@[0] == t);
        assert(sigs_view(rest@) == seq![t@] + sigs_view(tail));
    }
    Ok((rest, p3))
}

/// Parse a signature text into its type tree.
///
/// The text must hold exactly one complete type; parsing is deterministic
/// and total, and enforces the configured nesting limits.  An empty
/// structure `()` is rejected with [`Error::EmptyStructure`]; any other
/// grammar violation is reported as [`Error::SignatureParse`] carrying the
/// offending position.
pub fn parse(s: &[u8], lim: &Limits) -> (r: Result<Signature, Error>)
    ensures
        match r {
            Ok(t) => sp_parse(s@, *lim) == Ok::<_, SpecError>(t@),
            Err(e) => sp_parse(s@, *lim) == Err::<SpecSignature, _>(e@),
        },
{
    let (t, p) = match parse_one(s, 0, Depths::zero(), lim) {
        Ok(tp) => tp,
        Err(e) => {
            return Err(e);
        },
    };
    if p == s.len() {
        Ok(t)
    } else {
        Err(Error::SignatureParse(SignatureError { pos: p, kind: SignatureErrorKind::Trailing }))
    }
}

/// Check a signature text of zero or more complete types, as carried by a
/// signature-typed value.
pub fn check_sig_text(s: &[u8], lim: &Limits) -> (r: Result<(), Error>)
    ensures
        match r {
            Ok(()) => sp_sig_text_ok(s@, *lim),
            Err(e) => sp_parse_rest(s@, 0, *lim) == Err::<(), _>(e@),
        },
{
    let mut pos: usize = 0;
    loop
        invariant
            0 <= pos <= s@.len(),
            sp_parse_rest(s@, 0, *lim) == sp_parse_rest(s@, pos as int, *lim),
        decreases s@.len() - pos,
    {
        if pos >= s.len() {
            return Ok(());
        }
        match parse_one(s, pos, Depths::zero(), lim) {
            Err(e) => {
                return Err(e);
            },
            Ok((_, p2)) => {
                pos = p2;
            },
        }
    }
}

/// The signature text of a parsed type.
pub fn to_text(t: &Signature) -> (r: Vec<u8>)
    ensures
        r@ == spec_to_text(t@),
    decreases *t,
{
    let mut out: Vec<u8> = Vec::new();
    match t {
        Signature::U8 => out.push(121u8),
        Signature::Bool => out.push(98u8),
        Signature::I16 => out.push(110u8),
        Signature::U16 => out.push(113u8),
        Signature::I32 => out.push(105u8),
        Signature::U32 => out.push(117u8),
        Signature::I64 => out.push(120u8),
        Signature::U64 => out.push(116u8),
        Signature::Double => out.push(100u8),
        Signature::Str => out.push(115u8),
        Signature::ObjectPath => out.push(111u8),
        Signature::Signature => out.push(103u8),
        Signature::Fd => out.push(104u8),
        Signature::Variant => out.push(118u8),
        Signature::Array(e) => {
            out.push(97u8);
            let mut inner = to_text(e);
            out.append(&mut inner);
        },
        Signature::Dict(k, v) => {
            out.push(97u8);
            out.push(123u8);
            let mut ktxt = to_text(k);
            out.append(&mut ktxt);
            let mut vtxt = to_text(v);
            out.append(&mut vtxt);
            out.push(125u8);
        },
        Signature::Structure(fields) => {
            out.push(40u8);
            let mut i: usize = 0;
            while i < fields.len()
                invariant
                    0 <= i <= fields.len(),
                    t == Signature::Structure(*fields),
                    out@ == seq![40u8] + spec_to_text_fields(sigs_view(fields@).take(i as int)),
                decreases fields.len() - i,
            {
                proof {
                    assert(decreases_to!(*t => (*t)->Structure_0));
                    assert((*t)->Structure_0 == *fields);
                    assert(decreases_to!(*fields => fields@));
                    assert(decreases_to!(fields@ => fields@[i as int]));
                    lemma_sigs_view(fields@);
                }
                let mut ftxt = to_text(&fields[i]);
                out.append(&mut ftxt);
                proof {
                    lemma_to_text_fields_snoc(sigs_view(fields@), i as int);
                }
                i = i + 1;
            }
            proof {
                lemma_sigs_view(fields@);
                assert(sigs_view(fields@).take(fields@.len() as int) =~= sigs_view(fields@));
            }
            out.push(41u8);
        },
        Signature::Maybe(e) => {
            out.push(109u8);
            let mut inner = to_text(e);
            out.append(&mut inner);
        },
    }
    out
}

/// Appending one more field's text extends the text of the fields so far.
pub proof fn lemma_to_text_fields_snoc(fields: Seq<SpecSignature>, i: int)
    requires
        0 <= i < fields.len(),
    ensures
        spec_to_text_fields(fields.take(i + 1)) == spec_to_text_fields(fields.take(i))
            + spec_to_text(fields[i]),
    decreases i,
{
    reveal_with_fuel(spec_to_text_fields, 3);
    if i == 0 {
        assert(fields.take(1) =~= seq![fields[0]]);
        assert(fields.take(1).drop_first() =~= Seq::<SpecSignature>::empty());
        assert(fields.take(0) =~= Seq::<SpecSignature>::empty());
        assert(spec_to_text_fields(fields.take(1)) == spec_to_text(fields[0])
            + Seq::<u8>::empty());
        assert(spec_to_text_fields(fields.take(1)) =~= Seq::<u8>::empty()
            + spec_to_text(fields[0]));
    } else {
        lemma_to_text_fields_snoc(fields.drop_first(), i - 1);
        assert(fields.take(i + 1).drop_first() =~= fields.drop_first().take(i));
        assert(fields.take(i).drop_first() =~= fields.drop_first().take(i - 1));
        assert(fields.take(i + 1)[0] == fields[0]);
        assert(fields.take(i)[0] == fields[0]);
        assert(fields.drop_first()[i - 1] == fields[i]);
        assert(spec_to_text_fields(fields.take(i + 1)) == spec_to_text(fields[0])
            + spec_to_text_fields(fields.drop_first().take(i)));
        assert(spec_to_text(fields[0]) + (spec_to_text_fields(fields.drop_first().take(i - 1))
            + spec_to_text(fields[i])) =~= (spec_to_text(fields[0]) + spec_to_text_fields(
            fields.drop_first().take(i - 1),
        )) + spec_to_text(fields[i]));
    }
}

/// A deep copy of a parsed type.
pub fn sig_clone(t: &Signature) -> (r: Signature)
    ensures
        r@ == t@,
    decreases *t,
{
    match t {
        Signature::U8 => Signature::U8,
        Signature::Bool => Signature::Bool,
        Signature::I16 => Signature::I16,
        Signature::U16 => Signature::U16,
        Signature::I32 => Signature::I32,
        Signature::U32 => Signature::U32,
        Signature::I64 => Signature::I64,
        Signature::U64 => Signature::U64,
        Signature::Double => Signature::Double,
        Signature::Str => Signature::Str,
        Signature::ObjectPath => Signature::ObjectPath,
        Signature::Signature => Signature::Signature,
        Signature::Fd => Signature::Fd,
        Signature::Variant => Signature::Variant,
        Signature::Array(e) => Signature::Array(Box::new(sig_clone(e))),
        Signature::Dict(k, v) => Signature::Dict(Box::new(sig_clone(k)), Box::new(sig_clone(v))),
        Signature::Structure(fields) => {
            let mut out: Vec<Signature> = Vec::new();
            let mut i: usize = 0;
            while i < fields.len()
                invariant
                    0 <= i <= fields@.len(),
                    t == Signature::Structure(*fields),
                    out@.len() == i,
                    forall|j: int| 0 <= j < i ==> sig_view(#[trigger] out@[j]) == sig_view(
                        fields@[j],
                    ),
                decreases fields@.len() - i,
            {
                proof {
                    assert(decreases_to!(*t => (*t)->Structure_0));
                    assert((*t)->Structure_0 == *fields);
                    assert(decreases_to!(*fields => fields@));
                    assert(decreases_to!(fields@ => fields@[i as int]));
                }
                let c = sig_clone(&fields[i]);
                out.push(c);
                i = i + 1;
            }
            proof {
                lemma_sigs_view(out@);
                lemma_sigs_view(fields@);
                assert(sigs_view(out@) =~= sigs_view(fields@));
            }
            Signature::Structure(out)
        },
        Signature::Maybe(e) => Signature::Maybe(Box::new(sig_clone(e))),
    }
}

} // verus!
