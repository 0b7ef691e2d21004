//! The encoder: type tree + value tree to wire bytes, per format, with
//! alignment, length prefixes or framing offsets, and the file-descriptor
//! indirection table.
//!
//! The whole wire layout is given by the `sp_enc_*` specification
//! functions; the executable encoder is proved to return exactly what they
//! describe, for every input.

use vstd::pervasive::VecAdditionalExecFns;
use vstd::prelude::*;

use crate::error::{Error, MaxDepthExceeded, SpecError};
use crate::serialized::{Depths, Format, Limits};
use crate::signature::{
    sigs_view,
    sp_parse, sp_parse_rest, spec_to_text, Signature, SpecSignature,
};
use crate::value::{is_object_path, utf8_valid, SpecValue, Value};

verus! {

/// Hard cap on the size of one encoded message, so that every position and
/// length fits comfortably in 32 bits on any platform.
pub const MAX_ENCODED_LEN: usize = 0x4000_0000;

/// The encoder state: the bytes written so far and the file-descriptor
/// table collected so far.
#[verifier::ext_equal]
pub struct SpecEnc {
    pub buf: Seq<u8>,
    pub fds: Seq<i32>,
}

/// Required byte alignment of a type, shared by both formats, relative to
/// the start of the outermost buffer.
pub open spec fn spec_align_of(t: SpecSignature) -> int {
    match t {
        SpecSignature::U8 => 1,
        SpecSignature::Bool => 4,
        SpecSignature::I16 => 2,
        SpecSignature::U16 => 2,
        SpecSignature::I32 => 4,
        SpecSignature::U32 => 4,
        SpecSignature::I64 => 8,
        SpecSignature::U64 => 8,
        SpecSignature::Double => 8,
        SpecSignature::Str => 4,
        SpecSignature::ObjectPath => 4,
        SpecSignature::Signature => 1,
        SpecSignature::Fd => 4,
        SpecSignature::Variant => 1,
        SpecSignature::Array(_) => 4,
        SpecSignature::Dict(_, _) => 4,
        SpecSignature::Structure(_) => 8,
        SpecSignature::Maybe(_) => 1,
    }
}

/// The wire size of a fixed-size scalar, if the type is one.  In the
/// compact format, arrays of fixed-size scalars carry no framing offsets:
/// the element count follows from the extent.
pub open spec fn spec_fixed_scalar(t: SpecSignature) -> Option<int> {
    match t {
        SpecSignature::U8 => Some(1),
        SpecSignature::Bool => Some(4),
        SpecSignature::I16 => Some(2),
        SpecSignature::U16 => Some(2),
        SpecSignature::I32 => Some(4),
        SpecSignature::U32 => Some(4),
        SpecSignature::I64 => Some(8),
        SpecSignature::U64 => Some(8),
        SpecSignature::Double => Some(8),
        SpecSignature::Fd => Some(4),
        _ => Option::None,
    }
}

/// `n` zero bytes.
pub open spec fn sp_zeros(n: int) -> Seq<u8> {
    Seq::new(n as nat, |i: int| 0u8)
}

/// How many padding bytes reach alignment `a` from position `pos`.
pub open spec fn sp_pad_len(pos: int, a: int) -> int {
    if pos % a == 0 {
        0
    } else {
        a - pos % a
    }
}

/// Append bytes, guarding the overall size cap.
pub open spec fn sp_put(buf: Seq<u8>, bytes: Seq<u8>) -> Result<Seq<u8>, SpecError> {
    if buf.len() + bytes.len() > MAX_ENCODED_LEN as int {
        Err(SpecError::OutOfBounds)
    } else {
        Ok(buf + bytes)
    }
}

/// Append zero padding up to alignment `a`.
pub open spec fn sp_align(buf: Seq<u8>, a: int) -> Result<Seq<u8>, SpecError> {
    sp_put(buf, sp_zeros(sp_pad_len(buf.len() as int, a)))
}

pub open spec fn sp_put_st(st: SpecEnc, bytes: Seq<u8>) -> Result<SpecEnc, SpecError> {
    match sp_put(st.buf, bytes) {
        Ok(b) => Ok(SpecEnc { buf: b, ..st }),
        Err(e) => Err(e),
    }
}

pub open spec fn sp_align_st(st: SpecEnc, a: int) -> Result<SpecEnc, SpecError> {
    match sp_align(st.buf, a) {
        Ok(b) => Ok(SpecEnc { buf: b, ..st }),
        Err(e) => Err(e),
    }
}

/// Little-endian bytes of the scalar widths.
pub open spec fn sp_le2(x: u16) -> Seq<u8> {
    seq![(x % 256) as u8, (x / 256) as u8]
}

pub open spec fn sp_le4(x: u32) -> Seq<u8> {
    seq![(x % 256) as u8, ((x / 256) % 256) as u8, ((x / 65536) % 256) as u8, (x / 16777216) as u8]
}

pub open spec fn sp_le8(x: u64) -> Seq<u8> {
    seq![
        (x % 256) as u8,
        ((x / 256) % 256) as u8,
        ((x / 65536) % 256) as u8,
        ((x / 16777216) % 256) as u8,
        ((x / 4294967296) % 256) as u8,
        ((x / 1099511627776) % 256) as u8,
        ((x / 281474976710656) % 256) as u8,
        (x / 72057594037927936) as u8,
    ]
}

/// The largest value an offset of width `w` can hold.
pub open spec fn sp_wmax(w: int) -> int {
    if w == 1 {
        255
    } else if w == 2 {
        65535
    } else if w == 4 {
        4294967295
    } else {
        18446744073709551615
    }
}

/// The framing-offset width of a compact container: the smallest of
/// 1, 2, 4 or 8 bytes such that the container's total size, offsets
/// included, stays addressable.
pub open spec fn sp_off_width(body: int, n: int) -> int {
    if body + n * 1 <= 255 {
        1
    } else if body + n * 2 <= 65535 {
        2
    } else if body + n * 4 <= 4294967295 {
        4
    } else {
        8
    }
}

/// A non-negative offset value as `w` little-endian bytes.
pub open spec fn sp_le_n(x: int, w: int) -> Seq<u8> {
    if w == 1 {
        seq![x as u8]
    } else if w == 2 {
        sp_le2(x as u16)
    } else if w == 4 {
        sp_le4(x as u32)
    } else {
        sp_le8(x as u64)
    }
}

/// The trailing offset block: each recorded position as `w` bytes.
pub open spec fn sp_offsets_bytes(offs: Seq<int>, i: int, w: int) -> Seq<u8>
    decreases offs.len() - i,
{
    if i < 0 || i >= offs.len() {
        Seq::empty()
    } else {
        sp_le_n(offs[i], w) + sp_offsets_bytes(offs, i + 1, w)
    }
}

/// Close a compact container that began at buffer position `c0`: append
/// the given relative offsets, each with the width chosen from the final
/// container size.
pub open spec fn sp_close_buf(buf: Seq<u8>, c0: int, offs: Seq<int>) -> Result<
    Seq<u8>,
    SpecError,
> {
    if offs.len() == 0 {
        Ok(buf)
    } else {
        let body = buf.len() - c0;
        let w = sp_off_width(body, offs.len() as int);
        sp_put(buf, sp_offsets_bytes(offs, 0, w))
    }
}

pub open spec fn sp_close_container(st: SpecEnc, c0: int, offs: Seq<int>) -> Result<
    SpecEnc,
    SpecError,
> {
    match sp_close_buf(st.buf, c0, offs) {
        Ok(b) => Ok(SpecEnc { buf: b, ..st }),
        Err(e) => Err(e),
    }
}

/// Patch previously written placeholder bytes at `at`.
pub open spec fn sp_patch(buf: Seq<u8>, at: int, bytes: Seq<u8>) -> Seq<u8> {
    buf.take(at) + bytes + buf.skip(at + bytes.len())
}

/// Encode one value of type `t` onto the state, in format `f`, with
/// current nesting `d` against limits `lim`.  This function is the wire
/// format: it defines every byte the encoder may produce and every error
/// it reports, for every input.
#[verifier::opaque]
pub open spec fn sp_enc_value(
    st: SpecEnc,
    v: SpecValue,
    t: SpecSignature,
    f: Format,
    d: Depths,
    lim: Limits,
) -> Result<SpecEnc, SpecError>
    decreases v, 0int,
{
    match t {
        SpecSignature::U8 => match v {
            SpecValue::U8(x) => sp_put_st(st, seq![x]),
            _ => Err(SpecError::IncorrectType),
        },
        SpecSignature::Bool => match v {
            SpecValue::Bool(x) => match sp_align_st(st, 4) {
                Err(e) => Err(e),
                Ok(st1) => sp_put_st(st1, sp_le4(if x { 1u32 } else { 0u32 })),
            },
            _ => Err(SpecError::IncorrectType),
        },
        SpecSignature::I16 => match v {
            SpecValue::I16(x) => match sp_align_st(st, 2) {
                Err(e) => Err(e),
                Ok(st1) => sp_put_st(st1, sp_le2(x as u16)),
            },
            _ => Err(SpecError::IncorrectType),
        },
        SpecSignature::U16 => match v {
            SpecValue::U16(x) => match sp_align_st(st, 2) {
                Err(e) => Err(e),
                Ok(st1) => sp_put_st(st1, sp_le2(x)),
            },
            _ => Err(SpecError::IncorrectType),
        },
        SpecSignature::I32 => match v {
            SpecValue::I32(x) => match sp_align_st(st, 4) {
                Err(e) => Err(e),
                Ok(st1) => sp_put_st(st1, sp_le4(x as u32)),
            },
            _ => Err(SpecError::IncorrectType),
        },
        SpecSignature::U32 => match v {
            SpecValue::U32(x) => match sp_align_st(st, 4) {
                Err(e) => Err(e),
                Ok(st1) => sp_put_st(st1, sp_le4(x)),
            },
            _ => Err(SpecError::IncorrectType),
        },
        SpecSignature::I64 => match v {
            SpecValue::I64(x) => match sp_align_st(st, 8) {
                Err(e) => Err(e),
                Ok(st1) => sp_put_st(st1, sp_le8(x as u64)),
            },
            _ => Err(SpecError::IncorrectType),
        },
        SpecSignature::U64 => match v {
            SpecValue::U64(x) => match sp_align_st(st, 8) {
                Err(e) => Err(e),
                Ok(st1) => sp_put_st(st1, sp_le8(x)),
            },
            _ => Err(SpecError::IncorrectType),
        },
        SpecSignature::Double => match v {
            SpecValue::Double(bits) => match sp_align_st(st, 8) {
                Err(e) => Err(e),
                Ok(st1) => sp_put_st(st1, sp_le8(bits)),
            },
            _ => Err(SpecError::IncorrectType),
        },
        SpecSignature::Fd => match v {
            SpecValue::Fd(x) => match sp_align_st(st, 4) {
                Err(e) => Err(e),
                Ok(st1) => if st1.fds.len() >= 4294967295 {
                    Err(SpecError::OutOfBounds)
                } else {
                    match sp_put_st(st1, sp_le4(st1.fds.len() as u32)) {
                        Err(e) => Err(e),
                        Ok(st2) => Ok(SpecEnc { fds: st2.fds.push(x), ..st2 }),
                    }
                },
            },
            _ => Err(SpecError::IncorrectType),
        },
        SpecSignature::Str => match v {
            SpecValue::Str(s) => match sp_enc_string(st.buf, s, f, false) {
                Ok(b) => Ok(SpecEnc { buf: b, ..st }),
                Err(e) => Err(e),
            },
            _ => Err(SpecError::IncorrectType),
        },
        SpecSignature::ObjectPath => match v {
            SpecValue::ObjectPath(s) => match sp_enc_string(st.buf, s, f, true) {
                Ok(b) => Ok(SpecEnc { buf: b, ..st }),
                Err(e) => Err(e),
            },
            _ => Err(SpecError::IncorrectType),
        },
        SpecSignature::Signature => match v {
            SpecValue::Signature(s) => match sp_parse_rest(s, 0, lim) {
                Err(e) => Err(e),
                Ok(_) => if s.len() > 255 {
                    Err(SpecError::OutOfBounds)
                } else if f == Format::Bus {
                    sp_put_st(st, seq![s.len() as u8] + s + seq![0u8])
                } else {
                    sp_put_st(st, s + seq![0u8])
                },
            },
            _ => Err(SpecError::IncorrectType),
        },
        SpecSignature::Variant => match v {
            SpecValue::Variant(tin, inner) => {
                if d.container >= lim.container {
                    Err(SpecError::MaxDepthExceeded(MaxDepthExceeded::Container))
                } else {
                    let d1 = Depths { container: (d.container + 1) as u32, ..d };
                    let txt = spec_to_text(*tin);
                    if txt.len() > 255 {
                        Err(SpecError::OutOfBounds)
                    } else {
                        match sp_parse(txt, lim) {
                            Err(e) => Err(e),
                            Ok(t2) => if t2 != *tin {
                                Err(SpecError::IncorrectType)
                            } else {
                                match sp_put_st(st, seq![txt.len() as u8] + txt + seq![0u8]) {
                                    Err(e) => Err(e),
                                    Ok(st1) => sp_enc_value(st1, *inner, *tin, f, d1, lim),
                                }
                            },
                        }
                    }
                }
            },
            _ => Err(SpecError::IncorrectType),
        },
        SpecSignature::Array(te) => match v {
            SpecValue::Array(elems) => {
                if d.array >= lim.array {
                    Err(SpecError::MaxDepthExceeded(MaxDepthExceeded::Array))
                } else if d.container >= lim.container {
                    Err(SpecError::MaxDepthExceeded(MaxDepthExceeded::Container))
                } else {
                    let d1 = Depths {
                        array: (d.array + 1) as u32,
                        container: (d.container + 1) as u32,
                        ..d
                    };
                    match sp_align_st(st, 4) {
                        Err(e) => Err(e),
                        Ok(st1) => if f == Format::Bus {
                            let at = st1.buf.len() as int;
                            match sp_put_st(st1, sp_le4(0)) {
                                Err(e) => Err(e),
                                Ok(st2) => match sp_align_st(st2, spec_align_of(*te)) {
                                    Err(e) => Err(e),
                                    Ok(st3) => match sp_enc_vals(st3, elems, 0, *te, f, d1, lim) {
                                        Err(e) => Err(e),
                                        Ok(st4) => {
                                            let len = st4.buf.len() - st3.buf.len();
                                            if len > MAX_ENCODED_LEN as int {
                                                Err(SpecError::OutOfBounds)
                                            } else {
                                                Ok(
                                                    SpecEnc {
                                                        buf: sp_patch(
                                                            st4.buf,
                                                            at,
                                                            sp_le4(len as u32),
                                                        ),
                                                        ..st4
                                                    },
                                                )
                                            }
                                        },
                                    },
                                },
                            }
                        } else {
                            let c0 = st1.buf.len() as int;
                            if spec_fixed_scalar(*te) is Some {
                                sp_enc_vals(st1, elems, 0, *te, f, d1, lim)
                            } else {
                                match sp_enc_vals_off(st1, elems, 0, *te, f, d1, lim, c0) {
                                    Err(e) => Err(e),
                                    Ok((st2, ends)) => sp_close_container(st2, c0, ends),
                                }
                            }
                        },
                    }
                }
            },
            _ => Err(SpecError::IncorrectType),
        },
        SpecSignature::Dict(kt, vt) => match v {
            SpecValue::Dict(pairs) => {
                if d.array >= lim.array {
                    Err(SpecError::MaxDepthExceeded(MaxDepthExceeded::Array))
                } else if d.container >= lim.container {
                    Err(SpecError::MaxDepthExceeded(MaxDepthExceeded::Container))
                } else {
                    let d1 = Depths {
                        array: (d.array + 1) as u32,
                        container: (d.container + 1) as u32,
                        ..d
                    };
                    match sp_align_st(st, 4) {
                        Err(e) => Err(e),
                        Ok(st1) => if f == Format::Bus {
                            let at = st1.buf.len() as int;
                            match sp_put_st(st1, sp_le4(0)) {
                                Err(e) => Err(e),
                                Ok(st2) => match sp_align_st(st2, 8) {
                                    Err(e) => Err(e),
                                    Ok(st3) => match sp_enc_pairs(st3, pairs, 0, *kt, *vt, f, d1, lim) {
                                        Err(e) => Err(e),
                                        Ok(st4) => {
                                            let len = st4.buf.len() - st3.buf.len();
                                            if len > MAX_ENCODED_LEN as int {
                                                Err(SpecError::OutOfBounds)
                                            } else {
                                                Ok(
                                                    SpecEnc {
                                                        buf: sp_patch(
                                                            st4.buf,
                                                            at,
                                                            sp_le4(len as u32),
                                                        ),
                                                        ..st4
                                                    },
                                                )
                                            }
                                        },
                                    },
                                },
                            }
                        } else {
                            let c0 = st1.buf.len() as int;
                            match sp_enc_pairs_off(st1, pairs, 0, *kt, *vt, f, d1, lim, c0) {
                                Err(e) => Err(e),
                                Ok((st2, ends)) => sp_close_container(st2, c0, ends),
                            }
                        },
                    }
                }
            },
            _ => Err(SpecError::IncorrectType),
        },
        SpecSignature::Structure(ts) => match v {
            SpecValue::Structure(fs) => {
                if d.structure >= lim.structure {
                    Err(SpecError::MaxDepthExceeded(MaxDepthExceeded::Structure))
                } else if d.container >= lim.container {
                    Err(SpecError::MaxDepthExceeded(MaxDepthExceeded::Container))
                } else if ts.len() == 0 {
                    Err(SpecError::EmptyStructure)
                } else if fs.len() != ts.len() {
                    Err(SpecError::IncorrectType)
                } else {
                    let d1 = Depths {
                        structure: (d.structure + 1) as u32,
                        container: (d.container + 1) as u32,
                        ..d
                    };
                    match sp_align_st(st, 8) {
                        Err(e) => Err(e),
                        Ok(st1) => if f == Format::Bus {
                            sp_enc_fields(st1, fs, ts, 0, f, d1, lim)
                        } else {
                            let c0 = st1.buf.len() as int;
                            match sp_enc_fields_off(st1, fs, ts, 0, f, d1, lim, c0) {
                                Err(e) => Err(e),
                                Ok((st2, ends)) => sp_close_container(
                                    st2,
                                    c0,
                                    ends.take(ends.len() - 1).reverse(),
                                ),
                            }
                        },
                    }
                }
            },
            _ => Err(SpecError::IncorrectType),
        },
        SpecSignature::Maybe(te) => {
            if f == Format::Bus {
                Err(SpecError::IncompatibleFormat(t, f))
            } else {
                match v {
                    SpecValue::Maybe(m) => {
                        if d.container >= lim.container {
                            Err(SpecError::MaxDepthExceeded(MaxDepthExceeded::Container))
                        } else {
                            let d1 = Depths { container: (d.container + 1) as u32, ..d };
                            match m {
                                Option::None => sp_put_st(st, seq![0u8]),
                                Option::Some(inner) => match sp_put_st(st, seq![1u8]) {
                                    Err(e) => Err(e),
                                    Ok(st1) => sp_enc_value(st1, *inner, *te, f, d1, lim),
                                },
                            }
                        }
                    },
                    _ => Err(SpecError::IncorrectType),
                }
            }
        },
    }
}

/// Encode the string-like payload `s` (a string, or an object path when
/// `path` is set): UTF-8 checked, length-prefixed and NUL-terminated in
/// the bus format, NUL-terminated and extent-framed in the compact format.
pub open spec fn sp_enc_string(buf: Seq<u8>, s: Seq<u8>, f: Format, path: bool) -> Result<
    Seq<u8>,
    SpecError,
> {
    if !utf8_valid(s) {
        Err(SpecError::Utf8)
    } else if path && !is_object_path(s) {
        Err(SpecError::InvalidObjectPath)
    } else if s.len() > MAX_ENCODED_LEN as int {
        Err(SpecError::OutOfBounds)
    } else {
        match sp_align(buf, 4) {
            Err(e) => Err(e),
            Ok(b1) => if f == Format::Bus {
                sp_put(b1, sp_le4(s.len() as u32) + s + seq![0u8])
            } else {
                sp_put(b1, s + seq![0u8])
            },
        }
    }
}

/// Encode array elements back to back, each padded to its own alignment.
pub open spec fn sp_enc_vals(
    st: SpecEnc,
    elems: Seq<SpecValue>,
    i: int,
    te: SpecSignature,
    f: Format,
    d: Depths,
    lim: Limits,
) -> Result<SpecEnc, SpecError>
    decreases elems, elems.len() - i,
{
    if i < 0 || i >= elems.len() {
        Ok(st)
    } else {
        match sp_enc_one(st, elems[i], te, f, d, lim) {
            Err(e) => Err(e),
            Ok(st1) => sp_enc_vals(st1, elems, i + 1, te, f, d, lim),
        }
    }
}

/// One aligned element.
pub open spec fn sp_enc_one(
    st: SpecEnc,
    v: SpecValue,
    t: SpecSignature,
    f: Format,
    d: Depths,
    lim: Limits,
) -> Result<SpecEnc, SpecError>
    decreases v, 1int,
{
    match sp_align_st(st, spec_align_of(t)) {
        Err(e) => Err(e),
        Ok(st1) => sp_enc_value(st1, v, t, f, d, lim),
    }
}

/// Array elements with their end positions, relative to the container
/// start `c0`, recorded for the trailing framing offsets.
pub open spec fn sp_enc_vals_off(
    st: SpecEnc,
    elems: Seq<SpecValue>,
    i: int,
    te: SpecSignature,
    f: Format,
    d: Depths,
    lim: Limits,
    c0: int,
) -> Result<(SpecEnc, Seq<int>), SpecError>
    decreases elems, elems.len() - i,
{
    if i < 0 || i >= elems.len() {
        Ok((st, Seq::empty()))
    } else {
        match sp_enc_one(st, elems[i], te, f, d, lim) {
            Err(e) => Err(e),
            Ok(st1) => match sp_enc_vals_off(st1, elems, i + 1, te, f, d, lim, c0) {
                Err(e) => Err(e),
                Ok((st2, ends)) => Ok((st2, seq![st1.buf.len() - c0] + ends)),
            },
        }
    }
}

/// Dictionary entries in the bus format: each an 8-aligned key/value pair.
pub open spec fn sp_enc_pairs(
    st: SpecEnc,
    pairs: Seq<(SpecValue, SpecValue)>,
    i: int,
    kt: SpecSignature,
    vt: SpecSignature,
    f: Format,
    d: Depths,
    lim: Limits,
) -> Result<SpecEnc, SpecError>
    decreases pairs, pairs.len() - i,
{
    if i < 0 || i >= pairs.len() {
        Ok(st)
    } else {
        match sp_enc_entry(st, pairs[i], kt, vt, f, d, lim) {
            Err(e) => Err(e),
            Ok(st1) => sp_enc_pairs(st1, pairs, i + 1, kt, vt, f, d, lim),
        }
    }
}

/// Dictionary entries in the compact format, with entry end positions
/// relative to `c0` recorded for the dictionary's trailing offsets.
pub open spec fn sp_enc_pairs_off(
    st: SpecEnc,
    pairs: Seq<(SpecValue, SpecValue)>,
    i: int,
    kt: SpecSignature,
    vt: SpecSignature,
    f: Format,
    d: Depths,
    lim: Limits,
    c0: int,
) -> Result<(SpecEnc, Seq<int>), SpecError>
    decreases pairs, pairs.len() - i,
{
    if i < 0 || i >= pairs.len() {
        Ok((st, Seq::empty()))
    } else {
        match sp_enc_entry(st, pairs[i], kt, vt, f, d, lim) {
            Err(e) => Err(e),
            Ok(st1) => match sp_enc_pairs_off(st1, pairs, i + 1, kt, vt, f, d, lim, c0) {
                Err(e) => Err(e),
                Ok((st2, ends)) => Ok((st2, seq![st1.buf.len() - c0] + ends)),
            },
        }
    }
}

/// One dictionary entry: an 8-aligned pair counted as one structure level;
/// in the compact format the key's end is recorded as the entry's one
/// framing offset.
pub open spec fn sp_enc_entry(
    st: SpecEnc,
    kv: (SpecValue, SpecValue),
    kt: SpecSignature,
    vt: SpecSignature,
    f: Format,
    d: Depths,
    lim: Limits,
) -> Result<SpecEnc, SpecError>
    decreases kv, 2int,
{
    if d.structure >= lim.structure {
        Err(SpecError::MaxDepthExceeded(MaxDepthExceeded::Structure))
    } else if d.container >= lim.container {
        Err(SpecError::MaxDepthExceeded(MaxDepthExceeded::Container))
    } else {
        let d1 = Depths {
            structure: (d.structure + 1) as u32,
            container: (d.container + 1) as u32,
            ..d
        };
        match sp_align_st(st, 8) {
            Err(e) => Err(e),
            Ok(st1) => {
                let c0 = st1.buf.len() as int;
                match sp_enc_value(st1, kv.0, kt, f, d1, lim) {
                    Err(e) => Err(e),
                    Ok(st2) => {
                        let kend = st2.buf.len() as int - c0;
                        match sp_enc_one(st2, kv.1, vt, f, d1, lim) {
                            Err(e) => Err(e),
                            Ok(st3) => if f == Format::Bus {
                                Ok(st3)
                            } else {
                                sp_close_container(st3, c0, seq![kend])
                            },
                        }
                    },
                }
            },
        }
    }
}

/// Structure fields in the bus format, back to back from field `i`.
pub open spec fn sp_enc_fields(
    st: SpecEnc,
    fs: Seq<SpecValue>,
    ts: Seq<SpecSignature>,
    i: int,
    f: Format,
    d: Depths,
    lim: Limits,
) -> Result<SpecEnc, SpecError>
    decreases fs, fs.len() - i,
{
    if i < 0 || i >= fs.len() {
        Ok(st)
    } else {
        match sp_enc_one(st, fs[i], ts[i], f, d, lim) {
            Err(e) => Err(e),
            Ok(st1) => sp_enc_fields(st1, fs, ts, i + 1, f, d, lim),
        }
    }
}

/// Structure fields in the compact format, recording each field's end
/// relative to the structure start `c0`.
pub open spec fn sp_enc_fields_off(
    st: SpecEnc,
    fs: Seq<SpecValue>,
    ts: Seq<SpecSignature>,
    i: int,
    f: Format,
    d: Depths,
    lim: Limits,
    c0: int,
) -> Result<(SpecEnc, Seq<int>), SpecError>
    decreases fs, fs.len() - i,
{
    if i < 0 || i >= fs.len() {
        Ok((st, Seq::empty()))
    } else {
        match sp_enc_one(st, fs[i], ts[i], f, d, lim) {
            Err(e) => Err(e),
            Ok(st1) => match sp_enc_fields_off(st1, fs, ts, i + 1, f, d, lim, c0) {
                Err(e) => Err(e),
                Ok((st2, ends)) => Ok((st2, seq![st1.buf.len() - c0] + ends)),
            },
        }
    }
}

/// The whole encoding of one top-level value: fresh depth counters, bytes
/// appended to an empty buffer, descriptors appended to the given table.
pub open spec fn sp_encode(
    v: SpecValue,
    t: SpecSignature,
    f: Format,
    fds0: Seq<i32>,
    lim: Limits,
) -> Result<SpecEnc, SpecError> {
    sp_enc_value(
        SpecEnc { buf: Seq::empty(), fds: fds0 },
        v,
        t,
        f,
        Depths::zero_spec(),
        lim,
    )
}

/// The integer values of a vector of recorded positions.
pub open spec fn usizes_view(s: Seq<usize>) -> Seq<int> {
    Seq::new(s.len(), |i: int| s[i] as int)
}

/// Appending a concatenation equals appending its parts in turn.
pub proof fn lemma_put_split(buf: Seq<u8>, a: Seq<u8>, b: Seq<u8>)
    ensures
        sp_put(buf, a + b) == (match sp_put(buf, a) {
            Err(e) => Err(e),
            Ok(m) => sp_put(m, b),
        }),
{
    assert((a + b).len() == a.len() + b.len());
    if buf.len() + a.len() + b.len() <= MAX_ENCODED_LEN as int {
        assert(buf + (a + b) =~= (buf + a) + b);
    }
}

fn put_u8(buf: &mut Vec<u8>, x: u8) -> (r: Result<(), Error>)
    ensures
        match r {
            Ok(()) => sp_put(old(buf)@, seq![x]) == Ok::<_, SpecError>(final(buf)@),
            Err(e) => sp_put(old(buf)@, seq![x]) == Err::<Seq<u8>, _>(e@) && final(buf)@ == old(buf)@,
        },
{
    if buf.len() >= MAX_ENCODED_LEN {
        return Err(Error::OutOfBounds);
    }
    buf.push(x);
    proof {
        assert(buf@ =~= old(buf)@ + seq![x]);
    }
    Ok(())
}

fn put_bytes(buf: &mut Vec<u8>, bytes: &[u8]) -> (r: Result<(), Error>)
    ensures
        match r {
            Ok(()) => sp_put(old(buf)@, bytes@) == Ok::<_, SpecError>(final(buf)@),
            Err(e) => sp_put(old(buf)@, bytes@) == Err::<Seq<u8>, _>(e@),
        },
{
    if bytes.len() > MAX_ENCODED_LEN || buf.len() > MAX_ENCODED_LEN - bytes.len() {
        return Err(Error::OutOfBounds);
    }
    let mut k: usize = 0;
    while k < bytes.len()
        invariant
            0 <= k <= bytes@.len(),
            buf@ == old(buf)@ + bytes@.take(k as int),
        decreases bytes@.len() - k,
    {
        buf.push(bytes[k]);
        proof {
            assert(bytes@.take(k + 1) =~= bytes@.take(k as int) + seq![bytes@[k as int]]);
            assert(buf@ =~= old(buf)@ + bytes@.take(k + 1));
        }
        k = k + 1;
    }
    proof {
        assert(bytes@.take(bytes@.len() as int) =~= bytes@);
    }
    Ok(())
}

fn put_pad(buf: &mut Vec<u8>, a: usize) -> (r: Result<(), Error>)
    requires
        a == 1 || a == 2 || a == 4 || a == 8,
        old(buf)@.len() <= MAX_ENCODED_LEN,
    ensures
        match r {
            Ok(()) => sp_align(old(buf)@, a as int) == Ok::<_, SpecError>(final(buf)@),
            Err(e) => sp_align(old(buf)@, a as int) == Err::<Seq<u8>, _>(e@),
        },
{
    let rem = buf.len() % a;
    if rem == 0 {
        proof {
            assert(sp_zeros(0) =~= Seq::<u8>::empty());
            assert(old(buf)@ + sp_zeros(0) =~= old(buf)@);
        }
        return Ok(());
    }
    let need = a - rem;
    if buf.len() > MAX_ENCODED_LEN - need {
        return Err(Error::OutOfBounds);
    }
    let mut k: usize = 0;
    while k < need
        invariant
            0 <= k <= need,
            need < a <= 8,
            buf@ == old(buf)@ + sp_zeros(k as int),
            old(buf)@.len() + need <= MAX_ENCODED_LEN,
        decreases need - k,
    {
        buf.push(0u8);
        proof {
            assert(sp_zeros(k + 1) =~= sp_zeros(k as int) + seq![0u8]);
            assert(buf@ =~= old(buf)@ + sp_zeros(k + 1));
        }
        k = k + 1;
    }
    proof {
        assert(sp_pad_len(old(buf)@.len() as int, a as int) == need);
    }
    Ok(())
}

fn put_u16(buf: &mut Vec<u8>, x: u16) -> (r: Result<(), Error>)
    ensures
        match r {
            Ok(()) => sp_put(old(buf)@, sp_le2(x)) == Ok::<_, SpecError>(final(buf)@),
            Err(e) => sp_put(old(buf)@, sp_le2(x)) == Err::<Seq<u8>, _>(e@),
        },
{
    if buf.len() > MAX_ENCODED_LEN - 2 {
        return Err(Error::OutOfBounds);
    }
    buf.push((x % 256) as u8);
    buf.push((x / 256) as u8);
    proof {
        assert(buf@ =~= old(buf)@ + sp_le2(x));
    }
    Ok(())
}

fn put_u32(buf: &mut Vec<u8>, x: u32) -> (r: Result<(), Error>)
    ensures
        match r {
            Ok(()) => sp_put(old(buf)@, sp_le4(x)) == Ok::<_, SpecError>(final(buf)@),
            Err(e) => sp_put(old(buf)@, sp_le4(x)) == Err::<Seq<u8>, _>(e@),
        },
{
    if buf.len() > MAX_ENCODED_LEN - 4 {
        return Err(Error::OutOfBounds);
    }
    buf.push((x % 256) as u8);
    buf.push(((x / 256) % 256) as u8);
    buf.push(((x / 65536) % 256) as u8);
    buf.push((x / 16777216) as u8);
    proof {
        assert(buf@ =~= old(buf)@ + sp_le4(x));
    }
    Ok(())
}

fn put_u64(buf: &mut Vec<u8>, x: u64) -> (r: Result<(), Error>)
    ensures
        match r {
            Ok(()) => sp_put(old(buf)@, sp_le8(x)) == Ok::<_, SpecError>(final(buf)@),
            Err(e) => sp_put(old(buf)@, sp_le8(x)) == Err::<Seq<u8>, _>(e@),
        },
{
    if buf.len() > MAX_ENCODED_LEN - 8 {
        return Err(Error::OutOfBounds);
    }
    buf.push((x % 256) as u8);
    buf.push(((x / 256) % 256) as u8);
    buf.push(((x / 65536) % 256) as u8);
    buf.push(((x / 16777216) % 256) as u8);
    buf.push(((x / 4294967296) % 256) as u8);
    buf.push(((x / 1099511627776) % 256) as u8);
    buf.push(((x / 281474976710656) % 256) as u8);
    buf.push((x / 72057594037927936) as u8);
    proof {
        assert(buf@ =~= old(buf)@ + sp_le8(x));
    }
    Ok(())
}

fn put_le_n(buf: &mut Vec<u8>, x: usize, w: usize) -> (r: Result<(), Error>)
    requires
        w == 1 || w == 2 || w == 4 || w == 8,
        x as int <= sp_wmax(w as int),
    ensures
        match r {
            Ok(()) => sp_put(old(buf)@, sp_le_n(x as int, w as int)) == Ok::<_, SpecError>(final(buf)@),
            Err(e) => sp_put(old(buf)@, sp_le_n(x as int, w as int)) == Err::<Seq<u8>, _>(e@),
        },
{
    if w == 1 {
        put_u8(buf, x as u8)
    } else if w == 2 {
        put_u16(buf, x as u16)
    } else if w == 4 {
        put_u32(buf, x as u32)
    } else {
        put_u64(buf, x as u64)
    }
}

/// The framing-offset width for a compact container of the given body
/// size and offset count.
fn off_width(body: usize, n: usize) -> (r: usize)
    requires
        body <= MAX_ENCODED_LEN,
    ensures
        r as int == sp_off_width(body as int, n as int),
        r == 1 || r == 2 || r == 4 || r == 8,
{
    if body <= 255 && n <= 255 - body {
        1
    } else if body <= 65535 && n <= (65535 - body) / 2 {
        proof {
            assert(n * 2 <= 65535 - body) by (nonlinear_arith)
                requires n <= (65535 - body) / 2, body <= 65535;
        }
        2
    } else if n <= (4294967295 - body) / 4 {
        proof {
            assert(n * 4 <= 4294967295 - body) by (nonlinear_arith)
                requires n <= (4294967295 - body) / 4, body <= 4294967295;
            if body <= 255 {
                assert(n * 1 >= 255 - body + 1) by (nonlinear_arith)
                    requires !(n <= 255 - body), body <= 255;
            }
            if body <= 65535 {
                assert(n * 2 >= 2 * ((65535 - body) / 2 + 1)) by (nonlinear_arith)
                    requires n >= (65535 - body) / 2 + 1;
                assert(2 * ((65535 - body) / 2 + 1) > 65535 - body) by (nonlinear_arith)
                    requires body <= 65535;
            }
        }
        4
    } else {
        proof {
            if body <= 255 {
                assert(n * 1 >= 255 - body + 1) by (nonlinear_arith)
                    requires !(n <= 255 - body), body <= 255;
            }
            if body <= 65535 {
                assert(n * 2 >= 2 * ((65535 - body) / 2 + 1)) by (nonlinear_arith)
                    requires n >= (65535 - body) / 2 + 1;
                assert(2 * ((65535 - body) / 2 + 1) > 65535 - body) by (nonlinear_arith)
                    requires body <= 65535;
            }
            assert(n * 4 >= 4 * ((4294967295 - body) / 4 + 1)) by (nonlinear_arith)
                requires n >= (4294967295 - body) / 4 + 1;
            assert(4 * ((4294967295 - body) / 4 + 1) > 4294967295 - body) by (nonlinear_arith)
                requires body <= 4294967295;
        }
        8
    }
}

fn put_offsets(buf: &mut Vec<u8>, offs: &Vec<usize>, i: usize, w: usize) -> (r: Result<(), Error>)
    requires
        w == 1 || w == 2 || w == 4 || w == 8,
        forall|j: int| 0 <= j < offs@.len() ==> (#[trigger] offs@[j]) as int <= sp_wmax(w as int),
        i <= offs@.len(),
        old(buf)@.len() <= MAX_ENCODED_LEN,
    ensures
        match r {
            Ok(()) => sp_put(old(buf)@, sp_offsets_bytes(usizes_view(offs@), i as int, w as int))
                == Ok::<_, SpecError>(final(buf)@),
            Err(e) => sp_put(old(buf)@, sp_offsets_bytes(usizes_view(offs@), i as int, w as int))
                == Err::<Seq<u8>, _>(e@),
        },
    decreases offs@.len() - i,
{
    if i >= offs.len() {
        proof {
            assert(old(buf)@ + Seq::<u8>::empty() =~= old(buf)@);
        }
        return Ok(());
    }
    proof {
        lemma_put_split(
            buf@,
            sp_le_n(offs@[i as int] as int, w as int),
            sp_offsets_bytes(usizes_view(offs@), i + 1, w as int),
        );
    }
    put_le_n(buf, offs[i], w)?;
    put_offsets(buf, offs, i + 1, w)
}

/// Close a compact container that began at `c0`: append its framing
/// offsets with the width chosen from the final size.
fn close_container(buf: &mut Vec<u8>, c0: usize, offs: &Vec<usize>) -> (r: Result<(), Error>)
    requires
        c0 <= old(buf)@.len(),
        old(buf)@.len() <= MAX_ENCODED_LEN,
        forall|j: int| 0 <= j < offs@.len() ==> (#[trigger] offs@[j]) as int <= old(buf)@.len() - c0,
    ensures
        match r {
            Ok(()) => sp_close_buf(old(buf)@, c0 as int, usizes_view(offs@)) == Ok::<
                _,
                SpecError,
            >(final(buf)@),
            Err(e) => sp_close_buf(old(buf)@, c0 as int, usizes_view(offs@)) == Err::<Seq<u8>, _>(
                e@,
            ),
        },
{
    if offs.len() == 0 {
        return Ok(());
    }
    let body = buf.len() - c0;
    let w = off_width(body, offs.len());
    proof {
        assert(sp_wmax(w as int) >= body as int);
    }
    put_offsets(buf, offs, 0, w)
}

/// Required alignment of a type, as executable code.
pub fn align_of(t: &Signature) -> (r: usize)
    ensures
        r as int == spec_align_of(t@),
        r == 1 || r == 2 || r == 4 || r == 8,
{
    match t {
        Signature::U8 => 1,
        Signature::Bool => 4,
        Signature::I16 => 2,
        Signature::U16 => 2,
        Signature::I32 => 4,
        Signature::U32 => 4,
        Signature::I64 => 8,
        Signature::U64 => 8,
        Signature::Double => 8,
        Signature::Str => 4,
        Signature::ObjectPath => 4,
        Signature::Signature => 1,
        Signature::Fd => 4,
        Signature::Variant => 1,
        Signature::Array(_) => 4,
        Signature::Dict(_, _) => 4,
        Signature::Structure(_) => 8,
        Signature::Maybe(_) => 1,
    }
}

/// Whether the type is a fixed-size scalar.
pub fn is_fixed_scalar(t: &Signature) -> (r: bool)
    ensures
        r == (spec_fixed_scalar(t@) is Some),
{
    match t {
        Signature::U8 => true,
        Signature::Bool => true,
        Signature::I16 => true,
        Signature::U16 => true,
        Signature::I32 => true,
        Signature::U32 => true,
        Signature::I64 => true,
        Signature::U64 => true,
        Signature::Double => true,
        Signature::Fd => true,
        _ => false,
    }
}

/// Encode a string-like payload.
#[verifier::rlimit(100)]
#[verifier::spinoff_prover]
fn enc_string(buf: &mut Vec<u8>, sv: &Vec<u8>, f: Format, path: bool) -> (r: Result<(), Error>)
    requires
        old(buf)@.len() <= MAX_ENCODED_LEN,
    ensures
        match r {
            Ok(()) => {
                &&& sp_enc_string(old(buf)@, sv@, f, path) == Ok::<_, SpecError>(final(buf)@)
                &&& final(buf)@.len() <= MAX_ENCODED_LEN
                &&& old(buf)@.len() <= final(buf)@.len()
            },
            Err(e) => sp_enc_string(old(buf)@, sv@, f, path) == Err::<Seq<u8>, _>(e@),
        },
{
    if !crate::value::is_utf8(sv.as_slice()) {
        return Err(Error::Utf8);
    }
    if path && !crate::value::check_object_path(sv.as_slice()) {
        return Err(Error::InvalidObjectPath);
    }
    if sv.len() > MAX_ENCODED_LEN {
        return Err(Error::OutOfBounds);
    }
    put_pad(buf, 4)?;
    let ghost mid = buf@;
    if f == Format::Bus {
        proof {
            lemma_put_split(mid, sp_le4(sv@.len() as u32) + sv@, seq![0u8]);
            lemma_put_split(mid, sp_le4(sv@.len() as u32), sv@);
        }
        put_u32(buf, sv.len() as u32)?;
        put_bytes(buf, sv.as_slice())?;
        put_u8(buf, 0)?;
    } else {
        proof {
            lemma_put_split(mid, sv@, seq![0u8]);
        }
        put_bytes(buf, sv.as_slice())?;
        put_u8(buf, 0)?;
    }
    Ok(())
}

/// Encode one value of type `t`, in format `f`.  Returns exactly what
/// [`sp_enc_value`] describes, for every input.
#[verifier::rlimit(100)]
#[verifier::spinoff_prover]
pub fn enc_value(
    buf: &mut Vec<u8>,
    fds: &mut Vec<i32>,
    v: &Value,
    t: &Signature,
    f: Format,
    d: Depths,
    lim: &Limits,
) -> (r: Result<(), Error>)
    requires
        old(buf)@.len() <= MAX_ENCODED_LEN,
    ensures
        match r {
            Ok(()) => {
                &&& sp_enc_value(
                    SpecEnc { buf: old(buf)@, fds: old(fds)@ },
                    v@,
                    t@,
                    f,
                    d,
                    *lim,
                ) == Ok::<_, SpecError>(SpecEnc { buf: final(buf)@, fds: final(fds)@ })
                &&& final(buf)@.len() <= MAX_ENCODED_LEN
                &&& old(buf)@.len() <= final(buf)@.len()
            },
            Err(e) => sp_enc_value(SpecEnc { buf: old(buf)@, fds: old(fds)@ }, v@, t@, f, d, *lim)
                == Err::<SpecEnc, _>(e@),
        },
    decreases *v, 0int,
{
    proof {
        reveal(sp_enc_value);
    }
    match t {
        Signature::U8 => match v {
            Value::U8(x) => put_u8(buf, *x),
            _ => Err(Error::IncorrectType),
        },
        Signature::Bool => match v {
            Value::Bool(x) => {
                put_pad(buf, 4)?;
                put_u32(buf, if *x { 1 } else { 0 })
            },
            _ => Err(Error::IncorrectType),
        },
        Signature::I16 => match v {
            Value::I16(x) => {
                put_pad(buf, 2)?;
                put_u16(buf, *x as u16)
            },
            _ => Err(Error::IncorrectType),
        },
        Signature::U16 => match v {
            Value::U16(x) => {
                put_pad(buf, 2)?;
                put_u16(buf, *x)
            },
            _ => Err(Error::IncorrectType),
        },
        Signature::I32 => match v {
            Value::I32(x) => {
                put_pad(buf, 4)?;
                put_u32(buf, *x as u32)
            },
            _ => Err(Error::IncorrectType),
        },
        Signature::U32 => match v {
            Value::U32(x) => {
                put_pad(buf, 4)?;
                put_u32(buf, *x)
            },
            _ => Err(Error::IncorrectType),
        },
        Signature::I64 => match v {
            Value::I64(x) => {
                put_pad(buf, 8)?;
                put_u64(buf, *x as u64)
            },
            _ => Err(Error::IncorrectType),
        },
        Signature::U64 => match v {
            Value::U64(x) => {
                put_pad(buf, 8)?;
                put_u64(buf, *x)
            },
            _ => Err(Error::IncorrectType),
        },
        Signature::Double => match v {
            Value::Double(bits) => {
                put_pad(buf, 8)?;
                put_u64(buf, *bits)
            },
            _ => Err(Error::IncorrectType),
        },
        Signature::Fd => match v {
            Value::Fd(x) => {
                put_pad(buf, 4)?;
                if fds.len() >= 4294967295 {
                    return Err(Error::OutOfBounds);
                }
                put_u32(buf, fds.len() as u32)?;
                fds.push(*x);
                Ok(())
            },
            _ => Err(Error::IncorrectType),
        },
        Signature::Str => match v {
            Value::Str(sv) => enc_string(buf, sv, f, false),
            _ => Err(Error::IncorrectType),
        },
        Signature::ObjectPath => match v {
            Value::ObjectPath(sv) => enc_string(buf, sv, f, true),
            _ => Err(Error::IncorrectType),
        },
        Signature::Signature => match v {
            Value::Signature(sv) => {
                crate::signature::check_sig_text(sv.as_slice(), lim)?;
                if sv.len() > 255 {
                    return Err(Error::OutOfBounds);
                }
                let ghost mid = buf@;
                if f == Format::Bus {
                    proof {
                        lemma_put_split(mid, seq![sv@.len() as u8] + sv@, seq![0u8]);
                        lemma_put_split(mid, seq![sv@.len() as u8], sv@);
                    }
                    put_u8(buf, sv.len() as u8)?;
                    put_bytes(buf, sv.as_slice())?;
                    put_u8(buf, 0)
                } else {
                    proof {
                        lemma_put_split(mid, sv@, seq![0u8]);
                    }
                    put_bytes(buf, sv.as_slice())?;
                    put_u8(buf, 0)
                }
            },
            _ => Err(Error::IncorrectType),
        },
        Signature::Variant => match v {
            Value::Variant(tin, inner) => {
                if d.container >= lim.container {
                    return Err(Error::MaxDepthExceeded(MaxDepthExceeded::Container));
                }
                let d1 = Depths { container: d.container + 1, ..d };
                let txt = crate::signature::to_text(tin);
                if txt.len() > 255 {
                    return Err(Error::OutOfBounds);
                }
                let t2 = match crate::signature::parse(txt.as_slice(), lim) {
                    Ok(t2) => t2,
                    Err(e) => {
                        return Err(e);
                    },
                };
                if !crate::signature::sig_eq(&t2, tin) {
                    return Err(Error::IncorrectType);
                }
                let ghost mid = buf@;
                proof {
                    lemma_put_split(mid, seq![txt@.len() as u8] + txt@, seq![0u8]);
                    lemma_put_split(mid, seq![txt@.len() as u8], txt@);
                }
                put_u8(buf, txt.len() as u8)?;
                put_bytes(buf, txt.as_slice())?;
                put_u8(buf, 0)?;
                proof {
                    assert(decreases_to!(*v => (*v)->Variant_1));
                    assert((*v)->Variant_1 == *inner);
                }
                enc_value(buf, fds, inner, tin, f, d1, lim)
            },
            _ => Err(Error::IncorrectType),
        },
        Signature::Array(te) => match v {
            Value::Array(elems) => {
                proof {
                    assert(decreases_to!(*v => (*v)->Array_0));
                    assert((*v)->Array_0 == *elems);
                }
                enc_array(buf, fds, elems, te, f, d, lim)
            },
            _ => Err(Error::IncorrectType),
        },
        Signature::Dict(kt, vt) => match v {
            Value::Dict(entries) => {
                proof {
                    assert(decreases_to!(*v => (*v)->Dict_0));
                    assert((*v)->Dict_0 == *entries);
                }
                enc_dict(buf, fds, entries, kt, vt, f, d, lim)
            },
            _ => Err(Error::IncorrectType),
        },
        Signature::Structure(ts) => match v {
            Value::Structure(fields) => {
                proof {
                    assert(decreases_to!(*v => (*v)->Structure_0));
                    assert((*v)->Structure_0 == *fields);
                }
                enc_structure(buf, fds, fields, ts, f, d, lim)
            },
            _ => Err(Error::IncorrectType),
        },
        Signature::Maybe(te) => {
            if f == Format::Bus {
                return Err(
                    Error::IncompatibleFormat(crate::signature::sig_clone(t), f),
                );
            }
            match v {
                Value::Maybe(m) => {
                    if d.container >= lim.container {
                        return Err(Error::MaxDepthExceeded(MaxDepthExceeded::Container));
                    }
                    let d1 = Depths { container: d.container + 1, ..d };
                    match m {
                        Option::None => put_u8(buf, 0),
                        Option::Some(inner) => {
                            put_u8(buf, 1)?;
                            proof {
                                assert(decreases_to!(*v => (*v)->Maybe_0));
                                assert(decreases_to!((*v)->Maybe_0 => (*v)->Maybe_0->Some_0));
                                assert((*v)->Maybe_0->Some_0 == *inner);
                            }
                            enc_value(buf, fds, inner, te, f, d1, lim)
                        },
                    }
                },
                _ => Err(Error::IncorrectType),
            }
        },
    }
}

/// Array elements from index `i` on, each padded to its own alignment.
#[verifier::rlimit(100)]
#[verifier::spinoff_prover]
fn enc_vals(
    buf: &mut Vec<u8>,
    fds: &mut Vec<i32>,
    elems: &Vec<Value>,
    i: usize,
    te: &Signature,
    f: Format,
    d: Depths,
    lim: &Limits,
) -> (r: Result<(), Error>)
    requires
        old(buf)@.len() <= MAX_ENCODED_LEN,
        i <= elems@.len(),
    ensures
        match r {
            Ok(()) => {
                &&& sp_enc_vals(
                    SpecEnc { buf: old(buf)@, fds: old(fds)@ },
                    crate::value::vals_view(elems@),
                    i as int,
                    te@,
                    f,
                    d,
                    *lim,
                ) == Ok::<_, SpecError>(SpecEnc { buf: final(buf)@, fds: final(fds)@ })
                &&& final(buf)@.len() <= MAX_ENCODED_LEN
                &&& old(buf)@.len() <= final(buf)@.len()
            },
            Err(e) => sp_enc_vals(
                SpecEnc { buf: old(buf)@, fds: old(fds)@ },
                crate::value::vals_view(elems@),
                i as int,
                te@,
                f,
                d,
                *lim,
            ) == Err::<SpecEnc, _>(e@),
        },
    decreases *elems, elems@.len() - i,
{
    proof {
        crate::value::lemma_vals_view(elems@);
    }
    if i >= elems.len() {
        return Ok(());
    }
    proof {
        assert(decreases_to!(*elems => elems@));
        assert(decreases_to!(elems@ => elems@[i as int]));
    }
    let ea = align_of(te);
    proof {
        assert(crate::value::vals_view(elems@)[i as int] == crate::value::val_view(
            elems@[i as int],
        ));
    }
    match put_pad(buf, ea) {
        Err(e) => {
            proof {
                let st0 = SpecEnc { buf: old(buf)@, fds: old(fds)@ };
                assert(sp_align_st(st0, spec_align_of(te@)) == Err::<SpecEnc, SpecError>(e@));
                assert(sp_enc_one(
                    st0,
                    crate::value::vals_view(elems@)[i as int],
                    te@,
                    f,
                    d,
                    *lim,
                ) == Err::<SpecEnc, SpecError>(e@));
            }
            return Err(e);
        },
        Ok(()) => {},
    }
    proof {
        let st0 = SpecEnc { buf: old(buf)@, fds: old(fds)@ };
        assert(sp_align_st(st0, spec_align_of(te@)) == Ok::<_, SpecError>(
            SpecEnc { buf: buf@, fds: old(fds)@ },
        ));
    }
    match enc_value(buf, fds, &elems[i], te, f, d, lim) {
        Err(e) => {
            proof {
                let st0 = SpecEnc { buf: old(buf)@, fds: old(fds)@ };
                assert(sp_enc_one(
                    st0,
                    crate::value::vals_view(elems@)[i as int],
                    te@,
                    f,
                    d,
                    *lim,
                ) == Err::<SpecEnc, SpecError>(e@));
            }
            return Err(e);
        },
        Ok(()) => {},
    }
    proof {
        let st0 = SpecEnc { buf: old(buf)@, fds: old(fds)@ };
        assert(sp_enc_one(st0, crate::value::vals_view(elems@)[i as int], te@, f, d, *lim)
            == Ok::<_, SpecError>(SpecEnc { buf: buf@, fds: fds@ }));
    }
    enc_vals(buf, fds, elems, i + 1, te, f, d, lim)
}

/// Array elements with their end positions relative to `c0`.
#[verifier::rlimit(100)]
#[verifier::spinoff_prover]
fn enc_vals_off(
    buf: &mut Vec<u8>,
    fds: &mut Vec<i32>,
    elems: &Vec<Value>,
    i: usize,
    te: &Signature,
    f: Format,
    d: Depths,
    lim: &Limits,
    c0: usize,
) -> (r: Result<Vec<usize>, Error>)
    requires
        old(buf)@.len() <= MAX_ENCODED_LEN,
        i <= elems@.len(),
        c0 <= old(buf)@.len(),
    ensures
        match r {
            Ok(ends) => {
                &&& sp_enc_vals_off(
                    SpecEnc { buf: old(buf)@, fds: old(fds)@ },
                    crate::value::vals_view(elems@),
                    i as int,
                    te@,
                    f,
                    d,
                    *lim,
                    c0 as int,
                ) == Ok::<_, SpecError>(
                    (SpecEnc { buf: final(buf)@, fds: final(fds)@ }, usizes_view(ends@)),
                )
                &&& final(buf)@.len() <= MAX_ENCODED_LEN
                &&& old(buf)@.len() <= final(buf)@.len()
                &&& forall|j: int|
                    0 <= j < ends@.len() ==> (#[trigger] ends@[j]) as int <= final(buf)@.len()
                        - c0
            },
            Err(e) => sp_enc_vals_off(
                SpecEnc { buf: old(buf)@, fds: old(fds)@ },
                crate::value::vals_view(elems@),
                i as int,
                te@,
                f,
                d,
                *lim,
                c0 as int,
            ) == Err::<(SpecEnc, Seq<int>), _>(e@),
        },
    decreases *elems, elems@.len() - i,
{
    proof {
        crate::value::lemma_vals_view(elems@);
    }
    if i >= elems.len() {
        let ends: Vec<usize> = Vec::new();
        proof {
            assert(usizes_view(ends@) =~= Seq::<int>::empty());
        }
        return Ok(ends);
    }
    proof {
        assert(decreases_to!(*elems => elems@));
        assert(decreases_to!(elems@ => elems@[i as int]));
    }
    let ea = align_of(te);
    proof {
        assert(crate::value::vals_view(elems@)[i as int] == crate::value::val_view(
            elems@[i as int],
        ));
    }
    match put_pad(buf, ea) {
        Err(e) => {
            proof {
                let st0 = SpecEnc { buf: old(buf)@, fds: old(fds)@ };
                assert(sp_align_st(st0, spec_align_of(te@)) == Err::<SpecEnc, SpecError>(e@));
                assert(sp_enc_one(
                    st0,
                    crate::value::vals_view(elems@)[i as int],
                    te@,
                    f,
                    d,
                    *lim,
                ) == Err::<SpecEnc, SpecError>(e@));
            }
            return Err(e);
        },
        Ok(()) => {},
    }
    proof {
        let st0 = SpecEnc { buf: old(buf)@, fds: old(fds)@ };
        assert(sp_align_st(st0, spec_align_of(te@)) == Ok::<_, SpecError>(
            SpecEnc { buf: buf@, fds: old(fds)@ },
        ));
    }
    match enc_value(buf, fds, &elems[i], te, f, d, lim) {
        Err(e) => {
            proof {
                let st0 = SpecEnc { buf: old(buf)@, fds: old(fds)@ };
                assert(sp_enc_one(
                    st0,
                    crate::value::vals_view(elems@)[i as int],
                    te@,
                    f,
                    d,
                    *lim,
                ) == Err::<SpecEnc, SpecError>(e@));
            }
            return Err(e);
        },
        Ok(()) => {},
    }
    proof {
        let st0 = SpecEnc { buf: old(buf)@, fds: old(fds)@ };
        assert(sp_enc_one(st0, crate::value::vals_view(elems@)[i as int], te@, f, d, *lim)
            == Ok::<_, SpecError>(SpecEnc { buf: buf@, fds: fds@ }));
    }
    let here = buf.len() - c0;
    let mut rest = enc_vals_off(buf, fds, elems, i + 1, te, f, d, lim, c0)?;
    let ghost tail0 = rest@;
    rest.insert(0, here);
    proof {
        assert(rest@.drop_first() =~= tail0);
        assert(usizes_view(rest@) =~= seq![here as int] + usizes_view(tail0));
    }
    Ok(rest)
}

/// Dictionary entries from index `i` on (bus format).
#[verifier::rlimit(100)]
#[verifier::spinoff_prover]
fn enc_pairs(
    buf: &mut Vec<u8>,
    fds: &mut Vec<i32>,
    entries: &Vec<(Value, Value)>,
    i: usize,
    kt: &Signature,
    vt: &Signature,
    f: Format,
    d: Depths,
    lim: &Limits,
) -> (r: Result<(), Error>)
    requires
        old(buf)@.len() <= MAX_ENCODED_LEN,
        i <= entries@.len(),
    ensures
        match r {
            Ok(()) => {
                &&& sp_enc_pairs(
                    SpecEnc { buf: old(buf)@, fds: old(fds)@ },
                    crate::value::pairs_view(entries@),
                    i as int,
                    kt@,
                    vt@,
                    f,
                    d,
                    *lim,
                ) == Ok::<_, SpecError>(SpecEnc { buf: final(buf)@, fds: final(fds)@ })
                &&& final(buf)@.len() <= MAX_ENCODED_LEN
                &&& old(buf)@.len() <= final(buf)@.len()
            },
            Err(e) => sp_enc_pairs(
                SpecEnc { buf: old(buf)@, fds: old(fds)@ },
                crate::value::pairs_view(entries@),
                i as int,
                kt@,
                vt@,
                f,
                d,
                *lim,
            ) == Err::<SpecEnc, _>(e@),
        },
    decreases *entries, entries@.len() - i, 3int,
{
    proof {
        crate::value::lemma_pairs_view(entries@);
    }
    if i >= entries.len() {
        return Ok(());
    }
    proof {
        assert(decreases_to!(*entries => entries@));
        assert(decreases_to!(entries@ => entries@[i as int]));
    }
    enc_entry(
        buf,
        fds,
        &entries[i].0,
        &entries[i].1,
        kt,
        vt,
        f,
        d,
        lim,
        Ghost(entries@[i as int]),
    )?;
    enc_pairs(buf, fds, entries, i + 1, kt, vt, f, d, lim)
}

/// Dictionary entries with their end positions relative to `c0` (compact).
#[verifier::rlimit(100)]
#[verifier::spinoff_prover]
fn enc_pairs_off(
    buf: &mut Vec<u8>,
    fds: &mut Vec<i32>,
    entries: &Vec<(Value, Value)>,
    i: usize,
    kt: &Signature,
    vt: &Signature,
    f: Format,
    d: Depths,
    lim: &Limits,
    c0: usize,
) -> (r: Result<Vec<usize>, Error>)
    requires
        old(buf)@.len() <= MAX_ENCODED_LEN,
        i <= entries@.len(),
        c0 <= old(buf)@.len(),
    ensures
        match r {
            Ok(ends) => {
                &&& sp_enc_pairs_off(
                    SpecEnc { buf: old(buf)@, fds: old(fds)@ },
                    crate::value::pairs_view(entries@),
                    i as int,
                    kt@,
                    vt@,
                    f,
                    d,
                    *lim,
                    c0 as int,
                ) == Ok::<_, SpecError>(
                    (SpecEnc { buf: final(buf)@, fds: final(fds)@ }, usizes_view(ends@)),
                )
                &&& final(buf)@.len() <= MAX_ENCODED_LEN
                &&& old(buf)@.len() <= final(buf)@.len()
                &&& forall|j: int|
                    0 <= j < ends@.len() ==> (#[trigger] ends@[j]) as int <= final(buf)@.len()
                        - c0
            },
            Err(e) => sp_enc_pairs_off(
                SpecEnc { buf: old(buf)@, fds: old(fds)@ },
                crate::value::pairs_view(entries@),
                i as int,
                kt@,
                vt@,
                f,
                d,
                *lim,
                c0 as int,
            ) == Err::<(SpecEnc, Seq<int>), _>(e@),
        },
    decreases *entries, entries@.len() - i, 3int,
{
    proof {
        crate::value::lemma_pairs_view(entries@);
    }
    if i >= entries.len() {
        let ends: Vec<usize> = Vec::new();
        proof {
            assert(usizes_view(ends@) =~= Seq::<int>::empty());
        }
        return Ok(ends);
    }
    proof {
        assert(decreases_to!(*entries => entries@));
        assert(decreases_to!(entries@ => entries@[i as int]));
    }
    enc_entry(
        buf,
        fds,
        &entries[i].0,
        &entries[i].1,
        kt,
        vt,
        f,
        d,
        lim,
        Ghost(entries@[i as int]),
    )?;
    let here = buf.len() - c0;
    let mut rest = enc_pairs_off(buf, fds, entries, i + 1, kt, vt, f, d, lim, c0)?;
    let ghost tail0 = rest@;
    rest.insert(0, here);
    proof {
        assert(rest@.drop_first() =~= tail0);
        assert(usizes_view(rest@) =~= seq![here as int] + usizes_view(tail0));
    }
    Ok(rest)
}

/// One dictionary entry: an 8-aligned key/value pair.
#[verifier::rlimit(100)]
#[verifier::spinoff_prover]
fn enc_entry(
    buf: &mut Vec<u8>,
    fds: &mut Vec<i32>,
    k: &Value,
    w: &Value,
    kt: &Signature,
    vt: &Signature,
    f: Format,
    d: Depths,
    lim: &Limits,
    kv: Ghost<(Value, Value)>,
) -> (r: Result<(), Error>)
    requires
        old(buf)@.len() <= MAX_ENCODED_LEN,
        kv@.0 == *k,
        kv@.1 == *w,
    ensures
        match r {
            Ok(()) => {
                &&& sp_enc_entry(
                    SpecEnc { buf: old(buf)@, fds: old(fds)@ },
                    (k@, w@),
                    kt@,
                    vt@,
                    f,
                    d,
                    *lim,
                ) == Ok::<_, SpecError>(SpecEnc { buf: final(buf)@, fds: final(fds)@ })
                &&& final(buf)@.len() <= MAX_ENCODED_LEN
                &&& old(buf)@.len() <= final(buf)@.len()
            },
            Err(e) => sp_enc_entry(
                SpecEnc { buf: old(buf)@, fds: old(fds)@ },
                (k@, w@),
                kt@,
                vt@,
                f,
                d,
                *lim,
            ) == Err::<SpecEnc, _>(e@),
        },
    decreases kv@, 2int,
{
    if d.structure >= lim.structure {
        return Err(Error::MaxDepthExceeded(MaxDepthExceeded::Structure));
    }
    if d.container >= lim.container {
        return Err(Error::MaxDepthExceeded(MaxDepthExceeded::Container));
    }
    let d1 = Depths { structure: d.structure + 1, container: d.container + 1, ..d };
    put_pad(buf, 8)?;
    let c0 = buf.len();
    proof {
        assert(decreases_to!(kv@ => kv@.0));
        assert(decreases_to!(kv@ => kv@.1));
    }
    enc_value(buf, fds, k, kt, f, d1, lim)?;
    let kend = buf.len() - c0;
    let ea = align_of(vt);
    put_pad(buf, ea)?;
    enc_value(buf, fds, w, vt, f, d1, lim)?;
    if f == Format::Bus {
        Ok(())
    } else {
        let mut offs: Vec<usize> = Vec::new();
        offs.push(kend);
        proof {
            assert(usizes_view(offs@) =~= seq![kend as int]);
        }
        close_container(buf, c0, &offs)?;
        Ok(())
    }
}

/// Structure fields from index `i` on (bus format).
#[verifier::rlimit(100)]
#[verifier::spinoff_prover]
fn enc_fields(
    buf: &mut Vec<u8>,
    fds: &mut Vec<i32>,
    fields: &Vec<Value>,
    ts: &Vec<Signature>,
    i: usize,
    f: Format,
    d: Depths,
    lim: &Limits,
) -> (r: Result<(), Error>)
    requires
        old(buf)@.len() <= MAX_ENCODED_LEN,
        i <= fields@.len(),
        fields@.len() == ts@.len(),
    ensures
        match r {
            Ok(()) => {
                &&& sp_enc_fields(
                    SpecEnc { buf: old(buf)@, fds: old(fds)@ },
                    crate::value::vals_view(fields@),
                    crate::signature::sigs_view(ts@),
                    i as int,
                    f,
                    d,
                    *lim,
                ) == Ok::<_, SpecError>(SpecEnc { buf: final(buf)@, fds: final(fds)@ })
                &&& final(buf)@.len() <= MAX_ENCODED_LEN
                &&& old(buf)@.len() <= final(buf)@.len()
            },
            Err(e) => sp_enc_fields(
                SpecEnc { buf: old(buf)@, fds: old(fds)@ },
                crate::value::vals_view(fields@),
                crate::signature::sigs_view(ts@),
                i as int,
                f,
                d,
                *lim,
            ) == Err::<SpecEnc, _>(e@),
        },
    decreases *fields, fields@.len() - i,
{
    proof {
        crate::value::lemma_vals_view(fields@);
        crate::signature::lemma_sigs_view(ts@);
    }
    if i >= fields.len() {
        return Ok(());
    }
    proof {
        assert(decreases_to!(*fields => fields@));
        assert(decreases_to!(fields@ => fields@[i as int]));
    }
    let ea = align_of(&ts[i]);
    proof {
        assert(sigs_view(ts@)[i as int] == crate::signature::sig_view(ts@[i as int]));
        assert(crate::value::vals_view(fields@)[i as int] == crate::value::val_view(
            fields@[i as int],
        ));
    }
    put_pad(buf, ea)?;
    proof {
        let st0 = SpecEnc { buf: old(buf)@, fds: old(fds)@ };
        assert(sp_align_st(st0, spec_align_of(sigs_view(ts@)[i as int])) == Ok::<_, SpecError>(
            SpecEnc { buf: buf@, fds: old(fds)@ },
        ));
    }
    match enc_value(buf, fds, &fields[i], &ts[i], f, d, lim) {
        Err(e) => {
            proof {
                let st0 = SpecEnc { buf: old(buf)@, fds: old(fds)@ };
                assert(sp_enc_one(
                    st0,
                    crate::value::vals_view(fields@)[i as int],
                    sigs_view(ts@)[i as int],
                    f,
                    d,
                    *lim,
                ) == Err::<SpecEnc, SpecError>(e@));
                assert(sp_enc_fields(
                    st0,
                    crate::value::vals_view(fields@),
                    sigs_view(ts@),
                    i as int,
                    f,
                    d,
                    *lim,
                ) == Err::<SpecEnc, SpecError>(e@));
            }
            return Err(e);
        },
        Ok(()) => {},
    }
    proof {
        let st0 = SpecEnc { buf: old(buf)@, fds: old(fds)@ };
        assert(sp_enc_one(
            st0,
            crate::value::vals_view(fields@)[i as int],
            sigs_view(ts@)[i as int],
            f,
            d,
            *lim,
        ) == Ok::<_, SpecError>(SpecEnc { buf: buf@, fds: fds@ }));
    }
    enc_fields(buf, fds, fields, ts, i + 1, f, d, lim)
}

/// Structure fields with their end positions relative to `c0` (compact).
#[verifier::rlimit(100)]
#[verifier::spinoff_prover]
fn enc_fields_off(
    buf: &mut Vec<u8>,
    fds: &mut Vec<i32>,
    fields: &Vec<Value>,
    ts: &Vec<Signature>,
    i: usize,
    f: Format,
    d: Depths,
    lim: &Limits,
    c0: usize,
) -> (r: Result<Vec<usize>, Error>)
    requires
        old(buf)@.len() <= MAX_ENCODED_LEN,
        i <= fields@.len(),
        fields@.len() == ts@.len(),
        c0 <= old(buf)@.len(),
    ensures
        match r {
            Ok(ends) => {
                &&& sp_enc_fields_off(
                    SpecEnc { buf: old(buf)@, fds: old(fds)@ },
                    crate::value::vals_view(fields@),
                    crate::signature::sigs_view(ts@),
                    i as int,
                    f,
                    d,
                    *lim,
                    c0 as int,
                ) == Ok::<_, SpecError>(
                    (SpecEnc { buf: final(buf)@, fds: final(fds)@ }, usizes_view(ends@)),
                )
                &&& final(buf)@.len() <= MAX_ENCODED_LEN
                &&& old(buf)@.len() <= final(buf)@.len()
                &&& ends@.len() == fields@.len() - i
                &&& forall|j: int|
                    0 <= j < ends@.len() ==> (#[trigger] ends@[j]) as int <= final(buf)@.len()
                        - c0
            },
            Err(e) => sp_enc_fields_off(
                SpecEnc { buf: old(buf)@, fds: old(fds)@ },
                crate::value::vals_view(fields@),
                crate::signature::sigs_view(ts@),
                i as int,
                f,
                d,
                *lim,
                c0 as int,
            ) == Err::<(SpecEnc, Seq<int>), _>(e@),
        },
    decreases *fields, fields@.len() - i,
{
    proof {
        crate::value::lemma_vals_view(fields@);
        crate::signature::lemma_sigs_view(ts@);
    }
    if i >= fields.len() {
        let ends: Vec<usize> = Vec::new();
        proof {
            assert(usizes_view(ends@) =~= Seq::<int>::empty());
        }
        return Ok(ends);
    }
    proof {
        assert(decreases_to!(*fields => fields@));
        assert(decreases_to!(fields@ => fields@[i as int]));
    }
    let ea = align_of(&ts[i]);
    proof {
        assert(sigs_view(ts@)[i as int] == crate::signature::sig_view(ts@[i as int]));
        assert(crate::value::vals_view(fields@)[i as int] == crate::value::val_view(
            fields@[i as int],
        ));
    }
    put_pad(buf, ea)?;
    proof {
        let st0 = SpecEnc { buf: old(buf)@, fds: old(fds)@ };
        assert(sp_align_st(st0, spec_align_of(sigs_view(ts@)[i as int])) == Ok::<_, SpecError>(
            SpecEnc { buf: buf@, fds: old(fds)@ },
        ));
    }
    match enc_value(buf, fds, &fields[i], &ts[i], f, d, lim) {
        Err(e) => {
            proof {
                let st0 = SpecEnc { buf: old(buf)@, fds: old(fds)@ };
                assert(sp_enc_one(
                    st0,
                    crate::value::vals_view(fields@)[i as int],
                    sigs_view(ts@)[i as int],
                    f,
                    d,
                    *lim,
                ) == Err::<SpecEnc, SpecError>(e@));
            }
            return Err(e);
        },
        Ok(()) => {},
    }
    proof {
        let st0 = SpecEnc { buf: old(buf)@, fds: old(fds)@ };
        assert(sp_enc_one(
            st0,
            crate::value::vals_view(fields@)[i as int],
            sigs_view(ts@)[i as int],
            f,
            d,
            *lim,
        ) == Ok::<_, SpecError>(SpecEnc { buf: buf@, fds: fds@ }));
    }
    let here = buf.len() - c0;
    let mut rest = enc_fields_off(buf, fds, fields, ts, i + 1, f, d, lim, c0)?;
    let ghost tail0 = rest@;
    rest.insert(0, here);
    proof {
        assert(rest@.drop_first() =~= tail0);
        assert(usizes_view(rest@) =~= seq![here as int] + usizes_view(tail0));
    }
    Ok(rest)
}

/// Encode one top-level value of type `t` in format `f`.
///
/// Returns the wire bytes; file descriptors carried by the value are
/// appended to `fds` and encoded as indices into that table.  The result
/// is exactly what [`sp_encode`] describes: the same bytes, the same
/// table, and the same error on every input the specification rejects.
/// On an error the table may have been partially extended; no partial
/// buffer is ever returned.
#[verifier::rlimit(100)]
#[verifier::spinoff_prover]
pub fn encode(v: &Value, t: &Signature, f: Format, fds: &mut Vec<i32>, lim: &Limits) -> (r: Result<
    Vec<u8>,
    Error,
>)
    ensures
        match r {
            Ok(b) => sp_encode(v@, t@, f, old(fds)@, *lim) == Ok::<_, SpecError>(
                SpecEnc { buf: b@, fds: final(fds)@ },
            ),
            Err(e) => sp_encode(v@, t@, f, old(fds)@, *lim) == Err::<SpecEnc, _>(e@),
        },
{
    let mut buf: Vec<u8> = Vec::new();
    match enc_value(&mut buf, fds, v, t, f, Depths::zero(), lim) {
        Ok(()) => Ok(buf),
        Err(e) => Err(e),
    }
}

/// The array arm of the encoder.
#[verifier::rlimit(100)]
#[verifier::spinoff_prover]
fn enc_array(
    buf: &mut Vec<u8>,
    fds: &mut Vec<i32>,
    elems: &Vec<Value>,
    te: &Signature,
    f: Format,
    d: Depths,
    lim: &Limits,
) -> (r: Result<(), Error>)
    requires
        old(buf)@.len() <= MAX_ENCODED_LEN,
    ensures
        match r {
            Ok(()) => {
                &&& sp_enc_value(
                    SpecEnc { buf: old(buf)@, fds: old(fds)@ },
                    SpecValue::Array(crate::value::vals_view(elems@)),
                    SpecSignature::Array(Box::new(te@)),
                    f,
                    d,
                    *lim,
                ) == Ok::<_, SpecError>(SpecEnc { buf: final(buf)@, fds: final(fds)@ })
                &&& final(buf)@.len() <= MAX_ENCODED_LEN
                &&& old(buf)@.len() <= final(buf)@.len()
            },
            Err(e) => sp_enc_value(
                SpecEnc { buf: old(buf)@, fds: old(fds)@ },
                SpecValue::Array(crate::value::vals_view(elems@)),
                SpecSignature::Array(Box::new(te@)),
                f,
                d,
                *lim,
            ) == Err::<SpecEnc, _>(e@),
        },
    decreases *elems, elems@.len() + 1, 9int,
{
    proof {
        reveal(sp_enc_value);
    }
    if d.array >= lim.array {
        return Err(Error::MaxDepthExceeded(MaxDepthExceeded::Array));
    }
    if d.container >= lim.container {
        return Err(Error::MaxDepthExceeded(MaxDepthExceeded::Container));
    }
    let d1 = Depths { array: d.array + 1, container: d.container + 1, ..d };
    put_pad(buf, 4)?;
    if f == Format::Bus {
        let at = buf.len();
        put_u32(buf, 0)?;
        let ea = align_of(te);
        put_pad(buf, ea)?;
        let estart = buf.len();
        enc_vals(buf, fds, elems, 0, te, f, d1, lim)?;
        let len = buf.len() - estart;
        let l32 = len as u32;
        let ghost grown = buf@;
        buf.set(at, (l32 % 256) as u8);
        buf.set(at + 1, ((l32 / 256) % 256) as u8);
        buf.set(at + 2, ((l32 / 65536) % 256) as u8);
        buf.set(at + 3, (l32 / 16777216) as u8);
        proof {
            assert(final(buf)@ =~= sp_patch(grown, at as int, sp_le4(l32)));
        }
        Ok(())
    } else {
        let c0 = buf.len();
        if is_fixed_scalar(te) {
            enc_vals(buf, fds, elems, 0, te, f, d1, lim)
        } else {
            let ends = enc_vals_off(buf, fds, elems, 0, te, f, d1, lim, c0)?;
            close_container(buf, c0, &ends)?;
            Ok(())
        }
    }
}

/// The dictionary arm of the encoder.
#[verifier::rlimit(100)]
#[verifier::spinoff_prover]
fn enc_dict(
    buf: &mut Vec<u8>,
    fds: &mut Vec<i32>,
    entries: &Vec<(Value, Value)>,
    kt: &Signature,
    vt: &Signature,
    f: Format,
    d: Depths,
    lim: &Limits,
) -> (r: Result<(), Error>)
    requires
        old(buf)@.len() <= MAX_ENCODED_LEN,
    ensures
        match r {
            Ok(()) => {
                &&& sp_enc_value(
                    SpecEnc { buf: old(buf)@, fds: old(fds)@ },
                    SpecValue::Dict(crate::value::pairs_view(entries@)),
                    SpecSignature::Dict(Box::new(kt@), Box::new(vt@)),
                    f,
                    d,
                    *lim,
                ) == Ok::<_, SpecError>(SpecEnc { buf: final(buf)@, fds: final(fds)@ })
                &&& final(buf)@.len() <= MAX_ENCODED_LEN
                &&& old(buf)@.len() <= final(buf)@.len()
            },
            Err(e) => sp_enc_value(
                SpecEnc { buf: old(buf)@, fds: old(fds)@ },
                SpecValue::Dict(crate::value::pairs_view(entries@)),
                SpecSignature::Dict(Box::new(kt@), Box::new(vt@)),
                f,
                d,
                *lim,
            ) == Err::<SpecEnc, _>(e@),
        },
    decreases *entries, entries@.len() + 1, 9int,
{
    proof {
        reveal(sp_enc_value);
    }
    if d.array >= lim.array {
        return Err(Error::MaxDepthExceeded(MaxDepthExceeded::Array));
    }
    if d.container >= lim.container {
        return Err(Error::MaxDepthExceeded(MaxDepthExceeded::Container));
    }
    let d1 = Depths { array: d.array + 1, container: d.container + 1, ..d };
    put_pad(buf, 4)?;
    if f == Format::Bus {
        let at = buf.len();
        put_u32(buf, 0)?;
        put_pad(buf, 8)?;
        let estart = buf.len();
        enc_pairs(buf, fds, entries, 0, kt, vt, f, d1, lim)?;
        let len = buf.len() - estart;
        let l32 = len as u32;
        let ghost grown = buf@;
        buf.set(at, (l32 % 256) as u8);
        buf.set(at + 1, ((l32 / 256) % 256) as u8);
        buf.set(at + 2, ((l32 / 65536) % 256) as u8);
        buf.set(at + 3, (l32 / 16777216) as u8);
        proof {
            assert(final(buf)@ =~= sp_patch(grown, at as int, sp_le4(l32)));
        }
        Ok(())
    } else {
        let c0 = buf.len();
        let ends = enc_pairs_off(buf, fds, entries, 0, kt, vt, f, d1, lim, c0)?;
        close_container(buf, c0, &ends)?;
        Ok(())
    }
}

/// The structure arm of the encoder.
#[verifier::rlimit(100)]
#[verifier::spinoff_prover]
fn enc_structure(
    buf: &mut Vec<u8>,
    fds: &mut Vec<i32>,
    fields: &Vec<Value>,
    ts: &Vec<Signature>,
    f: Format,
    d: Depths,
    lim: &Limits,
) -> (r: Result<(), Error>)
    requires
        old(buf)@.len() <= MAX_ENCODED_LEN,
    ensures
        match r {
            Ok(()) => {
                &&& sp_enc_value(
                    SpecEnc { buf: old(buf)@, fds: old(fds)@ },
                    SpecValue::Structure(crate::value::vals_view(fields@)),
                    SpecSignature::Structure(sigs_view(ts@)),
                    f,
                    d,
                    *lim,
                ) == Ok::<_, SpecError>(SpecEnc { buf: final(buf)@, fds: final(fds)@ })
                &&& final(buf)@.len() <= MAX_ENCODED_LEN
                &&& old(buf)@.len() <= final(buf)@.len()
            },
            Err(e) => sp_enc_value(
                SpecEnc { buf: old(buf)@, fds: old(fds)@ },
                SpecValue::Structure(crate::value::vals_view(fields@)),
                SpecSignature::Structure(sigs_view(ts@)),
                f,
                d,
                *lim,
            ) == Err::<SpecEnc, _>(e@),
        },
    decreases *fields, fields@.len() + 1, 9int,
{
    proof {
        reveal(sp_enc_value);
        crate::signature::lemma_sigs_view(ts@);
        crate::value::lemma_vals_view(fields@);
    }
    if d.structure >= lim.structure {
        return Err(Error::MaxDepthExceeded(MaxDepthExceeded::Structure));
    }
    if d.container >= lim.container {
        return Err(Error::MaxDepthExceeded(MaxDepthExceeded::Container));
    }
    if ts.len() == 0 {
        return Err(Error::EmptyStructure);
    }
    if fields.len() != ts.len() {
        return Err(Error::IncorrectType);
    }
    let d1 = Depths { structure: d.structure + 1, container: d.container + 1, ..d };
    put_pad(buf, 8)?;
    if f == Format::Bus {
        enc_fields(buf, fds, fields, ts, 0, f, d1, lim)
    } else {
        let c0 = buf.len();
        let ends = enc_fields_off(buf, fds, fields, ts, 0, f, d1, lim, c0)?;
        let n = ends.len();
        let mut offs: Vec<usize> = Vec::new();
        let mut k: usize = 0;
        while k < n - 1
            invariant
                n == ends@.len(),
                n >= 1,
                0 <= k <= n - 1,
                offs@.len() == k,
                forall|j: int| 0 <= j < k ==> offs@[j] == ends@[n - 2 - j],
                forall|j: int|
                    0 <= j < ends@.len() ==> (#[trigger] ends@[j]) as int <= buf@.len() - c0,
            decreases n - 1 - k,
        {
            offs.push(ends[n - 2 - k]);
            k = k + 1;
        }
        proof {
            let spec_offs = usizes_view(ends@).take(ends@.len() - 1).reverse();
            assert(usizes_view(offs@) =~= spec_offs);
        }
        close_container(buf, c0, &offs)?;
        Ok(())
    }
}

} // verus!
