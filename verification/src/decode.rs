//! The decoder: wire bytes + type tree back to a value tree, with
//! validation of padding, bounds, framing offsets, depth limits and
//! string contents.
//!
//! The `sp_dec_*` specification functions define, byte for byte, what the
//! decoder accepts and what it returns; the executable decoder is proved
//! to return exactly that.

use vstd::prelude::*;

use crate::encode::{sp_pad_len, spec_align_of, spec_fixed_scalar};
use crate::error::{Error, MaxDepthExceeded, SpecError};
use crate::serialized::{Depths, Format, Limits};
use crate::signature::{sigs_view, sp_parse, sp_parse_rest, Signature, SpecSignature};
use crate::value::{is_object_path, utf8_valid, SpecValue, Value};

verus! {

/// Check that `k` padding bytes at `pos` are all zero; the first non-zero
/// byte is reported.
pub open spec fn sp_check_zeros(buf: Seq<u8>, pos: int, k: int) -> Result<(), SpecError>
    decreases k,
{
    if k <= 0 {
        Ok(())
    } else if buf[pos] != 0 {
        Err(SpecError::PaddingNot0(buf[pos]))
    } else {
        sp_check_zeros(buf, pos + 1, k - 1)
    }
}

/// Consume alignment padding before a value: zero bytes up to alignment
/// `a`, bounded by `end`.  Returns the aligned position.
pub open spec fn sp_rd_pad(buf: Seq<u8>, pos: int, end: int, a: int) -> Result<int, SpecError> {
    let p = sp_pad_len(pos, a);
    if p > end - pos {
        Err(SpecError::OutOfBounds)
    } else {
        match sp_check_zeros(buf, pos, p) {
            Err(e) => Err(e),
            Ok(_) => Ok(pos + p),
        }
    }
}

/// Little-endian reads.
pub open spec fn sp_rd16(buf: Seq<u8>, pos: int) -> int {
    buf[pos] + 256 * buf[pos + 1]
}

pub open spec fn sp_rd32(buf: Seq<u8>, pos: int) -> int {
    buf[pos] + 256 * buf[pos + 1] + 65536 * buf[pos + 2] + 16777216 * buf[pos + 3]
}

pub open spec fn sp_rd64(buf: Seq<u8>, pos: int) -> int {
    sp_rd32(buf, pos) + 4294967296 * sp_rd32(buf, pos + 4)
}

pub open spec fn sp_rd_le_n(buf: Seq<u8>, pos: int, w: int) -> int {
    if w == 1 {
        buf[pos] as int
    } else if w == 2 {
        sp_rd16(buf, pos)
    } else if w == 4 {
        sp_rd32(buf, pos)
    } else {
        sp_rd64(buf, pos)
    }
}

/// The framing-offset width a compact container of extent `ext` uses.
pub open spec fn sp_ext_width(ext: int) -> int {
    if ext <= 255 {
        1
    } else if ext <= 65535 {
        2
    } else if ext <= 4294967295 {
        4
    } else {
        8
    }
}

/// Decode one value of type `t` from `buf` between `pos` and `end`, in
/// format `f`, resolving descriptor indices against `fds`, with current
/// nesting `d` against `lim`.  Returns the value and the position one
/// past its bytes.  This function defines exactly which buffers the
/// decoder accepts and which error each rejected buffer produces.
#[verifier::opaque]
pub open spec fn sp_dec_value(
    buf: Seq<u8>,
    pos: int,
    end: int,
    t: SpecSignature,
    f: Format,
    fds: Seq<i32>,
    d: Depths,
    lim: Limits,
) -> Result<(SpecValue, int), SpecError>
    decreases lim.container - d.container, end - pos, 0int, 0int,
{
    match t {
        SpecSignature::U8 => {
            if pos + 1 > end {
                Err(SpecError::OutOfBounds)
            } else {
                Ok((SpecValue::U8(buf[pos]), pos + 1))
            }
        },
        SpecSignature::Bool => match sp_rd_pad(buf, pos, end, 4) {
            Err(e) => Err(e),
            Ok(p1) => if p1 + 4 > end {
                Err(SpecError::OutOfBounds)
            } else {
                let x = sp_rd32(buf, p1);
                if x == 0 {
                    Ok((SpecValue::Bool(false), p1 + 4))
                } else if x == 1 {
                    Ok((SpecValue::Bool(true), p1 + 4))
                } else {
                    Err(SpecError::IncorrectType)
                }
            },
        },
        SpecSignature::I16 => match sp_rd_pad(buf, pos, end, 2) {
            Err(e) => Err(e),
            Ok(p1) => if p1 + 2 > end {
                Err(SpecError::OutOfBounds)
            } else {
                Ok((SpecValue::I16((sp_rd16(buf, p1) as u16) as i16), p1 + 2))
            },
        },
        SpecSignature::U16 => match sp_rd_pad(buf, pos, end, 2) {
            Err(e) => Err(e),
            Ok(p1) => if p1 + 2 > end {
                Err(SpecError::OutOfBounds)
            } else {
                Ok((SpecValue::U16(sp_rd16(buf, p1) as u16), p1 + 2))
            },
        },
        SpecSignature::I32 => match sp_rd_pad(buf, pos, end, 4) {
            Err(e) => Err(e),
            Ok(p1) => if p1 + 4 > end {
                Err(SpecError::OutOfBounds)
            } else {
                Ok((SpecValue::I32((sp_rd32(buf, p1) as u32) as i32), p1 + 4))
            },
        },
        SpecSignature::U32 => match sp_rd_pad(buf, pos, end, 4) {
            Err(e) => Err(e),
            Ok(p1) => if p1 + 4 > end {
                Err(SpecError::OutOfBounds)
            } else {
                Ok((SpecValue::U32(sp_rd32(buf, p1) as u32), p1 + 4))
            },
        },
        SpecSignature::I64 => match sp_rd_pad(buf, pos, end, 8) {
            Err(e) => Err(e),
            Ok(p1) => if p1 + 8 > end {
                Err(SpecError::OutOfBounds)
            } else {
                Ok((SpecValue::I64((sp_rd64(buf, p1) as u64) as i64), p1 + 8))
            },
        },
        SpecSignature::U64 => match sp_rd_pad(buf, pos, end, 8) {
            Err(e) => Err(e),
            Ok(p1) => if p1 + 8 > end {
                Err(SpecError::OutOfBounds)
            } else {
                Ok((SpecValue::U64(sp_rd64(buf, p1) as u64), p1 + 8))
            },
        },
        SpecSignature::Double => match sp_rd_pad(buf, pos, end, 8) {
            Err(e) => Err(e),
            Ok(p1) => if p1 + 8 > end {
                Err(SpecError::OutOfBounds)
            } else {
                Ok((SpecValue::Double(sp_rd64(buf, p1) as u64), p1 + 8))
            },
        },
        SpecSignature::Fd => match sp_rd_pad(buf, pos, end, 4) {
            Err(e) => Err(e),
            Ok(p1) => if p1 + 4 > end {
                Err(SpecError::OutOfBounds)
            } else {
                let idx = sp_rd32(buf, p1);
                if idx >= fds.len() {
                    Err(SpecError::UnknownFd)
                } else {
                    Ok((SpecValue::Fd(fds[idx]), p1 + 4))
                }
            },
        },
        SpecSignature::Str => sp_dec_string(buf, pos, end, f, false),
        SpecSignature::ObjectPath => sp_dec_string(buf, pos, end, f, true),
        SpecSignature::Signature => {
            if f == Format::Bus {
                if pos + 1 > end {
                    Err(SpecError::OutOfBounds)
                } else {
                    let slen = buf[pos] as int;
                    if pos + 1 + slen + 1 > end {
                        Err(SpecError::OutOfBounds)
                    } else if buf[pos + 1 + slen] != 0 {
                        Err(SpecError::IncorrectType)
                    } else {
                        let payload = buf.subrange(pos + 1, pos + 1 + slen);
                        match sp_parse_rest(payload, 0, lim) {
                            Err(e) => Err(e),
                            Ok(_) => Ok((SpecValue::Signature(payload), pos + 1 + slen + 1)),
                        }
                    }
                }
            } else {
                if end - pos < 1 {
                    Err(SpecError::OutOfBounds)
                } else if buf[end - 1] != 0 {
                    Err(SpecError::IncorrectType)
                } else {
                    let payload = buf.subrange(pos, end - 1);
                    match sp_parse_rest(payload, 0, lim) {
                        Err(e) => Err(e),
                        Ok(_) => Ok((SpecValue::Signature(payload), end)),
                    }
                }
            }
        },
        SpecSignature::Variant => {
            if d.container >= lim.container {
                Err(SpecError::MaxDepthExceeded(MaxDepthExceeded::Container))
            } else {
                let d1 = Depths { container: (d.container + 1) as u32, ..d };
                if pos + 1 > end {
                    Err(SpecError::OutOfBounds)
                } else {
                    let slen = buf[pos] as int;
                    if pos + 1 + slen + 1 > end {
                        Err(SpecError::OutOfBounds)
                    } else if buf[pos + 1 + slen] != 0 {
                        Err(SpecError::IncorrectType)
                    } else {
                        let txt = buf.subrange(pos + 1, pos + 1 + slen);
                        match sp_parse(txt, lim) {
                            Err(e) => Err(e),
                            Ok(tin) => match sp_dec_value(
                                buf,
                                pos + 1 + slen + 1,
                                end,
                                tin,
                                f,
                                fds,
                                d1,
                                lim,
                            ) {
                                Err(e) => Err(e),
                                Ok((v2, p2)) => if f == Format::Compact && p2 != end {
                                    Err(SpecError::OutOfBounds)
                                } else {
                                    Ok(
                                        (
                                            SpecValue::Variant(Box::new(tin), Box::new(v2)),
                                            p2,
                                        ),
                                    )
                                },
                            },
                        }
                    }
                }
            }
        },
        SpecSignature::Array(te) => {
            if d.array >= lim.array {
                Err(SpecError::MaxDepthExceeded(MaxDepthExceeded::Array))
            } else if d.container >= lim.container {
                Err(SpecError::MaxDepthExceeded(MaxDepthExceeded::Container))
            } else {
                let d1 = Depths {
                    array: (d.array + 1) as u32,
                    container: (d.container + 1) as u32,
                    ..d
                };
                match sp_rd_pad(buf, pos, end, 4) {
                    Err(e) => Err(e),
                    Ok(c0) => if f == Format::Bus {
                        if c0 + 4 > end {
                            Err(SpecError::OutOfBounds)
                        } else {
                            let len = sp_rd32(buf, c0);
                            match sp_rd_pad(buf, c0 + 4, end, spec_align_of(*te)) {
                                Err(e) => Err(e),
                                Ok(p2) => if len > end - p2 {
                                    Err(SpecError::OutOfBounds)
                                } else {
                                    match sp_dec_elems(buf, p2, p2 + len, *te, f, fds, d1, lim) {
                                        Err(e) => Err(e),
                                        Ok(vals) => Ok((SpecValue::Array(vals), p2 + len)),
                                    }
                                },
                            }
                        }
                    } else {
                        if spec_fixed_scalar(*te) is Some {
                            match sp_rd_pad(buf, c0, end, spec_align_of(*te)) {
                                Err(e) => Err(e),
                                Ok(p2) => match sp_dec_elems(buf, p2, end, *te, f, fds, d1, lim) {
                                    Err(e) => Err(e),
                                    Ok(vals) => Ok((SpecValue::Array(vals), end)),
                                },
                            }
                        } else {
                            let ext = end - c0;
                            if ext == 0 {
                                Ok((SpecValue::Array(Seq::empty()), end))
                            } else {
                                let w = sp_ext_width(ext);
                                if ext < w {
                                    Err(SpecError::MissingFramingOffset)
                                } else {
                                    let z = sp_rd_le_n(buf, end - w, w);
                                    if z > ext - w || (ext - z) % w != 0 {
                                        Err(SpecError::MissingFramingOffset)
                                    } else {
                                        let n = (ext - z) / w;
                                        match sp_dec_elems_off(
                                            buf,
                                            c0,
                                            c0,
                                            c0 + z,
                                            w,
                                            0,
                                            n,
                                            *te,
                                            f,
                                            fds,
                                            d1,
                                            lim,
                                        ) {
                                            Err(e) => Err(e),
                                            Ok((vals, last)) => if last != c0 + z {
                                                Err(SpecError::MissingFramingOffset)
                                            } else {
                                                Ok((SpecValue::Array(vals), end))
                                            },
                                        }
                                    }
                                }
                            }
                        }
                    },
                }
            }
        },
        SpecSignature::Dict(kt, vt) => {
            if d.array >= lim.array {
                Err(SpecError::MaxDepthExceeded(MaxDepthExceeded::Array))
            } else if d.container >= lim.container {
                Err(SpecError::MaxDepthExceeded(MaxDepthExceeded::Container))
            } else {
                let d1 = Depths {
                    array: (d.array + 1) as u32,
                    container: (d.container + 1) as u32,
                    ..d
                };
                match sp_rd_pad(buf, pos, end, 4) {
                    Err(e) => Err(e),
                    Ok(c0) => if f == Format::Bus {
                        if c0 + 4 > end {
                            Err(SpecError::OutOfBounds)
                        } else {
                            let len = sp_rd32(buf, c0);
                            match sp_rd_pad(buf, c0 + 4, end, 8) {
                                Err(e) => Err(e),
                                Ok(p2) => if len > end - p2 {
                                    Err(SpecError::OutOfBounds)
                                } else {
                                    match sp_dec_pairs(buf, p2, p2 + len, *kt, *vt, f, fds, d1, lim) {
                                        Err(e) => Err(e),
                                        Ok(pairs) => Ok((SpecValue::Dict(pairs), p2 + len)),
                                    }
                                },
                            }
                        }
                    } else {
                        let ext = end - c0;
                        if ext == 0 {
                            Ok((SpecValue::Dict(Seq::empty()), end))
                        } else {
                            let w = sp_ext_width(ext);
                            if ext < w {
                                Err(SpecError::MissingFramingOffset)
                            } else {
                                let z = sp_rd_le_n(buf, end - w, w);
                                if z > ext - w || (ext - z) % w != 0 {
                                    Err(SpecError::MissingFramingOffset)
                                } else {
                                    let n = (ext - z) / w;
                                    match sp_dec_pairs_off(
                                        buf,
                                        c0,
                                        c0,
                                        c0 + z,
                                        w,
                                        0,
                                        n,
                                        *kt,
                                        *vt,
                                        f,
                                        fds,
                                        d1,
                                        lim,
                                    ) {
                                        Err(e) => Err(e),
                                        Ok((pairs, last)) => if last != c0 + z {
                                            Err(SpecError::MissingFramingOffset)
                                        } else {
                                            Ok((SpecValue::Dict(pairs), end))
                                        },
                                    }
                                }
                            }
                        }
                    },
                }
            }
        },
        SpecSignature::Structure(ts) => {
            if d.structure >= lim.structure {
                Err(SpecError::MaxDepthExceeded(MaxDepthExceeded::Structure))
            } else if d.container >= lim.container {
                Err(SpecError::MaxDepthExceeded(MaxDepthExceeded::Container))
            } else if ts.len() == 0 {
                Err(SpecError::EmptyStructure)
            } else {
                let d1 = Depths {
                    structure: (d.structure + 1) as u32,
                    container: (d.container + 1) as u32,
                    ..d
                };
                match sp_rd_pad(buf, pos, end, 8) {
                    Err(e) => Err(e),
                    Ok(c0) => if f == Format::Bus {
                        match sp_dec_fields(buf, c0, end, ts, 0, f, fds, d1, lim) {
                            Err(e) => Err(e),
                            Ok((vals, p2)) => Ok((SpecValue::Structure(vals), p2)),
                        }
                    } else {
                        let ext = end - c0;
                        let noff = ts.len() - 1;
                        let w = sp_ext_width(ext);
                        if noff * w > ext {
                            Err(SpecError::MissingFramingOffset)
                        } else {
                            let content_end = end - noff * w;
                            match sp_dec_fields_off(
                                buf,
                                c0,
                                c0,
                                content_end,
                                w,
                                ts,
                                0,
                                f,
                                fds,
                                d1,
                                lim,
                            ) {
                                Err(e) => Err(e),
                                Ok(vals) => Ok((SpecValue::Structure(vals), end)),
                            }
                        }
                    },
                }
            }
        },
        SpecSignature::Maybe(te) => {
            if f == Format::Bus {
                Err(SpecError::IncompatibleFormat(t, f))
            } else if d.container >= lim.container {
                Err(SpecError::MaxDepthExceeded(MaxDepthExceeded::Container))
            } else {
                let d1 = Depths { container: (d.container + 1) as u32, ..d };
                if pos + 1 > end {
                    Err(SpecError::OutOfBounds)
                } else if buf[pos] == 0 {
                    Ok((SpecValue::Maybe(Option::None), pos + 1))
                } else if buf[pos] == 1 {
                    match sp_dec_value(buf, pos + 1, end, *te, f, fds, d1, lim) {
                        Err(e) => Err(e),
                        Ok((v2, p2)) => if p2 != end {
                            Err(SpecError::OutOfBounds)
                        } else {
                            Ok((SpecValue::Maybe(Option::Some(Box::new(v2))), end))
                        },
                    }
                } else {
                    Err(SpecError::IncorrectType)
                }
            }
        },
    }
}

/// Decode a string-like value (object path when `path` is set).
pub open spec fn sp_dec_string(
    buf: Seq<u8>,
    pos: int,
    end: int,
    f: Format,
    path: bool,
) -> Result<(SpecValue, int), SpecError> {
    match sp_rd_pad(buf, pos, end, 4) {
        Err(e) => Err(e),
        Ok(p1) => if f == Format::Bus {
            if p1 + 4 > end {
                Err(SpecError::OutOfBounds)
            } else {
                let len = sp_rd32(buf, p1);
                if len + 1 > end - (p1 + 4) {
                    Err(SpecError::OutOfBounds)
                } else if buf[p1 + 4 + len] != 0 {
                    Err(SpecError::IncorrectType)
                } else {
                    let payload = buf.subrange(p1 + 4, p1 + 4 + len);
                    sp_string_value(payload, path, p1 + 4 + len + 1)
                }
            }
        } else {
            if end - p1 < 1 {
                Err(SpecError::OutOfBounds)
            } else if buf[end - 1] != 0 {
                Err(SpecError::IncorrectType)
            } else {
                let payload = buf.subrange(p1, end - 1);
                sp_string_value(payload, path, end)
            }
        },
    }
}

/// Validate a decoded string payload and build its value.
pub open spec fn sp_string_value(payload: Seq<u8>, path: bool, newpos: int) -> Result<
    (SpecValue, int),
    SpecError,
> {
    if !utf8_valid(payload) {
        Err(SpecError::Utf8)
    } else if path && !is_object_path(payload) {
        Err(SpecError::InvalidObjectPath)
    } else if path {
        Ok((SpecValue::ObjectPath(payload), newpos))
    } else {
        Ok((SpecValue::Str(payload), newpos))
    }
}

/// Elements back to back until exactly `end` (bus arrays, and compact
/// arrays of fixed-size scalars).
pub open spec fn sp_dec_elems(
    buf: Seq<u8>,
    pos: int,
    end: int,
    te: SpecSignature,
    f: Format,
    fds: Seq<i32>,
    d: Depths,
    lim: Limits,
) -> Result<Seq<SpecValue>, SpecError>
    decreases lim.container - d.container, end - pos, 0int, 1int,
{
    if pos == end {
        Ok(Seq::empty())
    } else if pos > end {
        Err(SpecError::OutOfBounds)
    } else {
        match sp_dec_value(buf, pos, end, te, f, fds, d, lim) {
            Err(e) => Err(e),
            Ok((v, p2)) => if p2 <= pos || p2 > end {
                Err(SpecError::OutOfBounds)
            } else {
                match sp_dec_elems(buf, p2, end, te, f, fds, d, lim) {
                    Err(e) => Err(e),
                    Ok(rest) => Ok(seq![v] + rest),
                }
            },
        }
    }
}

/// Compact array elements located by their trailing offsets: element `j`
/// ends where offset slot `j` (at `obase + j*w`) says, relative to `c0`.
/// Returns the elements and the end of the last element's bytes.
pub open spec fn sp_dec_elems_off(
    buf: Seq<u8>,
    c0: int,
    pos: int,
    obase: int,
    w: int,
    j: int,
    n: int,
    te: SpecSignature,
    f: Format,
    fds: Seq<i32>,
    d: Depths,
    lim: Limits,
) -> Result<(Seq<SpecValue>, int), SpecError>
    decreases lim.container - d.container, obase - c0, n - j, 1int,
{
    if j >= n {
        Ok((Seq::empty(), pos))
    } else {
        let e_end = c0 + sp_rd_le_n(buf, obase + j * w, w);
        if pos < c0 || e_end < pos || e_end > obase {
            Err(SpecError::OutOfBounds)
        } else {
            match sp_dec_value(buf, pos, e_end, te, f, fds, d, lim) {
                Err(e) => Err(e),
                Ok((v, p2)) => if p2 != e_end {
                    Err(SpecError::OutOfBounds)
                } else {
                    match sp_dec_elems_off(
                        buf,
                        c0,
                        e_end,
                        obase,
                        w,
                        j + 1,
                        n,
                        te,
                        f,
                        fds,
                        d,
                        lim,
                    ) {
                        Err(e) => Err(e),
                        Ok((rest, last)) => Ok((seq![v] + rest, last)),
                    }
                },
            }
        }
    }
}

/// Bus-format dictionary entries back to back until exactly `end`; each
/// entry is an 8-aligned key/value pair counted as one structure level.
pub open spec fn sp_dec_pairs(
    buf: Seq<u8>,
    pos: int,
    end: int,
    kt: SpecSignature,
    vt: SpecSignature,
    f: Format,
    fds: Seq<i32>,
    d: Depths,
    lim: Limits,
) -> Result<Seq<(SpecValue, SpecValue)>, SpecError>
    decreases lim.container - d.container, end - pos, 0int, 1int,
{
    if pos == end {
        Ok(Seq::empty())
    } else if pos > end {
        Err(SpecError::OutOfBounds)
    } else if d.structure >= lim.structure {
        Err(SpecError::MaxDepthExceeded(MaxDepthExceeded::Structure))
    } else if d.container >= lim.container {
        Err(SpecError::MaxDepthExceeded(MaxDepthExceeded::Container))
    } else {
        let d2 = Depths {
            structure: (d.structure + 1) as u32,
            container: (d.container + 1) as u32,
            ..d
        };
        match sp_rd_pad(buf, pos, end, 8) {
            Err(e) => Err(e),
            Ok(p1) => match sp_dec_value(buf, p1, end, kt, f, fds, d2, lim) {
                Err(e) => Err(e),
                Ok((kv, p2)) => match sp_dec_value(buf, p2, end, vt, f, fds, d2, lim) {
                    Err(e) => Err(e),
                    Ok((vv, p3)) => if p3 <= pos || p3 > end {
                        Err(SpecError::OutOfBounds)
                    } else {
                        match sp_dec_pairs(buf, p3, end, kt, vt, f, fds, d, lim) {
                            Err(e) => Err(e),
                            Ok(rest) => Ok(seq![(kv, vv)] + rest),
                        }
                    },
                },
            },
        }
    }
}

/// Compact dictionary entries located by the dictionary's trailing
/// offsets; each entry is itself a small compact container whose one
/// offset marks the end of its key.
pub open spec fn sp_dec_pairs_off(
    buf: Seq<u8>,
    c0: int,
    pos: int,
    obase: int,
    w: int,
    j: int,
    n: int,
    kt: SpecSignature,
    vt: SpecSignature,
    f: Format,
    fds: Seq<i32>,
    d: Depths,
    lim: Limits,
) -> Result<(Seq<(SpecValue, SpecValue)>, int), SpecError>
    decreases lim.container - d.container, obase - c0, n - j, 1int,
{
    if j >= n {
        Ok((Seq::empty(), pos))
    } else {
        let e_end = c0 + sp_rd_le_n(buf, obase + j * w, w);
        if e_end < pos || e_end > obase {
            Err(SpecError::OutOfBounds)
        } else if d.structure >= lim.structure {
            Err(SpecError::MaxDepthExceeded(MaxDepthExceeded::Structure))
        } else if d.container >= lim.container {
            Err(SpecError::MaxDepthExceeded(MaxDepthExceeded::Container))
        } else {
            let d2 = Depths {
                structure: (d.structure + 1) as u32,
                container: (d.container + 1) as u32,
                ..d
            };
            match sp_rd_pad(buf, pos, e_end, 8) {
                Err(e) => Err(e),
                Ok(p1) => {
                    let we = sp_ext_width(e_end - p1);
                    if e_end - p1 < we {
                        Err(SpecError::MissingFramingOffset)
                    } else {
                        let content_end = e_end - we;
                        let k_end = p1 + sp_rd_le_n(buf, content_end, we);
                        if k_end < p1 || k_end > content_end {
                            Err(SpecError::OutOfBounds)
                        } else {
                            match sp_dec_value(buf, p1, k_end, kt, f, fds, d2, lim) {
                                Err(e) => Err(e),
                                Ok((kv, p2)) => if p2 != k_end {
                                    Err(SpecError::OutOfBounds)
                                } else {
                                    match sp_dec_value(buf, k_end, content_end, vt, f, fds, d2, lim) {
                                        Err(e) => Err(e),
                                        Ok((vv, p3)) => if p3 != content_end {
                                            Err(SpecError::OutOfBounds)
                                        } else {
                                            match sp_dec_pairs_off(
                                                buf,
                                                c0,
                                                e_end,
                                                obase,
                                                w,
                                                j + 1,
                                                n,
                                                kt,
                                                vt,
                                                f,
                                                fds,
                                                d,
                                                lim,
                                            ) {
                                                Err(e) => Err(e),
                                                Ok((rest, last)) => Ok(
                                                    (seq![(kv, vv)] + rest, last),
                                                ),
                                            }
                                        },
                                    }
                                },
                            }
                        }
                    }
                },
            }
        }
    }
}

/// Bus-format structure fields, back to back from field `i`.
pub open spec fn sp_dec_fields(
    buf: Seq<u8>,
    pos: int,
    end: int,
    ts: Seq<SpecSignature>,
    i: int,
    f: Format,
    fds: Seq<i32>,
    d: Depths,
    lim: Limits,
) -> Result<(Seq<SpecValue>, int), SpecError>
    decreases lim.container - d.container, end - pos, ts.len() - i, 1int,
{
    if i < 0 || i >= ts.len() {
        Ok((Seq::empty(), pos))
    } else {
        match sp_dec_value(buf, pos, end, ts[i], f, fds, d, lim) {
            Err(e) => Err(e),
            Ok((v, p2)) => if p2 < pos || p2 > end {
                Err(SpecError::OutOfBounds)
            } else {
                match sp_dec_fields(buf, p2, end, ts, i + 1, f, fds, d, lim) {
                    Err(e) => Err(e),
                    Ok((rest, p3)) => Ok((seq![v] + rest, p3)),
                }
            },
        }
    }
}

/// Compact structure fields: every field but the last ends where its
/// framing offset says; the offsets stand at the tail in reverse field
/// order, and the last field ends at `content_end`.
pub open spec fn sp_dec_fields_off(
    buf: Seq<u8>,
    c0: int,
    pos: int,
    content_end: int,
    w: int,
    ts: Seq<SpecSignature>,
    i: int,
    f: Format,
    fds: Seq<i32>,
    d: Depths,
    lim: Limits,
) -> Result<Seq<SpecValue>, SpecError>
    decreases lim.container - d.container, content_end - c0, ts.len() - i, 1int,
{
    if i < 0 || i >= ts.len() {
        Ok(Seq::empty())
    } else {
        let n = ts.len() as int;
        let f_end = if i == n - 1 {
            content_end
        } else {
            c0 + sp_rd_le_n(buf, content_end + (n - 2 - i) * w, w)
        };
        if pos < c0 || f_end < pos || f_end > content_end {
            Err(SpecError::OutOfBounds)
        } else {
            match sp_dec_value(buf, pos, f_end, ts[i], f, fds, d, lim) {
                Err(e) => Err(e),
                Ok((v, p2)) => if p2 != f_end {
                    Err(SpecError::OutOfBounds)
                } else {
                    match sp_dec_fields_off(
                        buf,
                        c0,
                        f_end,
                        content_end,
                        w,
                        ts,
                        i + 1,
                        f,
                        fds,
                        d,
                        lim,
                    ) {
                        Err(e) => Err(e),
                        Ok(rest) => Ok(seq![v] + rest),
                    }
                },
            }
        }
    }
}

/// The whole decoding of one top-level value: fresh depth counters, the
/// full buffer as the value's extent, trailing bytes rejected.
pub open spec fn sp_decode(
    buf: Seq<u8>,
    t: SpecSignature,
    f: Format,
    fds: Seq<i32>,
    lim: Limits,
) -> Result<SpecValue, SpecError> {
    match sp_dec_value(buf, 0, buf.len() as int, t, f, fds, Depths::zero_spec(), lim) {
        Err(e) => Err(e),
        Ok((v, p)) => if p == buf.len() {
            Ok(v)
        } else {
            Err(SpecError::OutOfBounds)
        },
    }
}

/// Copy `buf[a..b]` into a fresh vector.
fn copy_range(buf: &[u8], a: usize, b: usize) -> (r: Vec<u8>)
    requires
        a <= b <= buf@.len(),
    ensures
        r@ == buf@.subrange(a as int, b as int),
{
    let mut out: Vec<u8> = Vec::new();
    let mut k: usize = a;
    while k < b
        invariant
            a <= k <= b <= buf@.len(),
            out@ == buf@.subrange(a as int, k as int),
        decreases b - k,
    {
        out.push(buf[k]);
        proof {
            assert(out@ =~= buf@.subrange(a as int, k + 1));
        }
        k = k + 1;
    }
    out
}

/// Consume alignment padding, rejecting any non-zero padding byte.
fn rd_pad(buf: &[u8], pos: usize, end: usize, a: usize) -> (r: Result<usize, Error>)
    requires
        a == 1 || a == 2 || a == 4 || a == 8,
        pos <= end <= buf@.len(),
    ensures
        match r {
            Ok(p) => sp_rd_pad(buf@, pos as int, end as int, a as int) == Ok::<_, SpecError>(
                p as int,
            ) && pos <= p <= end,
            Err(e) => sp_rd_pad(buf@, pos as int, end as int, a as int) == Err::<int, _>(e@),
        },
{
    let rem = pos % a;
    let p: usize = if rem == 0 {
        0
    } else {
        a - rem
    };
    if p > end - pos {
        return Err(Error::OutOfBounds);
    }
    let mut k: usize = 0;
    while k < p
        invariant
            0 <= k <= p,
            pos + p <= end <= buf@.len(),
            p < 8,
            p as int == sp_pad_len(pos as int, a as int),
            sp_check_zeros(buf@, pos as int, p as int) == sp_check_zeros(
                buf@,
                pos + k,
                p - k,
            ),
        decreases p - k,
    {
        if buf[pos + k] != 0 {
            proof {
                reveal_with_fuel(sp_check_zeros, 2);
                assert(sp_check_zeros(buf@, pos + k, p - k) == Err::<(), SpecError>(
                    SpecError::PaddingNot0(buf@[pos + k]),
                ));
                assert(sp_rd_pad(buf@, pos as int, end as int, a as int) == Err::<int, SpecError>(
                    SpecError::PaddingNot0(buf@[pos + k]),
                ));
            }
            return Err(Error::PaddingNot0(buf[pos + k]));
        }
        k = k + 1;
    }
    Ok(pos + p)
}

fn rd_u16(buf: &[u8], pos: usize) -> (r: u16)
    requires
        pos + 2 <= buf@.len(),
    ensures
        r as int == sp_rd16(buf@, pos as int),
{
    (buf[pos] as u16) + 256 * (buf[pos + 1] as u16)
}

fn rd_u32(buf: &[u8], pos: usize) -> (r: u32)
    requires
        pos + 4 <= buf@.len(),
    ensures
        r as int == sp_rd32(buf@, pos as int),
{
    (buf[pos] as u32) + 256 * (buf[pos + 1] as u32) + 65536 * (buf[pos + 2] as u32) + 16777216
        * (buf[pos + 3] as u32)
}

fn rd_u64(buf: &[u8], pos: usize) -> (r: u64)
    requires
        pos + 8 <= buf@.len(),
    ensures
        r as int == sp_rd64(buf@, pos as int),
{
    let blen = buf.len();
    let lo = rd_u32(buf, pos);
    let hi = rd_u32(buf, pos + 4);
    proof {
        assert(4294967296int * (hi as int) <= 18446744069414584320int) by (nonlinear_arith)
            requires hi as int <= 4294967295int;
    }
    (lo as u64) + 4294967296 * (hi as u64)
}

fn rd_le_n(buf: &[u8], pos: usize, w: usize) -> (r: u64)
    requires
        w == 1 || w == 2 || w == 4 || w == 8,
        pos + w <= buf@.len(),
    ensures
        r as int == sp_rd_le_n(buf@, pos as int, w as int),
{
    if w == 1 {
        buf[pos] as u64
    } else if w == 2 {
        rd_u16(buf, pos) as u64
    } else if w == 4 {
        rd_u32(buf, pos) as u64
    } else {
        rd_u64(buf, pos)
    }
}

/// The framing-offset width of a compact container of extent `ext`.
fn ext_width(ext: usize) -> (r: usize)
    ensures
        r as int == sp_ext_width(ext as int),
        r == 1 || r == 2 || r == 4 || r == 8,
{
    if ext <= 255 {
        1
    } else if ext <= 65535 {
        2
    } else if ext <= 4294967295 {
        4
    } else {
        8
    }
}

/// Decode one value of type `t` from `buf[pos..end]` in format `f`.
/// Returns exactly what [`sp_dec_value`] describes, for every input.
#[verifier::rlimit(100)]
#[verifier::spinoff_prover]
pub fn dec_value(
    buf: &[u8],
    pos: usize,
    end: usize,
    t: &Signature,
    f: Format,
    fds: &Vec<i32>,
    d: Depths,
    lim: &Limits,
) -> (r: Result<(Value, usize), Error>)
    requires
        pos <= end <= buf@.len(),
        d.container <= lim.container,
    ensures
        match r {
            Ok((v, p)) => sp_dec_value(buf@, pos as int, end as int, t@, f, fds@, d, *lim)
                == Ok::<_, SpecError>((v@, p as int)) && pos <= p <= end,
            Err(e) => sp_dec_value(buf@, pos as int, end as int, t@, f, fds@, d, *lim) == Err::<
                (SpecValue, int),
                _,
            >(e@),
        },
    decreases lim.container - d.container, end - pos, 0int, 1int, 0int,
{
    proof {
        reveal(sp_dec_value);
    }
    match t {
        Signature::U8 => {
            if end - pos < 1 {
                Err(Error::OutOfBounds)
            } else {
                Ok((Value::U8(buf[pos]), pos + 1))
            }
        },
        Signature::Bool => {
            let p1 = rd_pad(buf, pos, end, 4)?;
            if end - p1 < 4 {
                return Err(Error::OutOfBounds);
            }
            let x = rd_u32(buf, p1);
            if x == 0 {
                Ok((Value::Bool(false), p1 + 4))
            } else if x == 1 {
                Ok((Value::Bool(true), p1 + 4))
            } else {
                Err(Error::IncorrectType)
            }
        },
        Signature::I16 => {
            let p1 = rd_pad(buf, pos, end, 2)?;
            if end - p1 < 2 {
                return Err(Error::OutOfBounds);
            }
            let x = rd_u16(buf, p1);
            Ok((Value::I16(x as i16), p1 + 2))
        },
        Signature::U16 => {
            let p1 = rd_pad(buf, pos, end, 2)?;
            if end - p1 < 2 {
                return Err(Error::OutOfBounds);
            }
            Ok((Value::U16(rd_u16(buf, p1)), p1 + 2))
        },
        Signature::I32 => {
            let p1 = rd_pad(buf, pos, end, 4)?;
            if end - p1 < 4 {
                return Err(Error::OutOfBounds);
            }
            let x = rd_u32(buf, p1);
            Ok((Value::I32(x as i32), p1 + 4))
        },
        Signature::U32 => {
            let p1 = rd_pad(buf, pos, end, 4)?;
            if end - p1 < 4 {
                return Err(Error::OutOfBounds);
            }
            Ok((Value::U32(rd_u32(buf, p1)), p1 + 4))
        },
        Signature::I64 => {
            let p1 = rd_pad(buf, pos, end, 8)?;
            if end - p1 < 8 {
                return Err(Error::OutOfBounds);
            }
            let x = rd_u64(buf, p1);
            Ok((Value::I64(x as i64), p1 + 8))
        },
        Signature::U64 => {
            let p1 = rd_pad(buf, pos, end, 8)?;
            if end - p1 < 8 {
                return Err(Error::OutOfBounds);
            }
            Ok((Value::U64(rd_u64(buf, p1)), p1 + 8))
        },
        Signature::Double => {
            let p1 = rd_pad(buf, pos, end, 8)?;
            if end - p1 < 8 {
                return Err(Error::OutOfBounds);
            }
            Ok((Value::Double(rd_u64(buf, p1)), p1 + 8))
        },
        Signature::Fd => {
            let p1 = rd_pad(buf, pos, end, 4)?;
            if end - p1 < 4 {
                return Err(Error::OutOfBounds);
            }
            let idx = rd_u32(buf, p1);
            if idx as usize >= fds.len() {
                return Err(Error::UnknownFd);
            }
            Ok((Value::Fd(fds[idx as usize]), p1 + 4))
        },
        Signature::Str => dec_string(buf, pos, end, f, false),
        Signature::ObjectPath => dec_string(buf, pos, end, f, true),
        Signature::Signature => {
            if f == Format::Bus {
                if end - pos < 1 {
                    return Err(Error::OutOfBounds);
                }
                let slen = buf[pos] as usize;
                if end - (pos + 1) < slen + 1 {
                    return Err(Error::OutOfBounds);
                }
                if buf[pos + 1 + slen] != 0 {
                    return Err(Error::IncorrectType);
                }
                let payload = copy_range(buf, pos + 1, pos + 1 + slen);
                crate::signature::check_sig_text(payload.as_slice(), lim)?;
                Ok((Value::Signature(payload), pos + 1 + slen + 1))
            } else {
                if end - pos < 1 {
                    return Err(Error::OutOfBounds);
                }
                if buf[end - 1] != 0 {
                    return Err(Error::IncorrectType);
                }
                let payload = copy_range(buf, pos, end - 1);
                crate::signature::check_sig_text(payload.as_slice(), lim)?;
                Ok((Value::Signature(payload), end))
            }
        },
        Signature::Variant => {
            if d.container >= lim.container {
                return Err(Error::MaxDepthExceeded(MaxDepthExceeded::Container));
            }
            let d1 = Depths { container: d.container + 1, ..d };
            if end - pos < 1 {
                return Err(Error::OutOfBounds);
            }
            let slen = buf[pos] as usize;
            if end - (pos + 1) < slen + 1 {
                return Err(Error::OutOfBounds);
            }
            if buf[pos + 1 + slen] != 0 {
                return Err(Error::IncorrectType);
            }
            let txt = copy_range(buf, pos + 1, pos + 1 + slen);
            let tin = crate::signature::parse(txt.as_slice(), lim)?;
            let (v2, p2) = dec_value(buf, pos + 1 + slen + 1, end, &tin, f, fds, d1, lim)?;
            if f == Format::Compact && p2 != end {
                return Err(Error::OutOfBounds);
            }
            Ok((Value::Variant(Box::new(tin), Box::new(v2)), p2))
        },
        Signature::Array(te) => dec_array(buf, pos, end, te, f, fds, d, lim),
        Signature::Dict(kt, vt) => dec_dict(buf, pos, end, kt, vt, f, fds, d, lim),
        Signature::Structure(ts) => dec_structure(buf, pos, end, ts, f, fds, d, lim),
        Signature::Maybe(te) => {
            if f == Format::Bus {
                return Err(Error::IncompatibleFormat(crate::signature::sig_clone(t), f));
            }
            if d.container >= lim.container {
                return Err(Error::MaxDepthExceeded(MaxDepthExceeded::Container));
            }
            let d1 = Depths { container: d.container + 1, ..d };
            if end - pos < 1 {
                return Err(Error::OutOfBounds);
            }
            if buf[pos] == 0 {
                Ok((Value::Maybe(Option::None), pos + 1))
            } else if buf[pos] == 1 {
                let (v2, p2) = dec_value(buf, pos + 1, end, te, f, fds, d1, lim)?;
                if p2 != end {
                    return Err(Error::OutOfBounds);
                }
                Ok((Value::Maybe(Option::Some(Box::new(v2))), end))
            } else {
                Err(Error::IncorrectType)
            }
        },
    }
}

/// Decode a string-like value.
#[verifier::rlimit(100)]
#[verifier::spinoff_prover]
fn dec_string(buf: &[u8], pos: usize, end: usize, f: Format, path: bool) -> (r: Result<
    (Value, usize),
    Error,
>)
    requires
        pos <= end <= buf@.len(),
    ensures
        match r {
            Ok((v, p)) => sp_dec_string(buf@, pos as int, end as int, f, path) == Ok::<
                _,
                SpecError,
            >((v@, p as int)) && pos <= p <= end,
            Err(e) => sp_dec_string(buf@, pos as int, end as int, f, path) == Err::<
                (SpecValue, int),
                _,
            >(e@),
        },
{
    let p1 = rd_pad(buf, pos, end, 4)?;
    if f == Format::Bus {
        if end - p1 < 4 {
            return Err(Error::OutOfBounds);
        }
        let len64 = rd_u32(buf, p1) as u64;
        if len64 + 1 > (end - (p1 + 4)) as u64 {
            return Err(Error::OutOfBounds);
        }
        let len = len64 as usize;
        if buf[p1 + 4 + len] != 0 {
            return Err(Error::IncorrectType);
        }
        let payload = copy_range(buf, p1 + 4, p1 + 4 + len);
        string_value(payload, path, p1 + 4 + len + 1)
    } else {
        if end - p1 < 1 {
            return Err(Error::OutOfBounds);
        }
        if buf[end - 1] != 0 {
            return Err(Error::IncorrectType);
        }
        let payload = copy_range(buf, p1, end - 1);
        string_value(payload, path, end)
    }
}

/// Validate a decoded string payload and build its value.
fn string_value(payload: Vec<u8>, path: bool, newpos: usize) -> (r: Result<(Value, usize), Error>)
    ensures
        match r {
            Ok((v, p)) => sp_string_value(payload@, path, newpos as int) == Ok::<_, SpecError>(
                (v@, p as int),
            ) && p == newpos,
            Err(e) => sp_string_value(payload@, path, newpos as int) == Err::<
                (SpecValue, int),
                _,
            >(e@),
        },
{
    if !crate::value::is_utf8(payload.as_slice()) {
        return Err(Error::Utf8);
    }
    if path && !crate::value::check_object_path(payload.as_slice()) {
        return Err(Error::InvalidObjectPath);
    }
    if path {
        Ok((Value::ObjectPath(payload), newpos))
    } else {
        Ok((Value::Str(payload), newpos))
    }
}

/// The array arm of the decoder.
#[verifier::rlimit(100)]
#[verifier::spinoff_prover]
fn dec_array(
    buf: &[u8],
    pos: usize,
    end: usize,
    te: &Signature,
    f: Format,
    fds: &Vec<i32>,
    d: Depths,
    lim: &Limits,
) -> (r: Result<(Value, usize), Error>)
    requires
        pos <= end <= buf@.len(),
        d.container <= lim.container,
    ensures
        match r {
            Ok((v, p)) => sp_dec_value(
                buf@,
                pos as int,
                end as int,
                SpecSignature::Array(Box::new(te@)),
                f,
                fds@,
                d,
                *lim,
            ) == Ok::<_, SpecError>((v@, p as int)) && pos <= p <= end,
            Err(e) => sp_dec_value(
                buf@,
                pos as int,
                end as int,
                SpecSignature::Array(Box::new(te@)),
                f,
                fds@,
                d,
                *lim,
            ) == Err::<(SpecValue, int), _>(e@),
        },
    decreases lim.container - d.container, end - pos, 0int, 0int, 0int,
{
    proof {
        reveal(sp_dec_value);
    }
    if d.array >= lim.array {
        return Err(Error::MaxDepthExceeded(MaxDepthExceeded::Array));
    }
    if d.container >= lim.container {
        return Err(Error::MaxDepthExceeded(MaxDepthExceeded::Container));
    }
    let d1 = Depths { array: d.array + 1, container: d.container + 1, ..d };
    let c0 = rd_pad(buf, pos, end, 4)?;
    if f == Format::Bus {
        if end - c0 < 4 {
            return Err(Error::OutOfBounds);
        }
        let len64 = rd_u32(buf, c0) as u64;
        let ea = crate::encode::align_of(te);
        let p2 = rd_pad(buf, c0 + 4, end, ea)?;
        if len64 > (end - p2) as u64 {
            return Err(Error::OutOfBounds);
        }
        let len = len64 as usize;
        let vals = dec_elems(buf, p2, p2 + len, te, f, fds, d1, lim)?;
        Ok((Value::Array(vals), p2 + len))
    } else {
        if crate::encode::is_fixed_scalar(te) {
            let ea = crate::encode::align_of(te);
            let p2 = rd_pad(buf, c0, end, ea)?;
            let vals = dec_elems(buf, p2, end, te, f, fds, d1, lim)?;
            Ok((Value::Array(vals), end))
        } else {
            let ext = end - c0;
            if ext == 0 {
                let vals: Vec<Value> = Vec::new();
                proof {
                    assert(crate::value::vals_view(vals@) =~= Seq::<SpecValue>::empty());
                }
                return Ok((Value::Array(vals), end));
            }
            let w = ext_width(ext);
            if ext < w {
                return Err(Error::MissingFramingOffset);
            }
            let z64 = rd_le_n(buf, end - w, w);
            if z64 > (ext - w) as u64 {
                return Err(Error::MissingFramingOffset);
            }
            let z = z64 as usize;
            if (ext - z) % w != 0 {
                return Err(Error::MissingFramingOffset);
            }
            let n = (ext - z) / w;
            proof {
                assert(n * w == ext - z) by (nonlinear_arith)
                    requires
                        n as int == ((ext - z) as int) / (w as int),
                        ((ext - z) as int) % (w as int) == 0,
                        w >= 1,
                ;
            }
            let (vals, last) = dec_elems_off(buf, c0, c0, c0 + z, w, 0, n, te, f, fds, d1, lim)?;
            if last != c0 + z {
                return Err(Error::MissingFramingOffset);
            }
            Ok((Value::Array(vals), end))
        }
    }
}

/// Elements back to back until exactly `end`.
#[verifier::rlimit(100)]
#[verifier::spinoff_prover]
fn dec_elems(
    buf: &[u8],
    pos: usize,
    end: usize,
    te: &Signature,
    f: Format,
    fds: &Vec<i32>,
    d: Depths,
    lim: &Limits,
) -> (r: Result<Vec<Value>, Error>)
    requires
        pos <= end <= buf@.len(),
        d.container <= lim.container,
    ensures
        match r {
            Ok(vals) => sp_dec_elems(buf@, pos as int, end as int, te@, f, fds@, d, *lim) == Ok::<
                _,
                SpecError,
            >(crate::value::vals_view(vals@)),
            Err(e) => sp_dec_elems(buf@, pos as int, end as int, te@, f, fds@, d, *lim) == Err::<
                Seq<SpecValue>,
                _,
            >(e@),
        },
    decreases lim.container - d.container, end - pos, 0int, 2int, 0int,
{
    if pos == end {
        let vals: Vec<Value> = Vec::new();
        proof {
            assert(crate::value::vals_view(vals@) =~= Seq::<SpecValue>::empty());
        }
        return Ok(vals);
    }
    let (v, p2) = dec_value(buf, pos, end, te, f, fds, d, lim)?;
    if p2 <= pos {
        return Err(Error::OutOfBounds);
    }
    let mut rest = dec_elems(buf, p2, end, te, f, fds, d, lim)?;
    let ghost tail0 = rest@;
    rest.insert(0, v);
    proof {
        assert(rest@.drop_first() =~= tail0);
        assert(crate::value::vals_view(rest@) =~= seq![(rest@[0])@] + crate::value::vals_view(
            tail0,
        ));
    }
    Ok(rest)
}

/// Compact array elements located by their trailing offsets.
#[verifier::rlimit(100)]
#[verifier::spinoff_prover]
fn dec_elems_off(
    buf: &[u8],
    c0: usize,
    pos: usize,
    obase: usize,
    w: usize,
    j: usize,
    n: usize,
    te: &Signature,
    f: Format,
    fds: &Vec<i32>,
    d: Depths,
    lim: &Limits,
) -> (r: Result<(Vec<Value>, usize), Error>)
    requires
        c0 <= obase <= buf@.len(),
        pos <= obase,
        j <= n,
        w == 1 || w == 2 || w == 4 || w == 8,
        obase + n * w <= buf@.len(),
        d.container <= lim.container,
    ensures
        match r {
            Ok((vals, last)) => sp_dec_elems_off(
                buf@,
                c0 as int,
                pos as int,
                obase as int,
                w as int,
                j as int,
                n as int,
                te@,
                f,
                fds@,
                d,
                *lim,
            ) == Ok::<_, SpecError>((crate::value::vals_view(vals@), last as int)) && last
                <= obase,
            Err(e) => sp_dec_elems_off(
                buf@,
                c0 as int,
                pos as int,
                obase as int,
                w as int,
                j as int,
                n as int,
                te@,
                f,
                fds@,
                d,
                *lim,
            ) == Err::<(Seq<SpecValue>, int), _>(e@),
        },
    decreases lim.container - d.container, obase - c0, n - j, 2int, 0int,
{
    if j >= n {
        let vals: Vec<Value> = Vec::new();
        proof {
            assert(crate::value::vals_view(vals@) =~= Seq::<SpecValue>::empty());
        }
        return Ok((vals, pos));
    }
    let blen = buf.len();
    proof {
        assert(obase + j * w + w <= obase + n * w) by (nonlinear_arith)
            requires j < n, w >= 1;
        assert(j * w >= 0) by (nonlinear_arith)
            requires j >= 0, w >= 1;
    }
    let off64 = rd_le_n(buf, obase + j * w, w);
    if pos < c0 || off64 > (obase - c0) as u64 {
        return Err(Error::OutOfBounds);
    }
    let e_end = c0 + (off64 as usize);
    if e_end < pos {
        return Err(Error::OutOfBounds);
    }
    let (v, p2) = dec_value(buf, pos, e_end, te, f, fds, d, lim)?;
    if p2 != e_end {
        return Err(Error::OutOfBounds);
    }
    let (mut rest, last) = dec_elems_off(buf, c0, e_end, obase, w, j + 1, n, te, f, fds, d, lim)?;
    let ghost tail0 = rest@;
    rest.insert(0, v);
    proof {
        assert(rest@.drop_first() =~= tail0);
        assert(crate::value::vals_view(rest@) =~= seq![(rest@[0])@] + crate::value::vals_view(
            tail0,
        ));
    }
    Ok((rest, last))
}

/// The dictionary arm of the decoder.
#[verifier::rlimit(100)]
#[verifier::spinoff_prover]
fn dec_dict(
    buf: &[u8],
    pos: usize,
    end: usize,
    kt: &Signature,
    vt: &Signature,
    f: Format,
    fds: &Vec<i32>,
    d: Depths,
    lim: &Limits,
) -> (r: Result<(Value, usize), Error>)
    requires
        pos <= end <= buf@.len(),
        d.container <= lim.container,
    ensures
        match r {
            Ok((v, p)) => sp_dec_value(
                buf@,
                pos as int,
                end as int,
                SpecSignature::Dict(Box::new(kt@), Box::new(vt@)),
                f,
                fds@,
                d,
                *lim,
            ) == Ok::<_, SpecError>((v@, p as int)) && pos <= p <= end,
            Err(e) => sp_dec_value(
                buf@,
                pos as int,
                end as int,
                SpecSignature::Dict(Box::new(kt@), Box::new(vt@)),
                f,
                fds@,
                d,
                *lim,
            ) == Err::<(SpecValue, int), _>(e@),
        },
    decreases lim.container - d.container, end - pos, 0int, 0int, 0int,
{
    proof {
        reveal(sp_dec_value);
    }
    if d.array >= lim.array {
        return Err(Error::MaxDepthExceeded(MaxDepthExceeded::Array));
    }
    if d.container >= lim.container {
        return Err(Error::MaxDepthExceeded(MaxDepthExceeded::Container));
    }
    let d1 = Depths { array: d.array + 1, container: d.container + 1, ..d };
    let c0 = rd_pad(buf, pos, end, 4)?;
    if f == Format::Bus {
        if end - c0 < 4 {
            return Err(Error::OutOfBounds);
        }
        let len64 = rd_u32(buf, c0) as u64;
        let p2 = rd_pad(buf, c0 + 4, end, 8)?;
        if len64 > (end - p2) as u64 {
            return Err(Error::OutOfBounds);
        }
        let len = len64 as usize;
        let pairs = dec_pairs(buf, p2, p2 + len, kt, vt, f, fds, d1, lim)?;
        Ok((Value::Dict(pairs), p2 + len))
    } else {
        let ext = end - c0;
        if ext == 0 {
            let pairs: Vec<(Value, Value)> = Vec::new();
            proof {
                assert(crate::value::pairs_view(pairs@) =~= Seq::<(SpecValue, SpecValue)>::empty());
            }
            return Ok((Value::Dict(pairs), end));
        }
        let w = ext_width(ext);
        if ext < w {
            return Err(Error::MissingFramingOffset);
        }
        let z64 = rd_le_n(buf, end - w, w);
        if z64 > (ext - w) as u64 {
            return Err(Error::MissingFramingOffset);
        }
        let z = z64 as usize;
        if (ext - z) % w != 0 {
            return Err(Error::MissingFramingOffset);
        }
        let n = (ext - z) / w;
        proof {
            assert(n * w == ext - z) by (nonlinear_arith)
                requires
                    n as int == ((ext - z) as int) / (w as int),
                    ((ext - z) as int) % (w as int) == 0,
                    w >= 1,
            ;
        }
        let (pairs, last) = dec_pairs_off(buf, c0, c0, c0 + z, w, 0, n, kt, vt, f, fds, d1, lim)?;
        if last != c0 + z {
            return Err(Error::MissingFramingOffset);
        }
        Ok((Value::Dict(pairs), end))
    }
}

/// Bus-format dictionary entries back to back until exactly `end`.
#[verifier::rlimit(100)]
#[verifier::spinoff_prover]
fn dec_pairs(
    buf: &[u8],
    pos: usize,
    end: usize,
    kt: &Signature,
    vt: &Signature,
    f: Format,
    fds: &Vec<i32>,
    d: Depths,
    lim: &Limits,
) -> (r: Result<Vec<(Value, Value)>, Error>)
    requires
        pos <= end <= buf@.len(),
        d.container <= lim.container,
    ensures
        match r {
            Ok(pairs) => sp_dec_pairs(buf@, pos as int, end as int, kt@, vt@, f, fds@, d, *lim)
                == Ok::<_, SpecError>(crate::value::pairs_view(pairs@)),
            Err(e) => sp_dec_pairs(buf@, pos as int, end as int, kt@, vt@, f, fds@, d, *lim)
                == Err::<Seq<(SpecValue, SpecValue)>, _>(e@),
        },
    decreases lim.container - d.container, end - pos, 0int, 2int, 0int,
{
    if pos == end {
        let pairs: Vec<(Value, Value)> = Vec::new();
        proof {
            assert(crate::value::pairs_view(pairs@) =~= Seq::<(SpecValue, SpecValue)>::empty());
        }
        return Ok(pairs);
    }
    if d.structure >= lim.structure {
        return Err(Error::MaxDepthExceeded(MaxDepthExceeded::Structure));
    }
    if d.container >= lim.container {
        return Err(Error::MaxDepthExceeded(MaxDepthExceeded::Container));
    }
    let d2 = Depths { structure: d.structure + 1, container: d.container + 1, ..d };
    let p1 = rd_pad(buf, pos, end, 8)?;
    let (kv, p2) = dec_value(buf, p1, end, kt, f, fds, d2, lim)?;
    let (vv, p3) = dec_value(buf, p2, end, vt, f, fds, d2, lim)?;
    if p3 <= pos {
        return Err(Error::OutOfBounds);
    }
    let mut rest = dec_pairs(buf, p3, end, kt, vt, f, fds, d, lim)?;
    let ghost tail0 = rest@;
    rest.insert(0, (kv, vv));
    proof {
        assert(rest@.drop_first() =~= tail0);
        assert(crate::value::pairs_view(rest@) =~= seq![
            ((rest@[0].0)@, (rest@[0].1)@),
        ] + crate::value::pairs_view(tail0));
    }
    Ok(rest)
}

/// Compact dictionary entries located by the dictionary's trailing offsets.
#[verifier::rlimit(100)]
#[verifier::spinoff_prover]
fn dec_pairs_off(
    buf: &[u8],
    c0: usize,
    pos: usize,
    obase: usize,
    w: usize,
    j: usize,
    n: usize,
    kt: &Signature,
    vt: &Signature,
    f: Format,
    fds: &Vec<i32>,
    d: Depths,
    lim: &Limits,
) -> (r: Result<(Vec<(Value, Value)>, usize), Error>)
    requires
        c0 <= obase <= buf@.len(),
        pos <= obase,
        j <= n,
        w == 1 || w == 2 || w == 4 || w == 8,
        obase + n * w <= buf@.len(),
        d.container <= lim.container,
    ensures
        match r {
            Ok((pairs, last)) => sp_dec_pairs_off(
                buf@,
                c0 as int,
                pos as int,
                obase as int,
                w as int,
                j as int,
                n as int,
                kt@,
                vt@,
                f,
                fds@,
                d,
                *lim,
            ) == Ok::<_, SpecError>((crate::value::pairs_view(pairs@), last as int)) && last
                <= obase,
            Err(e) => sp_dec_pairs_off(
                buf@,
                c0 as int,
                pos as int,
                obase as int,
                w as int,
                j as int,
                n as int,
                kt@,
                vt@,
                f,
                fds@,
                d,
                *lim,
            ) == Err::<(Seq<(SpecValue, SpecValue)>, int), _>(e@),
        },
    decreases lim.container - d.container, obase - c0, n - j, 2int, 0int,
{
    if j >= n {
        let pairs: Vec<(Value, Value)> = Vec::new();
        proof {
            assert(crate::value::pairs_view(pairs@) =~= Seq::<(SpecValue, SpecValue)>::empty());
        }
        return Ok((pairs, pos));
    }
    let blen = buf.len();
    proof {
        assert(obase + j * w + w <= obase + n * w) by (nonlinear_arith)
            requires j < n, w >= 1;
        assert(j * w >= 0) by (nonlinear_arith)
            requires j >= 0, w >= 1;
    }
    let off64 = rd_le_n(buf, obase + j * w, w);
    if off64 > (obase - c0) as u64 {
        return Err(Error::OutOfBounds);
    }
    let e_end = c0 + (off64 as usize);
    if e_end < pos {
        return Err(Error::OutOfBounds);
    }
    if d.structure >= lim.structure {
        return Err(Error::MaxDepthExceeded(MaxDepthExceeded::Structure));
    }
    if d.container >= lim.container {
        return Err(Error::MaxDepthExceeded(MaxDepthExceeded::Container));
    }
    let d2 = Depths { structure: d.structure + 1, container: d.container + 1, ..d };
    let p1 = rd_pad(buf, pos, e_end, 8)?;
    let we = ext_width(e_end - p1);
    if e_end - p1 < we {
        return Err(Error::MissingFramingOffset);
    }
    let content_end = e_end - we;
    let koff64 = rd_le_n(buf, content_end, we);
    if koff64 > (content_end - p1) as u64 {
        return Err(Error::OutOfBounds);
    }
    let k_end = p1 + (koff64 as usize);
    let (kv, p2) = dec_value(buf, p1, k_end, kt, f, fds, d2, lim)?;
    if p2 != k_end {
        return Err(Error::OutOfBounds);
    }
    let (vv, p3) = dec_value(buf, k_end, content_end, vt, f, fds, d2, lim)?;
    if p3 != content_end {
        return Err(Error::OutOfBounds);
    }
    let (mut rest, last) = dec_pairs_off(
        buf,
        c0,
        e_end,
        obase,
        w,
        j + 1,
        n,
        kt,
        vt,
        f,
        fds,
        d,
        lim,
    )?;
    let ghost tail0 = rest@;
    rest.insert(0, (kv, vv));
    proof {
        assert(rest@.drop_first() =~= tail0);
        assert(crate::value::pairs_view(rest@) =~= seq![
            ((rest@[0].0)@, (rest@[0].1)@),
        ] + crate::value::pairs_view(tail0));
    }
    Ok((rest, last))
}

/// The structure arm of the decoder.
#[verifier::rlimit(100)]
#[verifier::spinoff_prover]
fn dec_structure(
    buf: &[u8],
    pos: usize,
    end: usize,
    ts: &Vec<Signature>,
    f: Format,
    fds: &Vec<i32>,
    d: Depths,
    lim: &Limits,
) -> (r: Result<(Value, usize), Error>)
    requires
        pos <= end <= buf@.len(),
        d.container <= lim.container,
    ensures
        match r {
            Ok((v, p)) => sp_dec_value(
                buf@,
                pos as int,
                end as int,
                SpecSignature::Structure(sigs_view(ts@)),
                f,
                fds@,
                d,
                *lim,
            ) == Ok::<_, SpecError>((v@, p as int)) && pos <= p <= end,
            Err(e) => sp_dec_value(
                buf@,
                pos as int,
                end as int,
                SpecSignature::Structure(sigs_view(ts@)),
                f,
                fds@,
                d,
                *lim,
            ) == Err::<(SpecValue, int), _>(e@),
        },
    decreases lim.container - d.container, end - pos, 0int, 0int, 0int,
{
    proof {
        reveal(sp_dec_value);
        crate::signature::lemma_sigs_view(ts@);
    }
    if d.structure >= lim.structure {
        return Err(Error::MaxDepthExceeded(MaxDepthExceeded::Structure));
    }
    if d.container >= lim.container {
        return Err(Error::MaxDepthExceeded(MaxDepthExceeded::Container));
    }
    if ts.len() == 0 {
        return Err(Error::EmptyStructure);
    }
    let d1 = Depths { structure: d.structure + 1, container: d.container + 1, ..d };
    let c0 = rd_pad(buf, pos, end, 8)?;
    if f == Format::Bus {
        let (vals, p2) = dec_fields(buf, c0, end, ts, 0, f, fds, d1, lim)?;
        Ok((Value::Structure(vals), p2))
    } else {
        let ext = end - c0;
        let noff = ts.len() - 1;
        let w = ext_width(ext);
        if noff > ext / w {
            proof {
                assert(noff * w > ext) by (nonlinear_arith)
                    requires noff > ext / w, w >= 1, ext >= 0, noff >= 0;
            }
            return Err(Error::MissingFramingOffset);
        }
        proof {
            assert(noff * w <= ext) by (nonlinear_arith)
                requires noff <= ext / w, w >= 1, ext >= 0, noff >= 0;
        }
        let content_end = end - noff * w;
        let vals = dec_fields_off(buf, c0, c0, content_end, w, ts, 0, f, fds, d1, lim)?;
        Ok((Value::Structure(vals), end))
    }
}

/// Bus-format structure fields, back to back from field `i`.
#[verifier::rlimit(100)]
#[verifier::spinoff_prover]
fn dec_fields(
    buf: &[u8],
    pos: usize,
    end: usize,
    ts: &Vec<Signature>,
    i: usize,
    f: Format,
    fds: &Vec<i32>,
    d: Depths,
    lim: &Limits,
) -> (r: Result<(Vec<Value>, usize), Error>)
    requires
        pos <= end <= buf@.len(),
        i <= ts@.len(),
        d.container <= lim.container,
    ensures
        match r {
            Ok((vals, p)) => sp_dec_fields(
                buf@,
                pos as int,
                end as int,
                sigs_view(ts@),
                i as int,
                f,
                fds@,
                d,
                *lim,
            ) == Ok::<_, SpecError>((crate::value::vals_view(vals@), p as int)) && pos <= p <= end,
            Err(e) => sp_dec_fields(
                buf@,
                pos as int,
                end as int,
                sigs_view(ts@),
                i as int,
                f,
                fds@,
                d,
                *lim,
            ) == Err::<(Seq<SpecValue>, int), _>(e@),
        },
    decreases lim.container - d.container, end - pos, ts@.len() - i, 2int, 0int,
{
    proof {
        crate::signature::lemma_sigs_view(ts@);
    }
    if i >= ts.len() {
        let vals: Vec<Value> = Vec::new();
        proof {
            assert(crate::value::vals_view(vals@) =~= Seq::<SpecValue>::empty());
        }
        return Ok((vals, pos));
    }
    let (v, p2) = dec_value(buf, pos, end, &ts[i], f, fds, d, lim)?;
    let (mut rest, p3) = dec_fields(buf, p2, end, ts, i + 1, f, fds, d, lim)?;
    let ghost tail0 = rest@;
    rest.insert(0, v);
    proof {
        assert(rest@.drop_first() =~= tail0);
        assert(crate::value::vals_view(rest@) =~= seq![(rest@[0])@] + crate::value::vals_view(
            tail0,
        ));
    }
    Ok((rest, p3))
}

/// Compact structure fields bounded by their framing offsets.
#[verifier::rlimit(100)]
#[verifier::spinoff_prover]
fn dec_fields_off(
    buf: &[u8],
    c0: usize,
    pos: usize,
    content_end: usize,
    w: usize,
    ts: &Vec<Signature>,
    i: usize,
    f: Format,
    fds: &Vec<i32>,
    d: Depths,
    lim: &Limits,
) -> (r: Result<Vec<Value>, Error>)
    requires
        c0 <= content_end <= buf@.len(),
        pos <= content_end,
        i <= ts@.len(),
        w == 1 || w == 2 || w == 4 || w == 8,
        content_end + (ts@.len() - 1) * w <= buf@.len(),
        ts@.len() >= 1,
        d.container <= lim.container,
    ensures
        match r {
            Ok(vals) => sp_dec_fields_off(
                buf@,
                c0 as int,
                pos as int,
                content_end as int,
                w as int,
                sigs_view(ts@),
                i as int,
                f,
                fds@,
                d,
                *lim,
            ) == Ok::<_, SpecError>(crate::value::vals_view(vals@)),
            Err(e) => sp_dec_fields_off(
                buf@,
                c0 as int,
                pos as int,
                content_end as int,
                w as int,
                sigs_view(ts@),
                i as int,
                f,
                fds@,
                d,
                *lim,
            ) == Err::<Seq<SpecValue>, _>(e@),
        },
    decreases lim.container - d.container, content_end - c0, ts@.len() - i, 2int, 0int,
{
    proof {
        crate::signature::lemma_sigs_view(ts@);
    }
    if i >= ts.len() {
        let vals: Vec<Value> = Vec::new();
        proof {
            assert(crate::value::vals_view(vals@) =~= Seq::<SpecValue>::empty());
        }
        return Ok(vals);
    }
    let n = ts.len();
    let f_end: usize = if i == n - 1 {
        content_end
    } else {
        let blen = buf.len();
        proof {
            assert((n - 2 - i) * w < (n - 1) * w) by (nonlinear_arith)
                requires i < n - 1, i >= 0, w >= 1;
            assert((n - 2 - i) * w >= 0) by (nonlinear_arith)
                requires i <= n - 2, w >= 1;
            assert((n - 2 - i) * w + w <= (n - 1) * w) by (nonlinear_arith)
                requires i >= 0, i < n - 1, w >= 1;
            assert((ts@.len() - 1) * w == (n - 1) * w);
        }
        let off64 = rd_le_n(buf, content_end + (n - 2 - i) * w, w);
        if off64 > (content_end - c0) as u64 {
            return Err(Error::OutOfBounds);
        }
        c0 + (off64 as usize)
    };
    if pos < c0 || f_end < pos || f_end > content_end {
        return Err(Error::OutOfBounds);
    }
    let (v, p2) = dec_value(buf, pos, f_end, &ts[i], f, fds, d, lim)?;
    if p2 != f_end {
        return Err(Error::OutOfBounds);
    }
    let mut rest = dec_fields_off(buf, c0, f_end, content_end, w, ts, i + 1, f, fds, d, lim)?;
    let ghost tail0 = rest@;
    rest.insert(0, v);
    proof {
        assert(rest@.drop_first() =~= tail0);
        assert(crate::value::vals_view(rest@) =~= seq![(rest@[0])@] + crate::value::vals_view(
            tail0,
        ));
    }
    Ok(rest)
}

/// Decode one top-level value of type `t` from the whole of `bytes` in
/// format `f`, resolving descriptor indices against `fds`.
///
/// Returns exactly what [`sp_decode`] describes for every input: the
/// decoded value on the buffers the specification accepts, and the same
/// error on every buffer it rejects.  Decoding is all-or-nothing; no
/// partial value is ever returned.
pub fn decode(bytes: &[u8], t: &Signature, f: Format, fds: &Vec<i32>, lim: &Limits) -> (r: Result<
    Value,
    Error,
>)
    ensures
        match r {
            Ok(v) => sp_decode(bytes@, t@, f, fds@, *lim) == Ok::<_, SpecError>(v@),
            Err(e) => sp_decode(bytes@, t@, f, fds@, *lim) == Err::<SpecValue, _>(e@),
        },
{
    let (v, p) = match dec_value(bytes, 0, bytes.len(), t, f, fds, Depths::zero(), lim) {
        Ok(vp) => vp,
        Err(e) => {
            return Err(e);
        },
    };
    if p != bytes.len() {
        return Err(Error::OutOfBounds);
    }
    Ok(v)
}

} // verus!
