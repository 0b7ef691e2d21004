//! Laws of the engine, stated once over the specification functions and
//! proved for every input they quantify over.

use vstd::prelude::*;

use crate::decode::sp_dec_value;
use crate::encode::MAX_ENCODED_LEN;
use crate::error::{MaxDepthExceeded, SpecError};
use crate::serialized::{Depths, Format, Limits};
use crate::signature::{
    sp_parse, sp_parse_one, SignatureError, SignatureErrorKind, SpecSignature,
};

verus! {

/// Parsing the signature `()` fails with the empty-structure error, for
/// any limits that admit one structure level; parsing `(i)` succeeds and
/// yields a one-field structure type.
pub proof fn lemma_struct_non_emptiness(lim: Limits)
    requires
        lim.structure >= 1,
        lim.container >= 1,
    ensures
        sp_parse(seq![40u8, 41u8], lim) == Err::<SpecSignature, _>(SpecError::EmptyStructure),
        sp_parse(seq![40u8, 105u8, 41u8], lim) == Ok::<_, SpecError>(
            SpecSignature::Structure(seq![SpecSignature::I32]),
        ),
{
    reveal_with_fuel(sp_parse_one, 3);
    reveal_with_fuel(crate::signature::sp_parse_fields, 3);
    let s1 = seq![40u8, 41u8];
    assert(s1[0] == 40 && s1[1] == 41 && s1.len() == 2);
    let s2 = seq![40u8, 105u8, 41u8];
    assert(s2[0] == 40 && s2[1] == 105 && s2[2] == 41 && s2.len() == 3);
    assert(crate::signature::spec_basic_code(105) == Some(SpecSignature::I32));
    assert(seq![SpecSignature::I32] + Seq::<SpecSignature>::empty() =~= seq![
        SpecSignature::I32,
    ]);
}

/// A nested array-of-arrays type, `k` levels deep around a byte leaf.
pub open spec fn array_tower(k: nat) -> SpecSignature
    decreases k,
{
    if k == 0 {
        SpecSignature::U8
    } else {
        SpecSignature::Array(Box::new(array_tower((k - 1) as nat)))
    }
}

/// Depth enforcement, decoder side: once the array allowance is used up,
/// decoding any array type fails with the array depth error against
/// every buffer, every extent and every descriptor table — never with a
/// crash or hang.
pub proof fn lemma_array_depth_decode(
    buf: Seq<u8>,
    pos: int,
    end: int,
    k: nat,
    f: Format,
    fds: Seq<i32>,
    d: Depths,
    lim: Limits,
)
    requires
        k >= 1,
        d.array >= lim.array,
    ensures
        sp_dec_value(buf, pos, end, array_tower(k), f, fds, d, lim) == Err::<
            (crate::value::SpecValue, int),
            _,
        >(SpecError::MaxDepthExceeded(MaxDepthExceeded::Array)),
{
    reveal(sp_dec_value);
    assert(array_tower(k) is Array);
}

/// A fully nested array-of-arrays value fitting [`array_tower`]: one
/// element at every level around a zero byte.
pub open spec fn tower_val(k: nat) -> crate::value::SpecValue
    decreases k,
{
    if k == 0 {
        crate::value::SpecValue::U8(0)
    } else {
        crate::value::SpecValue::Array(seq![tower_val((k - 1) as nat)])
    }
}

/// Depth enforcement, encoder side: encoding an array-of-arrays value
/// nested deeper than the remaining array allowance fails with the array
/// depth error — in both formats, from any starting state with room for
/// the levels above the limit — and never with a crash or hang,
/// regardless of input size.
#[verifier::rlimit(100)]
#[verifier::spinoff_prover]
pub proof fn lemma_array_depth_encode(
    st: crate::encode::SpecEnc,
    k: nat,
    f: Format,
    d: Depths,
    lim: Limits,
)
    requires
        k >= 1,
        d.array + k > lim.array,
        d.array <= lim.array,
        lim.array - d.array < lim.container - d.container,
        st.buf.len() + 16 * (lim.array - d.array + 1) <= MAX_ENCODED_LEN,
    ensures
        crate::encode::sp_enc_value(st, tower_val(k), array_tower(k), f, d, lim) == Err::<
            crate::encode::SpecEnc,
            _,
        >(SpecError::MaxDepthExceeded(MaxDepthExceeded::Array)),
    decreases k,
{
    reveal(crate::encode::sp_enc_value);
    assert(array_tower(k) is Array);
    assert(tower_val(k) is Array);
    if d.array >= lim.array {
    } else {
        assert(k >= 2) by {
            assert(d.array + k > lim.array && d.array < lim.array);
        }
        let d1 = Depths {
            array: (d.array + 1) as u32,
            container: (d.container + 1) as u32,
            ..d
        };
        let te = array_tower((k - 1) as nat);
        let elems = seq![tower_val((k - 1) as nat)];
        let st1 = crate::encode::sp_align_st(st, 4)->Ok_0;
        assert(crate::encode::sp_align_st(st, 4) is Ok && st1.buf.len() <= st.buf.len() + 3) by {
            assert(crate::encode::sp_pad_len(st.buf.len() as int, 4) <= 3);
            assert(crate::encode::sp_zeros(
                crate::encode::sp_pad_len(st.buf.len() as int, 4),
            ).len() <= 3);
        }
        assert(te is Array);
        assert(crate::encode::spec_fixed_scalar(te) is None);
        let ea = crate::encode::spec_align_of(te);
        assert(ea == 4);
        if f == Format::Bus {
            let st2 = crate::encode::sp_put_st(st1, crate::encode::sp_le4(0))->Ok_0;
            assert(crate::encode::sp_put_st(st1, crate::encode::sp_le4(0)) is Ok && st2.buf.len()
                <= st1.buf.len() + 4);
            let st3 = crate::encode::sp_align_st(st2, ea)->Ok_0;
            assert(crate::encode::sp_align_st(st2, ea) is Ok && st3.buf.len() <= st2.buf.len()
                + 3) by {
                assert(crate::encode::sp_pad_len(st2.buf.len() as int, 4) <= 3);
                assert(crate::encode::sp_zeros(
                    crate::encode::sp_pad_len(st2.buf.len() as int, 4),
                ).len() <= 3);
            }
            let st4 = crate::encode::sp_align_st(st3, ea)->Ok_0;
            assert(crate::encode::sp_align_st(st3, ea) is Ok && st4.buf.len() <= st3.buf.len()
                + 3) by {
                assert(crate::encode::sp_pad_len(st3.buf.len() as int, 4) <= 3);
                assert(crate::encode::sp_zeros(
                    crate::encode::sp_pad_len(st3.buf.len() as int, 4),
                ).len() <= 3);
            }
            lemma_array_depth_encode(st4, (k - 1) as nat, f, d1, lim);
            assert(elems[0] == tower_val((k - 1) as nat));
            assert(crate::encode::sp_enc_one(st3, elems[0], te, f, d1, lim) == Err::<
                crate::encode::SpecEnc,
                _,
            >(SpecError::MaxDepthExceeded(MaxDepthExceeded::Array)));
            assert(crate::encode::sp_enc_vals(st3, elems, 0, te, f, d1, lim) == Err::<
                crate::encode::SpecEnc,
                _,
            >(SpecError::MaxDepthExceeded(MaxDepthExceeded::Array)));
        } else {
            let c0 = st1.buf.len() as int;
            let st4 = crate::encode::sp_align_st(st1, ea)->Ok_0;
            assert(crate::encode::sp_align_st(st1, ea) is Ok && st4.buf.len() <= st1.buf.len()
                + 3) by {
                assert(crate::encode::sp_pad_len(st1.buf.len() as int, 4) <= 3);
                assert(crate::encode::sp_zeros(
                    crate::encode::sp_pad_len(st1.buf.len() as int, 4),
                ).len() <= 3);
            }
            lemma_array_depth_encode(st4, (k - 1) as nat, f, d1, lim);
            assert(elems[0] == tower_val((k - 1) as nat));
            assert(crate::encode::sp_enc_one(st1, elems[0], te, f, d1, lim) == Err::<
                crate::encode::SpecEnc,
                _,
            >(SpecError::MaxDepthExceeded(MaxDepthExceeded::Array)));
            assert(crate::encode::sp_enc_vals_off(st1, elems, 0, te, f, d1, lim, c0) == Err::<
                (crate::encode::SpecEnc, Seq<int>),
                _,
            >(SpecError::MaxDepthExceeded(MaxDepthExceeded::Array)));
        }
    }
}

/// Depth enforcement, parser side: a signature of `k` array codes around
/// a byte code, nesting deeper than the array limit, is rejected with the
/// array depth error at the position where the limit runs out, for every
/// such `k` — the parser can neither crash nor hang on it.
pub proof fn lemma_array_depth_parse(s: Seq<u8>, pos: int, k: nat, d: Depths, lim: Limits)
    requires
        tower_text_at(s, pos, k),
        d.array + k > lim.array,
        d.array <= lim.array,
        lim.array - d.array < lim.container - d.container,
        d.container <= lim.container,
    ensures
        sp_parse_one(s, pos, d, lim) == Err::<(SpecSignature, int), _>(
            SpecError::SignatureParse(
                SignatureError {
                    pos: (pos + (lim.array - d.array)) as usize,
                    kind: SignatureErrorKind::DepthExceeded(MaxDepthExceeded::Array),
                },
            ),
        ),
    decreases k,
{
    assert(s[pos] == 97);
    assert(crate::signature::spec_basic_code(97) is None);
    if d.array >= lim.array {
        assert(sp_parse_one(s, pos, d, lim) == Err::<(SpecSignature, int), _>(
            SpecError::SignatureParse(
                SignatureError {
                    pos: pos as usize,
                    kind: SignatureErrorKind::DepthExceeded(MaxDepthExceeded::Array),
                },
            ),
        ));
    } else {
        let d1 = Depths {
            array: (d.array + 1) as u32,
            container: (d.container + 1) as u32,
            ..d
        };
        assert(k >= 2) by {
            assert(d.array + k > lim.array && d.array < lim.array);
        }
        assert(tower_text_at(s, pos + 1, (k - 1) as nat));
        assert(s[pos + 1] == 97);
        lemma_array_depth_parse(s, pos + 1, (k - 1) as nat, d1, lim);
    }
}

/// The text at `pos` is `k` array codes followed by the byte code.
pub open spec fn tower_text_at(s: Seq<u8>, pos: int, k: nat) -> bool
    decreases k,
{
    0 <= pos < s.len() && if k == 0 {
        s[pos] == 121
    } else {
        s[pos] == 97 && tower_text_at(s, pos + 1, (k - 1) as nat)
    }
}

/// Signature round trip, one complete type: a successful parse consumes
/// exactly the text of the type it returns, so `to_text` inverts `parse`.
#[verifier::rlimit(100)]
#[verifier::spinoff_prover]
pub proof fn lemma_parse_one_text(s: Seq<u8>, pos: int, d: Depths, lim: Limits)
    requires
        sp_parse_one(s, pos, d, lim) is Ok,
    ensures
        ({
            let (t, p) = sp_parse_one(s, pos, d, lim)->Ok_0;
            pos < p <= s.len() && crate::signature::spec_to_text(t) == s.subrange(pos, p)
        }),
    decreases s.len() - pos, 0int,
{
    let (t, p) = sp_parse_one(s, pos, d, lim)->Ok_0;
    let c = s[pos];
    if crate::signature::spec_basic_code(c) is Some {
        assert(s.subrange(pos, pos + 1) =~= seq![c]);
        assert(crate::signature::spec_to_text(t) =~= seq![c]);
    } else if c == 118 {
        assert(s.subrange(pos, pos + 1) =~= seq![c]);
    } else if c == 97 {
        if pos + 1 < s.len() && s[pos + 1] == 123 {
            let k = crate::signature::spec_basic_code(s[pos + 2])->Some_0;
            let d1 = Depths {
                array: (d.array + 1) as u32,
                container: (d.container + 1) as u32,
                ..d
            };
            let d2 = Depths {
                structure: (d1.structure + 1) as u32,
                container: (d1.container + 1) as u32,
                ..d1
            };
            lemma_parse_one_text(s, pos + 3, d2, lim);
            let (v, p2) = crate::signature::sp_parse_one(s, pos + 3, d2, lim)->Ok_0;
            assert(crate::signature::spec_to_text(k) =~= seq![s[pos + 2]]);
            assert(crate::signature::spec_to_text(t) =~= s.subrange(pos, p2 + 1));
        } else {
            let d1 = Depths {
                array: (d.array + 1) as u32,
                container: (d.container + 1) as u32,
                ..d
            };
            lemma_parse_one_text(s, pos + 1, d1, lim);
            assert(crate::signature::spec_to_text(t) =~= s.subrange(pos, p));
        }
    } else if c == 40 {
        let d1 = Depths {
            structure: (d.structure + 1) as u32,
            container: (d.container + 1) as u32,
            ..d
        };
        lemma_parse_fields_text(s, pos + 1, d1, lim);
        assert(crate::signature::spec_to_text(t) =~= s.subrange(pos, p));
    } else if c == 109 {
        let d1 = Depths { container: (d.container + 1) as u32, ..d };
        lemma_parse_one_text(s, pos + 1, d1, lim);
        assert(crate::signature::spec_to_text(t) =~= s.subrange(pos, p));
    }
}

/// Structure fields consume their texts and the closing parenthesis.
#[verifier::rlimit(100)]
#[verifier::spinoff_prover]
pub proof fn lemma_parse_fields_text(s: Seq<u8>, pos: int, d: Depths, lim: Limits)
    requires
        crate::signature::sp_parse_fields(s, pos, d, lim) is Ok,
    ensures
        ({
            let (fs, p) = crate::signature::sp_parse_fields(s, pos, d, lim)->Ok_0;
            pos < p <= s.len() && s[p - 1] == 41 && crate::signature::spec_to_text_fields(fs)
                == s.subrange(pos, p - 1)
        }),
    decreases s.len() - pos, 1int,
{
    let (fs, p) = crate::signature::sp_parse_fields(s, pos, d, lim)->Ok_0;
    if s[pos] == 41 {
        assert(s.subrange(pos, pos) =~= Seq::<u8>::empty());
        assert(crate::signature::spec_to_text_fields(fs) =~= Seq::<u8>::empty());
    } else {
        lemma_parse_one_text(s, pos, d, lim);
        let (t, p2) = sp_parse_one(s, pos, d, lim)->Ok_0;
        lemma_parse_fields_text(s, p2, d, lim);
        let (rest, p3) = crate::signature::sp_parse_fields(s, p2, d, lim)->Ok_0;
        assert(fs == seq![t] + rest);
        assert(fs.len() >= 1);
        assert(fs[0] == t);
        assert(fs.drop_first() =~= rest);
        assert(crate::signature::spec_to_text_fields(fs) == crate::signature::spec_to_text(t)
            + crate::signature::spec_to_text_fields(rest));
        assert(crate::signature::spec_to_text_fields(fs) =~= s.subrange(pos, p3 - 1));
    }
}

/// Signature round trip: for every syntactically valid signature text,
/// printing the parsed type gives back exactly the text, and reparsing
/// that text gives back exactly the type.
pub proof fn lemma_signature_round_trip(s: Seq<u8>, lim: Limits)
    requires
        sp_parse(s, lim) is Ok,
    ensures
        crate::signature::spec_to_text(sp_parse(s, lim)->Ok_0) == s,
        sp_parse(crate::signature::spec_to_text(sp_parse(s, lim)->Ok_0), lim) == sp_parse(s, lim),
{
    lemma_parse_one_text(s, 0, Depths::zero_spec(), lim);
    assert(s.subrange(0, s.len() as int) =~= s);
}

/// Round trip, one scalar: decoding what the encoder produced for a
/// 32-bit unsigned value gives back exactly that value, in either format,
/// for every value, every starting descriptor table and every limit.
#[verifier::rlimit(100)]
#[verifier::spinoff_prover]
pub proof fn lemma_round_trip_u32(x: u32, f: Format, fds0: Seq<i32>, lim: Limits)
    ensures
        ({
            let r = crate::encode::sp_encode(
                crate::value::SpecValue::U32(x),
                SpecSignature::U32,
                f,
                fds0,
                lim,
            );
            r is Ok && crate::decode::sp_decode(
                r->Ok_0.buf,
                SpecSignature::U32,
                f,
                r->Ok_0.fds,
                lim,
            ) == Ok::<_, SpecError>(crate::value::SpecValue::U32(x))
        }),
{
    reveal(crate::encode::sp_enc_value);
    reveal(sp_dec_value);
    let st0 = crate::encode::SpecEnc { buf: Seq::empty(), fds: fds0 };
    assert(crate::encode::sp_pad_len(0, 4) == 0);
    assert(crate::encode::sp_zeros(0) =~= Seq::<u8>::empty());
    assert(Seq::<u8>::empty() + crate::encode::sp_zeros(0) =~= Seq::<u8>::empty());
    let bytes = crate::encode::sp_le4(x);
    assert(bytes.len() == 4);
    assert(Seq::<u8>::empty() + bytes =~= bytes);
    let r = crate::encode::sp_encode(
        crate::value::SpecValue::U32(x),
        SpecSignature::U32,
        f,
        fds0,
        lim,
    );
    assert(r is Ok && r->Ok_0.buf == bytes && r->Ok_0.fds == fds0);
    reveal_with_fuel(crate::decode::sp_check_zeros, 2);
    assert(crate::decode::sp_rd_pad(bytes, 0, 4, 4) == Ok::<int, SpecError>(0));
    assert(crate::decode::sp_rd32(bytes, 0) == x) by {
        assert(bytes[0] == (x % 256) as u8);
        assert(bytes[1] == ((x / 256) % 256) as u8);
        assert(bytes[2] == ((x / 65536) % 256) as u8);
        assert(bytes[3] == (x / 16777216) as u8);
        assert((x % 256) + 256 * ((x / 256) % 256) + 65536 * ((x / 65536) % 256) + 16777216 * (x
            / 16777216) == x) by (bit_vector);
    }
    assert((crate::decode::sp_rd32(bytes, 0) as u32) == x);
}

} // verus!
