use zvariant::decode::decode;
use zvariant::encode::encode;
use zvariant::error::{Error, MaxDepthExceeded};
use zvariant::serialized::{Format, Limits};
use zvariant::signature::{parse, sig_eq, to_text, Signature, SignatureErrorKind};
use zvariant::value::Value;

fn lim() -> Limits {
    Limits::default()
}

fn roundtrip(v: &Value, sig: &[u8], f: Format) -> Vec<u8> {
    let t = parse(sig, &lim()).unwrap();
    let mut fds: Vec<i32> = Vec::new();
    let bytes = encode(v, &t, f, &mut fds, &lim()).unwrap();
    let back = decode(&bytes, &t, f, &fds, &lim()).unwrap();
    assert_eq!(&back, v);
    bytes
}

#[test]
fn parse_empty_structure_rejected() {
    assert_eq!(parse(b"()", &lim()).unwrap_err(), Error::EmptyStructure);
    let t = parse(b"(i)", &lim()).unwrap();
    match t {
        Signature::Structure(fields) => assert_eq!(fields.len(), 1),
        _ => panic!("expected a structure type"),
    }
}

#[test]
fn parse_rejects_bad_signatures() {
    let e = parse(b"z", &lim()).unwrap_err();
    match e {
        Error::SignatureParse(se) => {
            assert_eq!(se.kind, SignatureErrorKind::UnknownTypeCode(b'z'));
            assert_eq!(se.pos, 0);
        },
        _ => panic!("expected a signature parse error"),
    }
    let e = parse(b"a", &lim()).unwrap_err();
    assert!(matches!(
        e,
        Error::SignatureParse(se) if se.kind == SignatureErrorKind::UnexpectedEnd
    ));
    let e = parse(b"ii", &lim()).unwrap_err();
    assert!(matches!(
        e,
        Error::SignatureParse(se) if se.kind == SignatureErrorKind::Trailing && se.pos == 1
    ));
    let e = parse(b"a{vu}", &lim()).unwrap_err();
    assert!(matches!(
        e,
        Error::SignatureParse(se) if se.kind == SignatureErrorKind::DictKeyNotBasic
    ));
    let e = parse(b"a{sui}", &lim()).unwrap_err();
    assert!(matches!(
        e,
        Error::SignatureParse(se) if se.kind == SignatureErrorKind::MissingDictClose
    ));
}

#[test]
fn parse_deep_signature_rejected() {
    let mut text = vec![b'a'; 40];
    text.push(b'y');
    let e = parse(&text, &lim()).unwrap_err();
    assert!(matches!(
        e,
        Error::SignatureParse(se)
            if se.kind == SignatureErrorKind::DepthExceeded(MaxDepthExceeded::Array)
    ));
}

#[test]
fn signature_text_round_trip() {
    for sig in [
        &b"i"[..],
        b"ybnqiuxtd",
        b"a{s(iv)}",
        b"aai",
        b"(yua{sv})",
        b"mi",
        b"h",
        b"og",
    ] {
        if let Ok(t) = parse(sig, &lim()) {
            assert_eq!(to_text(&t), sig.to_vec());
            let t2 = parse(&to_text(&t), &lim()).unwrap();
            assert!(sig_eq(&t, &t2));
        } else {
            // multi-type texts are not a single complete type
            let t1 = parse(b"y", &lim()).unwrap();
            assert_eq!(to_text(&t1), b"y".to_vec());
        }
    }
}

#[test]
fn scalar_round_trips_both_formats() {
    for f in [Format::Bus, Format::Compact] {
        roundtrip(&Value::U8(0xab), b"y", f);
        roundtrip(&Value::Bool(true), b"b", f);
        roundtrip(&Value::I16(-2), b"n", f);
        roundtrip(&Value::U16(0xbeef), b"q", f);
        roundtrip(&Value::I32(-40_000), b"i", f);
        roundtrip(&Value::U32(0xdead_beef), b"u", f);
        roundtrip(&Value::I64(-5_000_000_000), b"x", f);
        roundtrip(&Value::U64(0xfeed_face_cafe_f00d), b"t", f);
        roundtrip(&Value::Double(2.5f64.to_bits()), b"d", f);
        roundtrip(&Value::Str(b"hello world".to_vec()), b"s", f);
        roundtrip(&Value::ObjectPath(b"/org/example/path_0".to_vec()), b"o", f);
        roundtrip(&Value::Signature(b"a{sv}ii".to_vec()), b"g", f);
    }
}

#[test]
fn container_round_trips_both_formats() {
    for f in [Format::Bus, Format::Compact] {
        roundtrip(
            &Value::Array(vec![Value::U32(1), Value::U32(2), Value::U32(3)]),
            b"au",
            f,
        );
        roundtrip(&Value::Array(vec![]), b"as", f);
        roundtrip(
            &Value::Array(vec![
                Value::Array(vec![Value::U8(1)]),
                Value::Array(vec![]),
            ]),
            b"aay",
            f,
        );
        roundtrip(
            &Value::Structure(vec![
                Value::U8(9),
                Value::Str(b"mixed".to_vec()),
                Value::U64(7),
            ]),
            b"(yst)",
            f,
        );
        roundtrip(
            &Value::Variant(
                Box::new(parse(b"u", &lim()).unwrap()),
                Box::new(Value::U32(17)),
            ),
            b"v",
            f,
        );
    }
}

#[test]
fn maybe_round_trips_compact_only() {
    roundtrip(&Value::Maybe(None), b"mi", Format::Compact);
    roundtrip(
        &Value::Maybe(Some(Box::new(Value::I32(-1)))),
        b"mi",
        Format::Compact,
    );
    roundtrip(
        &Value::Maybe(Some(Box::new(Value::Str(b"x".to_vec())))),
        b"ms",
        Format::Compact,
    );
    let t = parse(b"mi", &lim()).unwrap();
    let mut fds: Vec<i32> = Vec::new();
    let e = encode(&Value::Maybe(None), &t, Format::Bus, &mut fds, &lim()).unwrap_err();
    assert!(matches!(e, Error::IncompatibleFormat(_, Format::Bus)));
}

#[test]
fn dictionary_round_trip_both_formats() {
    let v = Value::Dict(vec![
        (Value::Str(b"a".to_vec()), Value::U32(1)),
        (Value::Str(b"b".to_vec()), Value::U32(2)),
    ]);
    for f in [Format::Bus, Format::Compact] {
        let t = parse(b"a{su}", &lim()).unwrap();
        let mut fds: Vec<i32> = Vec::new();
        let bytes = encode(&v, &t, f, &mut fds, &lim()).unwrap();
        let back = decode(&bytes, &t, f, &fds, &lim()).unwrap();
        match back {
            Value::Dict(entries) => {
                assert_eq!(entries.len(), 2);
                assert!(entries.iter().any(|(k, v)| k
                    == &Value::Str(b"a".to_vec())
                    && v == &Value::U32(1)));
                assert!(entries.iter().any(|(k, v)| k
                    == &Value::Str(b"b".to_vec())
                    && v == &Value::U32(2)));
            },
            _ => panic!("expected a dictionary value"),
        }
    }
}

#[test]
fn file_descriptor_indirection() {
    let v = Value::Structure(vec![Value::Fd(7), Value::Fd(9)]);
    let t = parse(b"(hh)", &lim()).unwrap();
    let mut fds: Vec<i32> = Vec::new();
    let bytes = encode(&v, &t, Format::Bus, &mut fds, &lim()).unwrap();
    assert_eq!(fds, vec![7, 9]);
    // the body holds the indices 0 and 1, not the descriptors
    assert_eq!(bytes, vec![0, 0, 0, 0, 1, 0, 0, 0]);
    let back = decode(&bytes, &t, Format::Bus, &fds, &lim()).unwrap();
    assert_eq!(back, v);
}

#[test]
fn unknown_fd_index_rejected() {
    let t = parse(b"h", &lim()).unwrap();
    let fds: Vec<i32> = Vec::new();
    let e = decode(&[0, 0, 0, 0], &t, Format::Bus, &fds, &lim()).unwrap_err();
    assert_eq!(e, Error::UnknownFd);
}

#[test]
fn variant_self_description() {
    let inner = parse(b"(is)", &lim()).unwrap();
    let v = Value::Variant(
        Box::new(inner),
        Box::new(Value::Structure(vec![
            Value::I32(42),
            Value::Str(b"x".to_vec()),
        ])),
    );
    for f in [Format::Bus, Format::Compact] {
        let t = Signature::Variant;
        let mut fds: Vec<i32> = Vec::new();
        let bytes = encode(&v, &t, f, &mut fds, &lim()).unwrap();
        // the signature text "(is)" is embedded before the struct bytes
        assert_eq!(bytes[0], 4);
        assert_eq!(&bytes[1..5], b"(is)");
        assert_eq!(bytes[5], 0);
        // decoding needs no prior knowledge of the inner type
        let back = decode(&bytes, &t, f, &fds, &lim()).unwrap();
        assert_eq!(back, v);
    }
}

#[test]
fn compact_format_offsets() {
    let v = Value::Array(vec![
        Value::Str(b"a".to_vec()),
        Value::Str(b"bc".to_vec()),
        Value::Str(b"def".to_vec()),
    ]);
    let t = parse(b"as", &lim()).unwrap();
    let mut fds: Vec<i32> = Vec::new();
    let bytes = encode(&v, &t, Format::Compact, &mut fds, &lim()).unwrap();
    // strings with their NUL terminators and alignment padding, then
    // exactly three one-byte trailing offsets marking each string's end
    assert_eq!(
        bytes,
        vec![b'a', 0, 0, 0, b'b', b'c', 0, 0, b'd', b'e', b'f', 0, 2, 7, 12]
    );
    let back = decode(&bytes, &t, Format::Compact, &fds, &lim()).unwrap();
    assert_eq!(back, v);
}

#[test]
fn depth_limits_enforced_on_encode_and_decode() {
    let strict = Limits { structure: 32, array: 4, container: 64 };
    // five nested arrays around a byte, one element per level
    let v = Value::Array(vec![Value::Array(vec![Value::Array(vec![Value::Array(
        vec![Value::Array(vec![Value::U8(0)])],
    )])])]);
    let t = parse(b"aaaaay", &lim()).unwrap();
    let mut fds: Vec<i32> = Vec::new();
    let e = encode(&v, &t, Format::Bus, &mut fds, &strict).unwrap_err();
    assert_eq!(e, Error::MaxDepthExceeded(MaxDepthExceeded::Array));
    // decode a buffer produced under permissive limits with strict ones
    let mut fds2: Vec<i32> = Vec::new();
    let bytes = encode(&v, &t, Format::Bus, &mut fds2, &lim()).unwrap();
    let e = decode(&bytes, &t, Format::Bus, &fds2, &strict).unwrap_err();
    assert_eq!(e, Error::MaxDepthExceeded(MaxDepthExceeded::Array));
}

#[test]
fn padding_strictness() {
    // (yu) in the bus format: one byte, three padding bytes, four bytes
    let v = Value::Structure(vec![Value::U8(1), Value::U32(7)]);
    let t = parse(b"(yu)", &lim()).unwrap();
    let mut fds: Vec<i32> = Vec::new();
    let bytes = encode(&v, &t, Format::Bus, &mut fds, &lim()).unwrap();
    assert_eq!(bytes, vec![1, 0, 0, 0, 7, 0, 0, 0]);
    for flip in 1..4usize {
        let mut bad = bytes.clone();
        bad[flip] = 0x5a;
        let e = decode(&bad, &t, Format::Bus, &fds, &lim()).unwrap_err();
        assert_eq!(e, Error::PaddingNot0(0x5a));
    }
}

#[test]
fn decode_validates_strings_and_paths() {
    let t = parse(b"s", &lim()).unwrap();
    let fds: Vec<i32> = Vec::new();
    // bus string: len 2, invalid UTF-8 payload, NUL
    let bad = vec![2, 0, 0, 0, 0xff, 0xfe, 0];
    assert_eq!(decode(&bad, &t, Format::Bus, &fds, &lim()).unwrap_err(), Error::Utf8);
    let to = parse(b"o", &lim()).unwrap();
    let mut fds2: Vec<i32> = Vec::new();
    let e = encode(
        &Value::ObjectPath(b"//double".to_vec()),
        &to,
        Format::Bus,
        &mut fds2,
        &lim(),
    )
    .unwrap_err();
    assert_eq!(e, Error::InvalidObjectPath);
    let e = encode(
        &Value::ObjectPath(b"/ok/path".to_vec()),
        &to,
        Format::Bus,
        &mut fds2,
        &lim(),
    );
    assert!(e.is_ok());
}

#[test]
fn type_mismatch_and_truncation_rejected() {
    let t = parse(b"u", &lim()).unwrap();
    let mut fds: Vec<i32> = Vec::new();
    assert_eq!(
        encode(&Value::U8(1), &t, Format::Bus, &mut fds, &lim()).unwrap_err(),
        Error::IncorrectType
    );
    let bytes = encode(&Value::U32(5), &t, Format::Bus, &mut fds, &lim()).unwrap();
    let e = decode(&bytes[..3], &t, Format::Bus, &fds, &lim()).unwrap_err();
    assert_eq!(e, Error::OutOfBounds);
    // a compact array of strings whose offset table is senseless
    let ta = parse(b"as", &lim()).unwrap();
    let e = decode(&[9], &ta, Format::Compact, &fds, &lim()).unwrap_err();
    assert_eq!(e, Error::MissingFramingOffset);
}

#[test]
fn error_equality_and_descriptions() {
    assert_eq!(Error::UnknownFd, Error::UnknownFd);
    assert_ne!(Error::UnknownFd, Error::OutOfBounds);
    // input/output errors never compare equal, even to themselves
    let io1 = Error::InputOutput("a".to_string());
    let io2 = Error::InputOutput("a".to_string());
    assert_ne!(io1, io2);
    assert_eq!(
        MaxDepthExceeded::Array.description(),
        "Maximum allowed depth for arrays in encoding was exceeded"
    );
    assert_eq!(Error::IncorrectType.description(), "incorrect type");
    assert_eq!(Format::Bus.description(), "bus");
    assert_eq!(Format::Compact.description(), "compact");
}

#[test]
fn defaults_and_signature_values() {
    let d = Limits::default();
    assert_eq!(d.structure, 32);
    assert_eq!(d.array, 32);
    assert_eq!(d.container, 64);
    // a signature value must itself parse as a signature text
    let t = parse(b"g", &lim()).unwrap();
    let mut fds: Vec<i32> = Vec::new();
    let e = encode(
        &Value::Signature(b"((".to_vec()),
        &t,
        Format::Bus,
        &mut fds,
        &lim(),
    )
    .unwrap_err();
    assert!(matches!(e, Error::SignatureParse(_)));
}

#[test]
fn nested_composite_round_trip() {
    let v = Value::Structure(vec![
        Value::U8(3),
        Value::Array(vec![
            Value::Structure(vec![Value::I16(-1), Value::Str(b"k".to_vec())]),
            Value::Structure(vec![Value::I16(2), Value::Str(b"long value".to_vec())]),
        ]),
        Value::Dict(vec![(
            Value::U32(1),
            Value::Variant(Box::new(Signature::U8), Box::new(Value::U8(255))),
        )]),
    ]);
    for f in [Format::Bus, Format::Compact] {
        roundtrip(&v, b"(ya(ns)a{uv})", f);
    }
}
