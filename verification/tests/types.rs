use diesel_dualdb::types::{jsonb_frame, jsonb_unframe, Array, Bytes, Decimal, Json, Uuid};

#[test]
fn uuid_blob_is_the_sixteen_bytes() {
    let bytes: [u8; 16] = [
        0xa1, 0xa2, 0xa3, 0xa4, 0xb1, 0xb2, 0xc1, 0xc2, 0xd1, 0xd2, 0xd3, 0xd4, 0xd5, 0xd6, 0xd7,
        0xd8,
    ];
    let u = Uuid(bytes);
    assert_eq!(u.to_blob(), bytes.to_vec());
    assert_eq!(Uuid::from_blob(&u.to_blob()), Ok(u));
}

#[test]
fn uuid_blob_of_wrong_length_is_an_error() {
    let err = Uuid::from_blob(&[1, 2, 3]).unwrap_err();
    assert_eq!(err, "invalid UUID bytes: invalid length: expected 16 bytes, found 3");
    assert!(Uuid::from_blob(&[0; 17]).is_err());
    assert!(Uuid::from_blob(&[]).is_err());
}

#[test]
fn jsonb_framing_round_trips() {
    let json = br#"{"a":1}"#;
    let framed = jsonb_frame(json);
    assert_eq!(framed[0], 1);
    assert_eq!(&framed[1..], json);
    assert_eq!(jsonb_unframe(&framed), Ok(json.to_vec()));
    assert_eq!(jsonb_unframe(&[1]), Ok(vec![]));
}

#[test]
fn jsonb_other_versions_are_refused() {
    let msg = "unsupported jsonb encoding (expected version 1)".to_string();
    assert_eq!(jsonb_unframe(&[2, b'1']), Err(msg.clone()));
    assert_eq!(jsonb_unframe(&[]), Err(msg));
}

#[test]
fn newtypes_convert_both_ways() {
    let b: Bytes = vec![0u8, 255].into();
    assert_eq!(b, Bytes(vec![0, 255]));
    let v: Vec<u8> = b.into();
    assert_eq!(v, vec![0, 255]);
    let a: Array<i32> = vec![3, 1, 2].into();
    let back: Vec<i32> = a.clone().into();
    assert_eq!(back, vec![3, 1, 2]);
    assert_eq!(a, Array(vec![3, 1, 2]));
    let j: Json<i32> = 7.into();
    assert_eq!(j, Json(7));
    assert_eq!(Bytes::default(), Bytes(vec![]));
}

#[test]
fn decimal_text_round_trips() {
    for s in ["12345.6789", "-0.000000000001", "0", "1e3", "  7"] {
        match Decimal::from_sqlite_text(s) {
            Ok(d) => {
                let text = d.to_sqlite_text();
                let back = Decimal::from_sqlite_text(&text).expect("canonical text parses");
                assert_eq!(back.value(), d.value(), "{s}");
                assert_eq!(back.to_sqlite_text(), text, "{s}");
            }
            Err(e) => assert!(e.starts_with("invalid decimal "), "{e}"),
        }
    }
    let d = Decimal::from_sqlite_text("12345.6789").expect("decimal");
    assert_eq!(d.to_sqlite_text(), "12345.6789");
}

#[test]
fn decimal_errors_name_the_text() {
    let err = Decimal::from_sqlite_text("abc").unwrap_err();
    assert!(err.starts_with("invalid decimal \"abc\": "), "{err}");
}

#[test]
fn uuid_length_error_names_the_length() {
    assert_eq!(
        Uuid::from_blob(&[0; 17]).unwrap_err(),
        "invalid UUID bytes: invalid length: expected 16 bytes, found 17"
    );
}
