use fresh_stark::{from_data, parse_felt, to_data, to_decimal, CodecError, Data, PublicInputs, MODULUS};

fn record(start: &str, result: &str, proof: &str) -> Data {
    Data { start: start.to_string(), result: result.to_string(), proof: proof.to_string() }
}

#[test]
fn encodes_numbers_and_proof() {
    let d = to_data(vec![1, 2, 3], PublicInputs { start: 3, result: 69 });
    assert_eq!(d.start, "3");
    assert_eq!(d.result, "69");
    assert_eq!(d.proof, "AQID");
}

#[test]
fn decodes_record() {
    let (p, b) = from_data(record("3", "69", "AQID")).unwrap();
    assert_eq!(p, PublicInputs { start: 3, result: 69 });
    assert_eq!(b, vec![1, 2, 3]);
}

#[test]
fn round_trip_keeps_values() {
    let cases = [
        (vec![], 0u128, 0u128),
        (vec![0u8, 255, 7, 9, 11], 1234567890123456789, MODULUS - 1),
        ((0..=255u8).collect::<Vec<u8>>(), 42, 10),
    ];
    for (bytes, s, r) in cases {
        let p = PublicInputs { start: s, result: r };
        let (q, back) = from_data(to_data(bytes.clone(), p)).unwrap();
        assert_eq!(q, p);
        assert_eq!(back, bytes);
    }
}

#[test]
fn default_record() {
    let d = Data::default();
    assert_eq!((d.start.as_str(), d.result.as_str(), d.proof.as_str()), ("0", "0", ""));
    let (p, b) = from_data(d).unwrap();
    assert_eq!(p, PublicInputs { start: 0, result: 0 });
    assert!(b.is_empty());
}

#[test]
fn rejects_non_numbers() {
    assert_eq!(from_data(record("abc", "1", "")).unwrap_err(), CodecError::InvalidNumber);
    assert_eq!(from_data(record("1", "", "")).unwrap_err(), CodecError::InvalidNumber);
    assert_eq!(from_data(record("-1", "1", "")).unwrap_err(), CodecError::InvalidNumber);
    assert_eq!(from_data(record("1", "1 ", "")).unwrap_err(), CodecError::InvalidNumber);
}

#[test]
fn rejects_numbers_outside_field() {
    let m = MODULUS.to_string();
    assert_eq!(from_data(record(&m, "1", "")).unwrap_err(), CodecError::OutOfField);
    assert_eq!(
        from_data(record("1", "99999999999999999999999999999999999999999999", "")).unwrap_err(),
        CodecError::OutOfField
    );
    assert_eq!(parse_felt(&(MODULUS - 1).to_string()), Ok(MODULUS - 1));
    assert_eq!(parse_felt(&"007".to_string()), Ok(7));
}

#[test]
fn rejects_bad_base64() {
    assert_eq!(from_data(record("1", "2", "A*ID")).unwrap_err(), CodecError::InvalidBase64);
    assert_eq!(from_data(record("1", "2", "A")).unwrap_err(), CodecError::InvalidBase64);
}

#[test]
fn decimal_writing() {
    assert_eq!(to_decimal(0), "0");
    assert_eq!(to_decimal(907), "907");
    assert_eq!(to_decimal(u128::MAX), u128::MAX.to_string());
}
