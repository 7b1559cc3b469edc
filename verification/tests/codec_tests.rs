use concordium_std_derive::bytes::Width;
use concordium_std_derive::codec::{decode_ty, encode_ty, Ty, Val};

fn round_trip(t: &Ty, v: Val) -> Val {
    let bytes = encode_ty(t, &v).expect("value should encode");
    let (back, used) = decode_ty(t, &bytes, 0).expect("encoding should decode");
    assert_eq!(used, bytes.len());
    assert_eq!(back, v);
    back
}

#[test]
fn scalar_round_trip_all_widths() {
    round_trip(&Ty::Scalar(Width::W1), Val::Num(0xab));
    round_trip(&Ty::Scalar(Width::W2), Val::Num(0x1234));
    round_trip(&Ty::Scalar(Width::W4), Val::Num(0xdead_beef));
    round_trip(&Ty::Scalar(Width::W8), Val::Num(0x0102_0304_0506_0708));
}

#[test]
fn scalar_bytes_are_little_endian() {
    let bytes = encode_ty(&Ty::Scalar(Width::W2), &Val::Num(0x1234)).unwrap();
    assert_eq!(bytes, vec![0x34, 0x12]);
    let bytes = encode_ty(&Ty::Scalar(Width::W4), &Val::Num(0x01020304)).unwrap();
    assert_eq!(bytes, vec![0x04, 0x03, 0x02, 0x01]);
}

#[test]
fn scalar_too_wide_is_refused() {
    assert!(encode_ty(&Ty::Scalar(Width::W1), &Val::Num(256)).is_err());
    assert!(encode_ty(&Ty::Scalar(Width::W2), &Val::Num(0x10000)).is_err());
}

#[test]
fn list_round_trip_with_one_byte_count() {
    let t = Ty::ListOf(Width::W1, Box::new(Ty::Scalar(Width::W2)));
    let v = Val::Items(vec![Val::Num(1), Val::Num(0x0203), Val::Num(65535)]);
    let bytes = encode_ty(&t, &v).unwrap();
    assert_eq!(bytes, vec![3, 1, 0, 3, 2, 0xff, 0xff]);
    round_trip(&t, v);
}

#[test]
fn empty_containers_round_trip() {
    round_trip(&Ty::ListOf(Width::W4, Box::new(Ty::Scalar(Width::W1))), Val::Items(vec![]));
    round_trip(
        &Ty::MapOf {
            count: Width::W1,
            ensure_ordered: false,
            key: Width::W1,
            value: Box::new(Ty::Scalar(Width::W1)),
        },
        Val::Entries(vec![]),
    );
    round_trip(
        &Ty::SetOf { count: Width::W2, ensure_ordered: true, elem: Width::W4 },
        Val::Keys(vec![]),
    );
    round_trip(&Ty::Utf8(Width::W1), Val::Text(vec![]));
}

#[test]
fn nested_list_round_trip() {
    let t = Ty::ListOf(Width::W1, Box::new(Ty::ListOf(Width::W1, Box::new(Ty::Scalar(Width::W1)))));
    let v = Val::Items(vec![
        Val::Items(vec![Val::Num(1), Val::Num(2)]),
        Val::Items(vec![]),
        Val::Items(vec![Val::Num(9)]),
    ]);
    round_trip(&t, v);
}

#[test]
fn count_width_one_limits_to_255_elements() {
    let t = Ty::ListOf(Width::W1, Box::new(Ty::Scalar(Width::W1)));
    let ok: Vec<Val> = (0..255).map(|i| Val::Num(i as u64 % 250)).collect();
    let bytes = encode_ty(&t, &Val::Items(ok)).unwrap();
    assert_eq!(bytes[0], 255);
    assert_eq!(bytes.len(), 256);
    let too_many: Vec<Val> = (0..256).map(|_| Val::Num(0)).collect();
    assert!(encode_ty(&t, &Val::Items(too_many)).is_err());
}

#[test]
fn wider_counts_carry_256_elements() {
    for (w, count_bytes) in [(Width::W2, 2), (Width::W4, 4), (Width::W8, 8)] {
        let t = Ty::ListOf(w, Box::new(Ty::Scalar(Width::W1)));
        let v = Val::Items((0..256).map(|i| Val::Num(i as u64 % 256)).collect());
        let bytes = encode_ty(&t, &v).unwrap();
        assert_eq!(bytes[0], 0);
        assert_eq!(bytes[1], 1);
        assert_eq!(bytes.len(), count_bytes + 256);
        let (back, used) = decode_ty(&t, &bytes, 0).unwrap();
        assert_eq!(used, bytes.len());
        assert_eq!(back, v);
    }
}

#[test]
fn string_round_trip_and_layout() {
    let t = Ty::Utf8(Width::W2);
    let v = Val::Text(b"hej".to_vec());
    let bytes = encode_ty(&t, &v).unwrap();
    assert_eq!(bytes, vec![3, 0, b'h', b'e', b'j']);
    round_trip(&t, v);
}

#[test]
fn map_round_trip_keeps_ascending_entries() {
    let t = Ty::MapOf {
        count: Width::W1,
        ensure_ordered: false,
        key: Width::W1,
        value: Box::new(Ty::Scalar(Width::W2)),
    };
    let v = Val::Entries(vec![(1, Val::Num(10)), (5, Val::Num(20)), (9, Val::Num(30))]);
    round_trip(&t, v);
}

#[test]
fn map_with_unsorted_entries_is_not_encodable() {
    let t = Ty::MapOf {
        count: Width::W1,
        ensure_ordered: false,
        key: Width::W1,
        value: Box::new(Ty::Scalar(Width::W1)),
    };
    let v = Val::Entries(vec![(5, Val::Num(1)), (1, Val::Num(2))]);
    assert!(encode_ty(&t, &v).is_err());
    let dup = Val::Entries(vec![(5, Val::Num(1)), (5, Val::Num(2))]);
    assert!(encode_ty(&t, &dup).is_err());
}

#[test]
fn ordered_map_rejects_keys_out_of_order() {
    let t = Ty::MapOf {
        count: Width::W1,
        ensure_ordered: true,
        key: Width::W1,
        value: Box::new(Ty::Scalar(Width::W1)),
    };
    // two entries, keys 2 then 1
    let bytes = vec![2, 2, 10, 1, 20];
    assert!(decode_ty(&t, &bytes, 0).is_err());
    // equal keys violate strict order too
    let bytes = vec![2, 3, 10, 3, 20];
    assert!(decode_ty(&t, &bytes, 0).is_err());
}

#[test]
fn unordered_map_accepts_any_order_and_last_write_wins() {
    let t = Ty::MapOf {
        count: Width::W1,
        ensure_ordered: false,
        key: Width::W1,
        value: Box::new(Ty::Scalar(Width::W1)),
    };
    // keys 2, 1 out of order: decodes, sorted container
    let bytes = vec![2, 2, 10, 1, 20];
    let (v, used) = decode_ty(&t, &bytes, 0).unwrap();
    assert_eq!(used, 5);
    assert_eq!(v, Val::Entries(vec![(1, Val::Num(20)), (2, Val::Num(10))]));
    // duplicate key: the later read wins
    let bytes = vec![3, 1, 5, 2, 6, 1, 7];
    let (v, _) = decode_ty(&t, &bytes, 0).unwrap();
    assert_eq!(v, Val::Entries(vec![(1, Val::Num(7)), (2, Val::Num(6))]));
}

#[test]
fn ordered_set_rejects_elements_out_of_order() {
    let t = Ty::SetOf { count: Width::W1, ensure_ordered: true, elem: Width::W1 };
    let bytes = vec![2, 9, 3];
    assert!(decode_ty(&t, &bytes, 0).is_err());
}

#[test]
fn unordered_set_deduplicates() {
    let t = Ty::SetOf { count: Width::W1, ensure_ordered: false, elem: Width::W1 };
    let bytes = vec![3, 9, 3, 9];
    let (v, _) = decode_ty(&t, &bytes, 0).unwrap();
    assert_eq!(v, Val::Keys(vec![3, 9]));
}

#[test]
fn set_round_trip() {
    let t = Ty::SetOf { count: Width::W2, ensure_ordered: true, elem: Width::W4 };
    round_trip(&t, Val::Keys(vec![3, 70000, 80000]));
}

#[test]
fn truncated_input_fails_to_decode() {
    let t = Ty::Scalar(Width::W4);
    assert!(decode_ty(&t, &vec![1, 2, 3], 0).is_err());
    let t = Ty::ListOf(Width::W1, Box::new(Ty::Scalar(Width::W1)));
    // count says three elements, only two present
    assert!(decode_ty(&t, &vec![3, 7, 8], 0).is_err());
    let t = Ty::Utf8(Width::W1);
    assert!(decode_ty(&t, &vec![5, b'a'], 0).is_err());
}

#[test]
fn wrong_form_is_not_encodable() {
    assert!(encode_ty(&Ty::Scalar(Width::W1), &Val::Text(vec![1])).is_err());
    assert!(encode_ty(&Ty::Utf8(Width::W1), &Val::Num(3)).is_err());
}

#[test]
fn decoded_containers_reencode_canonically() {
    let t = Ty::MapOf {
        count: Width::W1,
        ensure_ordered: false,
        key: Width::W1,
        value: Box::new(Ty::Scalar(Width::W1)),
    };
    // keys arrive out of order; the decoded container is valid, so it
    // encodes again, now in ascending key order
    let wire = vec![2, 2, 10, 1, 20];
    let (v, _) = decode_ty(&t, &wire, 0).unwrap();
    let again = encode_ty(&t, &v).unwrap();
    assert_eq!(again, vec![2, 1, 20, 2, 10]);
}

#[test]
fn different_values_encode_differently() {
    let t = Ty::Scalar(Width::W1);
    let a = encode_ty(&t, &Val::Num(1)).unwrap();
    let b = encode_ty(&t, &Val::Num(2)).unwrap();
    assert_ne!(a, b);
}

#[test]
fn decoding_consumes_exactly_the_encoding() {
    let t = Ty::ListOf(Width::W1, Box::new(Ty::Scalar(Width::W1)));
    let v = Val::Items(vec![Val::Num(4), Val::Num(5)]);
    let mut bytes = encode_ty(&t, &v).unwrap();
    let len = bytes.len();
    bytes.push(0xee);
    bytes.push(0xff);
    let (back, used) = decode_ty(&t, &bytes, 0).unwrap();
    assert_eq!(used, len);
    assert_eq!(back, v);
}
