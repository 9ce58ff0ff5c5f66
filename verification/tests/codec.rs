//! Runtime checks of the codec: the worked example, round trips, forward
//! compatibility, and rejection of malformed input.

use absacc::{Coin, DecodeError, MsgRegisterAccount, MsgRegisterAccountResponse};

fn example_request() -> MsgRegisterAccount {
    MsgRegisterAccount {
        sender: String::from("addr1xyz"),
        code_id: 7,
        msg: Vec::new(),
        funds: vec![Coin { denom: String::from("uusd"), amount: String::from("1000") }],
        salt: vec![0x01, 0x02],
    }
}

#[test]
fn example_request_encodes_to_expected_bytes() {
    let bytes = example_request().encode_to_vec();
    let expected: Vec<u8> = vec![
        0x0a, 0x08, b'a', b'd', b'd', b'r', b'1', b'x', b'y', b'z', // sender
        0x10, 0x07, // code_id
        0x22, 0x0c, 0x0a, 0x04, b'u', b'u', b's', b'd', 0x12, 0x04, b'1', b'0', b'0',
        b'0', // funds[0]
        0x2a, 0x02, 0x01, 0x02, // salt
    ];
    assert_eq!(bytes, expected);
}

#[test]
fn example_response_decodes_to_expected_struct() {
    let bytes: Vec<u8> = vec![0x0a, 0x08, b'a', b'd', b'd', b'r', b'1', b'n', b'e', b'w'];
    let resp = MsgRegisterAccountResponse::decode(&bytes).unwrap();
    assert_eq!(resp.address, "addr1new");
    assert_eq!(resp.data, Vec::<u8>::new());
}

#[test]
fn encoding_twice_yields_identical_bytes() {
    let q = example_request();
    assert_eq!(q.encode_to_vec(), q.encode_to_vec());
}

#[test]
fn response_round_trips_through_wire_format() {
    let r = MsgRegisterAccountResponse {
        address: String::from("addr1new"),
        data: vec![1, 2, 3, 255],
    };
    let decoded = MsgRegisterAccountResponse::decode(&r.encode_to_vec()).unwrap();
    assert_eq!(decoded, r);
}

#[test]
fn empty_response_round_trips() {
    let r = MsgRegisterAccountResponse { address: String::new(), data: Vec::new() };
    assert_eq!(r.encode_to_vec(), Vec::<u8>::new());
    let decoded = MsgRegisterAccountResponse::decode(&r.encode_to_vec()).unwrap();
    assert_eq!(decoded, r);
}

#[test]
fn multibyte_utf8_address_round_trips() {
    let r = MsgRegisterAccountResponse { address: String::from("héllo ✓"), data: Vec::new() };
    let decoded = MsgRegisterAccountResponse::decode(&r.encode_to_vec()).unwrap();
    assert_eq!(decoded.address, "héllo ✓");
}

#[test]
fn request_round_trips_through_wire_format() {
    let q = example_request();
    let decoded = MsgRegisterAccount::decode(&q.encode_to_vec()).unwrap();
    assert_eq!(decoded, q);
}

#[test]
fn request_with_long_fields_round_trips() {
    let q = MsgRegisterAccount {
        sender: "s".repeat(300),
        code_id: u64::MAX,
        msg: vec![0u8; 200],
        funds: vec![
            Coin { denom: String::from("uatom"), amount: "9".repeat(150) },
            Coin { denom: String::new(), amount: String::new() },
        ],
        salt: vec![0xff; 130],
    };
    let decoded = MsgRegisterAccount::decode(&q.encode_to_vec()).unwrap();
    assert_eq!(decoded, q);
}

#[test]
fn unknown_varint_field_is_ignored() {
    // field 3 (unknown to the response schema), wire type 0, value 5
    let mut bytes: Vec<u8> = vec![0x18, 0x05];
    bytes.extend_from_slice(&[0x0a, 0x02, b'o', b'k', 0x12, 0x01, 0x09]);
    let resp = MsgRegisterAccountResponse::decode(&bytes).unwrap();
    assert_eq!(resp.address, "ok");
    assert_eq!(resp.data, vec![0x09]);
}

#[test]
fn unknown_len_delimited_field_is_ignored() {
    // field 7, wire type 2, three payload bytes, between the known fields
    let bytes: Vec<u8> = vec![0x0a, 0x02, b'o', b'k', 0x3a, 0x03, 1, 2, 3, 0x12, 0x01, 0x09];
    let resp = MsgRegisterAccountResponse::decode(&bytes).unwrap();
    assert_eq!(resp.address, "ok");
    assert_eq!(resp.data, vec![0x09]);
}

#[test]
fn unknown_fixed_width_fields_are_ignored() {
    // field 6 wire type 1 (8 bytes), then field 6 wire type 5 (4 bytes)
    let bytes: Vec<u8> = vec![
        0x31, 1, 2, 3, 4, 5, 6, 7, 8, 0x35, 1, 2, 3, 4, 0x0a, 0x02, b'o', b'k',
    ];
    let resp = MsgRegisterAccountResponse::decode(&bytes).unwrap();
    assert_eq!(resp.address, "ok");
}

#[test]
fn last_occurrence_of_scalar_field_wins() {
    let bytes: Vec<u8> = vec![0x0a, 0x01, b'a', 0x0a, 0x01, b'b'];
    let resp = MsgRegisterAccountResponse::decode(&bytes).unwrap();
    assert_eq!(resp.address, "b");
}

#[test]
fn truncated_payload_is_rejected() {
    // length prefix says five bytes, only one follows
    let bytes: Vec<u8> = vec![0x0a, 0x05, b'a'];
    assert_eq!(MsgRegisterAccountResponse::decode(&bytes), Err(DecodeError::Truncated));
}

#[test]
fn varint_cut_off_mid_sequence_is_rejected() {
    // a key byte with the continuation bit set and nothing after it
    let bytes: Vec<u8> = vec![0x80];
    assert_eq!(MsgRegisterAccountResponse::decode(&bytes), Err(DecodeError::Truncated));
}

#[test]
fn overlong_varint_is_rejected() {
    // unknown field 3 wire 0 whose value takes ten bytes and overflows 64 bits
    let bytes: Vec<u8> = vec![
        0x18, 0xff, 0xff, 0xff, 0xff, 0xff, 0xff, 0xff, 0xff, 0xff, 0x7f,
    ];
    assert_eq!(MsgRegisterAccountResponse::decode(&bytes), Err(DecodeError::MalformedVarint));
}

#[test]
fn known_field_with_wrong_wire_type_is_rejected() {
    // address is declared length-delimited; wire type 0 disagrees
    let bytes: Vec<u8> = vec![0x08, 0x01];
    assert_eq!(MsgRegisterAccountResponse::decode(&bytes), Err(DecodeError::WireTypeMismatch));
}

#[test]
fn zero_key_is_rejected() {
    let bytes: Vec<u8> = vec![0x00, 0x01];
    assert_eq!(MsgRegisterAccountResponse::decode(&bytes), Err(DecodeError::InvalidKey));
}

#[test]
fn invalid_utf8_address_is_rejected() {
    let bytes: Vec<u8> = vec![0x0a, 0x01, 0xff];
    assert_eq!(MsgRegisterAccountResponse::decode(&bytes), Err(DecodeError::InvalidUtf8));
}

#[test]
fn invalid_utf8_coin_denom_is_rejected() {
    // request with one coin whose denom holds a lone continuation byte
    let bytes: Vec<u8> = vec![0x22, 0x03, 0x0a, 0x01, 0xbf];
    assert_eq!(MsgRegisterAccount::decode(&bytes), Err(DecodeError::InvalidUtf8));
}

#[test]
fn request_code_id_zero_is_omitted_and_restored() {
    let q = MsgRegisterAccount {
        sender: String::from("a"),
        code_id: 0,
        msg: Vec::new(),
        funds: Vec::new(),
        salt: Vec::new(),
    };
    let bytes = q.encode_to_vec();
    assert_eq!(bytes, vec![0x0a, 0x01, b'a']);
    assert_eq!(MsgRegisterAccount::decode(&bytes).unwrap(), q);
}
