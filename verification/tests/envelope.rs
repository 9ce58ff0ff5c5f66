//! Runtime checks of the envelope adapter: the fixed type identifier and the
//! payload it carries.

use absacc::{Coin, MsgRegisterAccount};

fn example_request() -> MsgRegisterAccount {
    MsgRegisterAccount {
        sender: String::from("addr1xyz"),
        code_id: 7,
        msg: Vec::new(),
        funds: vec![Coin { denom: String::from("uusd"), amount: String::from("1000") }],
        salt: vec![0x01, 0x02],
    }
}

#[test]
fn envelope_carries_the_protocol_type_identifier() {
    let e = example_request().to_envelope();
    assert_eq!(e.type_url, "/abstractaccount.v1.MsgRegisterAccount");
}

#[test]
fn protocol_constants_are_verbatim() {
    assert_eq!(
        absacc::envelope::register_account_type_url_string(),
        "/abstractaccount.v1.MsgRegisterAccount"
    );
    assert_eq!(
        absacc::envelope::register_account_response_type_url_string(),
        "/abstractaccount.v1.MsgRegisterAccountResponse"
    );
}

#[test]
fn envelope_value_is_the_encoded_request() {
    let q = example_request();
    let e = q.to_envelope();
    assert_eq!(e.value, q.encode_to_vec());
}

#[test]
fn envelope_bytes_decode_back_to_the_request() {
    let q = example_request();
    let e = q.to_envelope();
    let decoded = MsgRegisterAccount::decode(&e.value).unwrap();
    assert_eq!(decoded, q);
}
