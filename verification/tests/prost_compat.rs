//! Cross-checks against the prost implementation of the same wire format,
//! through the ready-made Coin message of cosmos-sdk-proto: the coin message
//! shares its shape with the response (tag 1 and tag 2, both
//! length-delimited), so bytes can be compared in both directions.

use absacc::{Coin, MsgRegisterAccountResponse};
use cosmos_sdk_proto::cosmos::base::v1beta1::Coin as ProstCoin;
use prost::Message;

#[test]
fn coin_encoding_matches_prost() {
    let mine = Coin { denom: String::from("uusd"), amount: String::from("1000") };
    let theirs = ProstCoin { denom: String::from("uusd"), amount: String::from("1000") };
    assert_eq!(mine.encode_to_vec(), theirs.encode_to_vec());
}

#[test]
fn coin_encoding_with_long_fields_matches_prost() {
    let denom = "d".repeat(200);
    let amount = "7".repeat(1000);
    let mine = Coin { denom: denom.clone(), amount: amount.clone() };
    let theirs = ProstCoin { denom, amount };
    assert_eq!(mine.encode_to_vec(), theirs.encode_to_vec());
}

#[test]
fn coin_encoding_with_empty_fields_matches_prost() {
    let mine = Coin { denom: String::new(), amount: String::new() };
    let theirs = ProstCoin { denom: String::new(), amount: String::new() };
    assert_eq!(mine.encode_to_vec(), theirs.encode_to_vec());
    assert_eq!(mine.encode_to_vec(), Vec::<u8>::new());
}

#[test]
fn response_decoder_accepts_prost_encoded_bytes() {
    let theirs = ProstCoin { denom: String::from("addr1new"), amount: String::from("xyz") };
    let bytes = theirs.encode_to_vec();
    let resp = MsgRegisterAccountResponse::decode(&bytes).unwrap();
    assert_eq!(resp.address, "addr1new");
    assert_eq!(resp.data, b"xyz".to_vec());
}

#[test]
fn prost_decoder_accepts_response_encoder_bytes() {
    let r = MsgRegisterAccountResponse {
        address: String::from("addr1new"),
        data: b"aux".to_vec(),
    };
    let theirs = ProstCoin::decode(r.encode_to_vec().as_slice()).unwrap();
    assert_eq!(theirs.denom, "addr1new");
    assert_eq!(theirs.amount, "aux");
}
