//! The two message shapes of the envelope layer and their mathematical
//! models. Contracts speak of messages through `wire_model`, which maps every
//! string field to its UTF-8 bytes: the byte level is where the wire format
//! is defined.

use vstd::prelude::*;
use vstd::utf8::*;

verus! {

/// One asset transferred to the new account at creation time: a denomination
/// together with a decimal-string amount. The amount stays textual end to
/// end to avoid precision loss; this layer never parses it numerically.
#[derive(Clone, Debug, PartialEq)]
pub struct Coin {
    pub denom: String,
    pub amount: String,
}

/// Request to create a chain-hosted abstract account: who asks, which code
/// template to instantiate, opaque instantiation arguments, assets to move
/// to the new account, and the salt its address is derived from.
#[derive(Clone, Debug, PartialEq)]
pub struct MsgRegisterAccount {
    pub sender: String,
    pub code_id: u64,
    pub msg: Vec<u8>,
    pub funds: Vec<Coin>,
    pub salt: Vec<u8>,
}

/// The chain's answer to a registration request: the address of the new
/// account and opaque auxiliary output of the creation handler.
#[derive(Clone, Debug, PartialEq)]
pub struct MsgRegisterAccountResponse {
    pub address: String,
    pub data: Vec<u8>,
}

/// Byte-level model of a `Coin`: both strings as their UTF-8 bytes.
#[verifier::ext_equal]
pub struct CoinModel {
    pub denom: Seq<u8>,
    pub amount: Seq<u8>,
}

/// Byte-level model of a registration request.
#[verifier::ext_equal]
pub struct RequestModel {
    pub sender: Seq<u8>,
    pub code_id: nat,
    pub msg: Seq<u8>,
    pub funds: Seq<CoinModel>,
    pub salt: Seq<u8>,
}

/// Byte-level model of a registration response.
#[verifier::ext_equal]
pub struct ResponseModel {
    pub address: Seq<u8>,
    pub data: Seq<u8>,
}

impl Coin {
    /// How this coin looks to the wire format.
    pub open spec fn wire_model(self) -> CoinModel {
        CoinModel { denom: encode_utf8(self.denom@), amount: encode_utf8(self.amount@) }
    }
}

impl MsgRegisterAccount {
    /// How this request looks to the wire format.
    pub open spec fn wire_model(self) -> RequestModel {
        RequestModel {
            sender: encode_utf8(self.sender@),
            code_id: self.code_id as nat,
            msg: self.msg@,
            funds: self.funds@.map_values(|c: Coin| c.wire_model()),
            salt: self.salt@,
        }
    }
}

impl MsgRegisterAccountResponse {
    /// How this response looks to the wire format.
    pub open spec fn wire_model(self) -> ResponseModel {
        ResponseModel { address: encode_utf8(self.address@), data: self.data@ }
    }
}

/// Relies on `String::from_utf8`: it succeeds exactly on valid UTF-8 input,
/// and the returned string's characters are the UTF-8 decoding of the bytes.
#[verifier::external_body]
pub(crate) fn bytes_to_string(b: Vec<u8>) -> (r: Option<String>)
    ensures
        valid_utf8(b@) ==> r is Some && r.unwrap()@ == decode_utf8(b@),
        !valid_utf8(b@) ==> r is None,
{
    match String::from_utf8(b) {
        Ok(s) => Some(s),
        Err(_) => None,
    }
}

} // verus!
