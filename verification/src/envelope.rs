//! The type-erasure envelope: a typed request is encoded and paired with its
//! protocol-fixed type identifier so that a generic dispatch pipeline can
//! route it without understanding the payload.

use vstd::prelude::*;
use crate::encode::request_bytes;
use crate::messages::MsgRegisterAccount;

verus! {

/// A type-erased message on its way to the dispatch pipeline: the identifier
/// the receiver demultiplexes on, and the encoded payload. Immutable once
/// built.
pub struct DispatchEnvelope {
    pub type_url: String,
    pub value: Vec<u8>,
}

/// The protocol constant that routes a registration request to its on-chain
/// handler. The receiving side matches it verbatim, leading slash and
/// versioned namespace included.
pub open spec fn register_account_type_url() -> Seq<char> {
    "/abstractaccount.v1.MsgRegisterAccount"@
}

/// The routing identifier as an owned string, exactly the protocol constant.
pub fn register_account_type_url_string() -> (s: String)
    ensures
        s@ == register_account_type_url(),
{
    "/abstractaccount.v1.MsgRegisterAccount".to_owned()
}

/// The type identifier under which the response schema is known, kept beside
/// the request's so that both protocol constants live in one place.
pub open spec fn register_account_response_type_url() -> Seq<char> {
    "/abstractaccount.v1.MsgRegisterAccountResponse"@
}

/// The response's type identifier as an owned string, exactly the protocol
/// constant.
pub fn register_account_response_type_url_string() -> (s: String)
    ensures
        s@ == register_account_response_type_url(),
{
    "/abstractaccount.v1.MsgRegisterAccountResponse".to_owned()
}

impl MsgRegisterAccount {
    /// Wrap this request for dispatch: encode it and pair the bytes with the
    /// fixed type identifier. Pure and total — building the envelope of a
    /// well-formed in-memory request cannot fail.
    pub fn to_envelope(&self) -> (e: DispatchEnvelope)
        ensures
            e.type_url@ == register_account_type_url(),
            e.value@ == request_bytes(self.wire_model()),
    {
        DispatchEnvelope { type_url: register_account_type_url_string(), value: self.encode_to_vec() }
    }
}

} // verus!
