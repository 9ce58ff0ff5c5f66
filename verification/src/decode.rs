//! The decoding side of the wire format: a specification-level parser for
//! each message shape, and verified executable decoders pinned to it.
//!
//! The parsers are lenient exactly where the format's forward-compatibility
//! contract asks them to be: a field with an unknown tag is skipped according
//! to its wire type. A known tag whose wire type disagrees with the schema,
//! a malformed or truncated item, and an out-of-range key are errors. Within
//! one message, a repeated scalar field keeps its last occurrence; each
//! occurrence of the repeated funds field appends one coin. The deprecated
//! group wire types are not part of this schema and are rejected.

use vstd::prelude::*;
use vstd::utf8::*;
use crate::messages::{
    bytes_to_string,
    Coin,
    CoinModel,
    MsgRegisterAccount,
    MsgRegisterAccountResponse,
    RequestModel,
    ResponseModel,
};
use crate::wire::{
    lemma_parse_varint_shrinks,
    parse_varint,
    DecodeError,
};

verus! {

/// The state a coin parse starts from: every field at its default.
pub open spec fn empty_coin_model() -> CoinModel {
    CoinModel { denom: seq![], amount: seq![] }
}

/// The state a request parse starts from: every field at its default.
pub open spec fn empty_request_model() -> RequestModel {
    RequestModel { sender: seq![], code_id: 0, msg: seq![], funds: seq![], salt: seq![] }
}

/// The state a response parse starts from: every field at its default.
pub open spec fn empty_response_model() -> ResponseModel {
    ResponseModel { address: seq![], data: seq![] }
}

/// Parse one length-delimited payload: its length as a varint, then that
/// many bytes. Returns the payload and the remaining input.
pub open spec fn parse_len_payload(s: Seq<u8>) -> Result<(Seq<u8>, Seq<u8>), DecodeError> {
    match parse_varint(s) {
        Err(e) => Err(e),
        Ok((len, rest)) => if len > rest.len() {
            Err(DecodeError::Truncated)
        } else {
            Ok((rest.take(len as int), rest.skip(len as int)))
        },
    }
}

/// Skip the body of an unknown field according to its wire type: a varint,
/// eight raw bytes, a length-delimited payload, or four raw bytes.
pub open spec fn skip_unknown(wire: nat, s: Seq<u8>) -> Result<Seq<u8>, DecodeError> {
    if wire == 0 {
        match parse_varint(s) {
            Err(e) => Err(e),
            Ok(r) => Ok(r.1),
        }
    } else if wire == 1 {
        if s.len() < 8 {
            Err(DecodeError::Truncated)
        } else {
            Ok(s.skip(8))
        }
    } else if wire == 2 {
        match parse_len_payload(s) {
            Err(e) => Err(e),
            Ok(r) => Ok(r.1),
        }
    } else if wire == 5 {
        if s.len() < 4 {
            Err(DecodeError::Truncated)
        } else {
            Ok(s.skip(4))
        }
    } else {
        Err(DecodeError::WireTypeMismatch)
    }
}

/// A successful length-delimited parse consumes at least one byte.
pub proof fn lemma_parse_len_payload_shrinks(s: Seq<u8>)
    ensures
        parse_len_payload(s) matches Ok(r) ==> r.1.len() < s.len() && r.0.len() < s.len(),
{
    lemma_parse_varint_shrinks(s);
}

/// Skipping an unknown field consumes at least one byte.
pub proof fn lemma_skip_unknown_shrinks(wire: nat, s: Seq<u8>)
    ensures
        skip_unknown(wire, s) matches Ok(r) ==> r.len() < s.len(),
{
    lemma_parse_varint_shrinks(s);
    lemma_parse_len_payload_shrinks(s);
}

/// Parse the fields of a coin message from `s`, starting from the partially
/// filled `c`: denomination under tag 1, amount under tag 2, both strings.
pub open spec fn parse_coin_rec(s: Seq<u8>, c: CoinModel) -> Result<CoinModel, DecodeError>
    decreases s.len(),
{
    if s.len() == 0 {
        Ok(c)
    } else {
        match parse_varint(s) {
            Err(e) => Err(e),
            Ok((key, rest)) => {
                proof {
                    lemma_parse_varint_shrinks(s);
                }
                if key == 0 || key > 0xFFFFFFFF {
                    Err(DecodeError::InvalidKey)
                } else {
                    let field = key / 8;
                    let wire = key % 8;
                    if field == 1 || field == 2 {
                        if wire != 2 {
                            Err(DecodeError::WireTypeMismatch)
                        } else {
                            match parse_len_payload(rest) {
                                Err(e) => Err(e),
                                Ok((payload, rest2)) => {
                                    proof {
                                        lemma_parse_len_payload_shrinks(rest);
                                    }
                                    if field == 1 {
                                        parse_coin_rec(rest2, CoinModel { denom: payload, ..c })
                                    } else {
                                        parse_coin_rec(rest2, CoinModel { amount: payload, ..c })
                                    }
                                },
                            }
                        }
                    } else {
                        match skip_unknown(wire, rest) {
                            Err(e) => Err(e),
                            Ok(rest2) => {
                                proof {
                                    lemma_skip_unknown_shrinks(wire, rest);
                                }
                                parse_coin_rec(rest2, c)
                            },
                        }
                    }
                }
            },
        }
    }
}

/// Parse a whole coin message.
pub open spec fn parse_coin(s: Seq<u8>) -> Result<CoinModel, DecodeError> {
    parse_coin_rec(s, empty_coin_model())
}

/// Parse the fields of a response message from `s`, starting from the
/// partially filled `m`: address under tag 1, data under tag 2.
pub open spec fn parse_response_rec(s: Seq<u8>, m: ResponseModel) -> Result<
    ResponseModel,
    DecodeError,
>
    decreases s.len(),
{
    if s.len() == 0 {
        Ok(m)
    } else {
        match parse_varint(s) {
            Err(e) => Err(e),
            Ok((key, rest)) => {
                proof {
                    lemma_parse_varint_shrinks(s);
                }
                if key == 0 || key > 0xFFFFFFFF {
                    Err(DecodeError::InvalidKey)
                } else {
                    let field = key / 8;
                    let wire = key % 8;
                    if field == 1 || field == 2 {
                        if wire != 2 {
                            Err(DecodeError::WireTypeMismatch)
                        } else {
                            match parse_len_payload(rest) {
                                Err(e) => Err(e),
                                Ok((payload, rest2)) => {
                                    proof {
                                        lemma_parse_len_payload_shrinks(rest);
                                    }
                                    if field == 1 {
                                        parse_response_rec(
                                            rest2,
                                            ResponseModel { address: payload, ..m },
                                        )
                                    } else {
                                        parse_response_rec(
                                            rest2,
                                            ResponseModel { data: payload, ..m },
                                        )
                                    }
                                },
                            }
                        }
                    } else {
                        match skip_unknown(wire, rest) {
                            Err(e) => Err(e),
                            Ok(rest2) => {
                                proof {
                                    lemma_skip_unknown_shrinks(wire, rest);
                                }
                                parse_response_rec(rest2, m)
                            },
                        }
                    }
                }
            },
        }
    }
}

/// Parse a whole response message.
pub open spec fn parse_response(s: Seq<u8>) -> Result<ResponseModel, DecodeError> {
    parse_response_rec(s, empty_response_model())
}

/// Parse the fields of a request message from `s`, starting from the
/// partially filled `m`: sender=1, code_id=2, msg=3, funds=4 (repeated,
/// each occurrence one nested coin message), salt=5.
pub open spec fn parse_request_rec(s: Seq<u8>, m: RequestModel) -> Result<
    RequestModel,
    DecodeError,
>
    decreases s.len(),
{
    if s.len() == 0 {
        Ok(m)
    } else {
        match parse_varint(s) {
            Err(e) => Err(e),
            Ok((key, rest)) => {
                proof {
                    lemma_parse_varint_shrinks(s);
                }
                if key == 0 || key > 0xFFFFFFFF {
                    Err(DecodeError::InvalidKey)
                } else {
                    let field = key / 8;
                    let wire = key % 8;
                    if field == 2 {
                        if wire != 0 {
                            Err(DecodeError::WireTypeMismatch)
                        } else {
                            match parse_varint(rest) {
                                Err(e) => Err(e),
                                Ok((v, rest2)) => {
                                    proof {
                                        lemma_parse_varint_shrinks(rest);
                                    }
                                    parse_request_rec(rest2, RequestModel { code_id: v, ..m })
                                },
                            }
                        }
                    } else if field == 1 || field == 3 || field == 4 || field == 5 {
                        if wire != 2 {
                            Err(DecodeError::WireTypeMismatch)
                        } else {
                            match parse_len_payload(rest) {
                                Err(e) => Err(e),
                                Ok((payload, rest2)) => {
                                    proof {
                                        lemma_parse_len_payload_shrinks(rest);
                                    }
                                    if field == 1 {
                                        parse_request_rec(rest2, RequestModel { sender: payload, ..m })
                                    } else if field == 3 {
                                        parse_request_rec(rest2, RequestModel { msg: payload, ..m })
                                    } else if field == 5 {
                                        parse_request_rec(rest2, RequestModel { salt: payload, ..m })
                                    } else {
                                        match parse_coin(payload) {
                                            Err(e) => Err(e),
                                            Ok(c) => parse_request_rec(
                                                rest2,
                                                RequestModel { funds: m.funds.push(c), ..m },
                                            ),
                                        }
                                    }
                                },
                            }
                        }
                    } else {
                        match skip_unknown(wire, rest) {
                            Err(e) => Err(e),
                            Ok(rest2) => {
                                proof {
                                    lemma_skip_unknown_shrinks(wire, rest);
                                }
                                parse_request_rec(rest2, m)
                            },
                        }
                    }
                }
            },
        }
    }
}

/// Parse a whole request message.
pub open spec fn parse_request(s: Seq<u8>) -> Result<RequestModel, DecodeError> {
    parse_request_rec(s, empty_request_model())
}

/// Whether every string field a parsed request model carries is valid UTF-8:
/// the condition under which decoding yields a typed request.
pub open spec fn request_strings_valid(m: RequestModel) -> bool {
    valid_utf8(m.sender) && (forall|i: int|
        0 <= i < m.funds.len() ==> valid_utf8((#[trigger] m.funds[i]).denom) && valid_utf8(
            m.funds[i].amount,
        ))
}

struct RawCoin {
    denom: Vec<u8>,
    amount: Vec<u8>,
}

impl RawCoin {
    spec fn model(&self) -> CoinModel {
        CoinModel { denom: self.denom@, amount: self.amount@ }
    }
}

struct RawResponse {
    address: Vec<u8>,
    data: Vec<u8>,
}

impl RawResponse {
    spec fn model(&self) -> ResponseModel {
        ResponseModel { address: self.address@, data: self.data@ }
    }
}

struct RawRequest {
    sender: Vec<u8>,
    code_id: u64,
    msg: Vec<u8>,
    funds: Vec<RawCoin>,
    salt: Vec<u8>,
}

impl RawRequest {
    spec fn model(&self) -> RequestModel {
        RequestModel {
            sender: self.sender@,
            code_id: self.code_id as nat,
            msg: self.msg@,
            funds: self.funds@.map_values(|rc: RawCoin| rc.model()),
            salt: self.salt@,
        }
    }
}

fn read_bytes(s: &Vec<u8>, start: usize, end: usize) -> (r: Vec<u8>)
    requires
        start <= end <= s@.len(),
    ensures
        r@ == s@.subrange(start as int, end as int),
{
    vstd::slice::slice_to_vec(vstd::slice::slice_subrange(s.as_slice(), start, end))
}

/// Read one length-delimited payload starting at `pos`: the length varint,
/// then that many bytes, returned together with the position after them.
fn read_len_payload(s: &Vec<u8>, pos: usize) -> (r: Result<(Vec<u8>, usize), DecodeError>)
    requires
        pos <= s@.len(),
    ensures
        ({
            let p = parse_len_payload(s@.subrange(pos as int, s@.len() as int));
            match r {
                Ok(vp) => pos <= vp.1 <= s@.len() && p == Ok::<(Seq<u8>, Seq<u8>), DecodeError>(
                    (vp.0@, s@.subrange(vp.1 as int, s@.len() as int)),
                ),
                Err(e) => p == Err::<(Seq<u8>, Seq<u8>), DecodeError>(e),
            }
        }),
{
    let ghost rem = s@.subrange(pos as int, s@.len() as int);
    match crate::wire::decode_varint_from(s, pos) {
        Err(e) => Err(e),
        Ok((len, np)) => {
            let avail = s.len() - np;
            if len > avail as u64 {
                assert(s@.subrange(np as int, s@.len() as int).len() == avail);
                Err(DecodeError::Truncated)
            } else {
                let len_us = len as usize;
                let payload = read_bytes(s, np, np + len_us);
                proof {
                    let rest = s@.subrange(np as int, s@.len() as int);
                    assert(rest.take(len as int) =~= s@.subrange(np as int, np + len_us));
                    assert(rest.skip(len as int) =~= s@.subrange(
                        np + len_us,
                        s@.len() as int,
                    ));
                }
                Ok((payload, np + len_us))
            }
        },
    }
}

/// Skip the body of an unknown field at `pos`, given its wire type.
fn skip_unknown_from(s: &Vec<u8>, pos: usize, wire: u64) -> (r: Result<usize, DecodeError>)
    requires
        pos <= s@.len(),
    ensures
        ({
            let p = skip_unknown(wire as nat, s@.subrange(pos as int, s@.len() as int));
            match r {
                Ok(np) => pos <= np <= s@.len() && p == Ok::<Seq<u8>, DecodeError>(
                    s@.subrange(np as int, s@.len() as int),
                ),
                Err(e) => p == Err::<Seq<u8>, DecodeError>(e),
            }
        }),
{
    let ghost rem = s@.subrange(pos as int, s@.len() as int);
    if wire == 0 {
        match crate::wire::decode_varint_from(s, pos) {
            Err(e) => Err(e),
            Ok((_v, np)) => Ok(np),
        }
    } else if wire == 1 {
        if s.len() - pos < 8 {
            Err(DecodeError::Truncated)
        } else {
            assert(rem.skip(8) =~= s@.subrange(pos + 8, s@.len() as int));
            Ok(pos + 8)
        }
    } else if wire == 2 {
        match read_len_payload(s, pos) {
            Err(e) => Err(e),
            Ok((_payload, np)) => Ok(np),
        }
    } else if wire == 5 {
        if s.len() - pos < 4 {
            Err(DecodeError::Truncated)
        } else {
            assert(rem.skip(4) =~= s@.subrange(pos + 4, s@.len() as int));
            Ok(pos + 4)
        }
    } else {
        Err(DecodeError::WireTypeMismatch)
    }
}

fn decode_coin_rec(s: &Vec<u8>, pos: usize, acc: RawCoin) -> (r: Result<RawCoin, DecodeError>)
    requires
        pos <= s@.len(),
    ensures
        ({
            let p = parse_coin_rec(s@.subrange(pos as int, s@.len() as int), acc.model());
            match r {
                Ok(c) => p == Ok::<CoinModel, DecodeError>(c.model()),
                Err(e) => p == Err::<CoinModel, DecodeError>(e),
            }
        }),
    decreases s@.len() - pos,
{
    let ghost rem = s@.subrange(pos as int, s@.len() as int);
    if pos == s.len() {
        return Ok(acc);
    }
    match crate::wire::decode_varint_from(s, pos) {
        Err(e) => Err(e),
        Ok((key, np)) => {
            proof {
                lemma_parse_varint_shrinks(rem);
            }
            if key == 0 || key > 0xFFFFFFFF {
                Err(DecodeError::InvalidKey)
            } else {
                let field = key / 8;
                let wire = key % 8;
                if field == 1 || field == 2 {
                    if wire != 2 {
                        Err(DecodeError::WireTypeMismatch)
                    } else {
                        match read_len_payload(s, np) {
                            Err(e) => Err(e),
                            Ok((payload, np2)) => {
                                proof {
                                    lemma_parse_len_payload_shrinks(
                                        s@.subrange(np as int, s@.len() as int),
                                    );
                                }
                                if field == 1 {
                                    decode_coin_rec(
                                        s,
                                        np2,
                                        RawCoin { denom: payload, amount: acc.amount },
                                    )
                                } else {
                                    decode_coin_rec(
                                        s,
                                        np2,
                                        RawCoin { denom: acc.denom, amount: payload },
                                    )
                                }
                            },
                        }
                    }
                } else {
                    match skip_unknown_from(s, np, wire) {
                        Err(e) => Err(e),
                        Ok(np2) => decode_coin_rec(s, np2, acc),
                    }
                }
            }
        },
    }
}

fn decode_response_rec(s: &Vec<u8>, pos: usize, acc: RawResponse) -> (r: Result<
    RawResponse,
    DecodeError,
>)
    requires
        pos <= s@.len(),
    ensures
        ({
            let p = parse_response_rec(s@.subrange(pos as int, s@.len() as int), acc.model());
            match r {
                Ok(m) => p == Ok::<ResponseModel, DecodeError>(m.model()),
                Err(e) => p == Err::<ResponseModel, DecodeError>(e),
            }
        }),
    decreases s@.len() - pos,
{
    let ghost rem = s@.subrange(pos as int, s@.len() as int);
    if pos == s.len() {
        return Ok(acc);
    }
    match crate::wire::decode_varint_from(s, pos) {
        Err(e) => Err(e),
        Ok((key, np)) => {
            proof {
                lemma_parse_varint_shrinks(rem);
            }
            if key == 0 || key > 0xFFFFFFFF {
                Err(DecodeError::InvalidKey)
            } else {
                let field = key / 8;
                let wire = key % 8;
                if field == 1 || field == 2 {
                    if wire != 2 {
                        Err(DecodeError::WireTypeMismatch)
                    } else {
                        match read_len_payload(s, np) {
                            Err(e) => Err(e),
                            Ok((payload, np2)) => {
                                proof {
                                    lemma_parse_len_payload_shrinks(
                                        s@.subrange(np as int, s@.len() as int),
                                    );
                                }
                                if field == 1 {
                                    decode_response_rec(
                                        s,
                                        np2,
                                        RawResponse { address: payload, data: acc.data },
                                    )
                                } else {
                                    decode_response_rec(
                                        s,
                                        np2,
                                        RawResponse { address: acc.address, data: payload },
                                    )
                                }
                            },
                        }
                    }
                } else {
                    match skip_unknown_from(s, np, wire) {
                        Err(e) => Err(e),
                        Ok(np2) => decode_response_rec(s, np2, acc),
                    }
                }
            }
        },
    }
}

fn decode_request_rec(s: &Vec<u8>, pos: usize, acc: RawRequest) -> (r: Result<
    RawRequest,
    DecodeError,
>)
    requires
        pos <= s@.len(),
    ensures
        ({
            let p = parse_request_rec(s@.subrange(pos as int, s@.len() as int), acc.model());
            match r {
                Ok(m) => p == Ok::<RequestModel, DecodeError>(m.model()),
                Err(e) => p == Err::<RequestModel, DecodeError>(e),
            }
        }),
    decreases s@.len() - pos,
{
    let ghost rem = s@.subrange(pos as int, s@.len() as int);
    if pos == s.len() {
        return Ok(acc);
    }
    match crate::wire::decode_varint_from(s, pos) {
        Err(e) => Err(e),
        Ok((key, np)) => {
            proof {
                lemma_parse_varint_shrinks(rem);
            }
            if key == 0 || key > 0xFFFFFFFF {
                Err(DecodeError::InvalidKey)
            } else {
                let field = key / 8;
                let wire = key % 8;
                if field == 2 {
                    if wire != 0 {
                        Err(DecodeError::WireTypeMismatch)
                    } else {
                        match crate::wire::decode_varint_from(s, np) {
                            Err(e) => Err(e),
                            Ok((v, np2)) => {
                                proof {
                                    lemma_parse_varint_shrinks(
                                        s@.subrange(np as int, s@.len() as int),
                                    );
                                }
                                decode_request_rec(
                                    s,
                                    np2,
                                    RawRequest {
                                        sender: acc.sender,
                                        code_id: v,
                                        msg: acc.msg,
                                        funds: acc.funds,
                                        salt: acc.salt,
                                    },
                                )
                            },
                        }
                    }
                } else if field == 1 || field == 3 || field == 4 || field == 5 {
                    if wire != 2 {
                        Err(DecodeError::WireTypeMismatch)
                    } else {
                        match read_len_payload(s, np) {
                            Err(e) => Err(e),
                            Ok((payload, np2)) => {
                                proof {
                                    lemma_parse_len_payload_shrinks(
                                        s@.subrange(np as int, s@.len() as int),
                                    );
                                }
                                if field == 1 {
                                    decode_request_rec(
                                        s,
                                        np2,
                                        RawRequest {
                                            sender: payload,
                                            code_id: acc.code_id,
                                            msg: acc.msg,
                                            funds: acc.funds,
                                            salt: acc.salt,
                                        },
                                    )
                                } else if field == 3 {
                                    decode_request_rec(
                                        s,
                                        np2,
                                        RawRequest {
                                            sender: acc.sender,
                                            code_id: acc.code_id,
                                            msg: payload,
                                            funds: acc.funds,
                                            salt: acc.salt,
                                        },
                                    )
                                } else if field == 5 {
                                    decode_request_rec(
                                        s,
                                        np2,
                                        RawRequest {
                                            sender: acc.sender,
                                            code_id: acc.code_id,
                                            msg: acc.msg,
                                            funds: acc.funds,
                                            salt: payload,
                                        },
                                    )
                                } else {
                                    match decode_coin_rec(
                                        &payload,
                                        0,
                                        RawCoin { denom: Vec::new(), amount: Vec::new() },
                                    ) {
                                        Err(e) => {
                                            assert(payload@.subrange(0, payload@.len() as int)
                                                =~= payload@);
                                            Err(e)
                                        },
                                        Ok(c) => {
                                            assert(payload@.subrange(0, payload@.len() as int)
                                                =~= payload@);
                                            let mut funds = acc.funds;
                                            let ghost old_funds = funds@;
                                            funds.push(c);
                                            proof {
                                                assert(funds@.map_values(
                                                    |rc: RawCoin| rc.model(),
                                                ) =~= old_funds.map_values(
                                                    |rc: RawCoin| rc.model(),
                                                ).push(c.model()));
                                            }
                                            decode_request_rec(
                                                s,
                                                np2,
                                                RawRequest {
                                                    sender: acc.sender,
                                                    code_id: acc.code_id,
                                                    msg: acc.msg,
                                                    funds,
                                                    salt: acc.salt,
                                                },
                                            )
                                        },
                                    }
                                }
                            },
                        }
                    }
                } else {
                    match skip_unknown_from(s, np, wire) {
                        Err(e) => Err(e),
                        Ok(np2) => decode_request_rec(s, np2, acc),
                    }
                }
            }
        },
    }
}

impl MsgRegisterAccountResponse {
    /// Decode a response from its wire bytes. The result is exactly what the
    /// specification parser says of the bytes: the parsed message when every
    /// one of its fields is well formed, the parser's error otherwise, with
    /// `InvalidUtf8` when the address bytes are not a UTF-8 string.
    pub fn decode(bytes: &Vec<u8>) -> (r: Result<MsgRegisterAccountResponse, DecodeError>)
        ensures
            ({
                let p = parse_response(bytes@);
                match r {
                    Ok(resp) => p matches Ok(m) && valid_utf8(m.address) && resp.wire_model()
                        == m,
                    Err(e) => (p matches Err(pe) && e == pe) || (p matches Ok(m) && !valid_utf8(
                        m.address,
                    ) && e == DecodeError::InvalidUtf8),
                }
            }),
    {
        assert(bytes@.subrange(0, bytes@.len() as int) =~= bytes@);
        let raw = match decode_response_rec(
            bytes,
            0,
            RawResponse { address: Vec::new(), data: Vec::new() },
        ) {
            Err(e) => {
                return Err(e);
            },
            Ok(raw) => raw,
        };
        let ghost m = raw.model();
        match bytes_to_string(raw.address) {
            None => Err(DecodeError::InvalidUtf8),
            Some(address) => {
                proof {
                    broadcast use vstd::utf8::decode_utf8_encode_utf8;

                    assert(encode_utf8(address@) == m.address);
                }
                let resp = MsgRegisterAccountResponse { address, data: raw.data };
                assert(resp.wire_model() =~= m);
                Ok(resp)
            },
        }
    }
}

impl MsgRegisterAccount {
    /// Decode a request from its wire bytes. The result is exactly what the
    /// specification parser says of the bytes: the parsed message when every
    /// one of its fields is well formed, the parser's error otherwise, with
    /// `InvalidUtf8` when a string field's bytes are not UTF-8.
    pub fn decode(bytes: &Vec<u8>) -> (r: Result<MsgRegisterAccount, DecodeError>)
        ensures
            ({
                let p = parse_request(bytes@);
                match r {
                    Ok(q) => p matches Ok(m) && request_strings_valid(m) && q.wire_model() == m,
                    Err(e) => (p matches Err(pe) && e == pe) || (p matches Ok(m)
                        && !request_strings_valid(m) && e == DecodeError::InvalidUtf8),
                }
            }),
    {
        assert(bytes@.subrange(0, bytes@.len() as int) =~= bytes@);
        let acc0 = RawRequest {
            sender: Vec::new(),
            code_id: 0,
            msg: Vec::new(),
            funds: Vec::new(),
            salt: Vec::new(),
        };
        assert(acc0.model() =~= empty_request_model());
        let raw = match decode_request_rec(bytes, 0, acc0) {
            Err(e) => {
                return Err(e);
            },
            Ok(raw) => raw,
        };
        let ghost m = raw.model();
        let sender = match bytes_to_string(raw.sender) {
            None => {
                return Err(DecodeError::InvalidUtf8);
            },
            Some(sender) => sender,
        };
        let mut funds: Vec<Coin> = Vec::new();
        let raw_funds = raw.funds;
        let mut i: usize = 0;
        while i < raw_funds.len()
            invariant
                i <= raw_funds@.len(),
                parse_request(bytes@) == Ok::<RequestModel, DecodeError>(m),
                valid_utf8(m.sender),
                sender@ == decode_utf8(m.sender),
                m.funds == raw_funds@.map_values(|rc: RawCoin| rc.model()),
                funds@.map_values(|c: Coin| c.wire_model()) =~= m.funds.take(i as int),
                forall|j: int|
                    0 <= j < i ==> valid_utf8((#[trigger] m.funds[j]).denom) && valid_utf8(
                        m.funds[j].amount,
                    ),
            decreases raw_funds@.len() - i,
        {
            assert(m.funds[i as int] == raw_funds@[i as int].model());
            let denom_b = vstd::slice::slice_to_vec(raw_funds[i].denom.as_slice());
            let amount_b = vstd::slice::slice_to_vec(raw_funds[i].amount.as_slice());
            let denom = match bytes_to_string(denom_b) {
                None => {
                    assert(!valid_utf8(m.funds[i as int].denom));
                    assert(!request_strings_valid(m));
                    return Err(DecodeError::InvalidUtf8);
                },
                Some(d) => d,
            };
            let amount = match bytes_to_string(amount_b) {
                None => {
                    assert(!valid_utf8(m.funds[i as int].amount));
                    assert(!request_strings_valid(m));
                    return Err(DecodeError::InvalidUtf8);
                },
                Some(a) => a,
            };
            let coin = Coin { denom, amount };
            proof {
                broadcast use vstd::utf8::decode_utf8_encode_utf8;

                assert(coin.wire_model() =~= m.funds[i as int]);
            }
            let ghost funds_pre = funds@;
            funds.push(coin);
            proof {
                funds_pre.lemma_push_map_commute(|c: Coin| c.wire_model(), coin);
                m.funds.lemma_take_succ_push(i as int);
                assert(funds@.map_values(|c: Coin| c.wire_model()) =~= m.funds.take(i + 1));
            }
            i += 1;
        }
        proof {
            broadcast use vstd::utf8::decode_utf8_encode_utf8;

            assert(m.funds.take(raw_funds@.len() as int) =~= m.funds);
        }
        let q = MsgRegisterAccount {
            sender,
            code_id: raw.code_id,
            msg: raw.msg,
            funds,
            salt: raw.salt,
        };
        assert(q.wire_model() =~= m);
        Ok(q)
    }
}

} // verus!
