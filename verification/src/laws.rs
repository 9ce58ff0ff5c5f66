//! The properties that tie the two sides of the codec together: parsing an
//! encoding yields the encoded message back, encoding is deterministic,
//! unknown fields are skipped, and a varint cut off by the end of input is
//! rejected.

use vstd::prelude::*;
use crate::messages::{CoinModel, MsgRegisterAccount, RequestModel, ResponseModel};
use crate::encode::{coin_bytes, funds_bytes, len_prefixed, opt_bytes_field, opt_varint_field, request_bytes, response_bytes};
use crate::decode::{
    empty_coin_model,
    empty_request_model,
    empty_response_model,
    parse_coin,
    parse_coin_rec,
    parse_len_payload,
    parse_request,
    parse_request_rec,
    parse_response,
    parse_response_rec,
};
use crate::wire::{
    lemma_parse_varint_encoding,
    parse_varint,
    parse_varint_rec,
    varint_bytes,
    DecodeError,
};

verus! {

/// Parsing a length-delimited item from the front of the input yields the
/// payload it was built from and the bytes that follow it.
proof fn lemma_parse_len_payload_encoding(p: Seq<u8>, t: Seq<u8>)
    requires
        p.len() < 0x10000000000000000,
    ensures
        parse_len_payload(varint_bytes(p.len()) + p + t) == Ok::<(Seq<u8>, Seq<u8>), DecodeError>(
            (p, t),
        ),
{
    assert(varint_bytes(p.len()) + p + t =~= varint_bytes(p.len()) + (p + t));
    lemma_parse_varint_encoding(p.len(), p + t);
    assert((p + t).take(p.len() as int) =~= p);
    assert((p + t).skip(p.len() as int) =~= t);
}

/// Parsing one well-formed length-delimited field whose key byte is `key`
/// starts with the key, then the payload.
proof fn lemma_parse_key_byte(key: u8, rest: Seq<u8>)
    requires
        key < 128,
    ensures
        parse_varint(seq![key] + rest) == Ok::<(nat, Seq<u8>), DecodeError>((key as nat, rest)),
{
    assert(varint_bytes(key as nat) =~= seq![key]);
    lemma_parse_varint_encoding(key as nat, rest);
}

proof fn lemma_parse_coin_field_step(field: nat, p: Seq<u8>, t: Seq<u8>, c: CoinModel)
    requires
        field == 1 || field == 2,
        p.len() < 0x10000000000000000,
    ensures
        parse_coin_rec(len_prefixed((field * 8 + 2) as u8, p) + t, c) == parse_coin_rec(
            t,
            if field == 1 {
                CoinModel { denom: p, ..c }
            } else {
                CoinModel { amount: p, ..c }
            },
        ),
{
    let key = (field * 8 + 2) as u8;
    let s = len_prefixed(key, p) + t;
    assert(s =~= seq![key] + (varint_bytes(p.len()) + p + t));
    lemma_parse_key_byte(key, varint_bytes(p.len()) + p + t);
    lemma_parse_len_payload_encoding(p, t);
}

proof fn lemma_parse_coin_amount_tail(c0: CoinModel, a: Seq<u8>)
    requires
        a.len() < 0x10000000000000000,
        a.len() == 0 ==> c0.amount == a,
    ensures
        parse_coin_rec(opt_bytes_field(0x12, a), c0) == Ok::<CoinModel, DecodeError>(
            CoinModel { amount: a, ..c0 },
        ),
{
    if a.len() == 0 {
        assert(CoinModel { amount: a, ..c0 } =~= c0);
    } else {
        assert(opt_bytes_field(0x12, a) =~= len_prefixed(0x12, a) + Seq::<u8>::empty());
        lemma_parse_coin_field_step(2, a, Seq::<u8>::empty(), c0);
    }
}

/// Round trip for one coin message: parsing its encoding yields it back.
pub proof fn lemma_parse_coin_encoding(c: CoinModel)
    requires
        c.denom.len() < 0x10000000000000000,
        c.amount.len() < 0x10000000000000000,
    ensures
        parse_coin(coin_bytes(c)) == Ok::<CoinModel, DecodeError>(c),
{
    let e0 = empty_coin_model();
    let fa = opt_bytes_field(0x12, c.amount);
    if c.amount.len() == 0 {
        assert(c.amount =~= e0.amount);
    }
    if c.denom.len() == 0 {
        assert(coin_bytes(c) =~= fa);
        lemma_parse_coin_amount_tail(e0, c.amount);
        assert(CoinModel { amount: c.amount, ..e0 } =~= c);
    } else {
        assert(coin_bytes(c) =~= len_prefixed(0x0a, c.denom) + fa);
        lemma_parse_coin_field_step(1, c.denom, fa, e0);
        let c1 = CoinModel { denom: c.denom, ..e0 };
        lemma_parse_coin_amount_tail(c1, c.amount);
        assert(CoinModel { amount: c.amount, ..c1 } =~= c);
    }
}

proof fn lemma_parse_response_field_step(field: nat, p: Seq<u8>, t: Seq<u8>, m: ResponseModel)
    requires
        field == 1 || field == 2,
        p.len() < 0x10000000000000000,
    ensures
        parse_response_rec(len_prefixed((field * 8 + 2) as u8, p) + t, m) == parse_response_rec(
            t,
            if field == 1 {
                ResponseModel { address: p, ..m }
            } else {
                ResponseModel { data: p, ..m }
            },
        ),
{
    let key = (field * 8 + 2) as u8;
    let s = len_prefixed(key, p) + t;
    assert(s =~= seq![key] + (varint_bytes(p.len()) + p + t));
    lemma_parse_key_byte(key, varint_bytes(p.len()) + p + t);
    lemma_parse_len_payload_encoding(p, t);
}

proof fn lemma_parse_response_data_tail(m0: ResponseModel, d: Seq<u8>)
    requires
        d.len() < 0x10000000000000000,
        d.len() == 0 ==> m0.data == d,
    ensures
        parse_response_rec(opt_bytes_field(0x12, d), m0) == Ok::<ResponseModel, DecodeError>(
            ResponseModel { data: d, ..m0 },
        ),
{
    if d.len() == 0 {
        assert(ResponseModel { data: d, ..m0 } =~= m0);
    } else {
        assert(opt_bytes_field(0x12, d) =~= len_prefixed(0x12, d) + Seq::<u8>::empty());
        lemma_parse_response_field_step(2, d, Seq::<u8>::empty(), m0);
    }
}

/// Schema-level round trip for the response: parsing the encoding of any
/// response model yields exactly that model. The length bounds only say
/// that each field fits the wire format's 64-bit length prefix.
pub proof fn lemma_parse_response_encoding(m: ResponseModel)
    requires
        m.address.len() < 0x10000000000000000,
        m.data.len() < 0x10000000000000000,
    ensures
        parse_response(response_bytes(m)) == Ok::<ResponseModel, DecodeError>(m),
{
    let e0 = empty_response_model();
    let fd = opt_bytes_field(0x12, m.data);
    if m.data.len() == 0 {
        assert(m.data =~= e0.data);
    }
    if m.address.len() == 0 {
        assert(response_bytes(m) =~= fd);
        lemma_parse_response_data_tail(e0, m.data);
        assert(ResponseModel { data: m.data, ..e0 } =~= m);
    } else {
        assert(response_bytes(m) =~= len_prefixed(0x0a, m.address) + fd);
        lemma_parse_response_field_step(1, m.address, fd, e0);
        let m1 = ResponseModel { address: m.address, ..e0 };
        lemma_parse_response_data_tail(m1, m.data);
        assert(ResponseModel { data: m.data, ..m1 } =~= m);
    }
}

proof fn lemma_parse_request_bytes_field_step(field: nat, p: Seq<u8>, t: Seq<u8>, m: RequestModel)
    requires
        field == 1 || field == 3 || field == 5,
        p.len() < 0x10000000000000000,
    ensures
        parse_request_rec(len_prefixed((field * 8 + 2) as u8, p) + t, m) == parse_request_rec(
            t,
            if field == 1 {
                RequestModel { sender: p, ..m }
            } else if field == 3 {
                RequestModel { msg: p, ..m }
            } else {
                RequestModel { salt: p, ..m }
            },
        ),
{
    let key = (field * 8 + 2) as u8;
    let s = len_prefixed(key, p) + t;
    assert(s =~= seq![key] + (varint_bytes(p.len()) + p + t));
    lemma_parse_key_byte(key, varint_bytes(p.len()) + p + t);
    lemma_parse_len_payload_encoding(p, t);
}

proof fn lemma_parse_request_opt_bytes_field(field: nat, p: Seq<u8>, t: Seq<u8>, m: RequestModel)
    requires
        field == 1 || field == 3 || field == 5,
        p.len() < 0x10000000000000000,
        p.len() == 0 ==> (if field == 1 {
            m.sender == p
        } else if field == 3 {
            m.msg == p
        } else {
            m.salt == p
        }),
    ensures
        parse_request_rec(opt_bytes_field((field * 8 + 2) as u8, p) + t, m) == parse_request_rec(
            t,
            if field == 1 {
                RequestModel { sender: p, ..m }
            } else if field == 3 {
                RequestModel { msg: p, ..m }
            } else {
                RequestModel { salt: p, ..m }
            },
        ),
{
    if p.len() == 0 {
        assert(opt_bytes_field((field * 8 + 2) as u8, p) + t =~= t);
        if field == 1 {
            assert(RequestModel { sender: p, ..m } =~= m);
        } else if field == 3 {
            assert(RequestModel { msg: p, ..m } =~= m);
        } else {
            assert(RequestModel { salt: p, ..m } =~= m);
        }
    } else {
        assert(opt_bytes_field((field * 8 + 2) as u8, p) + t =~= len_prefixed(
            (field * 8 + 2) as u8,
            p,
        ) + t);
        lemma_parse_request_bytes_field_step(field, p, t, m);
    }
}

proof fn lemma_parse_request_opt_code_id(n: nat, t: Seq<u8>, m: RequestModel)
    requires
        n < 0x10000000000000000,
        n == 0 ==> m.code_id == n,
    ensures
        parse_request_rec(opt_varint_field(0x10, n) + t, m) == parse_request_rec(
            t,
            RequestModel { code_id: n, ..m },
        ),
{
    if n == 0 {
        assert(opt_varint_field(0x10, n) + t =~= t);
        assert(RequestModel { code_id: n, ..m } =~= m);
    } else {
        let s = opt_varint_field(0x10, n) + t;
        assert(s =~= seq![0x10u8] + (varint_bytes(n) + t));
        lemma_parse_key_byte(0x10, varint_bytes(n) + t);
        lemma_parse_varint_encoding(n, t);
    }
}

proof fn lemma_parse_request_funds_step(c: CoinModel, t: Seq<u8>, m: RequestModel)
    requires
        c.denom.len() < 0x10000000000000000,
        c.amount.len() < 0x10000000000000000,
        coin_bytes(c).len() < 0x10000000000000000,
    ensures
        parse_request_rec(len_prefixed(0x22, coin_bytes(c)) + t, m) == parse_request_rec(
            t,
            RequestModel { funds: m.funds.push(c), ..m },
        ),
{
    let p = coin_bytes(c);
    let s = len_prefixed(0x22, p) + t;
    assert(s =~= seq![0x22u8] + (varint_bytes(p.len()) + p + t));
    lemma_parse_key_byte(0x22, varint_bytes(p.len()) + p + t);
    lemma_parse_len_payload_encoding(p, t);
    lemma_parse_coin_encoding(c);
}

/// Whether every coin of a request model fits the wire format's length
/// prefixes: true of anything held in real vectors.
pub open spec fn funds_fit(fs: Seq<CoinModel>) -> bool {
    forall|i: int|
        0 <= i < fs.len() ==> (#[trigger] fs[i]).denom.len() < 0x10000000000000000 && fs[i]
            .amount.len() < 0x10000000000000000 && coin_bytes(fs[i]).len() < 0x10000000000000000
}

proof fn lemma_parse_request_funds_all(fs: Seq<CoinModel>, t: Seq<u8>, m: RequestModel)
    requires
        funds_fit(fs),
    ensures
        parse_request_rec(funds_bytes(fs) + t, m) == parse_request_rec(
            t,
            RequestModel { funds: m.funds + fs, ..m },
        ),
    decreases fs.len(),
{
    if fs.len() == 0 {
        assert(funds_bytes(fs) + t =~= t);
        assert(m.funds + fs =~= m.funds);
        assert(RequestModel { funds: m.funds + fs, ..m } =~= m);
    } else {
        let c = fs[0];
        let rest = fs.drop_first();
        assert(funds_bytes(fs) + t =~= len_prefixed(0x22, coin_bytes(c)) + (funds_bytes(rest)
            + t));
        lemma_parse_request_funds_step(c, funds_bytes(rest) + t, m);
        let m1 = RequestModel { funds: m.funds.push(c), ..m };
        assert(funds_fit(rest)) by {
            assert(forall|i: int| 0 <= i < rest.len() ==> rest[i] == fs[i + 1]);
        }
        lemma_parse_request_funds_all(rest, t, m1);
        assert(m1.funds + rest =~= m.funds + fs);
        assert(RequestModel { funds: m1.funds + rest, ..m1 } =~= RequestModel {
            funds: m.funds + fs,
            ..m
        });
    }
}

/// Schema-level round trip for the request: parsing the encoding of any
/// request model yields exactly that model. The length bounds only say that
/// each field fits the wire format's 64-bit length prefix and that the code
/// identifier fits 64 bits, as it does in the typed message.
pub proof fn lemma_parse_request_encoding(m: RequestModel)
    requires
        m.sender.len() < 0x10000000000000000,
        m.code_id < 0x10000000000000000,
        m.msg.len() < 0x10000000000000000,
        m.salt.len() < 0x10000000000000000,
        funds_fit(m.funds),
    ensures
        parse_request(request_bytes(m)) == Ok::<RequestModel, DecodeError>(m),
{
    let e0 = empty_request_model();
    let f1 = opt_bytes_field(0x0a, m.sender);
    let f2 = opt_varint_field(0x10, m.code_id);
    let f3 = opt_bytes_field(0x1a, m.msg);
    let f4 = funds_bytes(m.funds);
    let f5 = opt_bytes_field(0x2a, m.salt);
    let t4 = f5;
    let t3 = f4 + t4;
    let t2 = f3 + t3;
    let t1 = f2 + t2;
    assert(request_bytes(m) =~= f1 + t1);
    if m.sender.len() == 0 {
        assert(m.sender =~= e0.sender);
    }
    if m.msg.len() == 0 {
        assert(m.msg =~= e0.msg);
    }
    if m.salt.len() == 0 {
        assert(m.salt =~= e0.salt);
    }
    lemma_parse_request_opt_bytes_field(1, m.sender, t1, e0);
    let m1 = RequestModel { sender: m.sender, ..e0 };
    lemma_parse_request_opt_code_id(m.code_id, t2, m1);
    let m2 = RequestModel { code_id: m.code_id, ..m1 };
    lemma_parse_request_opt_bytes_field(3, m.msg, t3, m2);
    let m3 = RequestModel { msg: m.msg, ..m2 };
    lemma_parse_request_funds_all(m.funds, t4, m3);
    let m4 = RequestModel { funds: m3.funds + m.funds, ..m3 };
    assert(m4.funds =~= m.funds);
    lemma_parse_request_opt_bytes_field(5, m.salt, Seq::<u8>::empty(), m4);
    let m5 = RequestModel { salt: m.salt, ..m4 };
    assert(opt_bytes_field(0x2a, m.salt) + Seq::<u8>::empty() =~= opt_bytes_field(
        0x2a,
        m.salt,
    ));
    assert(parse_request_rec(Seq::<u8>::empty(), m5) == Ok::<RequestModel, DecodeError>(m5));
    assert(m5 =~= m);
}

/// Encoding is deterministic: any two encodings of one request are equal
/// byte for byte, because both are the one sequence `request_bytes` names.
pub proof fn lemma_encode_deterministic(q: MsgRegisterAccount, b1: Seq<u8>, b2: Seq<u8>)
    requires
        b1 == request_bytes(q.wire_model()),
        b2 == request_bytes(q.wire_model()),
    ensures
        b1 == b2,
{
}

/// Forward compatibility, varint case: a response parse skips one unknown
/// varint-typed field and goes on unchanged.
pub proof fn lemma_response_skips_unknown_varint_field(
    field: nat,
    v: nat,
    t: Seq<u8>,
    m: ResponseModel,
)
    requires
        3 <= field <= 0x1FFFFFFF,
        v < 0x10000000000000000,
    ensures
        parse_response_rec(varint_bytes(field * 8) + varint_bytes(v) + t, m) == parse_response_rec(
            t,
            m,
        ),
{
    let key = field * 8;
    assert(varint_bytes(key) + varint_bytes(v) + t =~= varint_bytes(key) + (varint_bytes(v) + t));
    lemma_parse_varint_encoding(key, varint_bytes(v) + t);
    lemma_parse_varint_encoding(v, t);
}

/// Forward compatibility, length-delimited case: a response parse skips one
/// unknown length-delimited field and goes on unchanged.
pub proof fn lemma_response_skips_unknown_len_field(
    field: nat,
    p: Seq<u8>,
    t: Seq<u8>,
    m: ResponseModel,
)
    requires
        3 <= field <= 0x1FFFFFFF,
        p.len() < 0x10000000000000000,
    ensures
        parse_response_rec(varint_bytes(field * 8 + 2) + varint_bytes(p.len()) + p + t, m)
            == parse_response_rec(t, m),
{
    let key = field * 8 + 2;
    assert(varint_bytes(key) + varint_bytes(p.len()) + p + t =~= varint_bytes(key) + (varint_bytes(
        p.len(),
    ) + p + t));
    lemma_parse_varint_encoding(key, varint_bytes(p.len()) + p + t);
    lemma_parse_len_payload_encoding(p, t);
}

proof fn lemma_varint_all_continuation(s: Seq<u8>, count: nat, acc: nat)
    requires
        count + s.len() <= 9,
        forall|i: int| 0 <= i < s.len() ==> s[i] >= 128,
    ensures
        parse_varint_rec(s, count, acc) == Err::<(nat, Seq<u8>), DecodeError>(
            DecodeError::Truncated,
        ),
    decreases s.len(),
{
    if s.len() > 0 {
        lemma_varint_all_continuation(
            s.drop_first(),
            count + 1,
            (acc + (s[0] - 128) * crate::wire::pow128(count)) as nat,
        );
    }
}

/// Malformed input rejection: a varint cut off by the end of the input —
/// every byte still carrying the continuation bit — is refused as truncated.
pub proof fn lemma_varint_cut_off_rejected(s: Seq<u8>)
    requires
        s.len() <= 9,
        forall|i: int| 0 <= i < s.len() ==> s[i] >= 128,
    ensures
        parse_varint(s) == Err::<(nat, Seq<u8>), DecodeError>(DecodeError::Truncated),
{
    lemma_varint_all_continuation(s, 0, 0);
}

} // verus!
