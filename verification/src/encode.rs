//! The canonical encoding of the two message shapes: tagged fields in tag
//! order, scalar fields omitted when they hold their default value, repeated
//! fields emitted once per element.

use vstd::prelude::*;
use vstd::slice::slice_to_vec;
use crate::messages::{Coin, CoinModel, MsgRegisterAccount, MsgRegisterAccountResponse, RequestModel, ResponseModel};
use crate::wire::varint_bytes;

verus! {

/// A length-delimited field: its one-byte key, the payload length as a
/// varint, then the payload.
pub open spec fn len_prefixed(key: u8, payload: Seq<u8>) -> Seq<u8> {
    seq![key] + varint_bytes(payload.len()) + payload
}

/// A length-delimited field that is omitted when its payload is empty, as
/// string and bytes fields at their default value are.
pub open spec fn opt_bytes_field(key: u8, payload: Seq<u8>) -> Seq<u8> {
    if payload.len() == 0 {
        seq![]
    } else {
        len_prefixed(key, payload)
    }
}

/// A varint field that is omitted when its value is zero.
pub open spec fn opt_varint_field(key: u8, n: nat) -> Seq<u8> {
    if n == 0 {
        seq![]
    } else {
        seq![key] + varint_bytes(n)
    }
}

/// The encoding of one coin: denomination under tag 1, amount under tag 2.
pub open spec fn coin_bytes(c: CoinModel) -> Seq<u8> {
    opt_bytes_field(0x0a, c.denom) + opt_bytes_field(0x12, c.amount)
}

/// The encoding of the funds list: each coin as one length-delimited
/// occurrence of the repeated field under tag 4.
pub open spec fn funds_bytes(fs: Seq<CoinModel>) -> Seq<u8>
    decreases fs.len(),
{
    if fs.len() == 0 {
        seq![]
    } else {
        len_prefixed(0x22, coin_bytes(fs[0])) + funds_bytes(fs.drop_first())
    }
}

/// The encoding of a registration request: sender=1, code_id=2, msg=3,
/// funds=4 (repeated), salt=5.
pub open spec fn request_bytes(m: RequestModel) -> Seq<u8> {
    opt_bytes_field(0x0a, m.sender) + opt_varint_field(0x10, m.code_id) + opt_bytes_field(
        0x1a,
        m.msg,
    ) + funds_bytes(m.funds) + opt_bytes_field(0x2a, m.salt)
}

/// The encoding of a registration response: address=1, data=2.
pub open spec fn response_bytes(m: ResponseModel) -> Seq<u8> {
    opt_bytes_field(0x0a, m.address) + opt_bytes_field(0x12, m.data)
}

/// Appending one coin to the funds list appends one occurrence of the
/// repeated field to the encoding.
pub proof fn lemma_funds_bytes_snoc(fs: Seq<CoinModel>, c: CoinModel)
    ensures
        funds_bytes(fs.push(c)) == funds_bytes(fs) + len_prefixed(0x22, coin_bytes(c)),
    decreases fs.len(),
{
    if fs.len() == 0 {
        assert(fs.push(c)[0] == c);
        assert(fs.push(c).drop_first() =~= fs);
        assert(funds_bytes(fs.push(c)) =~= funds_bytes(fs) + len_prefixed(0x22, coin_bytes(c)));
    } else {
        assert(fs.push(c)[0] == fs[0]);
        assert(fs.push(c).drop_first() =~= fs.drop_first().push(c));
        lemma_funds_bytes_snoc(fs.drop_first(), c);
        assert(funds_bytes(fs.push(c)) =~= funds_bytes(fs) + len_prefixed(0x22, coin_bytes(c)));
    }
}

fn write_bytes(out: &mut Vec<u8>, b: &[u8])
    ensures
        final(out)@ == old(out)@ + b@,
{
    let mut tmp = slice_to_vec(b);
    out.append(&mut tmp);
}

fn write_bytes_field(out: &mut Vec<u8>, key: u8, payload: &[u8])
    ensures
        final(out)@ == old(out)@ + opt_bytes_field(key, payload@),
{
    let ghost pre = out@;
    if payload.len() > 0 {
        out.push(key);
        crate::wire::write_varint(out, payload.len() as u64);
        write_bytes(out, payload);
        assert(out@ =~= pre + opt_bytes_field(key, payload@));
    } else {
        assert(out@ =~= pre + opt_bytes_field(key, payload@));
    }
}

impl Coin {
    /// Encode this coin on its own, as the payload of one occurrence of the
    /// funds field.
    pub fn encode_to_vec(&self) -> (r: Vec<u8>)
        ensures
            r@ == coin_bytes(self.wire_model()),
    {
        let mut out: Vec<u8> = Vec::new();
        write_bytes_field(&mut out, 0x0a, self.denom.as_str().as_bytes());
        write_bytes_field(&mut out, 0x12, self.amount.as_str().as_bytes());
        assert(out@ =~= coin_bytes(self.wire_model()));
        out
    }
}

impl MsgRegisterAccount {
    /// Encode this request deterministically: the result is a function of the
    /// field values alone, stated byte for byte by `request_bytes`.
    pub fn encode_to_vec(&self) -> (r: Vec<u8>)
        ensures
            r@ == request_bytes(self.wire_model()),
    {
        let ghost model = self.wire_model();
        let mut out: Vec<u8> = Vec::new();
        write_bytes_field(&mut out, 0x0a, self.sender.as_str().as_bytes());
        if self.code_id != 0 {
            out.push(0x10);
            crate::wire::write_varint(&mut out, self.code_id);
        }
        let ghost pre_msg = out@;
        write_bytes_field(&mut out, 0x1a, self.msg.as_slice());
        let ghost prefix = out@;
        assert(prefix =~= opt_bytes_field(0x0a, model.sender) + opt_varint_field(
            0x10,
            model.code_id,
        ) + opt_bytes_field(0x1a, model.msg));
        let mut i: usize = 0;
        while i < self.funds.len()
            invariant
                i <= self.funds@.len(),
                model == self.wire_model(),
                prefix == opt_bytes_field(0x0a, model.sender) + opt_varint_field(
                    0x10,
                    model.code_id,
                ) + opt_bytes_field(0x1a, model.msg),
                out@ == prefix + funds_bytes(model.funds.take(i as int)),
            decreases self.funds@.len() - i,
        {
            let cb = self.funds[i].encode_to_vec();
            out.push(0x22);
            crate::wire::write_varint(&mut out, cb.len() as u64);
            write_bytes(&mut out, cb.as_slice());
            proof {
                assert(model.funds.take(i as int).push(self.funds@[i as int].wire_model()) =~= model
                    .funds.take(i + 1));
                lemma_funds_bytes_snoc(
                    model.funds.take(i as int),
                    self.funds@[i as int].wire_model(),
                );
                assert(out@ =~= prefix + funds_bytes(model.funds.take(i + 1)));
            }
            i += 1;
        }
        assert(model.funds.take(self.funds@.len() as int) =~= model.funds);
        write_bytes_field(&mut out, 0x2a, self.salt.as_slice());
        assert(out@ =~= request_bytes(model));
        out
    }
}

impl MsgRegisterAccountResponse {
    /// Encode this response deterministically, stated byte for byte by
    /// `response_bytes`.
    pub fn encode_to_vec(&self) -> (r: Vec<u8>)
        ensures
            r@ == response_bytes(self.wire_model()),
    {
        let mut out: Vec<u8> = Vec::new();
        write_bytes_field(&mut out, 0x0a, self.address.as_str().as_bytes());
        write_bytes_field(&mut out, 0x12, self.data.as_slice());
        assert(out@ =~= response_bytes(self.wire_model()));
        out
    }
}

} // verus!
