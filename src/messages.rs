use crate::base_types::{
    digest_of_bytes, digest_spec, Amount, AuthorityName, Digestible, SequenceNumber, Signature,
    UserData,
};
use vstd::prelude::*;

verus! {

/// The identifier of an account; its shard is the identifier modulo the number of shards.
#[derive(Clone, Copy, Debug, PartialEq, Eq, Structural, PartialOrd, Ord, Hash)]
pub struct AccountId(pub u64);

/// A movement of funds between two accounts, at the sender's sequence number.
#[derive(Clone, Copy, Debug, PartialEq, Eq)]
pub struct Transfer {
    pub sender: AccountId,
    pub recipient: AccountId,
    pub amount: Amount,
    pub sequence_number: SequenceNumber,
    pub user_data: UserData,
}

/// A transfer signed by the owner of the sending account.
#[derive(Clone, Copy, Debug, PartialEq, Eq)]
pub struct TransferOrder {
    pub transfer: Transfer,
    pub signature: Signature,
}

/// The vote of one authority for a transfer order.
#[derive(Clone, Copy, Debug, PartialEq, Eq)]
pub struct SignedTransferOrder {
    pub value: TransferOrder,
    pub authority: AuthorityName,
    pub signature: Signature,
}

/// A transfer order with the votes of a quorum of authorities.
#[derive(Clone, Debug, PartialEq, Eq)]
pub struct CertifiedTransferOrder {
    pub value: TransferOrder,
    pub signatures: Vec<(AuthorityName, Signature)>,
}

/// The eight bytes of a number, least significant first.
pub open spec fn u64_le(v: u64) -> Seq<u8> {
    Seq::new(8, |k: int| ((v >> (8 * k) as u64) & 0xff) as u8)
}

pub open spec fn user_data_bytes(u: UserData) -> Seq<u8> {
    match u.0 {
        None => seq![0u8],
        Some(d) => seq![1u8] + d@,
    }
}

/// The canonical bytes of a transfer, which its digest is taken of.
pub open spec fn transfer_bytes(t: Transfer) -> Seq<u8> {
    u64_le(t.sender.0) + u64_le(t.recipient.0) + u64_le(t.amount.0) + u64_le(
        t.sequence_number.0,
    ) + user_data_bytes(t.user_data)
}

/// Equality of transfers, with the client data compared byte by byte.
pub open spec fn same_transfer(a: Transfer, b: Transfer) -> bool {
    &&& a.sender == b.sender
    &&& a.recipient == b.recipient
    &&& a.amount == b.amount
    &&& a.sequence_number == b.sequence_number
    &&& user_data_bytes(a.user_data) == user_data_bytes(b.user_data)
}

/// Equality of transfer orders, signatures compared byte by byte.
pub open spec fn same_order(a: TransferOrder, b: TransferOrder) -> bool {
    same_transfer(a.transfer, b.transfer) && a.signature.0@ == b.signature.0@
}

/// The number written by eight bytes, least significant first.
pub open spec fn u64_of_le(b: Seq<u8>) -> u64 {
    (b[0] as u64) | ((b[1] as u64) << 8u64) | ((b[2] as u64) << 16u64) | ((b[3] as u64) << 24u64)
        | ((b[4] as u64) << 32u64) | ((b[5] as u64) << 40u64) | ((b[6] as u64) << 48u64) | ((
    b[7] as u64) << 56u64)
}

proof fn lemma_le_bytes_of_number(v: u64)
    ensures
        u64_of_le(u64_le(v)) == v,
{
    let b = u64_le(v);
    assert(b[0] == ((v >> 0u64) & 0xff) as u8);
    assert(b[1] == ((v >> 8u64) & 0xff) as u8);
    assert(b[2] == ((v >> 16u64) & 0xff) as u8);
    assert(b[3] == ((v >> 24u64) & 0xff) as u8);
    assert(b[4] == ((v >> 32u64) & 0xff) as u8);
    assert(b[5] == ((v >> 40u64) & 0xff) as u8);
    assert(b[6] == ((v >> 48u64) & 0xff) as u8);
    assert(b[7] == ((v >> 56u64) & 0xff) as u8);
    assert((((v >> 0u64) & 0xff) as u8 as u64) | ((((v >> 8u64) & 0xff) as u8 as u64) << 8u64) | ((((
    v >> 16u64) & 0xff) as u8 as u64) << 16u64) | ((((v >> 24u64) & 0xff) as u8 as u64) << 24u64) | ((((
    v >> 32u64) & 0xff) as u8 as u64) << 32u64) | ((((v >> 40u64) & 0xff) as u8 as u64) << 40u64) | ((((
    v >> 48u64) & 0xff) as u8 as u64) << 48u64) | ((((v >> 56u64) & 0xff) as u8 as u64) << 56u64) == v)
        by (bit_vector);
}

proof fn lemma_number_of_le_bytes(b: Seq<u8>)
    requires
        b.len() == 8,
    ensures
        u64_le(u64_of_le(b)) == b,
{
    let (b0, b1, b2, b3, b4, b5, b6, b7) = (b[0], b[1], b[2], b[3], b[4], b[5], b[6], b[7]);
    let v = u64_of_le(b);
    assert(v == (b0 as u64) | ((b1 as u64) << 8u64) | ((b2 as u64) << 16u64) | ((b3 as u64) << 24u64)
        | ((b4 as u64) << 32u64) | ((b5 as u64) << 40u64) | ((b6 as u64) << 48u64) | ((b7 as u64)
        << 56u64));
    assert(((v >> 0u64) & 0xff) as u8 == b0 && ((v >> 8u64) & 0xff) as u8 == b1 && ((v >> 16u64) & 0xff) as u8
        == b2 && ((v >> 24u64) & 0xff) as u8 == b3 && ((v >> 32u64) & 0xff) as u8 == b4 && ((v >> 40u64)
        & 0xff) as u8 == b5 && ((v >> 48u64) & 0xff) as u8 == b6 && ((v >> 56u64) & 0xff) as u8 == b7)
        by (bit_vector)
        requires
            v == (b0 as u64) | ((b1 as u64) << 8u64) | ((b2 as u64) << 16u64) | ((b3 as u64) << 24u64)
                | ((b4 as u64) << 32u64) | ((b5 as u64) << 40u64) | ((b6 as u64) << 48u64) | ((
            b7 as u64) << 56u64),
    ;
    assert(u64_le(v) =~= b);
}

/// Whether bytes have the shape of an encoded transfer: four numbers and a
/// tagged, optional 32-byte client datum.
pub open spec fn is_transfer_encoding(b: Seq<u8>) -> bool {
    (b.len() == 33 && b[32] == 0) || (b.len() == 65 && b[32] == 1)
}

/// Encoding keeps every field of a transfer: equal encodings come from equal
/// transfers, and every encoding has the decodable shape. With the contract of
/// `Transfer::from_bytes`, decoding the bytes of a transfer gives it back.
pub proof fn lemma_transfer_round_trip(t: Transfer, u: Transfer)
    requires
        transfer_bytes(u) == transfer_bytes(t),
    ensures
        same_transfer(u, t),
        is_transfer_encoding(transfer_bytes(t)),
{
    let bt = transfer_bytes(t);
    let bu = transfer_bytes(u);
    assert(bt.subrange(0, 8) =~= u64_le(t.sender.0));
    assert(bu.subrange(0, 8) =~= u64_le(u.sender.0));
    assert(bt.subrange(8, 16) =~= u64_le(t.recipient.0));
    assert(bu.subrange(8, 16) =~= u64_le(u.recipient.0));
    assert(bt.subrange(16, 24) =~= u64_le(t.amount.0));
    assert(bu.subrange(16, 24) =~= u64_le(u.amount.0));
    assert(bt.subrange(24, 32) =~= u64_le(t.sequence_number.0));
    assert(bu.subrange(24, 32) =~= u64_le(u.sequence_number.0));
    assert(bt.subrange(32, bt.len() as int) =~= user_data_bytes(t.user_data));
    assert(bu.subrange(32, bu.len() as int) =~= user_data_bytes(u.user_data));
    lemma_le_bytes_of_number(t.sender.0);
    lemma_le_bytes_of_number(u.sender.0);
    lemma_le_bytes_of_number(t.recipient.0);
    lemma_le_bytes_of_number(u.recipient.0);
    lemma_le_bytes_of_number(t.amount.0);
    lemma_le_bytes_of_number(u.amount.0);
    lemma_le_bytes_of_number(t.sequence_number.0);
    lemma_le_bytes_of_number(u.sequence_number.0);
    assert(t.sender.0 == u.sender.0);
    assert(t.recipient.0 == u.recipient.0);
    assert(t.amount.0 == u.amount.0);
    assert(t.sequence_number.0 == u.sequence_number.0);
}

fn read_u64_le(b: &[u8], off: usize) -> (r: u64)
    requires
        off + 8 <= b@.len(),
    ensures
        u64_le(r) == b@.subrange(off as int, off + 8),
{
    let r = (b[off] as u64) | ((b[off + 1] as u64) << 8u64) | ((b[off + 2] as u64) << 16u64) | ((b[off
        + 3] as u64) << 24u64) | ((b[off + 4] as u64) << 32u64) | ((b[off + 5] as u64) << 40u64) | ((b[off
        + 6] as u64) << 48u64) | ((b[off + 7] as u64) << 56u64);
    proof {
        let s = b@.subrange(off as int, off + 8);
        assert(r == u64_of_le(s));
        lemma_number_of_le_bytes(s);
    }
    r
}

/// Whether two byte strings are equal.
pub fn bytes_eq(a: &[u8], b: &[u8]) -> (r: bool)
    ensures
        r == (a@ == b@),
{
    if a.len() != b.len() {
        return false;
    }
    let mut i: usize = 0;
    while i < a.len()
        invariant
            a@.len() == b@.len(),
            i <= a@.len(),
            forall|k: int| 0 <= k < i ==> a@[k] == b@[k],
        decreases a@.len() - i,
    {
        if a[i] != b[i] {
            return false;
        }
        i = i + 1;
    }
    proof {
        assert(a@ =~= b@);
    }
    true
}

fn push_u64_le(out: &mut Vec<u8>, v: u64)
    ensures
        final(out)@ == old(out)@ + u64_le(v),
{
    let ghost start = out@;
    let mut k: u64 = 0;
    while k < 8
        invariant
            k <= 8,
            out@.len() == start.len() + k,
            out@.subrange(0, start.len() as int) == start,
            forall|j: int| 0 <= j < k ==> out@[start.len() + j] == u64_le(v)[j],
        decreases 8 - k,
    {
        out.push(((v >> (8 * k)) & 0xff) as u8);
        k = k + 1;
    }
    proof {
        assert(out@ =~= start + u64_le(v));
    }
}

/// Whether two transfers are the same, client data included.
pub fn transfer_eq(a: &Transfer, b: &Transfer) -> (r: bool)
    ensures
        r == same_transfer(*a, *b),
{
    let same_data = match (a.user_data.0, b.user_data.0) {
        (None, None) => true,
        (Some(x), Some(y)) => {
            let e = bytes_eq(&x, &y);
            proof {
                if !e {
                    assert((seq![1u8] + x@).subrange(1, 33) =~= x@);
                    assert((seq![1u8] + y@).subrange(1, 33) =~= y@);
                }
                assert(seq![1u8] + x@ == seq![1u8] + y@ ==> x@ == y@) by {
                    assert((seq![1u8] + x@).subrange(1, 33) =~= x@);
                    assert((seq![1u8] + y@).subrange(1, 33) =~= y@);
                }
            }
            e
        },
        (None, Some(y)) => {
            proof {
                assert(user_data_bytes(a.user_data).len() != user_data_bytes(b.user_data).len());
            }
            false
        },
        (Some(x), None) => {
            proof {
                assert(user_data_bytes(a.user_data).len() != user_data_bytes(b.user_data).len());
            }
            false
        },
    };
    a.sender == b.sender && a.recipient == b.recipient && a.amount == b.amount
        && a.sequence_number == b.sequence_number && same_data
}

/// Whether two transfer orders are the same, signature bytes included.
pub fn order_eq(a: &TransferOrder, b: &TransferOrder) -> (r: bool)
    ensures
        r == same_order(*a, *b),
{
    transfer_eq(&a.transfer, &b.transfer) && bytes_eq(&a.signature.0, &b.signature.0)
}

impl Transfer {
    /// The canonical bytes of this transfer.
    pub fn to_bytes(&self) -> (r: Vec<u8>)
        ensures
            r@ == transfer_bytes(*self),
    {
        let mut out: Vec<u8> = Vec::new();
        push_u64_le(&mut out, self.sender.0);
        push_u64_le(&mut out, self.recipient.0);
        push_u64_le(&mut out, self.amount.0);
        push_u64_le(&mut out, self.sequence_number.0);
        match self.user_data.0 {
            None => {
                out.push(0u8);
            },
            Some(d) => {
                out.push(1u8);
                let mut i: usize = 0;
                let ghost start = out@;
                while i < 32
                    invariant
                        i <= 32,
                        out@ == start + d@.subrange(0, i as int),
                    decreases 32 - i,
                {
                    out.push(d[i]);
                    proof {
                        assert(d@.subrange(0, i + 1) =~= d@.subrange(0, i as int).push(d@[i as int]));
                    }
                    i = i + 1;
                }
                proof {
                    assert(d@.subrange(0, 32) =~= d@);
                }
            },
        }
        proof {
            assert(out@ =~= transfer_bytes(*self));
        }
        out
    }
}

impl Transfer {
    /// Reads a transfer from its canonical bytes; `None` for bytes of another shape.
    pub fn from_bytes(b: &[u8]) -> (r: Option<Transfer>)
        ensures
            r is Some <==> is_transfer_encoding(b@),
            r is Some ==> transfer_bytes(r->Some_0) == b@,
    {
        let n = b.len();
        if !((n == 33 && b[32] == 0) || (n == 65 && b[32] == 1)) {
            return None;
        }
        let sender = read_u64_le(b, 0);
        let recipient = read_u64_le(b, 8);
        let amount = read_u64_le(b, 16);
        let sequence_number = read_u64_le(b, 24);
        let user_data = if n == 33 {
            UserData(None)
        } else {
            let mut d: [u8; 32] = [0u8; 32];
            let mut i: usize = 0;
            while i < 32
                invariant
                    i <= 32,
                    b@.len() == 65,
                    forall|k: int| 0 <= k < i ==> d@[k] == b@[33 + k],
                decreases 32 - i,
            {
                d[i] = b[33 + i];
                i = i + 1;
            }
            proof {
                assert(d@ =~= b@.subrange(33, 65));
            }
            UserData(Some(d))
        };
        let t = Transfer {
            sender: AccountId(sender),
            recipient: AccountId(recipient),
            amount: Amount(amount),
            sequence_number: SequenceNumber(sequence_number),
            user_data,
        };
        proof {
            assert(b@ =~= b@.subrange(0, 8) + b@.subrange(8, 16) + b@.subrange(16, 24) + b@.subrange(24, 32)
                + b@.subrange(32, n as int));
            if n == 33 {
                assert(b@.subrange(32, 33) =~= seq![0u8]);
            } else {
                assert(b@.subrange(32, 65) =~= seq![1u8] + b@.subrange(33, 65));
            }
            assert(transfer_bytes(t) =~= b@);
        }
        Some(t)
    }
}

impl Digestible for Transfer {
    open spec fn digest_view(&self) -> Seq<u8> {
        digest_spec(transfer_bytes(*self))
    }

    fn digest(&self) -> (r: [u8; 32]) {
        let bytes = self.to_bytes();
        digest_of_bytes(&bytes)
    }
}

impl Digestible for TransferOrder {
    open spec fn digest_view(&self) -> Seq<u8> {
        digest_spec(transfer_bytes(self.transfer))
    }

    fn digest(&self) -> (r: [u8; 32]) {
        self.transfer.digest()
    }
}

impl CertifiedTransferOrder {
    /// A copy of this certificate.
    pub fn duplicate(&self) -> (r: CertifiedTransferOrder)
        ensures
            r.value == self.value,
            r.signatures@ == self.signatures@,
    {
        let mut signatures: Vec<(AuthorityName, Signature)> = Vec::new();
        let mut i: usize = 0;
        while i < self.signatures.len()
            invariant
                i <= self.signatures@.len(),
                signatures@ == self.signatures@.subrange(0, i as int),
            decreases self.signatures@.len() - i,
        {
            let (name, sig) = self.signatures[i];
            signatures.push((name, sig));
            proof {
                assert(self.signatures@.subrange(0, i + 1) =~= self.signatures@.subrange(0, i as int).push(
                    self.signatures@[i as int],
                ));
            }
            i = i + 1;
        }
        proof {
            assert(self.signatures@.subrange(0, i as int) =~= self.signatures@);
        }
        CertifiedTransferOrder { value: self.value, signatures }
    }
}

} // verus!
