use crate::error::FastPayError;
use crate::options::{decimal_value, is_digit};
use ed25519_dalek as dalek;
use ed25519_dalek::Verifier;
use sha2::Digest;
use std::convert::TryFrom;
use vstd::prelude::*;

verus! {

/// Length in bytes of an Ed25519 public key.
pub const PUBLIC_KEY_LENGTH: usize = 32;

/// Length in bytes of an Ed25519 signature.
pub const SIGNATURE_LENGTH: usize = 64;

/// An unsigned quantity of money carried by a transfer.
#[derive(Clone, Copy, Debug, Default, PartialEq, Eq, Structural, PartialOrd, Ord, Hash)]
pub struct Amount(pub u64);

/// The signed balance of an account.
#[derive(Clone, Copy, Debug, Default, PartialEq, Eq, Structural, PartialOrd, Ord, Hash)]
pub struct Balance(pub i128);

/// The number of the next outgoing transfer of an account.
#[derive(Clone, Copy, Debug, Default, PartialEq, Eq, Structural, PartialOrd, Ord, Hash)]
pub struct SequenceNumber(pub u64);

pub type ShardId = u32;

pub type VersionNumber = SequenceNumber;

/// Optional client data attached to a transfer.
#[derive(Clone, Copy, Debug, Default, PartialEq, Eq, PartialOrd, Ord, Hash)]
pub struct UserData(pub Option<[u8; 32]>);

/// The bytes of an Ed25519 public key: an address or an authority name.
#[derive(Clone, Copy, Debug, PartialEq, Eq, PartialOrd, Ord, Hash)]
pub struct EdPublicKeyBytes(pub [u8; 32]);

pub type PrimaryAddress = EdPublicKeyBytes;

pub type FastPayAddress = EdPublicKeyBytes;

pub type AuthorityName = EdPublicKeyBytes;

/// The bytes of an Ed25519 signature.
#[derive(Clone, Copy, Debug, PartialEq, Eq, Hash)]
pub struct Signature(pub [u8; 64]);

/// An Ed25519 secret key, held as its 32-byte seed. It has no `Clone`: a
/// duplicate is made only by `copy`.
pub struct SecretKey([u8; 32]);

impl SecretKey {
    /// The seed bytes of this key.
    pub closed spec fn seed(&self) -> Seq<u8> {
        self.0@
    }
}

/// A seed is 32 bytes long.
pub proof fn lemma_seed_length(key: &SecretKey)
    ensures
        key.seed().len() == 32,
{
}

impl EdPublicKeyBytes {
    pub open spec fn view(self) -> Seq<u8> {
        self.0@
    }
}

/// Whether two keys hold the same bytes.
pub fn key_bytes_eq(a: &EdPublicKeyBytes, b: &EdPublicKeyBytes) -> (r: bool)
    ensures
        r == (a.0@ == b.0@),
{
    let mut i: usize = 0;
    while i < 32
        invariant
            i <= 32,
            forall|k: int| 0 <= k < i ==> a.0@[k] == b.0@[k],
        decreases 32 - i,
    {
        if a.0[i] != b.0[i] {
            return false;
        }
        i = i + 1;
    }
    proof {
        assert(a.0@ =~= b.0@);
    }
    true
}

/// The public key of an Ed25519 seed.
pub uninterp spec fn ed25519_public_of(seed: Seq<u8>) -> Seq<u8>;

/// The Ed25519 signature of a message under a seed; signing is deterministic.
pub uninterp spec fn ed25519_sign_of(seed: Seq<u8>, message: Seq<u8>) -> Seq<u8>;

/// Relies on ed25519_dalek::Keypair::generate, fed by rand's OsRng: the seed of
/// a fresh key pair.
#[verifier::external_body]
fn generate_seed() -> (r: [u8; 32]) {
    let mut csprng = rand::rngs::OsRng;
    dalek::Keypair::generate(&mut csprng).secret.to_bytes()
}

/// Relies on ed25519_dalek::PublicKey::from, applied to the seed read with
/// SecretKey::from_bytes (which accepts every 32-byte string).
#[verifier::external_body]
fn public_of_seed(seed: &[u8; 32]) -> (r: [u8; 32])
    ensures
        r@ == ed25519_public_of(seed@),
{
    let secret = dalek::SecretKey::from_bytes(seed).unwrap();
    dalek::PublicKey::from(&secret).to_bytes()
}

/// Relies on ed25519_dalek::ExpandedSecretKey::sign, with the key expanded from
/// the seed and its public key: the deterministic signature of the message,
/// which PublicKey::verify accepts under that public key.
#[verifier::external_body]
fn sign_with_seed(seed: &[u8; 32], message: &[u8; 32]) -> (r: [u8; 64])
    ensures
        r@ == ed25519_sign_of(seed@, message@),
        ed25519_accepts(ed25519_public_of(seed@), message@, r@),
{
    let secret = dalek::SecretKey::from_bytes(seed).unwrap();
    let public = dalek::PublicKey::from(&secret);
    dalek::ExpandedSecretKey::from(&secret).sign(message, &public).to_bytes()
}

/// What Ed25519 verification decides for a key, a message and a signature.
pub uninterp spec fn ed25519_accepts(key: Seq<u8>, message: Seq<u8>, signature: Seq<u8>) -> bool;

/// Relies on ed25519_dalek::PublicKey::verify, after reading the key with
/// PublicKey::from_bytes and the signature with Signature::from_bytes. The
/// outcome depends on the three byte strings alone.
#[verifier::external_body]
fn ed25519_verify(key: &[u8; 32], message: &[u8; 32], signature: &[u8; 64]) -> (r: Result<
    (),
    String,
>)
    ensures
        r is Ok <==> ed25519_accepts(key@, message@, signature@),
{
    let public_key = dalek::PublicKey::from_bytes(key).map_err(|e| e.to_string())?;
    let sig = dalek::Signature::from_bytes(signature).map_err(|e| e.to_string())?;
    public_key.verify(message, &sig).map_err(|e| e.to_string())
}

/// Whether 32 bytes decode to a point of the curve, as
/// ed25519_dalek::PublicKey::from_bytes decides.
pub uninterp spec fn ed25519_point(key: Seq<u8>) -> bool;

/// Whether the top three bits of a signature's scalar are clear, which
/// ed25519::Signature::from_bytes demands.
pub open spec fn signature_scalar_reduced(signature: Seq<u8>) -> bool {
    signature[63] & 0xe0u8 == 0
}

/// Relies on ed25519_dalek::verify_batch, one message for every key, after the
/// keys are read with PublicKey::from_bytes and the signatures with
/// Signature::from_bytes. The batch equation is checked with random weights, so
/// only what those two readings decide is stated: an accepted batch has keys
/// that are curve points and signatures whose scalars have their top bits clear.
#[verifier::external_body]
fn ed25519_verify_batch(message: &[u8; 32], keys: &Vec<[u8; 32]>, signatures: &Vec<[u8; 64]>) -> (r:
    Result<(), String>)
    requires
        keys@.len() == signatures@.len(),
    ensures
        r is Ok ==> forall|i: int|
            0 <= i < keys@.len() ==> ed25519_point(keys@[i]@) && signature_scalar_reduced(
                signatures@[i]@,
            ),
{
    let messages: Vec<&[u8]> = vec![&message[..]; keys.len()];
    let sigs: Result<Vec<dalek::Signature>, _> = signatures.iter().map(|s| dalek::Signature::from_bytes(s)).collect();
    let public_keys: Result<Vec<dalek::PublicKey>, _> = keys.iter().map(|k| dalek::PublicKey::from_bytes(k)).collect();
    let (sigs, public_keys) = (sigs.map_err(|e| e.to_string())?, public_keys.map_err(|e| e.to_string())?);
    dalek::verify_batch(&messages[..], &sigs[..], &public_keys[..]).map_err(|e| e.to_string())
}

/// The SHA-512 hash of a byte string.
pub uninterp spec fn sha512_of(data: Seq<u8>) -> Seq<u8>;

/// Relies on sha2::Sha512: the 64-byte hash of the input.
#[verifier::external_body]
fn sha512(data: &Vec<u8>) -> (r: Vec<u8>)
    ensures
        r@ == sha512_of(data@),
        r@.len() == 64,
{
    let mut h = sha2::Sha512::new();
    h.update(&data[..]);
    h.finalize().to_vec()
}

/// The digest of a byte string: the first half of its SHA-512 hash.
pub open spec fn digest_spec(data: Seq<u8>) -> Seq<u8> {
    sha512_of(data).subrange(0, 32)
}

/// Hashes the canonical bytes of a value into its 32-byte digest.
pub fn digest_of_bytes(data: &Vec<u8>) -> (r: [u8; 32])
    ensures
        r@ == digest_spec(data@),
{
    let h = sha512(data);
    let mut d: [u8; 32] = [0u8; 32];
    let mut i: usize = 0;
    while i < 32
        invariant
            i <= 32,
            h@.len() == 64,
            h@ == sha512_of(data@),
            forall|k: int| 0 <= k < i ==> d@[k] == h@[k],
        decreases 32 - i,
    {
        d[i] = h[i];
        i = i + 1;
    }
    proof {
        assert(d@ =~= sha512_of(data@).subrange(0, 32));
    }
    d
}

/// A value that is signed through a digest of its canonical bytes.
pub trait Digestible {
    spec fn digest_view(&self) -> Seq<u8>;

    fn digest(&self) -> (r: [u8; 32])
        ensures
            r@ == self.digest_view(),
    ;
}

/// A fresh key pair and its address.
pub fn get_key_pair() -> (r: (FastPayAddress, SecretKey))
    ensures
        r.0.0@ == ed25519_public_of(r.1.seed()),
{
    let seed = generate_seed();
    let public = public_of_seed(&seed);
    (EdPublicKeyBytes(public), SecretKey(seed))
}

/// The 64 characters of the standard base64 alphabet, in order.
pub open spec fn base64_alphabet() -> Seq<char> {
    seq![
        'A', 'B', 'C', 'D', 'E', 'F', 'G', 'H', 'I', 'J', 'K', 'L', 'M', 'N', 'O', 'P', 'Q',
        'R', 'S', 'T', 'U', 'V', 'W', 'X', 'Y', 'Z', 'a', 'b', 'c', 'd', 'e', 'f', 'g', 'h',
        'i', 'j', 'k', 'l', 'm', 'n', 'o', 'p', 'q', 'r', 's', 't', 'u', 'v', 'w', 'x', 'y',
        'z', '0', '1', '2', '3', '4', '5', '6', '7', '8', '9', '+', '/',
    ]
}

/// The character of a six-bit value.
pub open spec fn base64_digit(v: int) -> char {
    base64_alphabet()[v]
}

/// The standard, padded base64 text of a byte string: four characters for
/// every three bytes, the last group padded with `=`.
pub open spec fn base64_of(data: Seq<u8>) -> Seq<char>
    decreases data.len(),
{
    if data.len() == 0 {
        Seq::empty()
    } else {
        let b0 = data[0] as int;
        let b1 = if data.len() > 1 { data[1] as int } else { 0 };
        let b2 = if data.len() > 2 { data[2] as int } else { 0 };
        let c0 = base64_digit(b0 / 4);
        let c1 = base64_digit((b0 % 4) * 16 + b1 / 16);
        let c2 = base64_digit((b1 % 16) * 4 + b2 / 64);
        let c3 = base64_digit(b2 % 64);
        if data.len() == 1 {
            seq![c0, c1, '=', '=']
        } else if data.len() == 2 {
            seq![c0, c1, c2, '=']
        } else {
            seq![c0, c1, c2, c3] + base64_of(data.subrange(3, data.len() as int))
        }
    }
}

/// The bytes that a text decodes to in standard base64, where it is valid.
pub uninterp spec fn base64_decoded(text: Seq<char>) -> Option<Seq<u8>>;

/// Relies on base64::encode: the standard, padded encoding of the input, four
/// characters for every three bytes begun, which base64::decode reads back.
#[verifier::external_body]
fn base64_encode(data: &[u8]) -> (r: String)
    ensures
        r@ == base64_of(data@),
        r@.len() == 4 * ((data@.len() + 2) / 3),
        base64_decoded(r@) == Some(data@),
{
    base64::encode(data)
}

/// Relies on base64::decode: the bytes of a standard base64 text, or its error.
#[verifier::external_body]
fn base64_decode(text: &str) -> (r: Result<Vec<u8>, String>)
    ensures
        r is Ok <==> base64_decoded(text@) is Some,
        r is Ok ==> base64_decoded(text@) == Some(r->Ok_0@),
{
    base64::decode(text).map_err(|e| e.to_string())
}

/// The base64 text of an address.
pub fn encode_address(key: &EdPublicKeyBytes) -> (r: String)
    ensures
        r@ == base64_of(key.0@),
        r@.len() == 44,
        base64_decoded(r@) == Some(key.0@),
{
    base64_encode(&key.0)
}

/// Reads an address from base64; a text that is not base64, or that does not
/// decode to exactly 32 bytes, is refused with `InvalidSignature`.
pub fn decode_address(s: &str) -> (r: Result<EdPublicKeyBytes, FastPayError>)
    ensures
        r is Ok <==> (base64_decoded(s@) is Some && base64_decoded(s@)->Some_0.len() == 32),
        r is Ok ==> base64_decoded(s@) == Some(r->Ok_0.0@),
        r is Err ==> r->Err_0 is InvalidSignature,
{
    let value = match base64_decode(s) {
        Ok(value) => value,
        Err(error) => return Err(FastPayError::InvalidSignature { error }),
    };
    if value.len() != PUBLIC_KEY_LENGTH {
        return Err(FastPayError::InvalidSignature { error: "bad key length".to_string() });
    }
    let mut address: [u8; 32] = [0u8; 32];
    let mut i: usize = 0;
    while i < 32
        invariant
            i <= 32,
            value@.len() == 32,
            forall|k: int| 0 <= k < i ==> address@[k] == value@[k],
        decreases 32 - i,
    {
        address[i] = value[i];
        i = i + 1;
    }
    proof {
        assert(address@ =~= value@);
    }
    Ok(EdPublicKeyBytes(address))
}

/// A fake address made of one repeated byte, for tests and examples.
pub fn dbg_addr(name: u8) -> (r: FastPayAddress)
    ensures
        forall|i: int| 0 <= i < 32 ==> r.0@[i] == name,
{
    EdPublicKeyBytes([name; 32])
}

impl SecretKey {
    /// A second handle on the same key.
    pub fn copy(&self) -> (r: SecretKey)
        ensures
            r.seed() == self.seed(),
    {
        SecretKey(self.0)
    }

    /// The address of this key.
    pub fn public(&self) -> (r: EdPublicKeyBytes)
        ensures
            r.0@ == ed25519_public_of(self.seed()),
    {
        EdPublicKeyBytes(public_of_seed(&self.0))
    }

    /// The base64 text of the seed.
    pub fn to_base64(&self) -> (r: String)
        ensures
            r@ == base64_of(self.seed()),
            r@.len() == 44,
            base64_decoded(r@) == Some(self.seed()),
            self.seed().len() == 32,
    {
        base64_encode(&self.0)
    }

    /// Reads a seed from base64; a text that is not base64, or that does not
    /// decode to exactly 32 bytes, is refused with `InvalidSignature`.
    pub fn from_base64(s: &str) -> (r: Result<SecretKey, FastPayError>)
        ensures
            r is Ok <==> (base64_decoded(s@) is Some && base64_decoded(s@)->Some_0.len() == 32),
            r is Ok ==> base64_decoded(s@) == Some(r->Ok_0.seed()),
            r is Err ==> r->Err_0 is InvalidSignature,
    {
        match decode_address(s) {
            Ok(bytes) => Ok(SecretKey(bytes.0)),
            Err(e) => Err(e),
        }
    }

    /// Signs a 32-byte message.
    pub fn sign_message(&self, message: &[u8; 32]) -> (r: [u8; 64])
        ensures
            r@ == ed25519_sign_of(self.seed(), message@),
            ed25519_accepts(ed25519_public_of(self.seed()), message@, r@),
    {
        sign_with_seed(&self.0, message)
    }
}

impl Signature {
    /// Signs the digest of a value.
    pub fn new<T: Digestible>(value: &T, secret: &SecretKey) -> (r: Signature)
        ensures
            r.0@ == ed25519_sign_of(secret.seed(), value.digest_view()),
            ed25519_accepts(ed25519_public_of(secret.seed()), value.digest_view(), r.0@),
    {
        let message = value.digest();
        Signature(secret.sign_message(&message))
    }

    /// Checks this signature of `author` over the digest of a value.
    pub fn check<T: Digestible>(&self, value: &T, author: FastPayAddress) -> (r: Result<
        (),
        FastPayError,
    >)
        ensures
            r is Ok <==> ed25519_accepts(author.0@, value.digest_view(), self.0@),
            r is Err ==> r->Err_0 is InvalidSignature,
    {
        let message = value.digest();
        match ed25519_verify(&author.0, &message, &self.0) {
            Ok(()) => Ok(()),
            Err(error) => Err(FastPayError::InvalidSignature { error }),
        }
    }

    /// Checks a batch of signatures over the digest of one value. An accepted
    /// batch has keys that are curve points and well-formed signatures; a
    /// rejection is reported as `InvalidSignature`.
    pub fn verify_batch<T: Digestible>(value: &T, votes: &Vec<(FastPayAddress, Signature)>) -> (r:
        Result<(), FastPayError>)
        ensures
            r is Ok ==> forall|j: int|
                0 <= j < votes@.len() ==> ed25519_point(#[trigger] votes@[j].0.0@)
                    && signature_scalar_reduced(votes@[j].1.0@),
            r is Err ==> r->Err_0 is InvalidSignature,
    {
        let message = value.digest();
        let (keys, signatures) = split_votes(votes);
        match ed25519_verify_batch(&message, &keys, &signatures) {
            Ok(()) => {
                proof {
                    assert forall|j: int| 0 <= j < votes@.len() implies ed25519_point(
                        #[trigger] votes@[j].0.0@,
                    ) && signature_scalar_reduced(votes@[j].1.0@) by {
                        assert(keys@[j] == votes@[j].0.0);
                        assert(signatures@[j] == votes@[j].1.0);
                    }
                }
                Ok(())
            },
            Err(error) => Err(FastPayError::InvalidSignature { error }),
        }
    }
}

/// The keys and the signatures of a list of votes, in their order.
pub fn split_votes(votes: &Vec<(FastPayAddress, Signature)>) -> (r: (Vec<[u8; 32]>, Vec<[u8; 64]>))
    ensures
        r.0@.len() == votes@.len(),
        r.1@.len() == votes@.len(),
        forall|k: int|
            0 <= k < votes@.len() ==> r.0@[k] == votes@[k].0.0 && r.1@[k] == votes@[k].1.0,
{
    let mut keys: Vec<[u8; 32]> = Vec::new();
    let mut signatures: Vec<[u8; 64]> = Vec::new();
    let mut i: usize = 0;
    while i < votes.len()
        invariant
            i <= votes@.len(),
            keys@.len() == i,
            signatures@.len() == i,
            forall|k: int| 0 <= k < i ==> keys@[k] == votes@[k].0.0 && signatures@[k] == votes@[k].1.0,
        decreases votes@.len() - i,
    {
        keys.push(votes[i].0.0);
        signatures.push(votes[i].1.0);
        i = i + 1;
    }
    (keys, signatures)
}

impl Amount {
    pub fn zero() -> (r: Self)
        ensures
            r.0 == 0,
    {
        Amount(0)
    }

    pub fn try_add(self, other: Self) -> (r: Result<Self, FastPayError>)
        ensures
            self.0 + other.0 <= u64::MAX ==> r == Ok::<Self, FastPayError>(Amount((self.0 + other.0) as u64)),
            self.0 + other.0 > u64::MAX ==> r == Err::<Self, FastPayError>(FastPayError::AmountOverflow),
    {
        match self.0.checked_add(other.0) {
            None => Err(FastPayError::AmountOverflow),
            Some(val) => Ok(Amount(val)),
        }
    }

    pub fn try_sub(self, other: Self) -> (r: Result<Self, FastPayError>)
        ensures
            self.0 >= other.0 ==> r == Ok::<Self, FastPayError>(Amount((self.0 - other.0) as u64)),
            self.0 < other.0 ==> r == Err::<Self, FastPayError>(FastPayError::AmountUnderflow),
    {
        match self.0.checked_sub(other.0) {
            None => Err(FastPayError::AmountUnderflow),
            Some(val) => Ok(Amount(val)),
        }
    }
}

impl Balance {
    pub fn zero() -> (r: Self)
        ensures
            r.0 == 0,
    {
        Balance(0)
    }

    pub fn max() -> (r: Self)
        ensures
            r.0 == i128::MAX,
    {
        Balance(i128::MAX)
    }

    pub fn try_add(&self, other: Self) -> (r: Result<Self, FastPayError>)
        ensures
            i128::MIN <= self.0 + other.0 <= i128::MAX ==> r == Ok::<Self, FastPayError>(Balance((self.0 + other.0) as i128)),
            !(i128::MIN <= self.0 + other.0 <= i128::MAX) ==> r == Err::<Self, FastPayError>(FastPayError::BalanceOverflow),
    {
        match self.0.checked_add(other.0) {
            None => Err(FastPayError::BalanceOverflow),
            Some(val) => Ok(Balance(val)),
        }
    }

    pub fn try_sub(&self, other: Self) -> (r: Result<Self, FastPayError>)
        ensures
            i128::MIN <= self.0 - other.0 <= i128::MAX ==> r == Ok::<Self, FastPayError>(Balance((self.0 - other.0) as i128)),
            !(i128::MIN <= self.0 - other.0 <= i128::MAX) ==> r == Err::<Self, FastPayError>(FastPayError::BalanceUnderflow),
    {
        match self.0.checked_sub(other.0) {
            None => Err(FastPayError::BalanceUnderflow),
            Some(val) => Ok(Balance(val)),
        }
    }
}

impl SequenceNumber {
    pub fn new() -> (r: Self)
        ensures
            r.0 == 0,
    {
        SequenceNumber(0)
    }

    pub fn max() -> (r: Self)
        ensures
            r.0 == 0x7fff_ffff_ffff_ffff,
    {
        SequenceNumber(0x7fff_ffff_ffff_ffff)
    }

    pub fn increment(self) -> (r: Result<SequenceNumber, FastPayError>)
        ensures
            self.0 < 0x7fff_ffff_ffff_ffff ==> r == Ok::<Self, FastPayError>(SequenceNumber((self.0 + 1) as u64)),
            self.0 >= 0x7fff_ffff_ffff_ffff ==> r == Err::<Self, FastPayError>(FastPayError::SequenceOverflow),
    {
        if self.0 >= 0x7fff_ffff_ffff_ffff {
            Err(FastPayError::SequenceOverflow)
        } else {
            Ok(SequenceNumber(self.0 + 1))
        }
    }

    pub fn decrement(self) -> (r: Result<SequenceNumber, FastPayError>)
        ensures
            self.0 > 0 ==> r == Ok::<Self, FastPayError>(SequenceNumber((self.0 - 1) as u64)),
            self.0 == 0 ==> r == Err::<Self, FastPayError>(FastPayError::SequenceUnderflow),
    {
        match self.0.checked_sub(1) {
            None => Err(FastPayError::SequenceUnderflow),
            Some(val) => Ok(SequenceNumber(val)),
        }
    }
}

impl From<u64> for Amount {
    fn from(value: u64) -> (r: Amount) {
        Amount(value)
    }
}

impl vstd::std_specs::convert::FromSpecImpl<u64> for Amount {
    open spec fn obeys_from_spec() -> bool {
        true
    }

    open spec fn from_spec(v: u64) -> Amount {
        Amount(v)
    }
}

impl From<Amount> for Balance {
    fn from(value: Amount) -> (r: Balance) {
        Balance(value.0 as i128)
    }
}

impl vstd::std_specs::convert::FromSpecImpl<Amount> for Balance {
    open spec fn obeys_from_spec() -> bool {
        true
    }

    open spec fn from_spec(v: Amount) -> Balance {
        Balance(v.0 as i128)
    }
}

impl From<i128> for Balance {
    fn from(value: i128) -> (r: Balance) {
        Balance(value)
    }
}

impl vstd::std_specs::convert::FromSpecImpl<i128> for Balance {
    open spec fn obeys_from_spec() -> bool {
        true
    }

    open spec fn from_spec(v: i128) -> Balance {
        Balance(v)
    }
}

impl From<u64> for SequenceNumber {
    fn from(value: u64) -> (r: SequenceNumber) {
        SequenceNumber(value)
    }
}

impl vstd::std_specs::convert::FromSpecImpl<u64> for SequenceNumber {
    open spec fn obeys_from_spec() -> bool {
        true
    }

    open spec fn from_spec(v: u64) -> SequenceNumber {
        SequenceNumber(v)
    }
}

impl From<Amount> for u64 {
    fn from(value: Amount) -> (r: u64) {
        value.0
    }
}

impl vstd::std_specs::convert::FromSpecImpl<Amount> for u64 {
    open spec fn obeys_from_spec() -> bool {
        true
    }

    open spec fn from_spec(v: Amount) -> u64 {
        v.0
    }
}

impl From<SequenceNumber> for u64 {
    fn from(value: SequenceNumber) -> (r: u64) {
        value.0
    }
}

impl vstd::std_specs::convert::FromSpecImpl<SequenceNumber> for u64 {
    open spec fn obeys_from_spec() -> bool {
        true
    }

    open spec fn from_spec(v: SequenceNumber) -> u64 {
        v.0
    }
}

impl From<SequenceNumber> for usize {
    fn from(value: SequenceNumber) -> (r: usize) {
        value.0 as usize
    }
}

impl vstd::std_specs::convert::FromSpecImpl<SequenceNumber> for usize {
    open spec fn obeys_from_spec() -> bool {
        true
    }

    open spec fn from_spec(v: SequenceNumber) -> usize {
        v.0 as usize
    }
}

impl TryFrom<Balance> for Amount {
    type Error = std::num::TryFromIntError;

    fn try_from(value: Balance) -> Result<Amount, std::num::TryFromIntError> {
        match u64::try_from(value.0) {
            Ok(v) => Ok(Amount(v)),
            Err(e) => Err(e),
        }
    }
}

impl vstd::std_specs::convert::TryFromSpecImpl<Balance> for Amount {
    open spec fn obeys_try_from_spec() -> bool {
        true
    }

    open spec fn try_from_spec(v: Balance) -> Result<Amount, std::num::TryFromIntError> {
        if 0 <= v.0 <= u64::MAX {
            Ok(Amount(v.0 as u64))
        } else {
            Err(arbitrary())
        }
    }
}

#[verifier::external_type_specification]
#[verifier::external_body]
pub struct ExParseIntError(std::num::ParseIntError);

/// The integer that a text writes in decimal: an optional `+` or `-`, then one
/// or more digits, with a value that fits in an `i128`.
pub open spec fn signed_decimal(s: Seq<char>) -> Option<int> {
    let negative = s.len() > 0 && s[0] == '-';
    let digits = if s.len() > 0 && (s[0] == '-' || s[0] == '+') {
        s.drop_first()
    } else {
        s
    };
    let v = if negative {
        -decimal_value(digits)
    } else {
        decimal_value(digits)
    };
    if digits.len() > 0 && (forall|i: int| 0 <= i < digits.len() ==> is_digit(#[trigger] digits[i]))
        && i128::MIN <= v <= i128::MAX {
        Some(v)
    } else {
        None
    }
}

/// Relies on i128's FromStr: an optional sign followed by decimal digits,
/// refused where the value does not fit.
#[verifier::external_body]
fn parse_i128(src: &str) -> (r: Result<i128, std::num::ParseIntError>)
    ensures
        r is Ok <==> signed_decimal(src@) is Some,
        r is Ok ==> r->Ok_0 == signed_decimal(src@)->Some_0,
{
    src.parse::<i128>()
}

impl Balance {
    /// Reads a balance written in decimal, with an optional sign.
    pub fn parse(src: &str) -> (r: Result<Balance, std::num::ParseIntError>)
        ensures
            r is Ok <==> signed_decimal(src@) is Some,
            r is Ok ==> r->Ok_0.0 == signed_decimal(src@)->Some_0,
    {
        match parse_i128(src) {
            Ok(v) => Ok(Balance(v)),
            Err(e) => Err(e),
        }
    }
}

impl std::str::FromStr for Balance {
    type Err = std::num::ParseIntError;

    fn from_str(src: &str) -> Result<Balance, std::num::ParseIntError> {
        Balance::parse(src)
    }
}

} // verus!
