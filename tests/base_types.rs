use std::convert::TryFrom;
use std::str::FromStr;
use fastpay_core::base_types::{decode_address, encode_address};
use fastpay_core::base_types::{dbg_addr, get_key_pair, Amount, Balance, SequenceNumber, Signature};
use fastpay_core::error::FastPayError;
use fastpay_core::messages::{AccountId, Transfer};
use fastpay_core::base_types::{Digestible, UserData};

#[test]
fn amount_arithmetic() {
    assert_eq!(Amount::zero(), Amount(0));
    assert_eq!(Amount(3).try_add(Amount(4)), Ok(Amount(7)));
    assert_eq!(Amount(u64::MAX).try_add(Amount(1)), Err(FastPayError::AmountOverflow));
    assert_eq!(Amount(4).try_sub(Amount(3)), Ok(Amount(1)));
    assert_eq!(Amount(3).try_sub(Amount(4)), Err(FastPayError::AmountUnderflow));
}

#[test]
fn balance_arithmetic() {
    assert_eq!(Balance::zero(), Balance(0));
    assert_eq!(Balance::max(), Balance(i128::MAX));
    assert_eq!(Balance(-5).try_add(Balance(7)), Ok(Balance(2)));
    assert_eq!(Balance::max().try_add(Balance(1)), Err(FastPayError::BalanceOverflow));
    assert_eq!(Balance(0).try_sub(Balance(10)), Ok(Balance(-10)));
    assert_eq!(Balance(i128::MIN).try_sub(Balance(1)), Err(FastPayError::BalanceUnderflow));
    assert_eq!(Balance::from(Amount(42)), Balance(42));
}

#[test]
fn sequence_numbers() {
    assert_eq!(SequenceNumber::new(), SequenceNumber(0));
    assert_eq!(SequenceNumber::max(), SequenceNumber(0x7fff_ffff_ffff_ffff));
    assert_eq!(SequenceNumber(1).increment(), Ok(SequenceNumber(2)));
    assert_eq!(SequenceNumber(u64::MAX).increment(), Err(FastPayError::SequenceOverflow));
    assert_eq!(SequenceNumber(1).decrement(), Ok(SequenceNumber(0)));
    assert_eq!(SequenceNumber::new().decrement(), Err(FastPayError::SequenceUnderflow));
    assert_eq!(SequenceNumber::from(9u64), SequenceNumber(9));
}

#[test]
fn debug_address_repeats_its_byte() {
    assert_eq!(dbg_addr(7).0, [7u8; 32]);
}

fn sample_transfer() -> Transfer {
    Transfer {
        sender: AccountId(1),
        recipient: AccountId(2),
        amount: Amount(5),
        sequence_number: SequenceNumber(0),
        user_data: UserData(None),
    }
}

#[test]
fn transfer_bytes_are_canonical() {
    let t = sample_transfer();
    let bytes = t.to_bytes();
    assert_eq!(bytes.len(), 33);
    assert_eq!(&bytes[0..8], &[1, 0, 0, 0, 0, 0, 0, 0]);
    assert_eq!(&bytes[8..16], &[2, 0, 0, 0, 0, 0, 0, 0]);
    assert_eq!(&bytes[16..24], &[5, 0, 0, 0, 0, 0, 0, 0]);
    assert_eq!(bytes[32], 0);
    let with_data = Transfer { user_data: UserData(Some([9u8; 32])), ..t };
    let bytes = with_data.to_bytes();
    assert_eq!(bytes.len(), 65);
    assert_eq!(bytes[32], 1);
    assert_eq!(bytes[64], 9);
}

#[test]
fn digest_depends_on_content() {
    let t = sample_transfer();
    let d = t.digest();
    assert_ne!(d, [0u8; 32]);
    assert_eq!(d, sample_transfer().digest());
    let other = Transfer { amount: Amount(6), ..t };
    assert_ne!(d, other.digest());
}

#[test]
fn signatures_check_against_their_author() {
    let (address, secret) = get_key_pair();
    let (other, _) = get_key_pair();
    let t = sample_transfer();
    let sig = Signature::new(&t, &secret);
    assert_eq!(sig.check(&t, address), Ok(()));
    assert!(matches!(sig.check(&t, other), Err(FastPayError::InvalidSignature { .. })));
    let changed = Transfer { amount: Amount(6), ..t };
    assert!(sig.check(&changed, address).is_err());
    assert_eq!(secret.public(), address);
    assert_eq!(secret.copy().public(), address);
    let votes = vec![(address, sig)];
    assert_eq!(Signature::verify_batch(&t, &votes), Ok(()));
    let bad = vec![(other, sig)];
    assert!(Signature::verify_batch(&t, &bad).is_err());
}

#[test]
fn transfer_bytes_round_trip() {
    let t = sample_transfer();
    assert_eq!(Transfer::from_bytes(&t.to_bytes()), Some(t));
    let with_data = Transfer { user_data: UserData(Some([3u8; 32])), sequence_number: SequenceNumber(u64::MAX), ..t };
    assert_eq!(Transfer::from_bytes(&with_data.to_bytes()), Some(with_data));
    let mut bad = t.to_bytes();
    bad[32] = 2;
    assert_eq!(Transfer::from_bytes(&bad), None);
    assert_eq!(Transfer::from_bytes(&[0u8; 10]), None);
}

#[test]
fn address_base64_round_trip() {
    let a = dbg_addr(1);
    let text = encode_address(&a);
    assert_eq!(text, "AQEBAQEBAQEBAQEBAQEBAQEBAQEBAQEBAQEBAQEBAQE=");
    assert_eq!(decode_address(&text), Ok(a));
    assert!(matches!(decode_address("AQID"), Err(FastPayError::InvalidSignature { .. })));
    assert!(matches!(decode_address("not base64!"), Err(FastPayError::InvalidSignature { .. })));
}

#[test]
fn sequence_numbers_stop_at_their_maximum() {
    let max = SequenceNumber::max();
    assert_eq!(max.increment(), Err(FastPayError::SequenceOverflow));
    assert_eq!(SequenceNumber(0x7fff_ffff_ffff_fffe).increment(), Ok(max));
}

#[test]
fn conversions() {
    assert_eq!(u64::from(Amount(5)), 5);
    assert_eq!(u64::from(SequenceNumber(3)), 3);
    assert_eq!(usize::from(SequenceNumber(4)), 4);
    assert_eq!(Amount::try_from(Balance(7)), Ok(Amount(7)));
    assert!(Amount::try_from(Balance(-1)).is_err());
    assert!(Amount::try_from(Balance(1 << 64)).is_err());
    assert_eq!(Balance::from_str("-12"), Ok(Balance(-12)));
    assert!(Balance::from_str("x").is_err());
    assert_eq!(Amount::default(), Amount(0));
    assert_eq!(Balance::default(), Balance(0));
    assert_eq!(SequenceNumber::default(), SequenceNumber(0));
    assert_eq!(UserData::default(), UserData(None));
}

#[test]
fn signing_is_deterministic() {
    let (address, secret) = get_key_pair();
    let t = sample_transfer();
    let copy = secret.copy();
    assert_eq!(Signature::new(&t, &secret), Signature::new(&t, &copy));
    assert_eq!(copy.public(), address);
    let order = fastpay_core::messages::TransferOrder { transfer: t, signature: Signature([0u8; 64]) };
    assert_eq!(Signature::new(&order, &secret), Signature::new(&t, &secret));
}

#[test]
fn secret_key_base64_round_trip() {
    let (address, secret) = get_key_pair();
    let text = secret.to_base64();
    assert_eq!(text.len(), 44);
    let back = fastpay_core::base_types::SecretKey::from_base64(&text).unwrap();
    assert_eq!(back.public(), address);
    assert!(fastpay_core::base_types::SecretKey::from_base64("AQID").is_err());
}

#[test]
fn fresh_votes_check_and_batch() {
    let (address, secret) = get_key_pair();
    let (other_address, other_secret) = get_key_pair();
    let t = sample_transfer();
    let t2 = Transfer { recipient: AccountId(3), ..t };
    let v = Signature::new(&t, &secret);
    assert_eq!(v.check(&t, address), Ok(()));
    assert!(matches!(v.check(&t2, address), Err(FastPayError::InvalidSignature { .. })));
    let w = Signature::new(&t, &other_secret);
    assert_eq!(Signature::verify_batch(&t, &vec![(address, v), (other_address, w)]), Ok(()));
    let mut bad = w;
    bad.0[63] |= 0xe0;
    assert!(matches!(
        Signature::verify_batch(&t, &vec![(address, v), (other_address, bad)]),
        Err(FastPayError::InvalidSignature { .. })
    ));
}

#[test]
fn balance_parsing() {
    assert_eq!(Balance::parse("+7"), Ok(Balance(7)));
    assert_eq!(Balance::parse("-170141183460469231731687303715884105728"), Ok(Balance(i128::MIN)));
    assert!(Balance::parse("170141183460469231731687303715884105728").is_err());
    assert!(Balance::parse("-").is_err());
    assert!(Balance::parse("").is_err());
    assert!(Balance::parse(" 1").is_err());
}
