use core::str::FromStr;
use gossip_ledger::crypto::{gen_keys, IdError};
use gossip_ledger::types::{AccountTransaction, Id, SignedAccountTransaction, Timestamp, Amount};

fn transaction(from: Id, to: Id, amount: i64) -> AccountTransaction {
    AccountTransaction { to, from, amount: Amount(amount), timestamp: Timestamp(1_700_000_000_000) }
}

#[test]
fn sign_then_verify_succeeds() {
    let keys = gen_keys();
    let other = gen_keys();
    let trx = transaction(keys.public, other.public, 100);
    let strx = keys.private.sign(trx);
    assert_eq!(strx.trx, trx);
    assert!(strx.verify());
}

#[test]
fn get_pk_matches_generated_public_key() {
    let keys = gen_keys();
    assert_eq!(keys.private.get_pk(), keys.public);
}

#[test]
fn verify_rejects_tampered_amount() {
    let keys = gen_keys();
    let other = gen_keys();
    let strx = keys.private.sign(transaction(keys.public, other.public, 100));
    let forged = SignedAccountTransaction {
        signature: strx.signature,
        trx: transaction(keys.public, other.public, 1_000_000),
    };
    assert!(!forged.verify());
}

#[test]
fn verify_rejects_tampered_signature() {
    let keys = gen_keys();
    let other = gen_keys();
    let strx = keys.private.sign(transaction(keys.public, other.public, 100));
    let mut sig = strx.signature;
    sig.0[0] = sig.0[0].wrapping_add(1);
    let forged = SignedAccountTransaction { signature: sig, trx: strx.trx };
    assert!(!forged.verify());
}

#[test]
fn verify_rejects_wrong_sender_key() {
    let signer = gen_keys();
    let claimed = gen_keys();
    // claims to come from `claimed` but is signed by `signer`
    let strx = signer.private.sign(transaction(claimed.public, signer.public, 5));
    assert!(!strx.verify());
}

#[test]
fn id_base64_round_trip() {
    let keys = gen_keys();
    let text = keys.public.to_base64();
    let back = Id::from_base64(&text).unwrap();
    assert_eq!(back, keys.public);
    let parsed = Id::from_str(&text).unwrap();
    assert_eq!(parsed, keys.public);
}

#[test]
fn id_from_bad_base64_is_rejected() {
    assert_eq!(Id::from_base64("this is not base64!!!"), Err(IdError::NotBase64));
}

#[test]
fn id_from_short_input_is_rejected() {
    // "AQID" is the canonical Base64 of the three bytes [1, 2, 3]
    assert_eq!(Id::from_base64("AQID"), Err(IdError::WrongLength));
}

#[test]
fn id_from_non_key_bytes_is_rejected() {
    // roughly half of all 32-byte strings are no Edwards point; find one
    let keys = gen_keys();
    let mut found = false;
    let mut bytes = keys.public.to_bytes();
    for b in 0..=255u8 {
        bytes[0] = b;
        let text = gossip_ledger::types::Id::from_bytes(bytes).to_base64();
        if Id::from_base64(&text) == Err(IdError::NotAKey) {
            found = true;
            break;
        }
    }
    assert!(found);
}
