use black_bloc::blockchain::BlockChain;
use black_bloc::constant::{Config, INITIAL_GRANT, REWARD};
use black_bloc::secp256k1::{KeyPair, PubKey, SecKey, Secp256K1, Signature, ToHex};
use black_bloc::sha256::Sha256;
use black_bloc::transaction::Transaction;
use black_bloc::wire::append_bytes;

fn settings(secp: &mut Secp256K1, owner: PubKey) -> Config {
    Config::generate(secp, owner).expect("a fresh key signs")
}

#[test]
fn transaction_test_new() {
    let mut secp = Secp256K1::new();
    let (_, pub1) = secp.gen_keypair();
    let (_, pub2) = secp.gen_keypair();
    let config = settings(&mut secp, pub1);
    let from = pub1;
    let to = pub2;
    let amount = 3000;
    let item = Transaction::new(from, to, amount, None, &config);
    assert_eq!(item.from, pub1);
    assert_eq!(item.to, pub2);
    assert_eq!(item.amount, amount);
    assert_eq!(item.tips, 0);
    assert_eq!(item.signature.to_bytes(), config.mint_signature.to_bytes());
}

#[test]
fn test_transaction_msg() {
    let mut secp = Secp256K1::new();
    let (_, pub1) = secp.gen_keypair();
    let (_, pub2) = secp.gen_keypair();
    let config = settings(&mut secp, pub1);
    let from = pub1;
    let to = pub2;
    let amount = 3000;
    let item = Transaction::new(from, to, amount, None, &config);
    let msg = item.transaction_msg();
    assert!(msg.is_ok(), "failed to hash transaction into message");
    let msg = msg.unwrap();
    println!("{:?}", &msg);
    assert_eq!(msg.to_vec().len(), 32);
}

#[test]
fn test_sign() {
    let mut secp = Secp256K1::new();
    let (secret1, pub1) = secp.gen_keypair();
    let key_pair1 = KeyPair::from(&secret1);
    assert_eq!(
        key_pair1.to_public_key().unwrap(),
        pub1,
        "it should equal for the public key"
    );
    let (_, pub2) = secp.gen_keypair();
    let config = settings(&mut secp, pub1);
    let amount = 3000;
    let mut item = Transaction::new(pub1, pub2, amount, None, &config);
    item.sign(&key_pair1);
    assert_ne!(item.signature, config.mint_signature, "signature not signed");
}

#[test]
fn tips_are_kept_when_given() {
    let mut secp = Secp256K1::new();
    let (_, pub1) = secp.gen_keypair();
    let (_, pub2) = secp.gen_keypair();
    let config = settings(&mut secp, pub1);
    let item = Transaction::new(pub1, pub2, 5, Some(2), &config);
    assert_eq!(item.tips, 2);
}

#[test]
fn message_is_the_digest_of_82_bytes() {
    let from = PubKey::new(&[2u8; 33]);
    let to = PubKey::new(&[3u8; 33]);
    let item = Transaction {
        from,
        to,
        amount: 333,
        tips: -1,
        signature: Signature::from_slice(&[9u8; 64]),
    };
    let mut bytes: Vec<u8> = Vec::new();
    append_bytes(&mut bytes, &[2u8; 33]);
    append_bytes(&mut bytes, &[3u8; 33]);
    append_bytes(&mut bytes, &[0x4d, 1, 0, 0, 0, 0, 0, 0]);
    append_bytes(&mut bytes, &[0xff; 8]);
    assert_eq!(bytes.len(), 82);
    assert_eq!(item.encode_payload(), bytes);
    assert_eq!(item.transaction_msg().unwrap(), Sha256::hash(&bytes));
    let mut resigned = item;
    resigned.signature = Signature::from_slice(&[8u8; 64]);
    assert_eq!(resigned.transaction_msg().unwrap(), item.transaction_msg().unwrap());
    let mut dearer = item;
    dearer.amount = 334;
    assert_ne!(dearer.transaction_msg().unwrap(), item.transaction_msg().unwrap());
}

#[test]
fn sign_stores_the_senders_signature_of_the_message() {
    let mut secp = Secp256K1::new();
    let (secret1, pub1) = secp.gen_keypair();
    let (_, pub2) = secp.gen_keypair();
    let config = settings(&mut secp, pub1);
    let mut item = Transaction::new(pub1, pub2, 3000, Some(4), &config);
    assert!(item.sign(&KeyPair::from(&secret1)));
    let msg = item.transaction_msg().unwrap();
    assert_eq!(item.signature, secret1.sign(msg.as_ref()));
    assert!(pub1.verify(msg.as_ref(), &item.signature).is_ok());
    assert_eq!((item.from, item.to, item.amount, item.tips), (pub1, pub2, 3000, 4));
}

#[test]
fn sign_refuses_a_foreign_key_pair() {
    let mut secp = Secp256K1::new();
    let (_, pub1) = secp.gen_keypair();
    let (secret2, pub2) = secp.gen_keypair();
    let config = settings(&mut secp, pub1);
    let mut item = Transaction::new(pub1, pub2, 3000, None, &config);
    assert!(!item.sign(&KeyPair::from(&secret2)));
    assert_eq!(item.signature, config.mint_signature);
}

#[test]
fn rejected_whatever_the_ledger() {
    let mut secp = Secp256K1::new();
    let (owner_secret, owner) = secp.gen_keypair();
    let owner_pair = KeyPair::from(&owner_secret);
    let (_, pub2) = secp.gen_keypair();
    let config = settings(&mut secp, owner);
    let chain = BlockChain::new(&config);
    assert_eq!(chain.get_balance(&owner), INITIAL_GRANT as i128);

    let mut good = Transaction::new(owner, pub2, 10, None, &config);
    assert!(!good.is_valid(&chain), "unsigned");
    good.sign(&owner_pair);
    assert!(good.is_valid(&chain));

    let mut nothing = Transaction::new(owner, pub2, 0, None, &config);
    nothing.sign(&owner_pair);
    assert!(!nothing.is_valid(&chain), "amount 0");

    let zero = PubKey::new(&[0u8; 33]);
    let from_nobody = Transaction::new(zero, zero, 10, None, &config);
    assert!(!from_nobody.is_valid(&chain), "zero keys");

    let mut to_nobody = Transaction::new(owner, zero, 10, None, &config);
    to_nobody.sign(&owner_pair);
    assert!(!to_nobody.is_valid(&chain), "zero recipient");

    let mut forged = good;
    forged.amount = 11;
    assert!(!forged.is_valid(&chain), "signature of another message");
    let mut forged = good;
    forged.signature = SecKey::new(&[5u8; 32]).sign(good.transaction_msg().unwrap().as_ref());
    assert!(!forged.is_valid(&chain), "signature of another key");
}

#[test]
fn balance_decides_for_everyone_but_the_mint() {
    let mut secp = Secp256K1::new();
    let (owner_secret, owner) = secp.gen_keypair();
    let owner_pair = KeyPair::from(&owner_secret);
    let (poor_secret, poor) = secp.gen_keypair();
    let config = settings(&mut secp, owner);
    let chain = BlockChain::new(&config);

    let mut all = Transaction::new(owner, poor, INITIAL_GRANT - 1, Some(1), &config);
    all.sign(&owner_pair);
    assert!(all.is_valid(&chain), "amount and tips equal to the balance");
    let mut too_much = Transaction::new(owner, poor, INITIAL_GRANT, Some(1), &config);
    too_much.sign(&owner_pair);
    assert!(!too_much.is_valid(&chain), "one unit more than the balance");

    let mut unfunded = Transaction::new(poor, owner, 1, None, &config);
    unfunded.sign(&KeyPair::from(&poor_secret));
    assert!(!unfunded.is_valid(&chain));

    let mut minted = Transaction::new(config.mint_address, poor, 1_000_000, None, &config);
    assert!(minted.sign(&config.mint_key_pair));
    assert!(minted.is_valid(&chain), "the mint needs no balance");
    assert_eq!(REWARD, 100);
}

#[test]
fn sign_needs_both_halves_of_the_senders_pair() {
    let mut secp = Secp256K1::new();
    let (secret1, pub1) = secp.gen_keypair();
    let (_, pub2) = secp.gen_keypair();
    let config = settings(&mut secp, pub1);
    let mut item = Transaction::new(pub1, pub2, 3000, None, &config);
    assert!(!item.sign(&KeyPair::from_parts(None, Some(pub1))), "no secret key");
    assert!(!item.sign(&KeyPair::from_parts(Some(secret1), None)), "no public key");
    let (secret3, _) = secp.gen_keypair();
    assert!(
        !item.sign(&KeyPair::from_parts(Some(secret3), Some(pub1))),
        "a signature that the sender's key does not accept"
    );
    assert_eq!(item.signature, config.mint_signature);
    assert!(item.sign(&KeyPair::from_parts(Some(secret1), Some(pub1))));
    assert!(item.same(&item.clone()));
    assert!(!item.same(&Transaction::new(pub1, pub2, 3000, None, &config)));
}
