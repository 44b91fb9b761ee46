use black_bloc::block::Block;
use black_bloc::blockchain::BlockChain;
use black_bloc::constant::Config;
use black_bloc::secp256k1::{KeyPair, PubKey, SecKey, Secp256K1, ToHex};
use black_bloc::transaction::Transaction;
use black_bloc::users::{draft_transfer, App, Dispatch, FormError, Role, UserMeta, USER_GRANT};

fn party(secp: &mut Secp256K1, role: Role, name: &str, chain: BlockChain) -> UserMeta {
    let (secret_key, public_key) = secp.gen_keypair();
    UserMeta {
        role,
        name: name.to_owned(),
        avatar: format!("assets/{}.png", name),
        public_key,
        secret_key,
        transactions: Vec::new(),
        chain,
    }
}

struct World {
    config: Config,
    app: App,
    owner_pair: KeyPair,
}

fn world() -> World {
    let mut secp = Secp256K1::new();
    let (owner_secret, owner_public) = secp.gen_keypair();
    let mint_secret = SecKey::new(&[11u8; 32]);
    let config = Config::new(&mint_secret, owner_public, 100, 100000).unwrap();
    let mint = UserMeta {
        role: Role::Mint,
        name: "anything".to_owned(),
        avatar: "assets/rust.png".to_owned(),
        public_key: config.mint_address,
        secret_key: mint_secret,
        transactions: Vec::new(),
        chain: BlockChain::new_at(&config, 0),
    };
    let owner = UserMeta {
        role: Role::Owner,
        name: "ann".to_owned(),
        avatar: "assets/ann.png".to_owned(),
        public_key: owner_public,
        secret_key: owner_secret,
        transactions: Vec::new(),
        chain: BlockChain::new_at(&config, 0),
    };
    let user = party(&mut secp, Role::User, "bob", BlockChain::new_at(&config, 0));
    World {
        config,
        app: App { users: vec![mint, owner, user] },
        owner_pair: KeyPair::from(&owner_secret),
    }
}

#[test]
fn what_a_party_shows() {
    let w = world();
    let mint = &w.app.users[0];
    assert_eq!(mint.get_name(), "MINT");
    assert_eq!(mint.get_avatar(), "");
    assert_eq!(mint.get_public_key(), "");
    assert_eq!(mint.get_secret_key(), "");
    assert_eq!(mint.get_balance(), None);
    let owner = &w.app.users[1];
    assert_eq!(owner.get_name(), "ann");
    assert_eq!(owner.get_avatar(), "assets/ann.png");
    assert_eq!(owner.get_public_key(), owner.public_key.to_hex());
    assert_eq!(owner.get_secret_key(), owner.secret_key.to_hex());
    assert_eq!(owner.get_balance(), Some(100000));
    assert_eq!(w.app.users[2].get_balance(), Some(0));
    assert_eq!(owner.pub_key(), &owner.public_key);
    assert_eq!(owner.chain_len(), 1);
    assert_eq!(owner.chain(), &owner.chain);
}

#[test]
fn a_block_takes_its_transactions_out_of_what_was_heard() {
    let mut w = world();
    let to = w.app.users[2].public_key;
    let from = w.app.users[1].public_key;
    let one = Transaction::new(from, to, 1, None, &w.config);
    let two = Transaction::new(from, to, 2, None, &w.config);
    let three = Transaction::new(from, to, 3, None, &w.config);
    let user = &mut w.app.users[2];
    user.push(&one);
    user.push(&two);
    user.push(&one);
    user.push(&three);
    assert_eq!(user.transactions, vec![one, two, one, three]);
    let bloc = Block::new(7, vec![three, one]);
    assert!(bloc.holds(&one));
    assert!(!bloc.holds(&two));
    user.rm_trans_bloc(&bloc);
    assert_eq!(user.transactions, vec![two]);
    user.push_bloc(bloc.duplicate());
    assert_eq!(user.chain_len(), 2);
    assert_eq!(user.chain.chain[1], bloc);
    assert_eq!(user.chain.difficulty, 1);
}

#[test]
fn sync_passes_the_named_party_by() {
    let mut w = world();
    let from = w.app.users[1].public_key;
    let to = w.app.users[2].public_key;
    let heard = Transaction::new(from, to, 1, None, &w.config);
    let other = Transaction::new(from, to, 2, None, &w.config);
    for user in w.app.users.iter_mut() {
        user.push(&heard);
        user.push(&other);
    }
    let bloc = Block::new(7, vec![heard]);
    w.app.sync(&bloc, Some(&to));
    assert_eq!(w.app.users[0].chain_len(), 2);
    assert_eq!(w.app.users[1].chain_len(), 2);
    assert_eq!(w.app.users[2].chain_len(), 1);
    assert_eq!(w.app.users[0].transactions, vec![other]);
    assert_eq!(w.app.users[1].transactions, vec![other]);
    assert_eq!(w.app.users[2].transactions, vec![heard, other]);
    assert_eq!(w.app.users[1].chain.chain[1], bloc);
    w.app.sync(&bloc, None);
    assert_eq!(w.app.users[0].chain_len(), 3);
    assert_eq!(w.app.users[2].chain_len(), 2);
    assert_eq!(w.app.users[2].transactions, vec![other]);
}

#[test]
fn the_first_of_the_longest_chains_is_copied() {
    let mut w = world();
    w.app.users[1].push_bloc(Block::new(1, Vec::new()));
    w.app.users[2].push_bloc(Block::new(2, Vec::new()));
    w.app.users[1].chain.difficulty = 5;
    let longest = w.app.longest_chain();
    assert_eq!(longest.chain.len(), 2);
    assert_eq!(longest.chain[1].timestamp, 1);
    assert_eq!(longest.difficulty, 1, "a copy starts over");
    assert_eq!(longest.chain, w.app.users[1].chain.chain);
    assert_eq!(longest.reward, w.app.users[1].chain.reward);
    assert_eq!(longest.block_time, w.app.users[1].chain.block_time);
    assert_eq!(longest.mint_address, w.app.users[1].chain.mint_address);
    w.app.users[2].push_bloc(Block::new(3, Vec::new()));
    assert_eq!(w.app.longest_chain().chain[1].timestamp, 2);
}

#[test]
fn parties_are_found_by_key_but_not_the_mint() {
    let mut w = world();
    w.app.users[2].push_bloc(Block::new(2, Vec::new()));
    let key = w.app.users[2].public_key;
    assert_eq!(w.app.find(&key).unwrap().chain.len(), 2);
    let key = w.app.users[1].public_key;
    assert_eq!(w.app.find(&key).unwrap().chain.len(), 1);
    assert!(w.app.find(&w.config.mint_address).is_none());
    assert!(w.app.find(&PubKey::new(&[2u8; 33])).is_none());
    assert_eq!(w.app.find_mint().unwrap().public_key, w.config.mint_address);
    w.app.users.remove(0);
    assert!(w.app.find_mint().is_none());
}

#[test]
fn the_seed_picks_the_miner() {
    let w = world();
    assert_eq!(w.app.pick_miner(0), Some(1), "the mint is passed over");
    assert_eq!(w.app.pick_miner(1), Some(1));
    assert_eq!(w.app.pick_miner(2), Some(2));
    assert_eq!(w.app.pick_miner(3), Some(1));
    assert_eq!(w.app.pick_miner(-1), Some(1), "2^64 - 1 leaves 0");
    let alone = App { users: vec![world().app.users.remove(0)] };
    assert_eq!(alone.pick_miner(5), None);
}

#[test]
fn the_picked_party_mines_for_itself() {
    let mut w = world();
    let owner = w.app.users[1].public_key;
    let bob = w.app.users[2].public_key;
    let mut transfer = Transaction::new(owner, bob, 333, Some(10), &w.config);
    assert!(transfer.sign(&w.owner_pair));
    let (bloc, miner) = w.app.random_mine_at(&w.config, transfer, 2, 10, 10).unwrap();
    assert_eq!(miner, bob);
    assert_eq!(bloc.data.len(), 2);
    assert_eq!(bloc.data[0], transfer);
    assert_eq!(bloc.data[1].to, bob);
    assert_eq!(bloc.data[1].amount, 110);
    assert_eq!(w.app.users[2].chain_len(), 2);
    assert_eq!(w.app.users[1].chain_len(), 1);
    assert_eq!(w.app.users[2].get_balance(), Some(443));
    w.app.sync(&bloc, Some(&miner));
    assert_eq!(w.app.users[1].chain_len(), 2);
    assert_eq!(w.app.users[1].get_balance(), Some(99657));
    assert_eq!(w.app.users[1].chain.get_balance(&bob), 443);

    let (_, miner) = w.app.random_mine(&w.config, transfer).unwrap();
    assert!(miner == owner || miner == bob);
}

#[test]
fn parties_join_as_mint_owner_and_users() {
    let mut secp = Secp256K1::new();
    let (_, owner_public) = secp.gen_keypair();
    let config = Config::generate(&mut secp, owner_public).unwrap();
    let mut app = App { users: Vec::new() };

    assert_eq!(app.create_user(&config, "ignored".to_owned()), None);
    assert_eq!(app.users.len(), 1);
    let mint = &app.users[0];
    assert_eq!(mint.role, Role::Mint);
    assert_eq!(mint.name, "MINT");
    assert_eq!(mint.avatar, "assets/rust.png");
    assert_eq!(mint.public_key, config.mint_address);
    assert_eq!(mint.secret_key, config.mint_secret);
    assert!(mint.transactions.is_empty());
    assert_eq!(mint.chain.chain.len(), 1);
    assert_eq!(mint.chain.get_balance(&owner_public), 100000);

    app.users[0].chain.difficulty = 9;
    let grant = app.create_user(&config, "ann".to_owned()).unwrap();
    let ann = &app.users[1];
    assert_eq!(ann.role, Role::Owner);
    assert_eq!(ann.name, "ann");
    assert_eq!(ann.avatar, "assets/rust.png");
    assert_eq!(ann.secret_key.public_key(), Some(ann.public_key));
    assert_eq!(ann.chain.chain, app.users[0].chain.chain);
    assert_eq!(ann.chain.difficulty, 1);
    assert_eq!(
        grant,
        Transaction {
            from: config.mint_address,
            to: ann.public_key,
            amount: 10000,
            tips: 0,
            signature: config.mint_signature,
        }
    );
    assert_eq!(USER_GRANT, 10000);

    app.users[1].push_bloc(Block::new(5, Vec::new()));
    let grant = app.create_user(&config, "bob".to_owned()).unwrap();
    let bob = &app.users[2];
    assert_eq!(bob.role, Role::User);
    assert_eq!(bob.name, "bob");
    assert_eq!(bob.avatar, "assets/rust-user.png");
    assert_eq!(bob.chain.chain.len(), 2, "a copy of the longest chain");
    assert_eq!(grant.to, bob.public_key);
    assert_ne!(bob.public_key, app.users[1].public_key);
}

#[test]
fn a_grant_reaches_every_chain_as_a_block_of_its_own() {
    let mut w = world();
    let bob = w.app.users[2].public_key;
    let grant = Transaction::new(w.config.mint_address, bob, USER_GRANT, None, &w.config);
    w.app.transfer_initial_user(grant, 77);
    for user in w.app.users.iter() {
        assert_eq!(user.chain_len(), 2);
        let last = user.chain.get_last_block();
        assert_eq!(last.timestamp, 77);
        assert_eq!(last.data, vec![grant]);
        assert_eq!(last.nonce, 0);
        assert_eq!(last.hash, last.get_hash());
        assert!(user.transactions.is_empty());
        assert_eq!(user.chain.get_balance(&bob), 10000);
    }
}

#[test]
fn a_transfer_is_announced_only_where_the_sender_can_pay() {
    let mut w = world();
    let owner = w.app.users[1].public_key;
    let bob = w.app.users[2].public_key;

    let mut transfer = Transaction::new(owner, bob, 333, Some(10), &w.config);
    assert_eq!(w.app.transfer(transfer), Dispatch::Invalid, "unsigned");
    transfer.sign(&w.owner_pair);
    assert_eq!(w.app.transfer(transfer), Dispatch::Accepted);
    assert!(w.app.users[0].transactions.is_empty(), "the mint hears nothing");
    assert_eq!(w.app.users[1].transactions, vec![transfer]);
    assert_eq!(w.app.users[2].transactions, vec![transfer]);

    let mut minted = Transaction::new(w.config.mint_address, bob, 5, None, &w.config);
    minted.sign(&w.config.mint_key_pair);
    assert_eq!(w.app.transfer(minted), Dispatch::UnknownSender, "the mint is passed over");
    let stranger = SecKey::new(&[5u8; 32]);
    let mut foreign = Transaction::new(stranger.public_key().unwrap(), bob, 5, None, &w.config);
    foreign.sign(&KeyPair::from(&stranger));
    assert_eq!(w.app.transfer(foreign), Dispatch::UnknownSender);

    let bob_pair = KeyPair::from(&w.app.users[2].secret_key);
    let mut unfunded = Transaction::new(bob, owner, 1, None, &w.config);
    unfunded.sign(&bob_pair);
    assert_eq!(w.app.transfer(unfunded), Dispatch::Invalid);
    assert_eq!(w.app.users[2].transactions, vec![transfer]);

    w.app.announce(&unfunded);
    assert_eq!(w.app.users[1].transactions, vec![transfer, unfunded]);
    assert!(w.app.users[0].transactions.is_empty());
}

#[test]
fn names_are_looked_up_by_key() {
    let w = world();
    assert_eq!(
        w.app.get_user_name(&w.config.mint_address),
        ("MINT".to_owned(), true, false)
    );
    assert_eq!(
        w.app.get_user_name(&w.app.users[1].public_key),
        ("ann".to_owned(), false, true)
    );
    assert_eq!(
        w.app.get_user_name(&w.app.users[2].public_key),
        ("bob".to_owned(), false, false)
    );
    assert_eq!(
        w.app.get_user_name(&PubKey::new(&[2u8; 33])),
        (String::new(), false, false)
    );
}

#[test]
fn a_form_is_checked_field_by_field() {
    let w = world();
    let from = "02".repeat(33);
    let to = "03".repeat(33);
    let secret = "07".repeat(32);
    let draft = |from: &str, to: &str, amount: Option<i64>, tips: Option<i64>, secret: &str| {
        draft_transfer(from, to, amount, tips, secret, &w.config)
    };

    let (trans, key) = draft(&from, &to, Some(5), Some(1), &secret).unwrap();
    assert_eq!(trans.from, PubKey::new(&[2u8; 33]));
    assert_eq!(trans.to, PubKey::new(&[3u8; 33]));
    assert_eq!((trans.amount, trans.tips), (5, 1));
    assert_eq!(trans.signature, w.config.mint_signature);
    assert_eq!(key, SecKey::new(&[7u8; 32]));

    assert_eq!(
        draft("", "", None, None, "").unwrap_err(),
        FormError::InvalidOrNullFromPubkey
    );
    assert_eq!(
        draft("zz", "", None, None, "").unwrap_err(),
        FormError::InvalidOrNullToPubkey
    );
    assert_eq!(
        draft("zz", "zz", None, None, "").unwrap_err(),
        FormError::InvalidOrNullAmount
    );
    assert_eq!(
        draft("zz", "zz", Some(0), None, "").unwrap_err(),
        FormError::InvalidOrNullAmount
    );
    assert_eq!(
        draft("zz", "zz", Some(5), None, "").unwrap_err(),
        FormError::InvalidOrNullTips
    );
    assert_eq!(
        draft("zz", &to, Some(5), Some(0), &secret).unwrap_err(),
        FormError::InvalidOrNullFromPubkey
    );
    assert_eq!(
        draft(&from, &"03".repeat(32), Some(5), Some(0), &secret).unwrap_err(),
        FormError::InvalidOrNullToPubkey
    );
    assert_eq!(
        draft(&from, &to, Some(5), Some(0), "").unwrap_err(),
        FormError::InvalidOrNullSecret
    );
    assert_eq!(
        draft(&from, &to, Some(-5), Some(0), &from).unwrap_err(),
        FormError::InvalidOrNullSecret
    );
}
