use aurora_chain::wallet::Wallet;
use aurora_chain::wallet_io::WalletFile;

fn unhex(s: &str) -> Vec<u8> {
    (0..s.len() / 2).map(|i| u8::from_str_radix(&s[2 * i..2 * i + 2], 16).unwrap()).collect()
}

fn known() -> Wallet {
    Wallet {
        name: "known".to_string(),
        secret: unhex("9d61b19deffd5a60ba844af492ec2cc44449c5697b326919703bac031cae7f60"),
        public: unhex("d75a980182b10ab7d54bfed3c964073a0ee172f3daa62325af021a68f707511a"),
    }
}

#[test]
fn generated_wallet_has_two_keys_of_32_bytes() {
    let w = Wallet::generate("alice");
    assert_eq!(w.name, "alice");
    assert_eq!(w.secret.len(), 32);
    assert_eq!(w.public.len(), 32);
    assert_eq!(w.public_key(), w.public);
    let other = Wallet::generate("alice");
    assert_ne!(w.secret, other.secret);
}

#[test]
fn signature_of_a_known_key() {
    let w = known();
    assert_eq!(
        w.sign(b"").unwrap(),
        unhex("e5564300c360ac729086e2cc806e828a84877f1eb8e5d974d873e065224901555fb8821590a33bacc61e39701cf9b46bd25bf5f0595bbe24655141438e7a100b")
    );
    assert_eq!(
        w.sign(b"abc").unwrap(),
        unhex("80d724b01e7ca260f4cc7f8de7c95f73cfac615bab1f762b6435b6ec26c8cf6d2c758dae2f87399a8eeda1cbcd2835ac5ba66d6ecaa3aba5e567a751053dc207")
    );
}

#[test]
fn signature_verifies_only_for_its_message_and_key() {
    let w = known();
    let sig = w.sign(b"message").unwrap();
    assert!(Wallet::verify(&w.public, b"message", &sig));
    assert!(!Wallet::verify(&w.public, b"massage", &sig));
    let mut bad = sig.clone();
    bad[0] ^= 1;
    assert!(!Wallet::verify(&w.public, b"message", &bad));
    let other = Wallet::generate("other");
    assert!(!Wallet::verify(&other.public, b"message", &sig));
}

#[test]
fn malformed_keys_and_signatures_do_not_verify() {
    let w = known();
    let sig = w.sign(b"m").unwrap();
    assert!(!Wallet::verify(&w.public[..31], b"m", &sig));
    assert!(!Wallet::verify(&w.public, b"m", &sig[..63]));
    assert!(!Wallet::verify(&[], b"m", &[]));
}

#[test]
fn malformed_key_pair_does_not_sign() {
    let mut w = known();
    w.secret.pop();
    assert!(w.sign(b"m").is_none());
    let mut w = known();
    w.public.push(0);
    assert!(w.sign(b"m").is_none());
}

#[test]
fn wallet_file_keeps_name_and_keys() {
    let w = known();
    let f = WalletFile::from_wallet(&w);
    assert_eq!(f.name, "known");
    assert_eq!(f.secret, w.secret);
    assert_eq!(f.public, w.public);
    let back = f.to_wallet();
    assert_eq!(back.name, w.name);
    assert_eq!(back.secret, w.secret);
    assert_eq!(back.public, w.public);
    assert_eq!(back.sign(b"x"), w.sign(b"x"));
}

#[test]
fn signed_transfer_carries_key_and_signature_over_its_message() {
    let w = known();
    let tx = w.sign_transfer("alice", "bob", 42).unwrap();
    assert_eq!(tx.from, "alice");
    assert_eq!(tx.to, "bob");
    assert_eq!(tx.amount, 42);
    assert_eq!(tx.public_key, w.public);
    assert_eq!(tx.signature, w.sign(b"alicebob42").unwrap());
    assert!(Wallet::verify_transfer(&tx));
    let mut more = tx.clone();
    more.amount = 43;
    assert!(!Wallet::verify_transfer(&more));
    let mut other = tx.clone();
    other.to = "bobby".to_string();
    assert!(!Wallet::verify_transfer(&other));
}

#[test]
fn transfer_is_not_signed_without_a_key_pair() {
    let w = Wallet { name: "x".to_string(), secret: vec![], public: vec![] };
    assert!(w.sign_transfer("alice", "bob", 1).is_none());
}
