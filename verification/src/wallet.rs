//! Key material: an Ed25519 key pair under an account name, held as raw
//! bytes.

use crate::text::copy_bytes;
use crate::tx::{transfer_message, transfer_message_bytes, Transaction, TransactionView};
use ed25519_dalek::{Keypair, PublicKey, SecretKey, Signature, Signer, Verifier};
use rand::rngs::OsRng;
use vstd::prelude::*;
use vstd::string::*;

verus! {

/// The Ed25519 signature that the key pair with these bytes gives on
/// `message`, or `None` where the bytes are no key pair.
pub uninterp spec fn ed25519_signature(secret: Seq<u8>, public: Seq<u8>, message: Seq<u8>) -> Option<
    Seq<u8>,
>;

/// Whether `signature` is an Ed25519 signature on `message` that verifies
/// under the key with the bytes `public`.
pub uninterp spec fn ed25519_verifies(public: Seq<u8>, message: Seq<u8>, signature: Seq<u8>) -> bool;

/// Calls `Keypair::generate` of `ed25519_dalek` on the operating system's
/// random source. Believed, not proved: the secret and the public key come
/// back as 32 bytes each. Nothing is said of which keys.
#[verifier::external_body]
fn generate_keys() -> (r: (Vec<u8>, Vec<u8>))
    ensures
        r.0@.len() == 32,
        r.1@.len() == 32,
{
    let mut csprng = OsRng {};
    let keypair = Keypair::generate(&mut csprng);
    (keypair.secret.to_bytes().to_vec(), keypair.public.to_bytes().to_vec())
}

/// Parses the key bytes with `SecretKey::from_bytes` and
/// `PublicKey::from_bytes` of `ed25519_dalek` and signs `message` with
/// `Keypair::sign`. Believed, not proved: the result is a function of the
/// three byte strings alone; it is `None` where either parse fails, which
/// includes every key that is not 32 bytes long; a signature has 64 bytes.
#[verifier::external_body]
fn sign_bytes(secret: &[u8], public: &[u8], message: &[u8]) -> (r: Option<Vec<u8>>)
    ensures
        match r {
            Some(s) => ed25519_signature(secret@, public@, message@) == Some(s@) && s@.len() == 64,
            None => ed25519_signature(secret@, public@, message@).is_none(),
        },
        secret@.len() != 32 || public@.len() != 32 ==> r.is_none(),
{
    let secret = SecretKey::from_bytes(secret).ok()?;
    let public = PublicKey::from_bytes(public).ok()?;
    let keypair = Keypair { secret, public };
    Some(keypair.sign(message).to_bytes().to_vec())
}

/// Parses the bytes with `PublicKey::from_bytes` and `Signature::from_bytes`
/// and calls `PublicKey::verify` of `ed25519_dalek`. Believed, not proved:
/// the answer is a function of the three byte strings alone, and it is
/// `false` where the key is not 32 or the signature not 64 bytes long.
#[verifier::external_body]
fn verify_bytes(public: &[u8], message: &[u8], signature: &[u8]) -> (r: bool)
    ensures
        r == ed25519_verifies(public@, message@, signature@),
        public@.len() != 32 || signature@.len() != 64 ==> !r,
{
    match (PublicKey::from_bytes(public), Signature::from_bytes(signature)) {
        (Ok(key), Ok(sig)) => key.verify(message, &sig).is_ok(),
        _ => false,
    }
}

/// An account's key pair.
pub struct Wallet {
    pub name: String,
    pub secret: Vec<u8>,
    pub public: Vec<u8>,
}

impl Wallet {
    /// A wallet for `name` with a fresh key pair.
    pub fn generate(name: &str) -> (r: Wallet)
        ensures
            r.name@ == name@,
            r.secret@.len() == 32,
            r.public@.len() == 32,
    {
        let (secret, public) = generate_keys();
        Wallet { name: name.to_owned(), secret, public }
    }

    /// The signature of this wallet's key pair on `message`; `None` where
    /// the wallet's bytes are no key pair.
    pub fn sign(&self, message: &[u8]) -> (r: Option<Vec<u8>>)
        ensures
            match r {
                Some(s) => ed25519_signature(self.secret@, self.public@, message@) == Some(s@)
                    && s@.len() == 64,
                None => ed25519_signature(self.secret@, self.public@, message@).is_none(),
            },
            self.secret@.len() != 32 || self.public@.len() != 32 ==> r.is_none(),
    {
        sign_bytes(self.secret.as_slice(), self.public.as_slice(), message)
    }

    /// The bytes of the verification key.
    pub fn public_key(&self) -> (r: Vec<u8>)
        ensures
            r@ == self.public@,
    {
        copy_bytes(self.public.as_slice())
    }

    /// Whether `sig` is a signature on `message` under `public_key`.
    pub fn verify(public_key: &[u8], message: &[u8], sig: &[u8]) -> (r: bool)
        ensures
            r == ed25519_verifies(public_key@, message@, sig@),
            public_key@.len() != 32 || sig@.len() != 64 ==> !r,
    {
        verify_bytes(public_key, message, sig)
    }

    /// A transfer of `amount` from `from` to `to` that carries this wallet's
    /// verification key and its signature on the transfer's message; `None`
    /// where the wallet's bytes are no key pair.
    pub fn sign_transfer(&self, from: &str, to: &str, amount: u64) -> (r: Option<Transaction>)
        ensures
            match r {
                Some(tx) => {
                    &&& ed25519_signature(
                        self.secret@,
                        self.public@,
                        transfer_message(from@, to@, amount),
                    ) == Some(tx@.signature)
                    &&& tx@ == (TransactionView {
                        from: from@,
                        to: to@,
                        amount,
                        public_key: self.public@,
                        signature: tx@.signature,
                    })
                },
                None => ed25519_signature(
                    self.secret@,
                    self.public@,
                    transfer_message(from@, to@, amount),
                ).is_none(),
            },
    {
        let message = transfer_message_bytes(from, to, amount);
        match self.sign(message.as_slice()) {
            Some(signature) => Some(
                Transaction {
                    from: from.to_owned(),
                    to: to.to_owned(),
                    amount,
                    public_key: self.public_key(),
                    signature,
                },
            ),
            None => None,
        }
    }

    /// Whether the signature that `tx` carries is one on the transfer's
    /// message under the key that `tx` carries.
    pub fn verify_transfer(tx: &Transaction) -> (r: bool)
        ensures
            r == ed25519_verifies(
                tx@.public_key,
                transfer_message(tx@.from, tx@.to, tx@.amount),
                tx@.signature,
            ),
    {
        let message = transfer_message_bytes(tx.from.as_str(), tx.to.as_str(), tx.amount);
        Self::verify(tx.public_key.as_slice(), message.as_slice(), tx.signature.as_slice())
    }
}

} // verus!
