//! The stored form of a wallet.

use crate::text::copy_bytes;
use crate::wallet::Wallet;
use vstd::prelude::*;
use vstd::string::*;

verus! {

/// A wallet as it is written to a file: the name and the two keys as bytes.
pub struct WalletFile {
    pub name: String,
    pub secret: Vec<u8>,
    pub public: Vec<u8>,
}

impl WalletFile {
    /// The stored form of `wallet`.
    pub fn from_wallet(wallet: &Wallet) -> (r: WalletFile)
        ensures
            r.name@ == wallet.name@,
            r.secret@ == wallet.secret@,
            r.public@ == wallet.public@,
    {
        WalletFile {
            name: wallet.name.clone(),
            secret: copy_bytes(wallet.secret.as_slice()),
            public: copy_bytes(wallet.public.as_slice()),
        }
    }

    /// The wallet that this stored form holds.
    pub fn to_wallet(&self) -> (r: Wallet)
        ensures
            r.name@ == self.name@,
            r.secret@ == self.secret@,
            r.public@ == self.public@,
    {
        Wallet {
            name: self.name.clone(),
            secret: copy_bytes(self.secret.as_slice()),
            public: copy_bytes(self.public.as_slice()),
        }
    }
}

} // verus!
