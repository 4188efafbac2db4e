//! Transactions: immutable signed statements of intent. A transaction is
//! valid exactly when its signature checks out over the canonical payload
//! built from sender, receiver and amount, under the sender's key.

use vstd::prelude::*;
use vstd::string::*;
use crate::decimal::{dec_of, u64_to_dec};
use crate::wallet::{sig_checks, Wallet};

verus! {

/// The mathematical content of a transaction.
#[verifier::ext_equal]
pub struct TransactionModel {
    pub sender: Seq<char>,
    pub receiver: Seq<char>,
    pub amount: u64,
    pub signature: Seq<char>,
}

/// A signed statement {sender, receiver, amount}. `sender` is the
/// hex-encoded public key the signature must verify under.
pub struct Transaction {
    pub sender: String,
    pub receiver: String,
    pub amount: u64,
    pub signature: String,
}

impl View for Transaction {
    type V = TransactionModel;

    open spec fn view(&self) -> TransactionModel {
        TransactionModel {
            sender: self.sender@,
            receiver: self.receiver@,
            amount: self.amount,
            signature: self.signature@,
        }
    }
}

/// The canonical payload that is signed: sender identifier, receiver
/// address, then the amount in decimal, concatenated.
pub open spec fn signing_payload(sender: Seq<char>, receiver: Seq<char>, amount: u64) -> Seq<char> {
    sender + receiver + dec_of(amount as nat)
}

impl TransactionModel {
    /// A transaction is valid when its signature checks out over its own
    /// canonical payload under its sender's key.
    pub open spec fn valid(self) -> bool {
        sig_checks(
            signing_payload(self.sender, self.receiver, self.amount),
            self.signature,
            self.sender,
        )
    }
}

impl Transaction {
    /// Builds and signs a transaction with the wallet's identity; the
    /// result is valid.
    pub fn new(sender_wallet: &Wallet, receiver: String, amount: u64) -> (tx: Transaction)
        requires
            sender_wallet.wf(),
        ensures
            tx@.sender == sender_wallet.spec_public_key(),
            tx@.receiver == receiver@,
            tx@.amount == amount,
            tx@.valid(),
    {
        let sender_pub = sender_wallet.public_key_str().clone();
        let mut data_to_sign = sender_pub.clone();
        data_to_sign.append(receiver.as_str());
        let amount_dec = u64_to_dec(amount);
        data_to_sign.append(amount_dec.as_str());
        let signature = sender_wallet.sign(data_to_sign.as_str());
        Transaction { sender: sender_pub, receiver, amount, signature }
    }

    /// Recomputes the canonical payload and checks the signature. Returns
    /// the verdict; malformed encodings are a failed check, not a crash.
    pub fn verify(&self) -> (r: bool)
        ensures
            r == self@.valid(),
    {
        let mut data_to_check = self.sender.clone();
        data_to_check.append(self.receiver.as_str());
        let amount_dec = u64_to_dec(self.amount);
        data_to_check.append(amount_dec.as_str());
        Wallet::verify(data_to_check.as_str(), self.signature.as_str(), self.sender.as_str())
    }

    /// A field-for-field copy.
    pub fn duplicate(&self) -> (t: Transaction)
        ensures
            t == *self,
    {
        Transaction {
            sender: self.sender.clone(),
            receiver: self.receiver.clone(),
            amount: self.amount,
            signature: self.signature.clone(),
        }
    }
}

} // verus!
