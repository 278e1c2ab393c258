//! Transfers of an amount of one currency from a sender to a receiver,
//! identified by a digest of their contents and optionally signed.

use vstd::prelude::*;
use vstd::utf8::encode_utf8;
use crate::crypto::{ed25519_accepts, ed25519_public_key, ed25519_signature, ed25519_verify, sha256_hex, sha256_hex_of};
use crate::text::{decimal, is_lower_hex, lemma_decimal_reads_back, push_decimal};
use crate::wallet::Wallet;

verus! {

/// What a transaction holds.
pub struct TransactionView {
    pub sender: Seq<char>,
    pub receiver: Seq<char>,
    pub amount: u64,
    pub currency: Seq<char>,
    pub tx_id: Seq<char>,
    pub signature: Option<Seq<u8>>,
}

/// The text that identifies and is signed for a transfer: sender, receiver,
/// amount in decimal and currency, written one after another.
pub open spec fn signing_text(sender: Seq<char>, receiver: Seq<char>, amount: u64, currency: Seq<char>) -> Seq<char> {
    sender + receiver + decimal(amount as nat) + currency
}

/// The id of a transfer: SHA-256 (as hex) of its signing text.
pub open spec fn transaction_id(sender: Seq<char>, receiver: Seq<char>, amount: u64, currency: Seq<char>) -> Seq<char> {
    sha256_hex_of(signing_text(sender, receiver, amount, currency))
}

/// The bytes that a transaction's signature covers.
pub open spec fn signed_bytes(tx: TransactionView) -> Seq<u8> {
    encode_utf8(signing_text(tx.sender, tx.receiver, tx.amount, tx.currency))
}

/// Whether `tx` carries a signature that verifies under `public_key`: the key
/// has 32 bytes, the signature 64, and Ed25519 accepts it over the signed bytes.
pub open spec fn signature_valid(tx: TransactionView, public_key: Seq<u8>) -> bool {
    match tx.signature {
        Some(sig) => {
            &&& public_key.len() == 32
            &&& sig.len() == 64
            &&& ed25519_accepts(public_key, signed_bytes(tx), sig)
        },
        None => false,
    }
}

/// The signed text determines the amount and the currency: two transfers
/// between the same sender and receiver that differ only in amount, or only
/// in currency, have different signing texts (and so different signed bytes).
pub proof fn lemma_signing_text_separates(
    sender: Seq<char>,
    receiver: Seq<char>,
    amount1: u64,
    amount2: u64,
    currency1: Seq<char>,
    currency2: Seq<char>,
)
    ensures
        amount1 != amount2 ==> signing_text(sender, receiver, amount1, currency1) != signing_text(
            sender,
            receiver,
            amount2,
            currency1,
        ),
        currency1 != currency2 ==> signing_text(sender, receiver, amount1, currency1) != signing_text(
            sender,
            receiver,
            amount1,
            currency2,
        ),
{
    let p = sender + receiver;
    let d1 = decimal(amount1 as nat);
    let d2 = decimal(amount2 as nat);
    lemma_decimal_reads_back(amount1 as nat);
    lemma_decimal_reads_back(amount2 as nat);
    let t1 = signing_text(sender, receiver, amount1, currency1);
    let t2 = signing_text(sender, receiver, amount2, currency1);
    if amount1 != amount2 && t1 == t2 {
        assert(t1 == p + d1 + currency1);
        assert(t2 == p + d2 + currency1);
        assert(t1.len() == p.len() + d1.len() + currency1.len());
        assert(t2.len() == p.len() + d2.len() + currency1.len());
        assert(d1.len() == d2.len());
        assert(t1.subrange(p.len() as int, (p.len() + d1.len()) as int) =~= d1);
        assert(t2.subrange(p.len() as int, (p.len() + d2.len()) as int) =~= d2);
        assert(d1 == d2);
        assert(false);
    }
    let q = p + d1;
    let u1 = signing_text(sender, receiver, amount1, currency1);
    let u2 = signing_text(sender, receiver, amount1, currency2);
    if currency1 != currency2 && u1 == u2 {
        assert(u1 == q + currency1);
        assert(u2 == q + currency2);
        assert(u1.skip(q.len() as int) =~= currency1);
        assert(u2.skip(q.len() as int) =~= currency2);
        assert(false);
    }
}

/// A signature only verifies when the transaction is signed, the key has 32
/// bytes and the signature 64, and Ed25519 accepts it over the transaction's
/// sender, receiver, amount and currency.
pub proof fn lemma_signature_valid_needs(tx: TransactionView, public_key: Seq<u8>)
    ensures
        signature_valid(tx, public_key) ==> {
            &&& tx.signature is Some
            &&& public_key.len() == 32
            &&& tx.signature->0.len() == 64
            &&& ed25519_accepts(
                public_key,
                encode_utf8(tx.sender + tx.receiver + decimal(tx.amount as nat) + tx.currency),
                tx.signature->0,
            )
        },
{
}

/// A transfer of `amount` of `currency` from `sender` to `receiver`.
#[derive(Clone, Debug)]
pub struct Transaction {
    sender: String,
    receiver: String,
    amount: u64,
    currency: String,
    tx_id: String,
    signature: Option<Vec<u8>>,
}

impl View for Transaction {
    type V = TransactionView;

    closed spec fn view(&self) -> TransactionView {
        TransactionView {
            sender: self.sender@,
            receiver: self.receiver@,
            amount: self.amount,
            currency: self.currency@,
            tx_id: self.tx_id@,
            signature: match self.signature {
                Some(sig) => Some(sig@),
                None => None,
            },
        }
    }
}

fn signing_text_of(sender: &str, receiver: &str, amount: u64, currency: &str) -> (text: String)
    ensures
        text@ == signing_text(sender@, receiver@, amount, currency@),
{
    let mut text = sender.to_owned();
    text.append(receiver);
    push_decimal(&mut text, amount);
    text.append(currency);
    text
}

impl Transaction {
    /// An unsigned transfer, with its id computed from its contents (64
    /// lower-case hexadecimal digits).
    pub fn new(sender: String, receiver: String, amount: u64, currency: String) -> (tx: Self)
        ensures
            tx@.tx_id.len() == 64,
            is_lower_hex(tx@.tx_id),
            tx@ == (TransactionView {
                sender: sender@,
                receiver: receiver@,
                amount,
                currency: currency@,
                tx_id: transaction_id(sender@, receiver@, amount, currency@),
                signature: None,
            }),
    {
        let tx_id = Self::compute_id(sender.as_str(), receiver.as_str(), amount, currency.as_str());
        Transaction { sender, receiver, amount, currency, tx_id, signature: None }
    }

    fn compute_id(sender: &str, receiver: &str, amount: u64, currency: &str) -> (id: String)
        ensures
            id@ == transaction_id(sender@, receiver@, amount, currency@),
            id@.len() == 64,
            is_lower_hex(id@),
    {
        let text = signing_text_of(sender, receiver, amount, currency);
        sha256_hex(text.as_str())
    }

    /// A transaction with every field given, as read back from storage or a peer.
    pub fn load(
        sender: String,
        receiver: String,
        amount: u64,
        currency: String,
        tx_id: String,
        signature: Option<Vec<u8>>,
    ) -> (tx: Self)
        ensures
            tx@ == (TransactionView {
                sender: sender@,
                receiver: receiver@,
                amount,
                currency: currency@,
                tx_id: tx_id@,
                signature: match signature {
                    Some(sig) => Some(sig@),
                    None => None,
                },
            }),
    {
        Transaction { sender, receiver, amount, currency, tx_id, signature }
    }

    /// The signature bytes, if the transaction is signed.
    pub fn signature(&self) -> (sig: Option<&[u8]>)
        ensures
            match self@.signature {
                Some(s) => sig matches Some(b) && b@ == s,
                None => sig is None,
            },
    {
        match &self.signature {
            Some(sig) => Some(sig.as_slice()),
            None => None,
        }
    }

    pub fn sender(&self) -> (s: &str)
        ensures
            s@ == self@.sender,
    {
        self.sender.as_str()
    }

    pub fn receiver(&self) -> (s: &str)
        ensures
            s@ == self@.receiver,
    {
        self.receiver.as_str()
    }

    pub fn amount(&self) -> (a: u64)
        ensures
            a == self@.amount,
    {
        self.amount
    }

    pub fn currency(&self) -> (s: &str)
        ensures
            s@ == self@.currency,
    {
        self.currency.as_str()
    }

    pub fn tx_id(&self) -> (s: &str)
        ensures
            s@ == self@.tx_id,
    {
        self.tx_id.as_str()
    }

    /// Signs the transfer with `wallet`'s key, replacing any earlier signature.
    /// The signature then verifies under the wallet's public key.
    pub fn sign(&mut self, wallet: &Wallet)
        ensures
            final(self)@ == (TransactionView {
                signature: Some(ed25519_signature(wallet@, signed_bytes(old(self)@))),
                ..old(self)@
            }),
            final(self)@.signature->0.len() == 64,
            ed25519_public_key(wallet@).len() == 32 ==> signature_valid(
                final(self)@,
                ed25519_public_key(wallet@),
            ),
    {
        let message = signing_text_of(
            self.sender.as_str(),
            self.receiver.as_str(),
            self.amount,
            self.currency.as_str(),
        );
        let signature = wallet.sign(message.as_str().as_bytes());
        self.signature = Some(signature);
    }

    /// Whether the transfer carries a signature that verifies under `public_key`.
    pub fn verify(&self, public_key: &[u8]) -> (valid: bool)
        ensures
            valid == signature_valid(self@, public_key@),
    {
        match &self.signature {
            Some(sig) => {
                if public_key.len() != 32 || sig.len() != 64 {
                    return false;
                }
                let message = signing_text_of(
                    self.sender.as_str(),
                    self.receiver.as_str(),
                    self.amount,
                    self.currency.as_str(),
                );
                ed25519_verify(public_key, message.as_str().as_bytes(), sig.as_slice())
            },
            None => false,
        }
    }
}

} // verus!
