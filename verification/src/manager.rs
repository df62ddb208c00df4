//! The wallet manager: named wallets, the ledger, the notes behind the
//! ledger's commitments and the openings of its transactions.
//!
//! The manager is the single owner of the ledger.  Every operation that
//! changes the ledger goes through it, one at a time, and either takes effect
//! completely or not at all.  Notes and openings are the manager's private
//! record: with them a stored ledger can be checked again, transaction by
//! transaction, when it is read back.

use vstd::prelude::*;
use crate::circuit::{accepts, commitments_of, output_commitments, tally, Opening};
use crate::error::ZkLedgerError;
use crate::hexcode::{hex_list, hex_text};
use crate::keys::{generate_wallet, Wallet, WalletView};
use crate::digest::{same_digests, views};
use crate::ledger::{
    commit_outcome, opened_by, publish_outcome, transaction_views, well_formed, Ledger,
    LedgerView, Transaction,
};
use crate::note::{commitment_of, note_commitment, Commitment, Note, Nullifier};
use crate::processor::{
    outputs_of, plans, prepare_transfer, PreparedTransfer, PreparedView, TransferReceipt,
};
use crate::random::random_bytes32;
use crate::scanner::{
    balance_of, commitments_match, found_notes, in_step, notes_found, owned_views, scan,
    spendable, OwnedNote,
};

verus! {

/// A wallet under its name.
#[derive(Debug)]
pub struct WalletEntry {
    pub name: String,
    pub wallet: Wallet,
}

/// What a wallet holds: how many notes it can spend, and their total value.
#[derive(Clone, Copy, Debug, PartialEq, Eq)]
pub struct BalanceReport {
    pub notes: usize,
    pub balance: u64,
}

/// The public face of the ledger, as text.
#[derive(Debug)]
pub struct LedgerListing {
    /// The commitments, oldest first, as hexadecimal text.
    pub commitments: Vec<String>,
    /// The nullifiers, oldest first, as hexadecimal text.
    pub nullifiers: Vec<String>,
    /// The number of admitted transactions.
    pub transactions: usize,
}

/// The mathematical content of a wallet manager.
pub struct ManagerView {
    /// The names of the wallets, in the order of creation.
    pub names: Seq<Seq<char>>,
    /// The wallets, each at the index of its name.
    pub wallets: Seq<WalletView>,
    pub ledger: LedgerView,
    /// The note behind each commitment of the ledger, at the same index.
    pub vault: Seq<Note>,
    /// The opening of each transaction of the ledger, at the same index.
    pub openings: Seq<Opening>,
}

/// Named wallets, the ledger they share, the notes behind the ledger's
/// commitments and the openings of its transactions.  Notes and openings are
/// private to the manager; the ledger is what everyone may see.
#[derive(Debug)]
pub struct WalletManager {
    wallets: Vec<WalletEntry>,
    ledger: Ledger,
    vault: Vec<Note>,
    openings: Vec<Opening>,
}

/// The names of a list of entries.
pub open spec fn entry_names(entries: Seq<WalletEntry>) -> Seq<Seq<char>> {
    entries.map_values(|e: WalletEntry| e.name@)
}

/// The wallets of a list of entries.
pub open spec fn entry_wallets(entries: Seq<WalletEntry>) -> Seq<WalletView> {
    entries.map_values(|e: WalletEntry| e.wallet@)
}

/// Every note holds a positive value.
pub open spec fn all_positive(notes: Seq<Note>) -> bool {
    forall|i: int| 0 <= i < notes.len() ==> (#[trigger] notes[i]).value > 0
}

/// What must hold of a manager at all times: no name is used twice, every
/// name has its wallet, the ledger is well formed, the vault holds, for each
/// commitment on the ledger and in the same order, the note that the
/// commitment belongs to, every note holds a positive value, and every
/// transaction on the ledger is accepted with the opening kept for it.
pub open spec fn manager_well_formed(m: ManagerView) -> bool {
    &&& m.names.no_duplicates()
    &&& m.names.len() == m.wallets.len()
    &&& well_formed(m.ledger)
    &&& opened_by(m.ledger, m.openings)
    &&& in_step(m.vault, m.ledger)
    &&& all_positive(m.vault)
}

/// Result and manager are those of minting `note`: if the ledger admits the
/// note's commitment, the result is the note at the end of the log, the
/// ledger is the one that publishing leads to and the vault has the note at
/// its end; if it refuses, the result is that refusal and nothing changed.
pub open spec fn mint_follows(
    before: ManagerView,
    note: Note,
    after: ManagerView,
    r: Result<OwnedNote, ZkLedgerError>,
) -> bool {
    match publish_outcome(before.ledger, note_commitment(note)) {
        Ok(next) => {
            &&& r matches Ok(o)
            &&& o.note == note
            &&& o.commitment@ == note_commitment(note)
            &&& o.position == before.ledger.commitments.len()
            &&& after == (ManagerView { ledger: next, vault: before.vault.push(note), ..before })
        },
        Err(e) => r == Err::<OwnedNote, ZkLedgerError>(e) && after == before,
    }
}

/// Result and manager are those of committing the prepared transfer `p`: if
/// the ledger admits the transaction, the receipt holds the notes of `p`,
/// the ledger is the one that admitting leads to, the vault has the new
/// notes at its end and the opening of `p` is kept; if it refuses, the
/// result is that refusal and nothing changed.
pub open spec fn transfer_follows(
    before: ManagerView,
    p: PreparedView,
    after: ManagerView,
    r: Result<TransferReceipt, ZkLedgerError>,
) -> bool {
    match commit_outcome(before.ledger, p.transaction, p.inputs, p.outputs) {
        Ok(next) => {
            &&& r matches Ok(receipt)
            &&& commitments_match(receipt.spent@)
            &&& owned_views(receipt.spent@) == p.spent
            &&& receipt.sent == p.sent
            &&& receipt.change == p.change
            &&& after.names == before.names
            &&& after.wallets == before.wallets
            &&& after.ledger == next
            &&& after.vault == before.vault + outputs_of(p.sent, p.change)
            &&& after.openings.len() == before.openings.len() + 1
            &&& after.openings.drop_last() == before.openings
            &&& after.openings.last().inputs@ == p.inputs
            &&& after.openings.last().outputs@ == p.outputs
        },
        Err(e) => r == Err::<TransferReceipt, ZkLedgerError>(e) && after == before,
    }
}

impl View for WalletManager {
    type V = ManagerView;

    closed spec fn view(&self) -> ManagerView {
        ManagerView {
            names: entry_names(self.wallets@),
            wallets: entry_wallets(self.wallets@),
            ledger: self.ledger@,
            vault: self.vault@,
            openings: self.openings@,
        }
    }
}

impl WalletManager {
    /// The lasting invariant of the manager, on its contents.
    pub open spec fn wf(&self) -> bool {
        manager_well_formed(self@)
    }

    /// A manager with no wallets and an empty ledger.
    pub fn new() -> (m: WalletManager)
        ensures
            m.wf(),
            m@.names.len() == 0,
            m@.vault.len() == 0,
            m@.openings.len() == 0,
            m@.ledger.commitments.len() == 0,
            m@.ledger.nullifiers.len() == 0,
            m@.ledger.transactions.len() == 0,
    {
        let m = WalletManager {
            wallets: Vec::new(),
            ledger: Ledger::new(),
            vault: Vec::new(),
            openings: Vec::new(),
        };
        proof {
            assert(output_commitments(m@.vault) =~= m@.ledger.commitments);
        }
        m
    }

    /// The wallets with their names, in the order of creation.
    pub fn wallets(&self) -> (entries: &Vec<WalletEntry>)
        ensures
            entry_names(entries@) == self@.names,
            entry_wallets(entries@) == self@.wallets,
    {
        &self.wallets
    }

    /// The ledger.
    pub fn ledger(&self) -> (ledger: &Ledger)
        ensures
            ledger@ == self@.ledger,
    {
        &self.ledger
    }

    /// The notes behind the ledger's commitments.
    pub fn vault(&self) -> (notes: &Vec<Note>)
        ensures
            notes@ == self@.vault,
    {
        &self.vault
    }

    /// The openings of the ledger's transactions, each at the index of its
    /// transaction.
    pub fn openings(&self) -> (openings: &Vec<Opening>)
        ensures
            openings@ == self@.openings,
    {
        &self.openings
    }

    /// The index of the wallet with the given name.
    fn position_of(&self, name: &str) -> (r: Option<usize>)
        ensures
            match r {
                Some(i) => i < self@.names.len() && self@.names[i as int] == name@,
                None => !self@.names.contains(name@),
            },
    {
        let wanted: String = name.to_owned();
        let mut i: usize = 0;
        while i < self.wallets.len()
            invariant
                i <= self.wallets@.len(),
                wanted@ == name@,
                forall|k: int| 0 <= k < i ==> entry_names(self.wallets@)[k] != name@,
            decreases self.wallets@.len() - i,
        {
            if self.wallets[i].name == wanted {
                return Some(i);
            }
            i = i + 1;
        }
        None
    }

    /// The wallet with the given name.
    pub fn wallet(&self, name: &str) -> (r: Option<Wallet>)
        ensures
            r is Some <==> self@.names.contains(name@),
            r matches Some(w) ==> exists|i: int|
                0 <= i < self@.names.len() && self@.names[i] == name@ && self@.wallets[i] == w@,
    {
        match self.position_of(name) {
            Some(i) => Some(self.wallets[i].wallet),
            None => None,
        }
    }

    /// Registers `wallet` under `name`.  A name that is already in use is
    /// refused, and nothing changes.
    pub fn register_wallet(&mut self, name: &str, wallet: Wallet) -> (r: Result<(), ZkLedgerError>)
        requires
            old(self).wf(),
        ensures
            final(self).wf(),
            r is Ok <==> !old(self)@.names.contains(name@),
            r is Ok ==> final(self)@ == (ManagerView {
                names: old(self)@.names.push(name@),
                wallets: old(self)@.wallets.push(wallet@),
                ..old(self)@
            }),
            r is Err ==> name_taken(r, name@) && final(self)@ == old(self)@,
    {
        if self.position_of(name).is_some() {
            return Err(ZkLedgerError::WalletExists(name.to_owned()));
        }
        self.wallets.push(WalletEntry { name: name.to_owned(), wallet });
        proof {
            let names = old(self)@.names;
            assert(self@.names =~= names.push(name@));
            assert(self@.wallets =~= old(self)@.wallets.push(wallet@));
        }
        Ok(())
    }

    /// Registers the wallet made of the given keys under `name`.  A name that
    /// is already in use is refused, and nothing changes.
    pub fn create_wallet_with(
        &mut self,
        name: &str,
        spending_key: [u8; 32],
        viewing_key: [u8; 32],
    ) -> (r: Result<Wallet, ZkLedgerError>)
        requires
            old(self).wf(),
        ensures
            final(self).wf(),
            r is Ok <==> !old(self)@.names.contains(name@),
            r matches Ok(w) ==> {
                &&& w@.spending_key == spending_key@
                &&& w@.viewing_key == viewing_key@
                &&& w@.public_tag == crate::keys::tag_of_key(spending_key@)
                &&& final(self)@ == (ManagerView {
                    names: old(self)@.names.push(name@),
                    wallets: old(self)@.wallets.push(w@),
                    ..old(self)@
                })
            },
            r is Err ==> name_taken(r, name@) && final(self)@ == old(self)@,
    {
        let wallet = Wallet::from_keys(spending_key, viewing_key);
        match self.register_wallet(name, wallet) {
            Ok(()) => Ok(wallet),
            Err(e) => Err(e),
        }
    }

    /// Registers a wallet with fresh random keys under `name`.  A name that
    /// is already in use is refused, and nothing changes.
    pub fn create_wallet(&mut self, name: &str) -> (r: Result<Wallet, ZkLedgerError>)
        requires
            old(self).wf(),
        ensures
            final(self).wf(),
            r is Ok <==> !old(self)@.names.contains(name@),
            r matches Ok(w) ==> {
                &&& w@.public_tag == crate::keys::tag_of_key(w@.spending_key)
                &&& w@.spending_key.len() == 32
                &&& w@.viewing_key.len() == 32
                &&& final(self)@ == (ManagerView {
                    names: old(self)@.names.push(name@),
                    wallets: old(self)@.wallets.push(w@),
                    ..old(self)@
                })
            },
            r is Err ==> name_taken(r, name@) && final(self)@ == old(self)@,
    {
        if self.position_of(name).is_some() {
            return Err(ZkLedgerError::WalletExists(name.to_owned()));
        }
        let wallet = generate_wallet();
        match self.register_wallet(name, wallet) {
            Ok(()) => Ok(wallet),
            Err(e) => Err(e),
        }
    }

    /// Creates a note of `amount` for the wallet named `to`, with the given
    /// blinding, and publishes its commitment.
    ///
    /// Fails with `WalletNotFound` if there is no such wallet, else with
    /// `InvalidAmount` if the amount is zero, else with `DuplicateCommitment`
    /// if the note's commitment is already published.  On failure nothing
    /// changes.
    pub fn mint_with(&mut self, to: &str, amount: u64, blinding: [u8; 32]) -> (r: Result<
        OwnedNote,
        ZkLedgerError,
    >)
        requires
            old(self).wf(),
        ensures
            final(self).wf(),
            r is Err ==> final(self)@ == old(self)@,
            !old(self)@.names.contains(to@) ==> not_found(r, to@),
            old(self)@.names.contains(to@) && amount == 0 ==> (r matches Err(e)
                && e is InvalidAmount),
            old(self)@.names.contains(to@) && amount > 0 ==> exists|note: Note|
                {
                    &&& note.value == amount
                    &&& note.owner_tag@ == wallet_named(old(self)@, to@).public_tag
                    &&& note.blinding == blinding
                    &&& #[trigger] mint_follows(old(self)@, note, final(self)@, r)
                },
    {
        let at = match self.position_of(to) {
            Some(i) => i,
            None => { return Err(ZkLedgerError::WalletNotFound(to.to_owned())); },
        };
        if amount == 0 {
            return Err(ZkLedgerError::InvalidAmount);
        }
        let tag = self.wallets[at].wallet.public_tag();
        let note = Note { value: amount, owner_tag: tag, blinding };
        let commitment = commitment_of(&note);
        let log = self.ledger.commitments();
        let position: usize = log.len();
        let r = match self.ledger.publish(commitment) {
            Ok(()) => {
                self.vault.push(note);
                proof {
                    assert(output_commitments(self@.vault) =~= self@.ledger.commitments);
                }
                Ok(OwnedNote { note, commitment, position })
            },
            Err(e) => Err(e),
        };
        proof {
            assert(mint_follows(old(self)@, note, self@, r));
        }
        r
    }

    /// Creates a note of `amount` for the wallet named `to`, with fresh
    /// random blinding, and publishes its commitment.  On failure nothing
    /// changes.
    ///
    /// Fails with `WalletNotFound` if there is no such wallet, else with
    /// `InvalidAmount` if the amount is zero.  Otherwise the outcome is that
    /// of `mint_with` for the blinding drawn: the note is created, unless its
    /// commitment is already published.  On a ledger without commitments
    /// minting to a known wallet a positive amount therefore succeeds.
    pub fn mint(&mut self, to: &str, amount: u64) -> (r: Result<OwnedNote, ZkLedgerError>)
        requires
            old(self).wf(),
        ensures
            final(self).wf(),
            r is Err ==> final(self)@ == old(self)@,
            !old(self)@.names.contains(to@) ==> not_found(r, to@),
            old(self)@.names.contains(to@) && amount == 0 ==> (r matches Err(e)
                && e is InvalidAmount),
            old(self)@.names.contains(to@) && amount > 0 ==> exists|note: Note|
                {
                    &&& note.value == amount
                    &&& note.owner_tag@ == wallet_named(old(self)@, to@).public_tag
                    &&& #[trigger] mint_follows(old(self)@, note, final(self)@, r)
                },
    {
        let blinding = random_bytes32();
        self.mint_with(to, amount, blinding)
    }

    /// Reports what the wallet named `name` can spend.
    ///
    /// Fails with `WalletNotFound` if there is no such wallet, and with
    /// `AmountOverflow` if the total is more than a `u64` can hold.
    pub fn check_balance(&self, name: &str) -> (r: Result<BalanceReport, ZkLedgerError>)
        requires
            self.wf(),
        ensures
            !self@.names.contains(name@) ==> not_found(r, name@),
            self@.names.contains(name@) ==> {
                let w = wallet_named(self@, name@);
                let total = balance_of(w, self@.ledger, self@.vault);
                if total > u64::MAX {
                    r matches Err(e) && e is AmountOverflow
                } else {
                    &&& r matches Ok(report)
                    &&& report.balance == total
                    &&& report.notes == spendable(w, self@.ledger, self@.vault).len()
                }
            },
    {
        let at = match self.position_of(name) {
            Some(i) => i,
            None => { return Err(ZkLedgerError::WalletNotFound(name.to_owned())); },
        };
        let wallet = &self.wallets[at].wallet;
        let found = scan(wallet, &self.ledger, &self.vault);
        let notes = notes_found(&found);
        let (_, total) = tally(&notes);
        if total > u64::MAX as u128 {
            return Err(ZkLedgerError::AmountOverflow);
        }
        Ok(BalanceReport { notes: found.len(), balance: total as u64 })
    }

    /// Transfers `amount` from the wallet named `from` to the wallet named
    /// `to`, with the given blinding for the recipient's note and for the
    /// change note.
    ///
    /// Fails with `WalletNotFound` for the first of the two names that is
    /// unknown, else with `InvalidAmount` if the amount is zero, else with
    /// `InsufficientBalance` if the sender's spendable notes do not reach
    /// the amount, else with whatever the ledger refuses the transaction
    /// for.  On failure nothing changes.
    pub fn transfer_with(
        &mut self,
        from: &str,
        to: &str,
        amount: u64,
        blinding: [u8; 32],
        change_blinding: [u8; 32],
    ) -> (r: Result<TransferReceipt, ZkLedgerError>)
        requires
            old(self).wf(),
        ensures
            final(self).wf(),
            r is Err ==> final(self)@ == old(self)@,
            !old(self)@.names.contains(from@) ==> not_found(r, from@),
            old(self)@.names.contains(from@) && !old(self)@.names.contains(to@) ==> not_found(r, to@),
            old(self)@.names.contains(from@) && old(self)@.names.contains(to@) ==> {
                let sender = wallet_named(old(self)@, from@);
                let available = balance_of(sender, old(self)@.ledger, old(self)@.vault);
                if amount == 0 {
                    r matches Err(e) && e is InvalidAmount
                } else if available < amount {
                    r matches Err(e) && e is InsufficientBalance
                } else {
                    exists|to_tag: [u8; 32], p: PreparedView|
                        {
                            &&& to_tag@ == wallet_named(old(self)@, to@).public_tag
                            &&& #[trigger] plans(
                                sender,
                                old(self)@.ledger,
                                old(self)@.vault,
                                to_tag,
                                amount,
                                blinding,
                                change_blinding,
                                p,
                            )
                            &&& transfer_follows(old(self)@, p, final(self)@, r)
                        }
                }
            },
    {
        let i = match self.position_of(from) {
            Some(i) => i,
            None => { return Err(ZkLedgerError::WalletNotFound(from.to_owned())); },
        };
        let j = match self.position_of(to) {
            Some(j) => j,
            None => { return Err(ZkLedgerError::WalletNotFound(to.to_owned())); },
        };
        let sender: Wallet = self.wallets[i].wallet;
        let to_tag = self.wallets[j].wallet.public_tag();
        let prepared = match prepare_transfer(
            &self.ledger,
            &sender,
            &self.vault,
            &to_tag,
            amount,
            blinding,
            change_blinding,
        ) {
            Ok(p) => p,
            Err(e) => { return Err(e); },
        };
        let PreparedTransfer { transaction, opening, picks: _, spent, sent, change } = prepared;
        match self.ledger.commit(transaction, &opening) {
            Ok(()) => {
                self.vault.push(sent);
                match change {
                    Some(note) => {
                        self.vault.push(note);
                    },
                    None => {},
                }
                self.openings.push(opening);
                proof {
                    let made = outputs_of(sent, change);
                    assert(self@.vault =~= old(self)@.vault + made);
                    assert(output_commitments(old(self)@.vault + made) =~= output_commitments(
                        old(self)@.vault,
                    ) + output_commitments(made));
                    assert(self@.openings.drop_last() =~= old(self)@.openings);
                }
                Ok(TransferReceipt { spent, sent, change })
            },
            Err(e) => Err(e),
        }
    }

    /// Transfers `amount` from the wallet named `from` to the wallet named
    /// `to`, with fresh random blinding in the notes it creates.  On failure
    /// nothing changes.
    ///
    /// Fails with `WalletNotFound` for the first of the two names that is
    /// unknown, else with `InvalidAmount` if the amount is zero, else with
    /// `InsufficientBalance` if the sender's spendable notes do not reach
    /// the amount.  Otherwise the outcome is that of `transfer_with` for the
    /// blinding drawn: the transfer planned with it is committed, or refused
    /// for what the ledger refuses it for.
    pub fn transfer(&mut self, from: &str, to: &str, amount: u64) -> (r: Result<
        TransferReceipt,
        ZkLedgerError,
    >)
        requires
            old(self).wf(),
        ensures
            final(self).wf(),
            r is Err ==> final(self)@ == old(self)@,
            !old(self)@.names.contains(from@) ==> not_found(r, from@),
            old(self)@.names.contains(from@) && !old(self)@.names.contains(to@) ==> not_found(r, to@),
            old(self)@.names.contains(from@) && old(self)@.names.contains(to@) ==> {
                let sender = wallet_named(old(self)@, from@);
                let available = balance_of(sender, old(self)@.ledger, old(self)@.vault);
                if amount == 0 {
                    r matches Err(e) && e is InvalidAmount
                } else if available < amount {
                    r matches Err(e) && e is InsufficientBalance
                } else {
                    exists|
                        to_tag: [u8; 32],
                        blinding: [u8; 32],
                        change_blinding: [u8; 32],
                        p: PreparedView,
                    |
                        {
                            &&& to_tag@ == wallet_named(old(self)@, to@).public_tag
                            &&& #[trigger] plans(
                                sender,
                                old(self)@.ledger,
                                old(self)@.vault,
                                to_tag,
                                amount,
                                blinding,
                                change_blinding,
                                p,
                            )
                            &&& transfer_follows(old(self)@, p, final(self)@, r)
                        }
                }
            },
            r matches Ok(receipt) ==> {
                &&& receipt.sent.value == amount
                &&& receipt.sent.owner_tag@ == wallet_named(old(self)@, to@).public_tag
                &&& crate::circuit::total_value(found_notes(owned_views(receipt.spent@)))
                    == crate::circuit::total_value(outputs_of(receipt.sent, receipt.change))
            },
    {
        let blinding = random_bytes32();
        let change_blinding = random_bytes32();
        let r = self.transfer_with(from, to, amount, blinding, change_blinding);
        proof {
            if r is Ok {
                let sender = wallet_named(old(self)@, from@);
                let (to_tag, p) = choose|to_tag: [u8; 32], p: PreparedView|
                    {
                        &&& to_tag@ == wallet_named(old(self)@, to@).public_tag
                        &&& #[trigger] plans(
                            sender,
                            old(self)@.ledger,
                            old(self)@.vault,
                            to_tag,
                            amount,
                            blinding,
                            change_blinding,
                            p,
                        )
                        &&& transfer_follows(old(self)@, p, self@, r)
                    };
                crate::processor::lemma_plan_conserves(
                    sender,
                    old(self)@.ledger,
                    old(self)@.vault,
                    to_tag,
                    amount,
                    blinding,
                    change_blinding,
                    p,
                );
            }
        }
        r
    }

    /// Submits a transaction that was prepared elsewhere, with its opening.
    /// The ledger decides: the transaction is admitted whole, with its
    /// output notes added to the vault and its opening kept, or refused for
    /// what `Ledger::commit` refuses it for, and then nothing changes.
    pub fn submit(&mut self, tx: Transaction, opening: Opening) -> (r: Result<(), ZkLedgerError>)
        requires
            old(self).wf(),
        ensures
            final(self).wf(),
            match commit_outcome(old(self)@.ledger, tx@, opening.inputs@, opening.outputs@) {
                Ok(next) => {
                    &&& r is Ok
                    &&& final(self)@ == (ManagerView {
                        ledger: next,
                        vault: old(self)@.vault + opening.outputs@,
                        openings: old(self)@.openings.push(opening),
                        ..old(self)@
                    })
                },
                Err(e) => r == Err::<(), ZkLedgerError>(e) && final(self)@ == old(self)@,
            },
    {
        match self.ledger.commit(tx, &opening) {
            Ok(()) => {},
            Err(e) => { return Err(e); },
        }
        let mut k: usize = 0;
        while k < opening.outputs.len()
            invariant
                k <= opening.outputs@.len(),
                self.wallets == old(self).wallets,
                self.openings == old(self).openings,
                self.ledger@ == commit_outcome(
                    old(self)@.ledger,
                    tx@,
                    opening.inputs@,
                    opening.outputs@,
                )->Ok_0,
                self.vault@ == old(self).vault@ + opening.outputs@.subrange(0, k as int),
            decreases opening.outputs@.len() - k,
        {
            self.vault.push(opening.outputs[k]);
            k = k + 1;
        }
        let ghost shown = opening;
        self.openings.push(opening);
        proof {
            let made = shown.outputs@;
            assert(made.subrange(0, made.len() as int) =~= made);
            assert(output_commitments(old(self)@.vault + made) =~= output_commitments(
                old(self)@.vault,
            ) + output_commitments(made));
        }
        Ok(())
    }

    /// Rebuilds a manager from what was stored: the wallets, the three lists
    /// of the ledger, the notes behind the commitments and the openings of
    /// the transactions.
    ///
    /// Succeeds exactly if no name is used twice, the lists describe a
    /// ledger, every transaction is accepted with the opening at its index,
    /// the notes are, in order, the notes behind the ledger's commitments,
    /// and every note holds a positive value; anything else is refused with
    /// `DecodeError`.
    pub fn restore(
        entries: Vec<WalletEntry>,
        commitments: Vec<Commitment>,
        nullifiers: Vec<Nullifier>,
        transactions: Vec<Transaction>,
        vault: Vec<Note>,
        openings: Vec<Opening>,
    ) -> (r: Result<WalletManager, ZkLedgerError>)
        ensures
            r is Ok <==> {
                let l = LedgerView {
                    commitments: views(commitments@),
                    nullifiers: views(nullifiers@),
                    transactions: transaction_views(transactions@),
                };
                &&& entry_names(entries@).no_duplicates()
                &&& opened_by(l, openings@)
                &&& in_step(vault@, l)
                &&& all_positive(vault@)
            },
            r matches Ok(m) ==> {
                &&& m.wf()
                &&& m@.names == entry_names(entries@)
                &&& m@.wallets == entry_wallets(entries@)
                &&& m@.ledger.commitments == views(commitments@)
                &&& m@.ledger.nullifiers == views(nullifiers@)
                &&& m@.ledger.transactions == transaction_views(transactions@)
                &&& m@.vault == vault@
                &&& m@.openings == openings@
            },
            r matches Err(e) ==> e is DecodeError,
    {
        if !distinct_names(&entries) {
            return Err(ZkLedgerError::DecodeError);
        }
        let ledger = match Ledger::restore(commitments, nullifiers, transactions, &openings) {
            Ok(l) => l,
            Err(e) => { return Err(e); },
        };
        let behind = commitments_of(&vault);
        if !same_digests(&behind, ledger.commitments()) {
            return Err(ZkLedgerError::DecodeError);
        }
        let (positive, _) = tally(&vault);
        if !positive {
            return Err(ZkLedgerError::DecodeError);
        }
        Ok(WalletManager { wallets: entries, ledger, vault, openings })
    }

    /// Lists what the ledger shows to everyone: the commitments and the
    /// nullifiers as hexadecimal text, and the number of transactions.
    pub fn view_ledger(&self) -> (listing: LedgerListing)
        ensures
            listing.transactions == self@.ledger.transactions.len(),
            listing.commitments@.len() == self@.ledger.commitments.len(),
            forall|i: int|
                0 <= i < listing.commitments@.len() ==> (#[trigger] listing.commitments@[i])@
                    == hex_text(self@.ledger.commitments[i]),
            listing.nullifiers@.len() == self@.ledger.nullifiers.len(),
            forall|i: int|
                0 <= i < listing.nullifiers@.len() ==> (#[trigger] listing.nullifiers@[i])@
                    == hex_text(self@.ledger.nullifiers[i]),
    {
        let transactions = self.ledger.transactions();
        LedgerListing {
            commitments: hex_list(self.ledger.commitments()),
            nullifiers: hex_list(self.ledger.nullifiers()),
            transactions: transactions.len(),
        }
    }
}

/// Whether no two entries have the same name.
pub fn distinct_names(entries: &Vec<WalletEntry>) -> (distinct: bool)
    ensures
        distinct == entry_names(entries@).no_duplicates(),
{
    let mut i: usize = 0;
    while i < entries.len()
        invariant
            i <= entries@.len(),
            forall|k: int, j: int|
                0 <= k < i && k < j < entries@.len() ==> entry_names(entries@)[k] != entry_names(
                    entries@,
                )[j],
        decreases entries@.len() - i,
    {
        let mut j: usize = i + 1;
        while j < entries.len()
            invariant
                i < j <= entries@.len(),
                forall|m: int|
                    i < m < j ==> entry_names(entries@)[i as int] != entry_names(entries@)[m],
            decreases entries@.len() - j,
        {
            if entries[i].name == entries[j].name {
                proof {
                    assert(entry_names(entries@)[i as int] == entry_names(entries@)[j as int]);
                }
                return false;
            }
            j = j + 1;
        }
        i = i + 1;
    }
    true
}

/// The result is the failure `WalletNotFound` with the given name.
pub open spec fn not_found<T>(r: Result<T, ZkLedgerError>, name: Seq<char>) -> bool {
    r matches Err(e) && e matches ZkLedgerError::WalletNotFound(n) && n@ == name
}

/// The result is the failure `WalletExists` with the given name.
pub open spec fn name_taken<T>(r: Result<T, ZkLedgerError>, name: Seq<char>) -> bool {
    r matches Err(e) && e matches ZkLedgerError::WalletExists(n) && n@ == name
}

/// The wallet registered under `name`.
pub open spec fn wallet_named(m: ManagerView, name: Seq<char>) -> WalletView {
    m.wallets[m.names.index_of(name)]
}

} // verus!
