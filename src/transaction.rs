use vstd::prelude::*;

use crate::account::{copy_opt_text, opt_text, Timestamp};
use crate::date::{Date, DateView};
use crate::money::{Money, MoneyView};

verus! {

/// The side of a posting.
#[derive(Debug, Clone, Copy, PartialEq, Eq, Structural, Hash)]
pub enum EntryType {
    Credit,
    Debit,
}

/// One posting of a transaction against one account.
#[derive(Debug)]
pub struct TransactionEntry {
    pub id: Option<i64>,
    pub transaction_id: i64,
    pub account_id: i64,
    pub amount: Money,
    pub entry_type: EntryType,
    pub description: Option<String>,
    pub created_at: Timestamp,
}

/// A transaction with all of its postings.
#[derive(Debug)]
pub struct Transaction {
    pub id: Option<i64>,
    pub description: String,
    pub reference: Option<String>,
    pub transaction_date: Date,
    pub created_at: Timestamp,
    pub tags: Option<String>,
    pub notes: Option<String>,
    pub entries: Vec<TransactionEntry>,
}

/// The stored header of a transaction, without its postings.
#[derive(Debug)]
pub struct TransactionRecord {
    pub id: i64,
    pub description: String,
    pub reference: Option<String>,
    pub transaction_date: Date,
    pub created_at: Timestamp,
    pub tags: Option<String>,
    pub notes: Option<String>,
}

/// A posting as a caller proposes it.
#[derive(Debug)]
pub struct TransactionEntryInput {
    pub account_id: i64,
    pub amount: Money,
    pub entry_type: EntryType,
    pub description: Option<String>,
}

/// Which transactions a listing holds: those with a posting on an account,
/// within a range of dates (both ends included), and which page of them.
#[derive(Debug, Clone, Copy)]
pub struct TransactionFilters {
    pub account_id: Option<i64>,
    pub from_date: Option<Date>,
    pub to_date: Option<Date>,
    pub limit: Option<u32>,
    pub offset: Option<u32>,
}

/// What a posting is, as far as balances are concerned.
pub struct EntryView {
    pub id: Option<i64>,
    pub transaction_id: i64,
    pub account_id: i64,
    pub amount: MoneyView,
    pub entry_type: EntryType,
    pub description: Option<Seq<char>>,
}

impl View for TransactionEntry {
    type V = EntryView;

    open spec fn view(&self) -> EntryView {
        EntryView {
            id: self.id,
            transaction_id: self.transaction_id,
            account_id: self.account_id,
            amount: self.amount@,
            entry_type: self.entry_type,
            description: opt_text(self.description),
        }
    }
}

impl TransactionEntry {
    /// A copy of this posting.
    pub fn copied(&self) -> (r: TransactionEntry)
        ensures
            r@ == self@,
            r.created_at == self.created_at,
    {
        TransactionEntry {
            id: self.id,
            transaction_id: self.transaction_id,
            account_id: self.account_id,
            amount: self.amount.copied(),
            entry_type: self.entry_type,
            description: copy_opt_text(&self.description),
            created_at: self.created_at,
        }
    }
}

/// What a proposed posting is.
pub struct InputView {
    pub account_id: i64,
    pub amount: MoneyView,
    pub entry_type: EntryType,
    pub description: Option<Seq<char>>,
}

impl View for TransactionEntryInput {
    type V = InputView;

    open spec fn view(&self) -> InputView {
        InputView {
            account_id: self.account_id,
            amount: self.amount@,
            entry_type: self.entry_type,
            description: opt_text(self.description),
        }
    }
}

/// What a transaction header is.
pub struct RecordView {
    pub id: i64,
    pub description: Seq<char>,
    pub transaction_date: DateView,
    pub created_at: Timestamp,
}

impl View for TransactionRecord {
    type V = RecordView;

    open spec fn view(&self) -> RecordView {
        RecordView {
            id: self.id,
            description: self.description@,
            transaction_date: self.transaction_date@,
            created_at: self.created_at,
        }
    }
}

} // verus!
