//! One bank transaction of a report.

use vstd::prelude::*;
use vstd::string::*;

verus! {

/// The kind of a transaction.
#[derive(Debug, Clone, Copy, PartialEq, Eq, Structural)]
pub enum TransactionType {
    Deposit,
    Transfer,
    Withdrawal,
    Unknown,
}

/// How a transaction ended.
#[derive(Debug, Clone, Copy, PartialEq, Eq, Structural)]
pub enum TransactionStatus {
    Success,
    Failure,
    Pending,
    Unknown,
}

/// The byte that stands for a transaction kind in the binary format.
pub open spec fn type_code(t: TransactionType) -> u8 {
    match t {
        TransactionType::Deposit => 0,
        TransactionType::Transfer => 1,
        TransactionType::Withdrawal => 2,
        TransactionType::Unknown => 255,
    }
}

/// The transaction kind of a byte of the binary format.
pub open spec fn type_of_code(b: u8) -> TransactionType {
    if b == 0 {
        TransactionType::Deposit
    } else if b == 1 {
        TransactionType::Transfer
    } else if b == 2 {
        TransactionType::Withdrawal
    } else {
        TransactionType::Unknown
    }
}

/// The byte that stands for a status in the binary format.
pub open spec fn status_code(s: TransactionStatus) -> u8 {
    match s {
        TransactionStatus::Success => 0,
        TransactionStatus::Failure => 1,
        TransactionStatus::Pending => 2,
        TransactionStatus::Unknown => 255,
    }
}

/// The status of a byte of the binary format.
pub open spec fn status_of_code(b: u8) -> TransactionStatus {
    if b == 0 {
        TransactionStatus::Success
    } else if b == 1 {
        TransactionStatus::Failure
    } else if b == 2 {
        TransactionStatus::Pending
    } else {
        TransactionStatus::Unknown
    }
}

/// The name of a transaction kind in the text formats.
pub open spec fn kind_name(t: TransactionType) -> Seq<char> {
    match t {
        TransactionType::Deposit => "DEPOSIT"@,
        TransactionType::Transfer => "TRANSFER"@,
        TransactionType::Withdrawal => "WITHDRAWAL"@,
        TransactionType::Unknown => "UNKNOWN"@,
    }
}

/// The name of a status in the text formats.
pub open spec fn status_name(s: TransactionStatus) -> Seq<char> {
    match s {
        TransactionStatus::Success => "SUCCESS"@,
        TransactionStatus::Failure => "FAILURE"@,
        TransactionStatus::Pending => "PENDING"@,
        TransactionStatus::Unknown => "UNKNOWN"@,
    }
}

impl TransactionType {
    /// The kind that a byte of the binary format stands for; any byte but the
    /// three known ones gives `Unknown`.
    pub fn from_u8(b: u8) -> (r: TransactionType)
        ensures
            r == type_of_code(b),
    {
        if b == 0 {
            TransactionType::Deposit
        } else if b == 1 {
            TransactionType::Transfer
        } else if b == 2 {
            TransactionType::Withdrawal
        } else {
            TransactionType::Unknown
        }
    }

    /// The byte of the binary format for this kind.
    pub fn to_u8(&self) -> (r: u8)
        ensures
            r == type_code(*self),
    {
        match self {
            TransactionType::Deposit => 0,
            TransactionType::Transfer => 1,
            TransactionType::Withdrawal => 2,
            TransactionType::Unknown => 255,
        }
    }

    /// The name of this kind in the text formats.
    pub fn name(&self) -> (r: &'static str)
        ensures
            r@ == kind_name(*self),
    {
        match self {
            TransactionType::Deposit => "DEPOSIT",
            TransactionType::Transfer => "TRANSFER",
            TransactionType::Withdrawal => "WITHDRAWAL",
            TransactionType::Unknown => "UNKNOWN",
        }
    }
}

impl TransactionStatus {
    /// The status that a byte of the binary format stands for; any byte but
    /// the three known ones gives `Unknown`.
    pub fn from_u8(b: u8) -> (r: TransactionStatus)
        ensures
            r == status_of_code(b),
    {
        if b == 0 {
            TransactionStatus::Success
        } else if b == 1 {
            TransactionStatus::Failure
        } else if b == 2 {
            TransactionStatus::Pending
        } else {
            TransactionStatus::Unknown
        }
    }

    /// The byte of the binary format for this status.
    pub fn to_u8(&self) -> (r: u8)
        ensures
            r == status_code(*self),
    {
        match self {
            TransactionStatus::Success => 0,
            TransactionStatus::Failure => 1,
            TransactionStatus::Pending => 2,
            TransactionStatus::Unknown => 255,
        }
    }

    /// The name of this status in the text formats.
    pub fn name(&self) -> (r: &'static str)
        ensures
            r@ == status_name(*self),
    {
        match self {
            TransactionStatus::Success => "SUCCESS",
            TransactionStatus::Failure => "FAILURE",
            TransactionStatus::Pending => "PENDING",
            TransactionStatus::Unknown => "UNKNOWN",
        }
    }
}

/// A transfer of money between two users, as a report records it.
#[derive(Debug, Clone)]
pub struct Transaction {
    pub tx_id: u64,
    pub tx_type: TransactionType,
    pub from_user_id: u64,
    pub to_user_id: u64,
    pub amount: u64,
    pub timestamp: u64,
    pub status: TransactionStatus,
    pub description: String,
}

/// A transaction with its description taken as characters.
pub struct TransactionView {
    pub tx_id: u64,
    pub tx_type: TransactionType,
    pub from_user_id: u64,
    pub to_user_id: u64,
    pub amount: u64,
    pub timestamp: u64,
    pub status: TransactionStatus,
    pub description: Seq<char>,
}

impl View for Transaction {
    type V = TransactionView;

    open spec fn view(&self) -> TransactionView {
        TransactionView {
            tx_id: self.tx_id,
            tx_type: self.tx_type,
            from_user_id: self.from_user_id,
            to_user_id: self.to_user_id,
            amount: self.amount,
            timestamp: self.timestamp,
            status: self.status,
            description: self.description@,
        }
    }
}

impl Transaction {
    pub fn new(
        tx_id: u64,
        tx_type: TransactionType,
        from_user_id: u64,
        to_user_id: u64,
        amount: u64,
        timestamp: u64,
        status: TransactionStatus,
        description: String,
    ) -> (r: Transaction)
        ensures
            r@ == (TransactionView {
                tx_id,
                tx_type,
                from_user_id,
                to_user_id,
                amount,
                timestamp,
                status,
                description: description@,
            }),
    {
        Transaction {
            tx_id,
            tx_type,
            from_user_id,
            to_user_id,
            amount,
            timestamp,
            status,
            description,
        }
    }

    /// Whether the two transactions agree in every field.
    pub fn same_as(&self, other: &Transaction) -> (r: bool)
        ensures
            r == (self@ == other@),
    {
        self.tx_id == other.tx_id && self.tx_type == other.tx_type && self.from_user_id
            == other.from_user_id && self.to_user_id == other.to_user_id && self.amount
            == other.amount && self.timestamp == other.timestamp && self.status == other.status
            && self.description == other.description
    }
}

impl PartialEq for Transaction {
    fn eq(&self, other: &Transaction) -> (r: bool) {
        self.same_as(other)
    }
}

impl vstd::std_specs::cmp::PartialEqSpecImpl for Transaction {
    open spec fn obeys_eq_spec() -> bool {
        true
    }

    open spec fn eq_spec(&self, other: &Transaction) -> bool {
        self@ == other@
    }
}

} // verus!
