//! The two closed enumerations of a transaction record, with their wire names.

use crate::text::{chars_of, spells};
use vstd::prelude::*;
use vstd::string::*;

verus! {

/// What a transaction does with the money.
#[derive(Debug, Clone, Copy, PartialEq, Eq, Structural)]
pub enum TransactionType {
    Deposit,
    Transfer,
    Withdrawal,
}

/// How far a transaction has come.
#[derive(Debug, Clone, Copy, PartialEq, Eq, Structural)]
pub enum TransactionStatus {
    Pending,
    Success,
    Failure,
}

impl TransactionType {
    /// The upper-case name that stands for the variant on the wire.
    pub open spec fn wire_name(self) -> Seq<char> {
        match self {
            TransactionType::Deposit => "DEPOSIT"@,
            TransactionType::Transfer => "TRANSFER"@,
            TransactionType::Withdrawal => "WITHDRAWAL"@,
        }
    }

    /// The variant that a wire name stands for. Any other text stands for none.
    pub open spec fn from_wire(name: Seq<char>) -> Option<TransactionType> {
        if name == "DEPOSIT"@ {
            Some(TransactionType::Deposit)
        } else if name == "TRANSFER"@ {
            Some(TransactionType::Transfer)
        } else if name == "WITHDRAWAL"@ {
            Some(TransactionType::Withdrawal)
        } else {
            None
        }
    }

    /// Each variant is the one that its own wire name stands for, and a wire
    /// name is free of whitespace, line breaks and colons.
    pub proof fn lemma_wire_name(self)
        ensures
            Self::from_wire(self.wire_name()) == Some(self),
            self.wire_name().len() > 0,
            forall|i: int|
                0 <= i < self.wire_name().len() ==> 0x41 <= (#[trigger] self.wire_name()[i]) as u32
                    <= 0x5A,
    {
        reveal_strlit("DEPOSIT");
        reveal_strlit("TRANSFER");
        reveal_strlit("WITHDRAWAL");
        assert("DEPOSIT"@.len() == 7);
        assert("TRANSFER"@.len() == 8);
        assert("WITHDRAWAL"@.len() == 10);
    }

    /// Reads a variant from its wire name, given as characters.
    pub fn from_chars(name: &[char]) -> (kind: Option<TransactionType>)
        ensures
            kind == Self::from_wire(name@),
    {
        if spells(name, "DEPOSIT") {
            Some(TransactionType::Deposit)
        } else if spells(name, "TRANSFER") {
            Some(TransactionType::Transfer)
        } else if spells(name, "WITHDRAWAL") {
            Some(TransactionType::Withdrawal)
        } else {
            None
        }
    }

    /// Reads a variant from its wire name. Any other text is refused.
    pub fn from_str(s: &str) -> (kind: Result<TransactionType, ()>)
        ensures
            kind == match Self::from_wire(s@) {
                Some(k) => Ok::<TransactionType, ()>(k),
                None => Err(()),
            },
    {
        let name = chars_of(s);
        match Self::from_chars(name.as_slice()) {
            Some(k) => Ok(k),
            None => Err(()),
        }
    }

    /// The wire name of the variant.
    pub fn as_str(&self) -> (name: &'static str)
        ensures
            name@ == self.wire_name(),
    {
        match self {
            TransactionType::Deposit => "DEPOSIT",
            TransactionType::Transfer => "TRANSFER",
            TransactionType::Withdrawal => "WITHDRAWAL",
        }
    }

    /// The wire name of the variant, as an owned string.
    pub fn to_string(&self) -> (name: String)
        ensures
            name@ == self.wire_name(),
    {
        String::from_str(self.as_str())
    }
}

impl std::str::FromStr for TransactionType {
    type Err = ();

    /// Reads a variant from its wire name, as the inherent `from_str` does.
    fn from_str(s: &str) -> (kind: Result<TransactionType, ()>)
        ensures
            kind == match TransactionType::from_wire(s@) {
                Some(k) => Ok::<TransactionType, ()>(k),
                None => Err(()),
            },
    {
        TransactionType::from_str(s)
    }
}

impl TransactionStatus {
    /// The upper-case name that stands for the variant on the wire.
    pub open spec fn wire_name(self) -> Seq<char> {
        match self {
            TransactionStatus::Pending => "PENDING"@,
            TransactionStatus::Success => "SUCCESS"@,
            TransactionStatus::Failure => "FAILURE"@,
        }
    }

    /// The variant that a wire name stands for. Any other text stands for none.
    pub open spec fn from_wire(name: Seq<char>) -> Option<TransactionStatus> {
        if name == "PENDING"@ {
            Some(TransactionStatus::Pending)
        } else if name == "FAILURE"@ {
            Some(TransactionStatus::Failure)
        } else if name == "SUCCESS"@ {
            Some(TransactionStatus::Success)
        } else {
            None
        }
    }

    /// Each variant is the one that its own wire name stands for, and a wire
    /// name is free of whitespace, line breaks and colons.
    pub proof fn lemma_wire_name(self)
        ensures
            Self::from_wire(self.wire_name()) == Some(self),
            self.wire_name().len() > 0,
            forall|i: int|
                0 <= i < self.wire_name().len() ==> 0x41 <= (#[trigger] self.wire_name()[i]) as u32
                    <= 0x5A,
    {
        reveal_strlit("PENDING");
        reveal_strlit("SUCCESS");
        reveal_strlit("FAILURE");
        assert("PENDING"@[0] != "SUCCESS"@[0]);
        assert("PENDING"@[0] != "FAILURE"@[0]);
        assert("SUCCESS"@[0] != "FAILURE"@[0]);
    }

    /// Reads a variant from its wire name, given as characters.
    pub fn from_chars(name: &[char]) -> (status: Option<TransactionStatus>)
        ensures
            status == Self::from_wire(name@),
    {
        if spells(name, "PENDING") {
            Some(TransactionStatus::Pending)
        } else if spells(name, "FAILURE") {
            Some(TransactionStatus::Failure)
        } else if spells(name, "SUCCESS") {
            Some(TransactionStatus::Success)
        } else {
            None
        }
    }

    /// Reads a variant from its wire name. Any other text is refused.
    pub fn from_str(s: &str) -> (status: Result<TransactionStatus, ()>)
        ensures
            status == match Self::from_wire(s@) {
                Some(k) => Ok::<TransactionStatus, ()>(k),
                None => Err(()),
            },
    {
        let name = chars_of(s);
        match Self::from_chars(name.as_slice()) {
            Some(k) => Ok(k),
            None => Err(()),
        }
    }

    /// The wire name of the variant.
    pub fn as_str(&self) -> (name: &'static str)
        ensures
            name@ == self.wire_name(),
    {
        match self {
            TransactionStatus::Pending => "PENDING",
            TransactionStatus::Success => "SUCCESS",
            TransactionStatus::Failure => "FAILURE",
        }
    }

    /// The wire name of the variant, as an owned string.
    pub fn to_string(&self) -> (name: String)
        ensures
            name@ == self.wire_name(),
    {
        String::from_str(self.as_str())
    }
}

impl std::str::FromStr for TransactionStatus {
    type Err = ();

    /// Reads a variant from its wire name, as the inherent `from_str` does.
    fn from_str(s: &str) -> (status: Result<TransactionStatus, ()>)
        ensures
            status == match TransactionStatus::from_wire(s@) {
                Some(k) => Ok::<TransactionStatus, ()>(k),
                None => Err(()),
            },
    {
        TransactionStatus::from_str(s)
    }
}

} // verus!
