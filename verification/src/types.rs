//! Value types, fuzzy conditions and error kinds shared by the whole crate.

use vstd::prelude::*;

verus! {

/// The numeric type of a scanned value. `Auto` and `Xor` are decoded as `Dword`.
#[derive(Clone, Copy, Debug, PartialEq, Eq, Structural)]
pub enum ValueType {
    Byte,
    Word,
    Dword,
    Qword,
    Float,
    Double,
    Auto,
    Xor,
}

impl ValueType {
    /// Number of significant bytes of a value of this type.
    pub open spec fn spec_size(self) -> nat {
        match self {
            ValueType::Byte => 1,
            ValueType::Word => 2,
            ValueType::Dword => 4,
            ValueType::Qword => 8,
            ValueType::Float => 4,
            ValueType::Double => 8,
            ValueType::Auto => 4,
            ValueType::Xor => 4,
        }
    }

    pub open spec fn spec_is_float_type(self) -> bool {
        self == ValueType::Float || self == ValueType::Double
    }

    /// The byte that stands for this type in a packed record.
    pub open spec fn spec_tag(self) -> u8 {
        match self {
            ValueType::Byte => 0,
            ValueType::Word => 1,
            ValueType::Dword => 2,
            ValueType::Qword => 3,
            ValueType::Float => 4,
            ValueType::Double => 5,
            ValueType::Auto => 6,
            ValueType::Xor => 7,
        }
    }

    /// The type a tag byte stands for, if any.
    pub open spec fn spec_from_tag(tag: u8) -> Option<ValueType> {
        if tag == 0 {
            Some(ValueType::Byte)
        } else if tag == 1 {
            Some(ValueType::Word)
        } else if tag == 2 {
            Some(ValueType::Dword)
        } else if tag == 3 {
            Some(ValueType::Qword)
        } else if tag == 4 {
            Some(ValueType::Float)
        } else if tag == 5 {
            Some(ValueType::Double)
        } else if tag == 6 {
            Some(ValueType::Auto)
        } else if tag == 7 {
            Some(ValueType::Xor)
        } else {
            None
        }
    }

    /// The type read back from a record's tag byte. A byte outside the table
    /// reads as `Dword`, so that every 17-byte pattern is a record.
    pub open spec fn spec_from_tag_lossy(tag: u8) -> ValueType {
        match Self::spec_from_tag(tag) {
            Some(t) => t,
            None => ValueType::Dword,
        }
    }

    pub fn size(&self) -> (n: usize)
        ensures
            n == self.spec_size(),
    {
        match self {
            ValueType::Byte => 1,
            ValueType::Word => 2,
            ValueType::Dword => 4,
            ValueType::Qword => 8,
            ValueType::Float => 4,
            ValueType::Double => 8,
            ValueType::Auto => 4,
            ValueType::Xor => 4,
        }
    }

    pub fn is_float_type(&self) -> (b: bool)
        ensures
            b == self.spec_is_float_type(),
    {
        match self {
            ValueType::Float => true,
            ValueType::Double => true,
            _ => false,
        }
    }

    pub fn tag(&self) -> (t: u8)
        ensures
            t == self.spec_tag(),
            t < 8,
    {
        match self {
            ValueType::Byte => 0,
            ValueType::Word => 1,
            ValueType::Dword => 2,
            ValueType::Qword => 3,
            ValueType::Float => 4,
            ValueType::Double => 5,
            ValueType::Auto => 6,
            ValueType::Xor => 7,
        }
    }

    pub fn from_tag(tag: u8) -> (r: Option<ValueType>)
        ensures
            r == Self::spec_from_tag(tag),
            r is Some <==> tag < 8,
    {
        if tag == 0 {
            Some(ValueType::Byte)
        } else if tag == 1 {
            Some(ValueType::Word)
        } else if tag == 2 {
            Some(ValueType::Dword)
        } else if tag == 3 {
            Some(ValueType::Qword)
        } else if tag == 4 {
            Some(ValueType::Float)
        } else if tag == 5 {
            Some(ValueType::Double)
        } else if tag == 6 {
            Some(ValueType::Auto)
        } else if tag == 7 {
            Some(ValueType::Xor)
        } else {
            None
        }
    }

    pub fn from_tag_lossy(tag: u8) -> (r: ValueType)
        ensures
            r == Self::spec_from_tag_lossy(tag),
    {
        match Self::from_tag(tag) {
            Some(t) => t,
            None => ValueType::Dword,
        }
    }
}

/// Every type is read back from its own tag.
pub proof fn lemma_tag_round_trip(t: ValueType)
    ensures
        ValueType::spec_from_tag(t.spec_tag()) == Some(t),
        ValueType::spec_from_tag_lossy(t.spec_tag()) == t,
{
}

/// A predicate that compares an earlier sample of a value with a fresh one.
///
/// The two percent conditions carry the fraction as the bit pattern of an
/// IEEE-754 single-precision number; this crate never computes with it.
#[derive(Clone, Copy, Debug, PartialEq, Eq, Structural)]
pub enum FuzzyCondition {
    Initial,
    Unchanged,
    Changed,
    Increased,
    Decreased,
    IncreasedBy(i64),
    DecreasedBy(i64),
    IncreasedByRange(i64, i64),
    DecreasedByRange(i64, i64),
    IncreasedByPercent(u32),
    DecreasedByPercent(u32),
}

impl FuzzyCondition {
    pub open spec fn spec_is_percent(self) -> bool {
        self is IncreasedByPercent || self is DecreasedByPercent
    }

    pub fn is_percent(&self) -> (b: bool)
        ensures
            b == self.spec_is_percent(),
    {
        match self {
            FuzzyCondition::IncreasedByPercent(_) => true,
            FuzzyCondition::DecreasedByPercent(_) => true,
            _ => false,
        }
    }
}

/// Why an operation on a store was refused.
#[derive(Clone, Copy, Debug, PartialEq, Eq, Structural)]
pub enum StoreError {
    /// An index was not below the number of records it was checked against.
    OutOfRange { index: usize, count: usize },
    /// The operation or the record does not belong to the active mode.
    ModeMismatch,
    /// The spill region is absent or too short for the record to be written.
    IoFailure,
    /// The store's counters disagree with its contents. No function of this
    /// crate returns it; it is for callers that find the spill file shorter
    /// than what the store holds in it.
    InvariantViolation,
}

impl StoreError {
    /// The text that goes with each kind of refusal.
    pub open spec fn spec_message(self) -> Seq<char> {
        match self {
            StoreError::OutOfRange { .. } => "index out of bounds"@,
            StoreError::ModeMismatch => "operation does not match the active search mode"@,
            StoreError::IoFailure => "spill region unavailable or too short"@,
            StoreError::InvariantViolation => "store counters disagree with its contents"@,
        }
    }

    /// A diagnostic for people: one fixed text for each kind of refusal.
    pub fn message(&self) -> (s: String)
        ensures
            s@ == self.spec_message(),
    {
        broadcast use vstd::string::to_string_from_display_ensures_for_str;

        match self {
            StoreError::OutOfRange { .. } => "index out of bounds".to_string(),
            StoreError::ModeMismatch => "operation does not match the active search mode".to_string(),
            StoreError::IoFailure => "spill region unavailable or too short".to_string(),
            StoreError::InvariantViolation => "store counters disagree with its contents".to_string(),
        }
    }
}

} // verus!
