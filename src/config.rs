//! Settings that a record's declaration can carry.
use vstd::prelude::*;

verus! {

/// Kinds of `#[repr(uN)]` annotations for a record.
#[derive(Debug, Clone, Copy, PartialEq, Eq)]
pub enum ReprKind {
    /// `#[repr(u8)]`
    U8,
    /// `#[repr(u16)]`
    U16,
    /// `#[repr(u32)]`
    U32,
    /// `#[repr(u64)]`
    U64,
    /// `#[repr(u128)]`
    U128,
}

impl ReprKind {
    /// The number of bits that a record must have to satisfy the annotation.
    pub fn bits(self) -> (r: usize)
        ensures
            r == match self {
                ReprKind::U8 => 8usize,
                ReprKind::U16 => 16,
                ReprKind::U32 => 32,
                ReprKind::U64 => 64,
                ReprKind::U128 => 128,
            },
    {
        match self {
            ReprKind::U8 => 8,
            ReprKind::U16 => 16,
            ReprKind::U32 => 32,
            ReprKind::U64 => 64,
            ReprKind::U128 => 128,
        }
    }
}

/// Which accessors of a field are left out.
#[derive(Debug, Clone, Copy, PartialEq, Eq, Hash)]
pub enum SkipWhich {
    /// Both getters and setters.
    All,
    /// Only getters.
    Getters,
    /// Only setters.
    Setters,
}

impl SkipWhich {
    /// Getters are left out.
    pub fn skip_getters(self) -> (r: bool)
        ensures
            r == (self is All || self is Getters),
    {
        matches!(self, SkipWhich::All | SkipWhich::Getters)
    }

    /// Setters are left out.
    pub fn skip_setters(self) -> (r: bool)
        ensures
            r == (self is All || self is Setters),
    {
        matches!(self, SkipWhich::All | SkipWhich::Setters)
    }

    /// Getters and setters are both left out.
    pub fn skip_getters_and_setters(self) -> (r: bool)
        ensures
            r == (self is All),
    {
        matches!(self, SkipWhich::All)
    }
}

} // verus!
