//! The unit in which a byte count is shown.
use vstd::prelude::*;

verus! {

pub const KB: u64 = 1024;

pub const MB: u64 = 1048576;

pub const GB: u64 = 1073741824;

pub const TB: u64 = 1099511627776;

/// A unit of bytes, each 1024 times the one before.
#[derive(Clone, Copy, Debug, PartialEq, Eq, Structural)]
pub enum SizeUnit {
    B,
    KB,
    MB,
    GB,
    TB,
}

/// How many bytes a unit holds.
pub open spec fn unit_bytes(u: SizeUnit) -> nat {
    match u {
        SizeUnit::B => 1,
        SizeUnit::KB => 1024,
        SizeUnit::MB => 1024 * 1024,
        SizeUnit::GB => 1024 * 1024 * 1024,
        SizeUnit::TB => 1024 * 1024 * 1024 * 1024,
    }
}

/// The largest unit that is no more than `bytes` (bytes for anything below 1 KB).
pub open spec fn unit_for(bytes: nat) -> SizeUnit {
    if bytes >= unit_bytes(SizeUnit::TB) {
        SizeUnit::TB
    } else if bytes >= unit_bytes(SizeUnit::GB) {
        SizeUnit::GB
    } else if bytes >= unit_bytes(SizeUnit::MB) {
        SizeUnit::MB
    } else if bytes >= unit_bytes(SizeUnit::KB) {
        SizeUnit::KB
    } else {
        SizeUnit::B
    }
}

/// The unit in which `bytes` is shown.
pub fn size_unit(bytes: u64) -> (u: SizeUnit)
    ensures
        u == unit_for(bytes as nat),
        unit_bytes(u) <= bytes || u == SizeUnit::B,
        u != SizeUnit::TB ==> bytes < unit_bytes(u) * 1024,
{
    if bytes >= TB {
        SizeUnit::TB
    } else if bytes >= GB {
        SizeUnit::GB
    } else if bytes >= MB {
        SizeUnit::MB
    } else if bytes >= KB {
        SizeUnit::KB
    } else {
        SizeUnit::B
    }
}

impl SizeUnit {
    /// How many bytes the unit holds.
    pub fn bytes(&self) -> (n: u64)
        ensures
            n == unit_bytes(*self),
    {
        match self {
            SizeUnit::B => 1,
            SizeUnit::KB => KB,
            SizeUnit::MB => MB,
            SizeUnit::GB => GB,
            SizeUnit::TB => TB,
        }
    }

    /// The unit's symbol.
    pub fn symbol(&self) -> (s: &'static str)
        ensures
            s@ == (match *self {
                SizeUnit::B => "B"@,
                SizeUnit::KB => "KB"@,
                SizeUnit::MB => "MB"@,
                SizeUnit::GB => "GB"@,
                SizeUnit::TB => "TB"@,
            }),
    {
        match self {
            SizeUnit::B => "B",
            SizeUnit::KB => "KB",
            SizeUnit::MB => "MB",
            SizeUnit::GB => "GB",
            SizeUnit::TB => "TB",
        }
    }
}

} // verus!
