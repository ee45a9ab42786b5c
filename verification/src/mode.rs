//! The flag set that selects which operating-system rule sets are active.

use vstd::prelude::*;

verus! {

/// Bits of [`Mode::unix`]: the Linux/Unix rule set.
pub const UNIX_BITS: u32 = 0x1;

/// Bits of [`Mode::windows`]: the Windows rule set.
pub const WINDOWS_BITS: u32 = 0x2;

/// Bits of [`Mode::mac`]: the macOS rule set.
pub const MAC_BITS: u32 = 0x4;

/// Bits of [`Mode::all`]: every operating-system rule set combined.
pub const ALL_BITS: u32 = 0x7;

/// Bits of [`Mode::windows_end`]: the trailing-character rule for Windows.
pub const WINDOWS_END_BITS: u32 = 0x8;

/// A set of operating-system rule sets, encoded as a bit set.
///
/// Each named value is either a single rule set (`unix`, `windows`, `mac`,
/// `windows_end`) or a union of rule sets (`none`, `all`). The
/// `windows_end` rule is never implied by `windows`: it is a separate,
/// narrower rule used only for the trailing-character check.
#[derive(Clone, Copy, PartialEq, Eq, Structural)]
pub struct Mode {
    /// The underlying bits, one per rule set.
    pub bits: u32,
}

impl Mode {
    /// No rule set active: nothing is escaped.
    pub open spec fn spec_none() -> Mode {
        Mode { bits: 0x0 }
    }

    /// The Linux/Unix rule set.
    pub open spec fn spec_unix() -> Mode {
        Mode { bits: UNIX_BITS }
    }

    /// The Windows rule set.
    pub open spec fn spec_windows() -> Mode {
        Mode { bits: WINDOWS_BITS }
    }

    /// The macOS rule set.
    pub open spec fn spec_mac() -> Mode {
        Mode { bits: MAC_BITS }
    }

    /// All operating-system rule sets combined.
    pub open spec fn spec_all() -> Mode {
        Mode { bits: ALL_BITS }
    }

    /// Characters disallowed at the end of a filename on Windows.
    pub open spec fn spec_windows_end() -> Mode {
        Mode { bits: WINDOWS_END_BITS }
    }

    /// No rule set active: nothing is escaped.
    #[verifier::when_used_as_spec(spec_none)]
    pub fn none() -> (m: Mode)
        ensures
            m == Mode::spec_none(),
    {
        Mode { bits: 0x0 }
    }

    /// The Linux/Unix rule set.
    #[verifier::when_used_as_spec(spec_unix)]
    pub fn unix() -> (m: Mode)
        ensures
            m == Mode::spec_unix(),
    {
        Mode { bits: UNIX_BITS }
    }

    /// The Windows rule set.
    #[verifier::when_used_as_spec(spec_windows)]
    pub fn windows() -> (m: Mode)
        ensures
            m == Mode::spec_windows(),
    {
        Mode { bits: WINDOWS_BITS }
    }

    /// The macOS rule set.
    #[verifier::when_used_as_spec(spec_mac)]
    pub fn mac() -> (m: Mode)
        ensures
            m == Mode::spec_mac(),
    {
        Mode { bits: MAC_BITS }
    }

    /// All operating-system rule sets combined.
    #[verifier::when_used_as_spec(spec_all)]
    pub fn all() -> (m: Mode)
        ensures
            m == Mode::spec_all(),
    {
        Mode { bits: ALL_BITS }
    }

    /// Characters disallowed at the end of a filename on Windows.
    #[verifier::when_used_as_spec(spec_windows_end)]
    pub fn windows_end() -> (m: Mode)
        ensures
            m == Mode::spec_windows_end(),
    {
        Mode { bits: WINDOWS_END_BITS }
    }

    /// Whether every rule set of `other` is also active in `self`.
    pub open spec fn spec_contains(self, other: Mode) -> bool {
        self.bits & other.bits == other.bits
    }

    /// Whether some rule set is active in both `self` and `other`.
    pub open spec fn spec_intersects(self, other: Mode) -> bool {
        self.bits & other.bits != 0
    }

    /// The union of the rule sets of `self` and `other`.
    pub open spec fn spec_union(self, other: Mode) -> Mode {
        Mode { bits: self.bits | other.bits }
    }

    /// Whether every rule set of `other` is also active in `self`.
    #[verifier::when_used_as_spec(spec_contains)]
    pub fn contains(self, other: Mode) -> (r: bool)
        ensures
            r == self.spec_contains(other),
    {
        self.bits & other.bits == other.bits
    }

    /// Whether some rule set is active in both `self` and `other`.
    #[verifier::when_used_as_spec(spec_intersects)]
    pub fn intersects(self, other: Mode) -> (r: bool)
        ensures
            r == self.spec_intersects(other),
    {
        self.bits & other.bits != 0
    }

    /// The union of the rule sets of `self` and `other`.
    #[verifier::when_used_as_spec(spec_union)]
    pub fn union(self, other: Mode) -> (r: Mode)
        ensures
            r == self.spec_union(other),
    {
        Mode { bits: self.bits | other.bits }
    }
}

} // verus!
