//! Semantic versions and the sizes of the steps between them.

use crate::text::{decimal, decimal_chars, push_chars, push_str, string_of};
use vstd::prelude::*;

verus! {

/// A semantic version: major, minor and patch number.
#[derive(Clone, Copy, Debug, PartialEq, Eq, Structural, Hash)]
pub struct Version {
    pub major: u64,
    pub minor: u64,
    pub patch: u64,
}

/// How far a release moves a version. The variants stand in rising order
/// of weight.
#[derive(Clone, Copy, Debug, PartialEq, Eq, Structural, PartialOrd, Ord, Hash)]
pub enum VersionBump {
    Unchanged,
    Patch,
    Minor,
    Major,
}

impl VersionBump {
    /// The weight of the bump: 0 for none, up to 3 for a major one.
    pub open spec fn rank(self) -> nat {
        match self {
            VersionBump::Unchanged => 0,
            VersionBump::Patch => 1,
            VersionBump::Minor => 2,
            VersionBump::Major => 3,
        }
    }

    /// The heavier of two bumps.
    pub open spec fn heavier(self, other: VersionBump) -> VersionBump {
        if self.rank() >= other.rank() {
            self
        } else {
            other
        }
    }

    /// The weight of the bump.
    pub fn weight(self) -> (w: u8)
        ensures
            w == self.rank(),
    {
        match self {
            VersionBump::Unchanged => 0,
            VersionBump::Patch => 1,
            VersionBump::Minor => 2,
            VersionBump::Major => 3,
        }
    }

    /// The heavier of two bumps: where several signals apply to one
    /// package, the heaviest stands.
    pub fn max(self, other: VersionBump) -> (out: VersionBump)
        ensures
            out == self.heavier(other),
            out.rank() >= self.rank(),
            out.rank() >= other.rank(),
            out == self || out == other,
    {
        if self.weight() >= other.weight() {
            self
        } else {
            other
        }
    }

    /// Whether this is a bump at all.
    pub fn is_some(self) -> (b: bool)
        ensures
            b == (self != VersionBump::Unchanged),
    {
        match self {
            VersionBump::Unchanged => false,
            _ => true,
        }
    }
}

impl Version {
    /// Whether `self` comes before `other` in the order of semantic
    /// versions: by major, then minor, then patch number.
    pub open spec fn precedes(self, other: Version) -> bool {
        self.major < other.major || (self.major == other.major && (self.minor < other.minor || (
        self.minor == other.minor && self.patch < other.patch)))
    }

    /// Whether the number that `bump` raises has room to be raised.
    pub open spec fn can_bump(self, bump: VersionBump) -> bool {
        match bump {
            VersionBump::Unchanged => true,
            VersionBump::Patch => self.patch < u64::MAX,
            VersionBump::Minor => self.minor < u64::MAX,
            VersionBump::Major => if self.major == 0 {
                self.minor < u64::MAX
            } else {
                self.major < u64::MAX
            },
        }
    }

    /// The version that follows `self` by `bump`. A patch bump raises the
    /// patch number. A minor bump raises the minor number and clears the
    /// patch number. A major bump raises the major number and clears both
    /// others; before 1.0.0 it raises the minor number instead.
    pub open spec fn bumped(self, bump: VersionBump) -> Version {
        match bump {
            VersionBump::Unchanged => self,
            VersionBump::Patch => Version {
                major: self.major,
                minor: self.minor,
                patch: (self.patch + 1) as u64,
            },
            VersionBump::Minor => Version {
                major: self.major,
                minor: (self.minor + 1) as u64,
                patch: 0,
            },
            VersionBump::Major => if self.major == 0 {
                Version { major: 0, minor: (self.minor + 1) as u64, patch: 0 }
            } else {
                Version { major: (self.major + 1) as u64, minor: 0, patch: 0 }
            },
        }
    }

    /// The version as text: the three numbers in decimal, with dots
    /// between.
    pub open spec fn text(self) -> Seq<char> {
        decimal(self.major as nat) + "."@ + decimal(self.minor as nat) + "."@ + decimal(
            self.patch as nat,
        )
    }

    pub fn new(major: u64, minor: u64, patch: u64) -> (v: Version)
        ensures
            v == (Version { major, minor, patch }),
    {
        Version { major, minor, patch }
    }

    /// Whether `self` comes before `other`.
    pub fn is_before(&self, other: &Version) -> (b: bool)
        ensures
            b == self.precedes(*other),
    {
        self.major < other.major || (self.major == other.major && (self.minor < other.minor || (
        self.minor == other.minor && self.patch < other.patch)))
    }

    /// The version that follows `self` by `bump`; `None` where the number
    /// to raise is the largest there is.
    pub fn next(&self, bump: VersionBump) -> (out: Option<Version>)
        ensures
            out == if self.can_bump(bump) {
                Some(self.bumped(bump))
            } else {
                None
            },
    {
        match bump {
            VersionBump::Unchanged => Some(*self),
            VersionBump::Patch => if self.patch < u64::MAX {
                Some(Version { major: self.major, minor: self.minor, patch: self.patch + 1 })
            } else {
                None
            },
            VersionBump::Minor => if self.minor < u64::MAX {
                Some(Version { major: self.major, minor: self.minor + 1, patch: 0 })
            } else {
                None
            },
            VersionBump::Major => if self.major == 0 {
                if self.minor < u64::MAX {
                    Some(Version { major: 0, minor: self.minor + 1, patch: 0 })
                } else {
                    None
                }
            } else if self.major < u64::MAX {
                Some(Version { major: self.major + 1, minor: 0, patch: 0 })
            } else {
                None
            },
        }
    }

    /// The version as characters.
    pub fn to_chars(&self) -> (out: Vec<char>)
        ensures
            out@ == self.text(),
    {
        let mut out = decimal_chars(self.major);
        push_str(&mut out, ".");
        push_chars(&mut out, &decimal_chars(self.minor));
        push_str(&mut out, ".");
        push_chars(&mut out, &decimal_chars(self.patch));
        out
    }

    /// The version as text.
    pub fn to_text(&self) -> (out: String)
        ensures
            out@ == self.text(),
    {
        string_of(&self.to_chars())
    }
}

/// A real bump leads to a later version.
pub proof fn law_bump_moves_forward(v: Version, bump: VersionBump)
    requires
        bump != VersionBump::Unchanged,
        v.can_bump(bump),
    ensures
        v.precedes(v.bumped(bump)),
{
}

/// A heavier bump never leads to an earlier version than a lighter one.
pub proof fn law_heavier_bump_goes_no_less_far(v: Version, light: VersionBump, heavy: VersionBump)
    requires
        light.rank() <= heavy.rank(),
        v.can_bump(light),
        v.can_bump(heavy),
    ensures
        v.bumped(light) == v.bumped(heavy) || v.bumped(light).precedes(v.bumped(heavy)),
{
}

/// The order of versions is a strict total order.
pub proof fn law_version_order(a: Version, b: Version, c: Version)
    ensures
        !a.precedes(a),
        a.precedes(b) && b.precedes(c) ==> a.precedes(c),
        a.precedes(b) || b.precedes(a) || a == b,
{
}

} // verus!
