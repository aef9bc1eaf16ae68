//! Semantic version triples and their rendering as byte strings.
//!
//! The layout service is keyed by a version rendered as text
//! (`major.minor.patch`), not by structured comparison, so the rendering
//! itself carries an exact specification.

use vstd::prelude::*;
use vstd::std_specs::cmp::PartialEqSpecImpl;

verus! {

/// A release triple `major.minor.patch`.
#[derive(Clone, Copy, Debug)]
pub struct Version {
    pub major: u64,
    pub minor: u64,
    pub patch: u64,
}

impl PartialEq for Version {
    fn eq(&self, other: &Version) -> (r: bool) {
        self.major == other.major && self.minor == other.minor && self.patch == other.patch
    }
}

impl PartialEqSpecImpl for Version {
    open spec fn obeys_eq_spec() -> bool {
        true
    }

    open spec fn eq_spec(&self, other: &Version) -> bool {
        self.major == other.major && self.minor == other.minor && self.patch == other.patch
    }
}

/// The decimal digits of `n`, most significant first, as ASCII bytes.
pub open spec fn spec_decimal(n: int) -> Seq<u8>
    recommends
        n >= 0,
    decreases n,
{
    if n < 10 {
        seq![(48 + n) as u8]
    } else {
        spec_decimal(n / 10).push((48 + n % 10) as u8)
    }
}

/// The rendering of a version: decimal fields joined by `.` (ASCII 46).
pub open spec fn spec_version_bytes(v: Version) -> Seq<u8> {
    spec_decimal(v.major as int) + seq![46u8] + spec_decimal(v.minor as int) + seq![46u8]
        + spec_decimal(v.patch as int)
}

/// Appends the decimal rendering of `n` to `out`.
fn push_decimal(out: &mut Vec<u8>, n: u64)
    ensures
        final(out)@ == old(out)@ + spec_decimal(n as int),
    decreases n,
{
    if n >= 10 {
        push_decimal(out, n / 10);
    }
    let d: u8 = 48 + (n % 10) as u8;
    out.push(d);
    assert(out@ =~= old(out)@ + spec_decimal(n as int));
}

impl Version {
    /// Builds a version from its three fields.
    pub fn new(major: u64, minor: u64, patch: u64) -> (r: Version)
        ensures
            r == (Version { major, minor, patch }),
    {
        Version { major, minor, patch }
    }

    /// Renders the version as `major.minor.patch` in ASCII bytes, the
    /// identifier under which the layout service files a tool's image.
    pub fn to_bytes(&self) -> (r: Vec<u8>)
        ensures
            r@ == spec_version_bytes(*self),
    {
        let mut out: Vec<u8> = Vec::new();
        push_decimal(&mut out, self.major);
        out.push(46);
        push_decimal(&mut out, self.minor);
        out.push(46);
        push_decimal(&mut out, self.patch);
        assert(out@ =~= spec_version_bytes(*self));
        out
    }
}

} // verus!
