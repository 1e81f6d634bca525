use crate::version::{Version, is_prerelease, same_core, same_version, version_le};
use vstd::prelude::*;

verus! {

/// A required-version range, as a shared declaration or a consumer states it.
pub enum VersionRange {
    /// `*`: every release.
    Any,
    /// `1.2.3`: that version alone.
    Exact(Version),
    /// `>=1.2.3`: that version and every later one.
    AtLeast(Version),
    /// `~1.2.3`: at least that version, with the same major and minor.
    Tilde(Version),
    /// `^1.2.3`: at least that version, up to the next change of the first
    /// non-zero part of `major.minor.patch`.
    Caret(Version),
}

/// A pre-release is admitted only where the range itself names a
/// pre-release of the same `major.minor.patch`.
pub open spec fn prerelease_admitted(base: Version, w: Version) -> bool {
    !is_prerelease(w) || (is_prerelease(base) && same_core(base, w))
}

pub open spec fn caret_compatible(base: Version, w: Version) -> bool {
    if base.major > 0 {
        w.major == base.major
    } else if base.minor > 0 {
        w.major == 0 && w.minor == base.minor
    } else {
        w.major == 0 && w.minor == 0 && w.patch == base.patch
    }
}

/// Whether the range admits version `w`.
pub open spec fn range_admits(r: VersionRange, w: Version) -> bool {
    match r {
        VersionRange::Any => !is_prerelease(w),
        VersionRange::Exact(v) => same_version(v, w),
        VersionRange::AtLeast(v) => version_le(v, w) && prerelease_admitted(v, w),
        VersionRange::Tilde(v) => {
            &&& version_le(v, w)
            &&& w.major == v.major
            &&& w.minor == v.minor
            &&& prerelease_admitted(v, w)
        },
        VersionRange::Caret(v) => {
            version_le(v, w) && caret_compatible(v, w) && prerelease_admitted(v, w)
        },
    }
}

fn prerelease_ok(base: &Version, w: &Version) -> (r: bool)
    ensures
        r == prerelease_admitted(*base, *w),
{
    w.pre.len() == 0 || (base.pre.len() > 0 && base.major == w.major && base.minor == w.minor
        && base.patch == w.patch)
}

fn at_least(base: &Version, w: &Version) -> (r: bool)
    ensures
        r == version_le(*base, *w),
{
    match base.compare(w) {
        std::cmp::Ordering::Greater => false,
        _ => true,
    }
}

impl VersionRange {
    /// Whether this range admits version `w`.
    pub fn admits(&self, w: &Version) -> (r: bool)
        ensures
            r == range_admits(*self, *w),
    {
        match self {
            VersionRange::Any => w.pre.len() == 0,
            VersionRange::Exact(v) => match v.compare(w) {
                std::cmp::Ordering::Equal => true,
                _ => false,
            },
            VersionRange::AtLeast(v) => at_least(v, w) && prerelease_ok(v, w),
            VersionRange::Tilde(v) => {
                at_least(v, w) && w.major == v.major && w.minor == v.minor && prerelease_ok(v, w)
            },
            VersionRange::Caret(v) => {
                let compatible = if v.major > 0 {
                    w.major == v.major
                } else if v.minor > 0 {
                    w.major == 0 && w.minor == v.minor
                } else {
                    w.major == 0 && w.minor == 0 && w.patch == v.patch
                };
                at_least(v, w) && compatible && prerelease_ok(v, w)
            },
        }
    }
}

} // verus!
