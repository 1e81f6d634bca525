use std::cmp::Ordering;
use vstd::prelude::*;

verus! {

/// A concrete version `major.minor.patch`, with an optional pre-release tag
/// made of numeric identifiers (`1.0.0-2.1` has the tag `[2, 1]`).
/// An empty tag marks a release.
pub struct Version {
    pub major: u64,
    pub minor: u64,
    pub patch: u64,
    pub pre: Vec<u64>,
}

/// Order of pre-release tags: identifier by identifier, and a proper prefix
/// sorts first.
pub open spec fn pre_lt(a: Seq<u64>, b: Seq<u64>) -> bool
    decreases a.len(),
{
    if b.len() == 0 {
        false
    } else if a.len() == 0 {
        true
    } else if a[0] != b[0] {
        a[0] < b[0]
    } else {
        pre_lt(a.drop_first(), b.drop_first())
    }
}

pub open spec fn same_core(a: Version, b: Version) -> bool {
    a.major == b.major && a.minor == b.minor && a.patch == b.patch
}

pub open spec fn core_lt(a: Version, b: Version) -> bool {
    ||| a.major < b.major
    ||| a.major == b.major && a.minor < b.minor
    ||| a.major == b.major && a.minor == b.minor && a.patch < b.patch
}

/// Two versions denote the same release (or the same pre-release).
pub open spec fn same_version(a: Version, b: Version) -> bool {
    same_core(a, b) && a.pre@ == b.pre@
}

pub open spec fn is_prerelease(a: Version) -> bool {
    a.pre@.len() > 0
}

/// Version precedence: numeric `major.minor.patch` first; on an equal core a
/// pre-release sorts below the release, and two pre-releases go by their tags.
pub open spec fn version_lt(a: Version, b: Version) -> bool {
    ||| core_lt(a, b)
    ||| same_core(a, b) && is_prerelease(a) && !is_prerelease(b)
    ||| same_core(a, b) && is_prerelease(a) && is_prerelease(b) && pre_lt(a.pre@, b.pre@)
}

pub open spec fn version_le(a: Version, b: Version) -> bool {
    version_lt(a, b) || same_version(a, b)
}

pub open spec fn ordering_of(lt: bool, eq: bool) -> Ordering {
    if lt {
        Ordering::Less
    } else if eq {
        Ordering::Equal
    } else {
        Ordering::Greater
    }
}

proof fn lemma_pre_lt_trichotomy(a: Seq<u64>, b: Seq<u64>)
    ensures
        pre_lt(a, b) ==> !pre_lt(b, a) && a != b,
        !pre_lt(a, b) && !pre_lt(b, a) ==> a == b,
    decreases a.len(),
{
    if a.len() > 0 && b.len() > 0 && a[0] == b[0] {
        lemma_pre_lt_trichotomy(a.drop_first(), b.drop_first());
        if a.drop_first() == b.drop_first() {
            assert(a =~= seq![a[0]] + a.drop_first());
            assert(b =~= seq![b[0]] + b.drop_first());
        }
    }
    if a.len() == 0 && b.len() == 0 {
        assert(a =~= b);
    }
}

proof fn lemma_pre_lt_transitive(a: Seq<u64>, b: Seq<u64>, c: Seq<u64>)
    requires
        pre_lt(a, b),
        pre_lt(b, c),
    ensures
        pre_lt(a, c),
    decreases a.len(),
{
    if a.len() > 0 && a[0] == b[0] && b[0] == c[0] {
        lemma_pre_lt_transitive(a.drop_first(), b.drop_first(), c.drop_first());
    }
}

/// Precedence is a strict total order: exactly one of `a < b`, `a == b`,
/// `b < a` holds, and `<` is transitive.
pub proof fn lemma_version_order_total(a: Version, b: Version, c: Version)
    ensures
        version_lt(a, b) ==> !version_lt(b, a) && !same_version(a, b),
        version_lt(a, b) || version_lt(b, a) || same_version(a, b),
        version_lt(a, b) && version_lt(b, c) ==> version_lt(a, c),
        !is_prerelease(a) && !is_prerelease(b) ==> (version_lt(a, b) <==> core_lt(a, b)),
{
    lemma_pre_lt_trichotomy(a.pre@, b.pre@);
    if version_lt(a, b) && version_lt(b, c) && same_core(a, b) && same_core(b, c)
        && is_prerelease(a) && is_prerelease(b) && is_prerelease(c) {
        lemma_pre_lt_transitive(a.pre@, b.pre@, c.pre@);
    }
    if !is_prerelease(a) && !is_prerelease(b) {
        assert(a.pre@ =~= b.pre@);
    }
}

fn compare_pre(a: &Vec<u64>, b: &Vec<u64>) -> (r: Ordering)
    ensures
        r == ordering_of(pre_lt(a@, b@), a@ == b@),
{
    proof {
        lemma_pre_lt_trichotomy(a@, b@);
    }
    let mut i: usize = 0;
    assert(a@.skip(0) =~= a@);
    assert(b@.skip(0) =~= b@);
    while i < a.len() && i < b.len()
        invariant
            i <= a.len(),
            i <= b.len(),
            a@.subrange(0, i as int) == b@.subrange(0, i as int),
            pre_lt(a@, b@) == pre_lt(a@.skip(i as int), b@.skip(i as int)),
        decreases a.len() - i,
    {
        if a[i] != b[i] {
            if a[i] < b[i] {
                return Ordering::Less;
            } else {
                return Ordering::Greater;
            }
        }
        assert(a@.skip(i as int).drop_first() =~= a@.skip(i + 1));
        assert(b@.skip(i as int).drop_first() =~= b@.skip(i + 1));
        assert(a@.subrange(0, i + 1) =~= a@.subrange(0, i as int).push(a@[i as int]));
        assert(b@.subrange(0, i + 1) =~= b@.subrange(0, i as int).push(b@[i as int]));
        i = i + 1;
    }
    if a.len() == b.len() {
        assert(a@ =~= a@.subrange(0, i as int));
        assert(b@ =~= b@.subrange(0, i as int));
        Ordering::Equal
    } else if i == a.len() {
        Ordering::Less
    } else {
        Ordering::Greater
    }
}

fn compare_num(a: u64, b: u64) -> (r: Ordering)
    ensures
        r == ordering_of(a < b, a == b),
{
    if a < b {
        Ordering::Less
    } else if a == b {
        Ordering::Equal
    } else {
        Ordering::Greater
    }
}

impl Version {
    /// A release version with an empty pre-release tag.
    pub fn release(major: u64, minor: u64, patch: u64) -> (r: Version)
        ensures
            r.major == major,
            r.minor == minor,
            r.patch == patch,
            r.pre@.len() == 0,
    {
        Version { major, minor, patch, pre: Vec::new() }
    }

    /// Compares two versions by precedence.
    pub fn compare(&self, other: &Version) -> (r: Ordering)
        ensures
            r == ordering_of(version_lt(*self, *other), same_version(*self, *other)),
            r == Ordering::Less <==> version_lt(*self, *other),
            r == Ordering::Equal <==> same_version(*self, *other),
            r == Ordering::Greater <==> version_lt(*other, *self),
    {
        proof {
            lemma_version_order_total(*self, *other, *other);
            lemma_version_order_total(*other, *self, *self);
        }
        if self.major != other.major {
            return compare_num(self.major, other.major);
        }
        if self.minor != other.minor {
            return compare_num(self.minor, other.minor);
        }
        if self.patch != other.patch {
            return compare_num(self.patch, other.patch);
        }
        let a_pre = self.pre.len() > 0;
        let b_pre = other.pre.len() > 0;
        if a_pre && !b_pre {
            Ordering::Less
        } else if !a_pre && b_pre {
            Ordering::Greater
        } else if !a_pre && !b_pre {
            assert(self.pre@ =~= other.pre@);
            Ordering::Equal
        } else {
            compare_pre(&self.pre, &other.pre)
        }
    }

    /// Whether this version has lower precedence than `other`.
    pub fn precedes(&self, other: &Version) -> (r: bool)
        ensures
            r == version_lt(*self, *other),
    {
        match self.compare(other) {
            Ordering::Less => true,
            _ => false,
        }
    }

    /// A copy of this version.
    pub fn duplicate(&self) -> (r: Version)
        ensures
            same_version(r, *self),
    {
        let mut pre: Vec<u64> = Vec::new();
        let mut i: usize = 0;
        while i < self.pre.len()
            invariant
                i <= self.pre.len(),
                pre@ == self.pre@.subrange(0, i as int),
            decreases self.pre.len() - i,
        {
            pre.push(self.pre[i]);
            i = i + 1;
        }
        assert(pre@ =~= self.pre@);
        Version { major: self.major, minor: self.minor, patch: self.patch, pre }
    }
}

} // verus!
