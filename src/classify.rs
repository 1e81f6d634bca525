use crate::parse::{
    VersionRangeError, parse_range, parse_version, range_text, version_text,
};
use crate::range::VersionRange;
use crate::registry::Fallback;
use crate::text::chars_of;
use crate::version::{Version, same_version};
use vstd::prelude::*;

verus! {

/// One configured shared dependency.
pub struct SharedDeclaration {
    /// A package name, or a path prefix ending in `/`.
    pub share_key: String,
    pub share_scope: String,
    pub required_version: Option<VersionRange>,
    /// The provided version; read from package metadata when absent.
    pub version: Option<Version>,
    pub singleton: bool,
    pub eager: bool,
    pub strict_version: bool,
    /// `None` falls back to the import's own request.
    pub fallback: Option<Fallback>,
}

/// A graph node: this import resolves through the sharing scope.
pub struct ConsumeSharedDependency {
    pub share_scope: String,
    pub share_key: String,
    pub required_version: Option<VersionRange>,
    pub strict_version: bool,
    pub singleton: bool,
    pub eager: bool,
    pub fallback: Fallback,
    pub request: String,
}

/// A graph node: this module provides `share_key` at `version` in `share_scope`.
pub struct ProvideSharedDependency {
    pub share_scope: String,
    pub share_key: String,
    pub version: Version,
    pub eager: bool,
    pub provided_request: String,
}

#[derive(PartialEq, Eq, Structural, Clone, Copy, Debug)]
pub enum ClassificationError {
    /// The declaration's share key is empty.
    MalformedShareKey,
    /// No version was configured and the package metadata gives none.
    UnresolvedVersion,
}

/// A share key serves a request exactly, or as a path prefix when it ends in `/`.
pub open spec fn key_serves(key: Seq<char>, request: Seq<char>) -> bool {
    ||| key == request
    ||| key.len() > 0 && key.last() == '/' && key.is_prefix_of(request)
}

/// Declaration `i` wins for `request`: it serves it, no serving declaration
/// has a longer key, and none before it has a key as long.
pub open spec fn is_best_match(decls: Seq<SharedDeclaration>, request: Seq<char>, i: int) -> bool {
    &&& 0 <= i < decls.len()
    &&& key_serves(decls[i].share_key@, request)
    &&& forall|j: int|
        0 <= j < decls.len() && key_serves(#[trigger] decls[j].share_key@, request) ==> {
            ||| decls[j].share_key@.len() < decls[i].share_key@.len()
            ||| decls[j].share_key@.len() == decls[i].share_key@.len() && i <= j
        }
}

pub open spec fn some_match(decls: Seq<SharedDeclaration>, request: Seq<char>) -> bool {
    exists|j: int| 0 <= j < decls.len() && key_serves(#[trigger] decls[j].share_key@, request)
}

/// The two ranges are alike, version for version.
pub open spec fn same_range(a: VersionRange, b: VersionRange) -> bool {
    match (a, b) {
        (VersionRange::Any, VersionRange::Any) => true,
        (VersionRange::Exact(x), VersionRange::Exact(y)) => same_version(x, y),
        (VersionRange::AtLeast(x), VersionRange::AtLeast(y)) => same_version(x, y),
        (VersionRange::Tilde(x), VersionRange::Tilde(y)) => same_version(x, y),
        (VersionRange::Caret(x), VersionRange::Caret(y)) => same_version(x, y),
        _ => false,
    }
}

pub open spec fn same_opt_range(a: Option<VersionRange>, b: Option<VersionRange>) -> bool {
    match (a, b) {
        (None, None) => true,
        (Some(x), Some(y)) => same_range(x, y),
        _ => false,
    }
}

pub open spec fn same_fallback(a: Fallback, b: Fallback) -> bool {
    match (a, b) {
        (Fallback::Disabled, Fallback::Disabled) => true,
        (Fallback::Request(x), Fallback::Request(y)) => x@ == y@,
        _ => false,
    }
}

/// The fallback a consumer gets from its declaration and its request.
pub open spec fn fallback_of(d: SharedDeclaration, request: Seq<char>, f: Fallback) -> bool {
    match d.fallback {
        Some(x) => same_fallback(f, x),
        None => f matches Fallback::Request(r) && r@ == request,
    }
}

fn serves(key: &Vec<char>, request: &Vec<char>) -> (r: bool)
    ensures
        r == key_serves(key@, request@),
{
    let n = key.len();
    if n > request.len() {
        return false;
    }
    let mut i: usize = 0;
    while i < n
        invariant
            n == key@.len(),
            n <= request@.len(),
            i <= n,
            forall|j: int| 0 <= j < i ==> key@[j] == request@[j],
        decreases n - i,
    {
        if key[i] != request[i] {
            return false;
        }
        i = i + 1;
    }
    proof {
        assert(key@ =~= request@.subrange(0, n as int));
    }
    if n == request.len() {
        assert(key@ =~= request@);
        true
    } else {
        n > 0 && key[n - 1] == '/'
    }
}

impl Fallback {
    /// A copy of this fallback.
    pub fn duplicate(&self) -> (r: Fallback)
        ensures
            same_fallback(r, *self),
    {
        match self {
            Fallback::Disabled => Fallback::Disabled,
            Fallback::Request(s) => Fallback::Request(s.clone()),
        }
    }
}

impl VersionRange {
    /// A copy of this range.
    pub fn duplicate(&self) -> (r: VersionRange)
        ensures
            same_range(r, *self),
    {
        match self {
            VersionRange::Any => VersionRange::Any,
            VersionRange::Exact(v) => VersionRange::Exact(v.duplicate()),
            VersionRange::AtLeast(v) => VersionRange::AtLeast(v.duplicate()),
            VersionRange::Tilde(v) => VersionRange::Tilde(v.duplicate()),
            VersionRange::Caret(v) => VersionRange::Caret(v.duplicate()),
        }
    }
}

/// Finds the declaration that governs `request`: among those whose key
/// serves it, the one with the longest key, the earliest on a tie. `None`
/// leaves the request to ordinary resolution.
pub fn match_declaration(decls: &Vec<SharedDeclaration>, request: &str) -> (r: Option<usize>)
    ensures
        r is None <==> !some_match(decls@, request@),
        r matches Some(i) ==> is_best_match(decls@, request@, i as int),
{
    let req = chars_of(request);
    let mut best: Option<usize> = None;
    let mut i: usize = 0;
    while i < decls.len()
        invariant
            i <= decls@.len(),
            req@ == request@,
            best is None ==> forall|j: int|
                0 <= j < i ==> !key_serves(#[trigger] decls@[j].share_key@, request@),
            best matches Some(b) ==> b < i && key_serves(decls@[b as int].share_key@, request@)
                && forall|j: int|
                0 <= j < i && key_serves(#[trigger] decls@[j].share_key@, request@) ==> {
                    ||| decls@[j].share_key@.len() < decls@[b as int].share_key@.len()
                    ||| decls@[j].share_key@.len() == decls@[b as int].share_key@.len() && b <= j
                },
        decreases decls@.len() - i,
    {
        let key = chars_of(decls[i].share_key.as_str());
        if serves(&key, &req) {
            match best {
                None => {
                    best = Some(i);
                },
                Some(b) => {
                    let best_len = chars_of(decls[b].share_key.as_str()).len();
                    if key.len() > best_len {
                        best = Some(i);
                    }
                },
            }
        }
        i = i + 1;
    }
    best
}

/// Turns an import request into a consume node when a declaration governs
/// it. The node carries that declaration's constraints, and falls back to
/// the request itself unless the declaration says otherwise.
pub fn classify_consume(decls: &Vec<SharedDeclaration>, request: &str) -> (r: Option<
    ConsumeSharedDependency,
>)
    ensures
        r is None <==> !some_match(decls@, request@),
        r matches Some(c) ==> exists|i: int|
            #[trigger] is_best_match(decls@, request@, i) && {
                let d = decls@[i];
                &&& c.share_scope@ == d.share_scope@
                &&& c.share_key@ == d.share_key@
                &&& same_opt_range(c.required_version, d.required_version)
                &&& c.strict_version == d.strict_version
                &&& c.singleton == d.singleton
                &&& c.eager == d.eager
                &&& fallback_of(d, request@, c.fallback)
                &&& c.request@ == request@
            },
{
    match match_declaration(decls, request) {
        None => None,
        Some(i) => {
            let d = &decls[i];
            let required_version = match &d.required_version {
                None => None,
                Some(range) => Some(range.duplicate()),
            };
            let fallback = match &d.fallback {
                None => Fallback::Request(request.to_owned()),
                Some(f) => f.duplicate(),
            };
            let c = ConsumeSharedDependency {
                share_scope: d.share_scope.clone(),
                share_key: d.share_key.clone(),
                required_version,
                strict_version: d.strict_version,
                singleton: d.singleton,
                eager: d.eager,
                fallback,
                request: request.to_owned(),
            };
            assert(is_best_match(decls@, request@, i as int));
            Some(c)
        },
    }
}

/// Makes the provide node for a module that provides `decl`'s key. The
/// configured version wins; else the one read from the module's package
/// metadata; with neither, classification fails.
pub fn classify_provide(
    decl: &SharedDeclaration,
    request: &str,
    package_version: Option<Version>,
) -> (r: Result<ProvideSharedDependency, ClassificationError>)
    ensures
        decl.share_key@.len() == 0 ==> r == Err::<ProvideSharedDependency, ClassificationError>(
            ClassificationError::MalformedShareKey,
        ),
        decl.share_key@.len() > 0 && decl.version is None && package_version is None ==> r
            == Err::<ProvideSharedDependency, ClassificationError>(
            ClassificationError::UnresolvedVersion,
        ),
        r matches Ok(p) ==> {
            &&& decl.share_key@.len() > 0
            &&& p.share_scope@ == decl.share_scope@
            &&& p.share_key@ == decl.share_key@
            &&& p.eager == decl.eager
            &&& p.provided_request@ == request@
            &&& match decl.version {
                Some(v) => same_version(p.version, v),
                None => package_version matches Some(v) && same_version(p.version, v),
            }
        },
        decl.share_key@.len() > 0 && (decl.version is Some || package_version is Some) ==> r is Ok,
{
    if decl.share_key.as_str().is_empty() {
        return Err(ClassificationError::MalformedShareKey);
    }
    let version = match &decl.version {
        Some(v) => v.duplicate(),
        None => match package_version {
            Some(v) => v,
            None => {
                return Err(ClassificationError::UnresolvedVersion);
            },
        },
    };
    Ok(
        ProvideSharedDependency {
            share_scope: decl.share_scope.clone(),
            share_key: decl.share_key.clone(),
            version,
            eager: decl.eager,
            provided_request: request.to_owned(),
        },
    )
}

/// What is wrong with a declaration written as configuration text.
#[derive(PartialEq, Eq, Structural, Clone, Copy, Debug)]
pub enum DeclarationError {
    /// The share key is empty.
    Classification(ClassificationError),
    /// The required range is no range expression.
    Range(VersionRangeError),
    /// The configured version is no concrete version.
    InvalidVersion,
}

pub open spec fn is_range_text(t: Seq<char>) -> bool {
    exists|x: VersionRange| #[trigger] range_text(x) == t
}

pub open spec fn is_version_text(t: Seq<char>) -> bool {
    exists|v: Version| #[trigger] version_text(v) == t
}

/// Builds a declaration from configuration text. The share key must not be
/// empty, and the required range and the version, where given, must read as
/// a range and as a concrete version; the first failing check is reported.
pub fn declare(
    share_key: String,
    share_scope: String,
    required_version: Option<&str>,
    version: Option<&str>,
    singleton: bool,
    eager: bool,
    strict_version: bool,
    fallback: Option<Fallback>,
) -> (r: Result<SharedDeclaration, DeclarationError>)
    ensures
        share_key@.len() == 0 ==> r == Err::<SharedDeclaration, DeclarationError>(
            DeclarationError::Classification(ClassificationError::MalformedShareKey),
        ),
        share_key@.len() > 0 && (required_version matches Some(t) && !is_range_text(t@)) ==> r
            == Err::<SharedDeclaration, DeclarationError>(
            DeclarationError::Range(VersionRangeError::Malformed),
        ),
        share_key@.len() > 0 && !(required_version matches Some(t) && !is_range_text(t@)) && (
        version matches Some(t) && !is_version_text(t@)) ==> r == Err::<
            SharedDeclaration,
            DeclarationError,
        >(DeclarationError::InvalidVersion),
        r is Ok <==> share_key@.len() > 0 && !(required_version matches Some(t) && !is_range_text(
            t@,
        )) && !(version matches Some(t) && !is_version_text(t@)),
        r matches Ok(d) ==> {
            &&& d.share_key == share_key
            &&& d.share_scope == share_scope
            &&& d.singleton == singleton
            &&& d.eager == eager
            &&& d.strict_version == strict_version
            &&& d.fallback == fallback
            &&& match required_version {
                None => d.required_version is None,
                Some(t) => d.required_version matches Some(x) && range_text(x) == t@,
            }
            &&& match version {
                None => d.version is None,
                Some(t) => d.version matches Some(v) && version_text(v) == t@,
            }
        },
{
    if share_key.as_str().is_empty() {
        return Err(DeclarationError::Classification(ClassificationError::MalformedShareKey));
    }
    let range = match required_version {
        None => None,
        Some(t) => match parse_range(t) {
            Ok(x) => Some(x),
            Err(e) => {
                return Err(DeclarationError::Range(e));
            },
        },
    };
    let parsed = match version {
        None => None,
        Some(t) => match parse_version(t) {
            Some(v) => Some(v),
            None => {
                return Err(DeclarationError::InvalidVersion);
            },
        },
    };
    Ok(
        SharedDeclaration {
            share_key,
            share_scope,
            required_version: range,
            version: parsed,
            singleton,
            eager,
            strict_version,
            fallback,
        },
    )
}

} // verus!
