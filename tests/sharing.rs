use rspack_plugin_mf::classify::{
    classify_consume, classify_provide, declare, match_declaration, ClassificationError,
    DeclarationError, SharedDeclaration,
};
use rspack_plugin_mf::dependency::{
    AffectType, DependencyCategory, DependencyId, DependencyIds, DependencyNode, DependencyType,
    ProvideForSharedDependency,
};
use rspack_plugin_mf::parse::{parse_range, parse_version, VersionRangeError};
use rspack_plugin_mf::negotiate::{negotiate, Negotiation, NegotiationWarning};
use rspack_plugin_mf::range::VersionRange;
use rspack_plugin_mf::registry::{
    resolve_fallback, Fallback, GetAction, LoadState, RegisterOutcome, SharingError,
    SharingRegistry,
};
use rspack_plugin_mf::text::chars_of;
use rspack_plugin_mf::version::Version;
use std::cmp::Ordering;

fn v(major: u64, minor: u64, patch: u64) -> Version {
    Version::release(major, minor, patch)
}

fn pre(major: u64, minor: u64, patch: u64, tag: Vec<u64>) -> Version {
    Version { major, minor, patch, pre: tag }
}

fn s(text: &str) -> String {
    text.to_string()
}

fn decl(key: &str) -> SharedDeclaration {
    SharedDeclaration {
        share_key: s(key),
        share_scope: s("default"),
        required_version: None,
        version: None,
        singleton: false,
        eager: false,
        strict_version: false,
        fallback: None,
    }
}

#[test]
fn version_precedence_is_numeric() {
    assert_eq!(v(1, 2, 3).compare(&v(1, 10, 0)), Ordering::Less);
    assert_eq!(v(2, 0, 0).compare(&v(1, 99, 99)), Ordering::Greater);
    assert_eq!(v(1, 2, 3).compare(&v(1, 2, 3)), Ordering::Equal);
    assert!(v(0, 0, 9).precedes(&v(0, 0, 10)));
}

#[test]
fn prerelease_sorts_below_release() {
    assert_eq!(pre(1, 0, 0, vec![1]).compare(&v(1, 0, 0)), Ordering::Less);
    assert_eq!(pre(1, 0, 0, vec![1]).compare(&pre(1, 0, 0, vec![1, 0])), Ordering::Less);
    assert_eq!(pre(1, 0, 0, vec![1, 5]).compare(&pre(1, 0, 0, vec![2])), Ordering::Less);
    assert_eq!(pre(1, 0, 0, vec![3]).compare(&pre(1, 0, 0, vec![3])), Ordering::Equal);
    assert_eq!(pre(1, 0, 1, vec![0]).compare(&v(1, 0, 0)), Ordering::Greater);
    let d = pre(4, 5, 6, vec![7, 8]).duplicate();
    assert_eq!((d.major, d.minor, d.patch, d.pre), (4, 5, 6, vec![7, 8]));
}

#[test]
fn caret_range_bounds() {
    let r = VersionRange::Caret(v(2, 0, 0));
    assert!(r.admits(&v(2, 0, 0)));
    assert!(r.admits(&v(2, 5, 1)));
    assert!(!r.admits(&v(3, 0, 0)));
    assert!(!r.admits(&v(1, 9, 9)));
    assert!(!r.admits(&pre(2, 1, 0, vec![1])));
    let zero = VersionRange::Caret(v(0, 2, 3));
    assert!(zero.admits(&v(0, 2, 9)));
    assert!(!zero.admits(&v(0, 3, 0)));
    let patch = VersionRange::Caret(v(0, 0, 3));
    assert!(patch.admits(&v(0, 0, 3)));
    assert!(!patch.admits(&v(0, 0, 4)));
}

#[test]
fn other_range_kinds() {
    let tilde = VersionRange::Tilde(v(1, 2, 3));
    assert!(tilde.admits(&v(1, 2, 9)));
    assert!(!tilde.admits(&v(1, 3, 0)));
    assert!(!tilde.admits(&v(1, 2, 2)));
    let at_least = VersionRange::AtLeast(v(1, 0, 0));
    assert!(at_least.admits(&v(7, 0, 0)));
    assert!(!at_least.admits(&v(0, 9, 0)));
    let exact = VersionRange::Exact(v(1, 0, 0));
    assert!(exact.admits(&v(1, 0, 0)));
    assert!(!exact.admits(&v(1, 0, 1)));
    assert!(VersionRange::Any.admits(&v(0, 0, 1)));
    assert!(!VersionRange::Any.admits(&pre(1, 0, 0, vec![1])));
}

#[test]
fn prerelease_admitted_only_when_requested() {
    let r = VersionRange::Caret(pre(1, 0, 0, vec![1]));
    assert!(r.admits(&pre(1, 0, 0, vec![2])));
    assert!(r.admits(&v(1, 4, 0)));
    assert!(!r.admits(&pre(1, 1, 0, vec![1])));
    assert!(!r.admits(&pre(1, 0, 0, vec![0])));
}

#[test]
fn negotiate_picks_highest_admitted() {
    let cands = vec![v(1, 0, 0), v(2, 3, 0), v(2, 1, 0), v(3, 0, 0)];
    let r = negotiate(&VersionRange::Caret(v(2, 0, 0)), true, false, &cands, None);
    assert_eq!(r, Negotiation::Resolved { index: 1, warning: None });
    let any = negotiate(&VersionRange::Any, false, false, &cands, None);
    assert_eq!(any, Negotiation::Resolved { index: 3, warning: None });
}

#[test]
fn negotiate_without_match() {
    let cands = vec![v(1, 0, 0), v(1, 2, 0)];
    let range = VersionRange::Caret(v(2, 0, 0));
    assert_eq!(negotiate(&range, true, false, &cands, None), Negotiation::Failure);
    assert_eq!(
        negotiate(&range, false, false, &cands, None),
        Negotiation::Resolved { index: 1, warning: Some(NegotiationWarning::IncompatibleVersion) }
    );
    assert_eq!(negotiate(&range, false, false, &vec![], None), Negotiation::NoCandidate);
    assert_eq!(negotiate(&range, true, false, &vec![], None), Negotiation::Failure);
}

#[test]
fn negotiate_reuses_active_singleton() {
    let cands = vec![v(1, 0, 0), v(2, 0, 0)];
    let range = VersionRange::Caret(v(2, 0, 0));
    assert_eq!(
        negotiate(&range, true, true, &cands, Some(0)),
        Negotiation::Resolved { index: 0, warning: Some(NegotiationWarning::SingletonMismatch) }
    );
    assert_eq!(
        negotiate(&range, true, true, &cands, Some(1)),
        Negotiation::Resolved { index: 1, warning: None }
    );
    assert_eq!(
        negotiate(&range, true, false, &cands, Some(0)),
        Negotiation::Resolved { index: 1, warning: None }
    );
}

#[test]
fn longest_prefix_match() {
    let forward = vec![decl("lodash"), decl("lodash/")];
    let backward = vec![decl("lodash/"), decl("lodash")];
    assert_eq!(match_declaration(&forward, "lodash/map"), Some(1));
    assert_eq!(match_declaration(&backward, "lodash/map"), Some(0));
    assert_eq!(match_declaration(&forward, "lodash"), Some(0));
    assert_eq!(match_declaration(&backward, "lodash"), Some(1));
    assert_eq!(match_declaration(&forward, "underscore"), None);
    assert_eq!(match_declaration(&backward, "underscore"), None);
}

#[test]
fn prefix_ties_and_lengths() {
    let decls = vec![decl("a/"), decl("a/b/"), decl("a/b/"), decl("a/b")];
    assert_eq!(match_declaration(&decls, "a/b/c"), Some(1));
    assert_eq!(match_declaration(&decls, "a/x"), Some(0));
    assert_eq!(match_declaration(&decls, "a/b"), Some(3));
    assert_eq!(match_declaration(&decls, "a"), None);
    assert_eq!(match_declaration(&vec![decl("ab/")], "ab"), None);
}

#[test]
fn consume_node_carries_declaration() {
    let mut d = decl("react");
    d.required_version = Some(VersionRange::Caret(v(18, 0, 0)));
    d.singleton = true;
    d.strict_version = true;
    d.share_scope = s("ui");
    let decls = vec![decl("lodash/"), d];
    let c = classify_consume(&decls, "react").unwrap();
    assert_eq!(c.share_key, "react");
    assert_eq!(c.share_scope, "ui");
    assert!(c.singleton && c.strict_version && !c.eager);
    assert!(matches!(c.required_version, Some(VersionRange::Caret(ref x)) if x.major == 18));
    assert!(matches!(c.fallback, Fallback::Request(ref r) if r == "react"));
    assert_eq!(c.request, "react");
    assert!(classify_consume(&decls, "vue").is_none());
}

#[test]
fn consume_node_fallback_override() {
    let mut d = decl("lodash/");
    d.fallback = Some(Fallback::Disabled);
    let c = classify_consume(&vec![d], "lodash/map").unwrap();
    assert!(matches!(c.fallback, Fallback::Disabled));
    assert_eq!(c.request, "lodash/map");
}

#[test]
fn provide_node_versions() {
    let mut d = decl("react");
    let p = classify_provide(&d, "./node_modules/react", Some(v(18, 2, 0))).ok().unwrap();
    assert_eq!((p.version.major, p.version.minor, p.version.patch), (18, 2, 0));
    assert_eq!(p.provided_request, "./node_modules/react");
    assert_eq!(p.share_key, "react");
    assert!(matches!(
        classify_provide(&d, "./react", None),
        Err(ClassificationError::UnresolvedVersion)
    ));
    d.version = Some(v(17, 0, 1));
    let q = classify_provide(&d, "./react", Some(v(18, 2, 0))).ok().unwrap();
    assert_eq!(q.version.major, 17);
    let q2 = classify_provide(&d, "./react", None).ok().unwrap();
    assert_eq!(q2.version.patch, 1);
    assert!(matches!(
        classify_provide(&decl(""), "./x", Some(v(1, 0, 0))),
        Err(ClassificationError::MalformedShareKey)
    ));
}

#[test]
fn register_twice_is_noop() {
    let mut reg = SharingRegistry::new();
    let r1 = reg.register(s("default"), s("lodash"), v(4, 17, 0), false, 1);
    assert_eq!(r1, RegisterOutcome::Registered);
    let r2 = reg.register(s("default"), s("lodash"), v(4, 17, 0), true, 2);
    assert_eq!(r2, RegisterOutcome::AlreadyRegistered);
    assert_eq!(reg.state_of(0, 0), Some(LoadState::Registered));
    assert_eq!(reg.state_of(0, 1), None);
    assert_eq!(reg.state_of(1, 0), None);
    let r3 = reg.register(s("default"), s("lodash"), v(4, 18, 0), false, 3);
    assert_eq!(r3, RegisterOutcome::Registered);
    let r4 = reg.register(s("other"), s("lodash"), v(4, 17, 0), false, 4);
    assert_eq!(r4, RegisterOutcome::Registered);
    assert_eq!(reg.state_of(1, 0), Some(LoadState::Registered));
    let a = reg.get(&s("default"), &s("lodash"), &VersionRange::Exact(v(4, 17, 0)), true, false, &Fallback::Disabled);
    assert_eq!(a, GetAction::Load { key: 0, slot: 0, factory: 1, warning: None });
}

#[test]
fn eager_registration_is_ready() {
    let mut reg = SharingRegistry::new();
    let r = reg.register(s("default"), s("react"), v(18, 2, 0), true, 9);
    assert_eq!(r, RegisterOutcome::RegisteredEager);
    assert_eq!(reg.state_of(0, 0), Some(LoadState::Ready));
    let a = reg.get(&s("default"), &s("react"), &VersionRange::Caret(v(18, 0, 0)), false, false, &Fallback::Disabled);
    assert_eq!(a, GetAction::Ready { key: 0, slot: 0, warning: None });
}

#[test]
fn fallback_matrix() {
    let range = VersionRange::Caret(v(2, 0, 0));
    let mut reg = SharingRegistry::new();
    reg.register(s("default"), s("lodash"), v(1, 0, 0), false, 5);
    let mut loose = SharingRegistry::new();
    loose.register(s("default"), s("lodash"), v(1, 0, 0), false, 5);
    let a = loose.get(&s("default"), &s("lodash"), &range, false, false, &Fallback::Disabled);
    assert_eq!(
        a,
        GetAction::Load {
            key: 0,
            slot: 0,
            factory: 5,
            warning: Some(NegotiationWarning::IncompatibleVersion)
        }
    );
    let b = reg.get(&s("default"), &s("lodash"), &range, true, false, &Fallback::Disabled);
    assert_eq!(b, GetAction::Fail(SharingError::VersionNegotiationFailure));
    let local = Fallback::Request(s("./local-lodash"));
    let c = reg.get(&s("default"), &s("lodash"), &range, true, false, &local);
    assert_eq!(c, GetAction::UseFallback);
    assert_eq!(reg.state_of(0, 0), Some(LoadState::Registered));
}

#[test]
fn missing_key_falls_back() {
    let mut reg = SharingRegistry::new();
    let a = reg.get(&s("default"), &s("vue"), &VersionRange::Any, false, false, &Fallback::Disabled);
    assert_eq!(a, GetAction::Fail(SharingError::FallbackLoadError));
    let b = reg.get(&s("default"), &s("vue"), &VersionRange::Any, true, false, &Fallback::Request(s("./vue")));
    assert_eq!(b, GetAction::UseFallback);
    assert_eq!(resolve_fallback(true, &Fallback::Disabled), GetAction::Fail(SharingError::VersionNegotiationFailure));
    assert_eq!(resolve_fallback(false, &Fallback::Disabled), GetAction::Fail(SharingError::FallbackLoadError));
    assert_eq!(resolve_fallback(true, &Fallback::Request(s("./x"))), GetAction::UseFallback);
}

#[test]
fn singleton_reuses_ready_version() {
    let mut reg = SharingRegistry::new();
    reg.register(s("default"), s("react"), v(17, 0, 0), false, 1);
    reg.register(s("default"), s("react"), v(18, 0, 0), false, 2);
    let a = reg.get(&s("default"), &s("react"), &VersionRange::Caret(v(17, 0, 0)), false, true, &Fallback::Disabled);
    assert_eq!(a, GetAction::Load { key: 0, slot: 0, factory: 1, warning: None });
    assert!(reg.finish_load(0, 0, true));
    let b = reg.get(&s("default"), &s("react"), &VersionRange::Caret(v(18, 0, 0)), true, true, &Fallback::Disabled);
    assert_eq!(
        b,
        GetAction::Ready { key: 0, slot: 0, warning: Some(NegotiationWarning::SingletonMismatch) }
    );
    let c = reg.get(&s("default"), &s("react"), &VersionRange::Any, false, true, &Fallback::Disabled);
    assert_eq!(c, GetAction::Ready { key: 0, slot: 0, warning: None });
    assert_eq!(reg.state_of(0, 1), Some(LoadState::Registered));
    let d = reg.get(&s("default"), &s("react"), &VersionRange::Caret(v(18, 0, 0)), false, false, &Fallback::Disabled);
    assert_eq!(d, GetAction::Load { key: 0, slot: 1, factory: 2, warning: None });
}

#[test]
fn concurrent_gets_coalesce() {
    let mut reg = SharingRegistry::new();
    reg.register(s("default"), s("lodash"), v(4, 0, 0), false, 7);
    let range = VersionRange::Caret(v(4, 0, 0));
    let first = reg.get(&s("default"), &s("lodash"), &range, false, false, &Fallback::Disabled);
    assert_eq!(first, GetAction::Load { key: 0, slot: 0, factory: 7, warning: None });
    let second = reg.get(&s("default"), &s("lodash"), &range, false, false, &Fallback::Disabled);
    let third = reg.get(&s("default"), &s("lodash"), &range, false, false, &Fallback::Disabled);
    assert_eq!(second, GetAction::Await { key: 0, slot: 0, warning: None });
    assert_eq!(third, second);
    assert_eq!(reg.state_of(0, 0), Some(LoadState::Loading));
    assert!(reg.finish_load(0, 0, false));
    assert_eq!(reg.state_of(0, 0), Some(LoadState::Failed));
    assert!(!reg.finish_load(0, 0, true));
    let retry = reg.get(&s("default"), &s("lodash"), &range, false, false, &Fallback::Disabled);
    assert_eq!(retry, GetAction::Load { key: 0, slot: 0, factory: 7, warning: None });
    assert!(reg.finish_load(0, 0, true));
    let after = reg.get(&s("default"), &s("lodash"), &range, false, false, &Fallback::Disabled);
    assert_eq!(after, GetAction::Ready { key: 0, slot: 0, warning: None });
}

#[test]
fn provide_for_shared_dependency_node() {
    let mut ids = DependencyIds::new();
    let first = ids.fresh();
    let second = ids.fresh();
    assert_eq!(first, DependencyId(0));
    assert_eq!(second, DependencyId(1));
    let d = ProvideForSharedDependency::new(second, s("./node_modules/react/index.js"));
    assert_eq!(d.id(), DependencyId(1));
    assert_eq!(d.request(), "./node_modules/react/index.js");
    assert_eq!(d.dependency_type(), DependencyType::ProvideModuleForShared);
    assert_eq!(d.category(), DependencyCategory::Esm);
    assert_eq!(d.could_affect_referencing_module(), AffectType::True);
    let node = DependencyNode::ProvideForShared(d);
    assert_eq!(node.id(), DependencyId(1));
    assert_eq!(node.request(), "./node_modules/react/index.js");
    assert_eq!(node.dependency_type(), DependencyType::ProvideModuleForShared);
}

#[test]
fn dependency_node_kinds() {
    let import = DependencyNode::Import { id: DependencyId(3), request: s("lodash") };
    assert_eq!(import.dependency_type(), DependencyType::EsmImport);
    assert_eq!(import.request(), "lodash");
    assert_eq!(import.category(), DependencyCategory::Esm);
    assert_eq!(import.could_affect_referencing_module(), AffectType::True);
    let decls = vec![decl("lodash")];
    let c = classify_consume(&decls, "lodash").unwrap();
    let consume = DependencyNode::ConsumeShared { id: DependencyId(4), consume: c };
    assert_eq!(consume.dependency_type(), DependencyType::ConsumeSharedModule);
    assert_eq!(consume.id(), DependencyId(4));
    let p = classify_provide(&decls[0], "./lodash.js", Some(v(4, 17, 21))).ok().unwrap();
    let provide = DependencyNode::ProvideShared { id: DependencyId(5), provide: p };
    assert_eq!(provide.dependency_type(), DependencyType::ProvideSharedModule);
    assert_eq!(provide.request(), "./lodash.js");
}

#[test]
fn chars_of_keeps_text() {
    assert_eq!(chars_of("héllo/"), vec!['h', 'é', 'l', 'l', 'o', '/']);
    assert!(chars_of("").is_empty());
}

#[test]
fn parse_versions() {
    let a = parse_version("1.2.3").unwrap();
    assert_eq!((a.major, a.minor, a.patch, a.pre.len()), (1, 2, 3, 0));
    let b = parse_version("10.0.20-4.0.11").unwrap();
    assert_eq!((b.major, b.minor, b.patch, b.pre.clone()), (10, 0, 20, vec![4, 0, 11]));
    let c = parse_version("18446744073709551615.0.0").unwrap();
    assert_eq!(c.major, u64::MAX);
    assert!(parse_version("18446744073709551616.0.0").is_none());
    assert!(parse_version("01.2.3").is_none());
    assert!(parse_version("1.2").is_none());
    assert!(parse_version("1.2.3.4").is_none());
    assert!(parse_version("1.2.3-").is_none());
    assert!(parse_version("1.2.3-1.").is_none());
    assert!(parse_version("1.2.3-beta").is_none());
    assert!(parse_version("").is_none());
    assert!(parse_version("v1.2.3").is_none());
}

#[test]
fn parse_ranges() {
    assert!(matches!(parse_range("*"), Ok(VersionRange::Any)));
    assert!(matches!(parse_range("^2.0.0"), Ok(VersionRange::Caret(ref v)) if v.major == 2));
    assert!(matches!(parse_range("~1.4.0"), Ok(VersionRange::Tilde(ref v)) if v.minor == 4));
    assert!(matches!(parse_range(">=3.1.0"), Ok(VersionRange::AtLeast(ref v)) if v.minor == 1));
    assert!(matches!(parse_range("1.0.0-1"), Ok(VersionRange::Exact(ref v)) if v.pre == vec![1]));
    assert_eq!(parse_range("**").err(), Some(VersionRangeError::Malformed));
    assert_eq!(parse_range(">1.0.0").err(), Some(VersionRangeError::Malformed));
    assert_eq!(parse_range("^").err(), Some(VersionRangeError::Malformed));
    assert_eq!(parse_range("").err(), Some(VersionRangeError::Malformed));
    assert_eq!(parse_range("^^1.0.0").err(), Some(VersionRangeError::Malformed));
    let r = parse_range("^2.0.0").ok().unwrap();
    assert!(r.admits(&parse_version("2.9.1").unwrap()));
    assert!(!r.admits(&parse_version("1.0.0").unwrap()));
}

#[test]
fn declare_from_text() {
    let d = declare(s("react"), s("default"), Some("^18.0.0"), Some("18.2.0"), true, false, true, None)
        .ok()
        .unwrap();
    assert_eq!(d.share_key, "react");
    assert!(d.singleton && !d.eager && d.strict_version && d.fallback.is_none());
    assert!(matches!(d.required_version, Some(VersionRange::Caret(ref v)) if v.major == 18));
    assert!(matches!(d.version, Some(ref v) if v.minor == 2));
    let plain = declare(s("lodash/"), s("default"), None, None, false, false, false, Some(Fallback::Disabled))
        .ok()
        .unwrap();
    assert!(plain.required_version.is_none() && plain.version.is_none());
    assert!(matches!(plain.fallback, Some(Fallback::Disabled)));
}

#[test]
fn declare_rejects_bad_text() {
    assert_eq!(
        declare(s(""), s("default"), Some("^1.0.0"), None, false, false, false, None).err(),
        Some(DeclarationError::Classification(ClassificationError::MalformedShareKey))
    );
    assert_eq!(
        declare(s("react"), s("default"), Some("^1.x"), Some("1.0"), false, false, false, None).err(),
        Some(DeclarationError::Range(VersionRangeError::Malformed))
    );
    assert_eq!(
        declare(s("react"), s("default"), Some("^1.0.0"), Some("1.0"), false, false, false, None).err(),
        Some(DeclarationError::InvalidVersion)
    );
}
