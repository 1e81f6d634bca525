use crate::range::{VersionRange, range_admits};
use crate::version::{Version, lemma_version_order_total, same_version, version_le};
use vstd::prelude::*;

verus! {

/// A non-fatal remark that goes with a resolved version.
#[derive(PartialEq, Eq, Structural, Clone, Copy, Debug)]
pub enum NegotiationWarning {
    /// A singleton was reused although the required range does not admit it.
    SingletonMismatch,
    /// No candidate met the range; the highest one was taken instead.
    IncompatibleVersion,
}

/// The outcome of a negotiation over a list of candidates.
#[derive(PartialEq, Eq, Structural, Clone, Copy, Debug)]
pub enum Negotiation {
    /// The candidate at `index` was chosen.
    Resolved { index: usize, warning: Option<NegotiationWarning> },
    /// Strict versioning, and no candidate meets the range.
    Failure,
    /// There is no candidate at all.
    NoCandidate,
}

/// Some candidate meets the range.
pub open spec fn some_admitted(range: VersionRange, cands: Seq<Version>) -> bool {
    exists|i: int| 0 <= i < cands.len() && range_admits(range, #[trigger] cands[i])
}

/// `i` indexes a highest candidate among those the range admits.
pub open spec fn is_max_admitted(range: VersionRange, cands: Seq<Version>, i: int) -> bool {
    &&& 0 <= i < cands.len()
    &&& range_admits(range, cands[i])
    &&& forall|j: int|
        0 <= j < cands.len() && range_admits(range, #[trigger] cands[j]) ==> version_le(
            cands[j],
            cands[i],
        )
}

/// `i` indexes a highest candidate.
pub open spec fn is_max(cands: Seq<Version>, i: int) -> bool {
    &&& 0 <= i < cands.len()
    &&& forall|j: int| 0 <= j < cands.len() ==> version_le(#[trigger] cands[j], cands[i])
}

/// What a negotiation must return, given the active singleton (if any).
pub open spec fn negotiation_correct(
    range: VersionRange,
    strict: bool,
    singleton: bool,
    cands: Seq<Version>,
    active: Option<usize>,
    r: Negotiation,
) -> bool {
    if singleton && active is Some {
        r == Negotiation::Resolved {
            index: active->0,
            warning: if range_admits(range, cands[active->0 as int]) {
                None
            } else {
                Some(NegotiationWarning::SingletonMismatch)
            },
        }
    } else if some_admitted(range, cands) {
        r matches Negotiation::Resolved { index, warning } && warning is None && is_max_admitted(
            range,
            cands,
            index as int,
        )
    } else if strict {
        r == Negotiation::Failure
    } else if cands.len() > 0 {
        r matches Negotiation::Resolved { index, warning } && warning == Some(
            NegotiationWarning::IncompatibleVersion,
        ) && is_max(cands, index as int)
    } else {
        r == Negotiation::NoCandidate
    }
}

proof fn lemma_le_transitive(a: Version, b: Version, c: Version)
    requires
        version_le(a, b),
        version_le(b, c),
    ensures
        version_le(a, c),
{
    lemma_version_order_total(a, b, c);
}

/// Picks a version for a consumer.
///
/// With `singleton` set and a singleton already active (`active` indexes it
/// among the candidates), that one is reused, with a warning where the range
/// does not admit it. Otherwise the highest candidate the range admits wins;
/// failing that, strict versioning fails, and loose versioning takes the
/// highest candidate with a warning, or reports that there is none.
pub fn negotiate(
    range: &VersionRange,
    strict: bool,
    singleton: bool,
    candidates: &Vec<Version>,
    active: Option<usize>,
) -> (r: Negotiation)
    requires
        active matches Some(a) ==> a < candidates.len(),
    ensures
        negotiation_correct(*range, strict, singleton, candidates@, active, r),
{
    if singleton {
        if let Some(a) = active {
            let warning = if range.admits(&candidates[a]) {
                None
            } else {
                Some(NegotiationWarning::SingletonMismatch)
            };
            return Negotiation::Resolved { index: a, warning };
        }
    }
    let mut best_ok: Option<usize> = None;
    let mut best_any: Option<usize> = None;
    let n = candidates.len();
    let mut i: usize = 0;
    while i < n
        invariant
            n == candidates.len(),
            i <= n,
            best_any is None <==> i == 0,
            best_any matches Some(b) ==> b < i && forall|j: int|
                0 <= j < i ==> version_le(#[trigger] candidates@[j], candidates@[b as int]),
            best_ok matches Some(b) ==> b < i && range_admits(*range, candidates@[b as int])
                && forall|j: int|
                0 <= j < i && range_admits(*range, #[trigger] candidates@[j]) ==> version_le(
                    candidates@[j],
                    candidates@[b as int],
                ),
            best_ok is None ==> forall|j: int|
                0 <= j < i ==> !range_admits(*range, #[trigger] candidates@[j]),
        decreases n - i,
    {
        let c = &candidates[i];
        match best_any {
            None => {
                best_any = Some(i);
            },
            Some(b) => {
                if candidates[b].precedes(c) {
                    proof {
                        assert forall|j: int| 0 <= j < i + 1 implies version_le(
                            #[trigger] candidates@[j],
                            candidates@[i as int],
                        ) by {
                            if j < i {
                                lemma_le_transitive(
                                    candidates@[j],
                                    candidates@[b as int],
                                    candidates@[i as int],
                                );
                            }
                        }
                    }
                    best_any = Some(i);
                } else {
                    proof {
                        lemma_version_order_total(candidates@[b as int], candidates@[i as int], candidates@[i as int]);
                    }
                }
            },
        }
        if range.admits(c) {
            match best_ok {
                None => {
                    best_ok = Some(i);
                },
                Some(b) => {
                    if candidates[b].precedes(c) {
                        proof {
                            assert forall|j: int|
                                0 <= j < i + 1 && range_admits(
                                    *range,
                                    #[trigger] candidates@[j],
                                ) implies version_le(candidates@[j], candidates@[i as int]) by {
                                if j < i {
                                    lemma_le_transitive(
                                        candidates@[j],
                                        candidates@[b as int],
                                        candidates@[i as int],
                                    );
                                }
                            }
                        }
                        best_ok = Some(i);
                    } else {
                        proof {
                            lemma_version_order_total(candidates@[b as int], candidates@[i as int], candidates@[i as int]);
                        }
                    }
                },
            }
        }
        i = i + 1;
    }
    match best_ok {
        Some(b) => Negotiation::Resolved { index: b, warning: None },
        None => {
            if strict {
                Negotiation::Failure
            } else {
                match best_any {
                    Some(b) => Negotiation::Resolved {
                        index: b,
                        warning: Some(NegotiationWarning::IncompatibleVersion),
                    },
                    None => Negotiation::NoCandidate,
                }
            }
        },
    }
}

/// Where some candidate meets the range and no singleton is reused, the
/// negotiated candidate is a highest admitted one, and every highest
/// admitted candidate is the same version as it.
pub proof fn lemma_negotiate_picks_highest_admitted(
    range: VersionRange,
    strict: bool,
    singleton: bool,
    cands: Seq<Version>,
    active: Option<usize>,
    r: Negotiation,
)
    requires
        !(singleton && active is Some),
        some_admitted(range, cands),
        negotiation_correct(range, strict, singleton, cands, active, r),
    ensures
        r matches Negotiation::Resolved { index, warning } && warning is None && index < cands.len()
            && range_admits(range, cands[index as int]) && forall|j: int|
            0 <= j < cands.len() && range_admits(range, #[trigger] cands[j]) ==> version_le(
                cands[j],
                cands[index as int],
            ),
        forall|k: int|
            #![trigger is_max_admitted(range, cands, k)]
            is_max_admitted(range, cands, k) ==> same_version(cands[k], cands[r->index as int]),
{
    let i = r->index as int;
    assert forall|k: int| #![trigger is_max_admitted(range, cands, k)]
        is_max_admitted(range, cands, k) implies same_version(cands[k], cands[i]) by {
        lemma_version_order_total(cands[k], cands[i], cands[i]);
    }
}

/// With pairwise distinct candidates, two correct outcomes of the same
/// negotiation that both resolve pick the same candidate.
pub proof fn lemma_negotiation_unique(
    range: VersionRange,
    strict: bool,
    singleton: bool,
    cands: Seq<Version>,
    active: Option<usize>,
    n1: Negotiation,
    n2: Negotiation,
)
    requires
        forall|i: int, j: int|
            0 <= i < j < cands.len() ==> !same_version(#[trigger] cands[i], #[trigger] cands[j]),
        active matches Some(a) ==> a < cands.len(),
        negotiation_correct(range, strict, singleton, cands, active, n1),
        negotiation_correct(range, strict, singleton, cands, active, n2),
    ensures
        n1 is Resolved <==> n2 is Resolved,
        n1 is Resolved ==> n1->index == n2->index,
{
    if n1 is Resolved && n2 is Resolved && !(singleton && active is Some) {
        let i = n1->index as int;
        let j = n2->index as int;
        lemma_version_order_total(cands[i], cands[j], cands[j]);
        if i < j {
            assert(!same_version(cands[i], cands[j]));
        } else if j < i {
            assert(!same_version(cands[j], cands[i]));
        }
    }
}

} // verus!
