use crate::negotiate::{
    Negotiation, NegotiationWarning, lemma_negotiation_unique, negotiate, negotiation_correct,
};
use crate::range::VersionRange;
use crate::version::{Version, same_version};
use vstd::prelude::*;

verus! {

/// Where a registered factory stands.
#[derive(PartialEq, Eq, Structural, Clone, Copy, Debug)]
pub enum LoadState {
    /// Registered, not loaded yet.
    Registered,
    /// Its load is in flight; further requests wait for it.
    Loading,
    /// Loaded; requests use it at once.
    Ready,
    /// Its last load failed; the next request loads it again.
    Failed,
}

/// One registered version of a share key: its factory handle and state.
#[derive(PartialEq, Eq, Structural, Clone, Copy, Debug)]
pub struct Slot {
    pub eager: bool,
    pub factory: u64,
    pub state: LoadState,
}

/// All registered versions of one share key in one scope. `versions[i]`
/// goes with `slots[i]`; `singleton` is the slot that singleton requests
/// have settled on, if any.
pub struct KeyEntry {
    pub scope: String,
    pub key: String,
    pub versions: Vec<Version>,
    pub slots: Vec<Slot>,
    pub singleton: Option<usize>,
}

/// What a consumer falls back to when sharing gives it nothing.
pub enum Fallback {
    /// The explicit "no fallback" marker.
    Disabled,
    /// The consumer's own bundled copy, by request.
    Request(String),
}

#[derive(PartialEq, Eq, Structural, Clone, Copy, Debug)]
pub enum SharingError {
    /// Strict versioning, no compatible version, and no fallback.
    VersionNegotiationFailure,
    /// No shared candidate and no fallback to load.
    FallbackLoadError,
}

#[derive(PartialEq, Eq, Structural, Clone, Copy, Debug)]
pub enum RegisterOutcome {
    /// The `(scope, key, version)` was registered before; nothing changed.
    AlreadyRegistered,
    /// Stored, to be loaded on first request.
    Registered,
    /// Stored as ready: the caller runs the factory now.
    RegisteredEager,
}

/// What the caller of `get` does next.
#[derive(PartialEq, Eq, Structural, Clone, Copy, Debug)]
pub enum GetAction {
    /// The module of this slot is loaded: use it.
    Ready { key: usize, slot: usize, warning: Option<NegotiationWarning> },
    /// Run this factory, then report with `finish_load`.
    Load { key: usize, slot: usize, factory: u64, warning: Option<NegotiationWarning> },
    /// A load of this slot is in flight: wait for its outcome.
    Await { key: usize, slot: usize, warning: Option<NegotiationWarning> },
    /// Load the consumer's own copy; the scope is not touched.
    UseFallback,
    /// The consumer's load fails.
    Fail(SharingError),
}

pub open spec fn key_matches(e: KeyEntry, scope: Seq<char>, key: Seq<char>) -> bool {
    e.scope@ == scope && e.key@ == key
}

pub open spec fn has_key(v: Seq<KeyEntry>, scope: Seq<char>, key: Seq<char>, ki: int) -> bool {
    0 <= ki < v.len() && key_matches(v[ki], scope, key)
}

pub open spec fn has_version(e: KeyEntry, w: Version) -> bool {
    exists|i: int| 0 <= i < e.versions@.len() && same_version(#[trigger] e.versions@[i], w)
}

pub open spec fn entry_wf(e: KeyEntry) -> bool {
    &&& e.versions@.len() == e.slots@.len()
    &&& e.singleton matches Some(s) ==> s < e.versions@.len()
    &&& forall|i: int, j: int|
        0 <= i < j < e.versions@.len() ==> !same_version(
            #[trigger] e.versions@[i],
            #[trigger] e.versions@[j],
        )
}

/// Every key entry is well formed, and no `(scope, key)` has two entries.
pub open spec fn registry_wf(v: Seq<KeyEntry>) -> bool {
    &&& forall|k: int| 0 <= k < v.len() ==> entry_wf(#[trigger] v[k])
    &&& forall|k: int, l: int|
        0 <= k < l < v.len() ==> !(#[trigger] v[k].scope@ == #[trigger] v[l].scope@ && v[k].key@
            == v[l].key@)
}

/// `new_e` is `e` with these slots and this singleton choice.
pub open spec fn entry_with(
    e: KeyEntry,
    new_e: KeyEntry,
    versions: Seq<Version>,
    slots: Seq<Slot>,
    singleton: Option<usize>,
) -> bool {
    &&& new_e.scope == e.scope
    &&& new_e.key == e.key
    &&& new_e.versions@ == versions
    &&& new_e.slots@ == slots
    &&& new_e.singleton == singleton
}

/// `new` is `old` with entry `ki` replaced by something and the rest kept.
pub open spec fn others_kept(old: Seq<KeyEntry>, new: Seq<KeyEntry>, ki: int) -> bool {
    new.len() == old.len() && forall|j: int| 0 <= j < old.len() && j != ki ==> new[j] == old[j]
}

pub open spec fn fallback_spec(strict_failure: bool, fallback: Fallback) -> GetAction {
    match fallback {
        Fallback::Disabled => GetAction::Fail(
            if strict_failure {
                SharingError::VersionNegotiationFailure
            } else {
                SharingError::FallbackLoadError
            },
        ),
        Fallback::Request(_) => GetAction::UseFallback,
    }
}

/// The action that negotiation outcome `n` on entry `e` (at index `ki`) calls for.
pub open spec fn action_for(e: KeyEntry, ki: int, n: Negotiation, fallback: Fallback) -> GetAction {
    match n {
        Negotiation::Resolved { index, warning } => {
            let s = e.slots@[index as int];
            match s.state {
                LoadState::Ready => GetAction::Ready { key: ki as usize, slot: index, warning },
                LoadState::Loading => GetAction::Await { key: ki as usize, slot: index, warning },
                _ => GetAction::Load { key: ki as usize, slot: index, factory: s.factory, warning },
            }
        },
        Negotiation::Failure => fallback_spec(true, fallback),
        Negotiation::NoCandidate => fallback_spec(false, fallback),
    }
}

/// The slots after outcome `n`: a slot that must be loaded becomes `Loading`.
pub open spec fn slots_after(e: KeyEntry, n: Negotiation) -> Seq<Slot> {
    match n {
        Negotiation::Resolved { index, .. } => {
            let s = e.slots@[index as int];
            if s.state == LoadState::Registered || s.state == LoadState::Failed {
                e.slots@.update(
                    index as int,
                    Slot { eager: s.eager, factory: s.factory, state: LoadState::Loading },
                )
            } else {
                e.slots@
            }
        },
        _ => e.slots@,
    }
}

/// The singleton choice after outcome `n`: a singleton request settles on
/// what it resolved to.
pub open spec fn singleton_after(e: KeyEntry, n: Negotiation, singleton: bool) -> Option<usize> {
    match n {
        Negotiation::Resolved { index, .. } => if singleton {
            Some(index)
        } else {
            e.singleton
        },
        _ => e.singleton,
    }
}

/// One `get` on entry `ki` with negotiation outcome `n`.
pub open spec fn get_step(
    old: Seq<KeyEntry>,
    new: Seq<KeyEntry>,
    ki: int,
    n: Negotiation,
    singleton: bool,
    fallback: Fallback,
    r: GetAction,
) -> bool {
    &&& r == action_for(old[ki], ki, n, fallback)
    &&& others_kept(old, new, ki)
    &&& entry_with(
        old[ki],
        new[ki],
        old[ki].versions@,
        slots_after(old[ki], n),
        singleton_after(old[ki], n, singleton),
    )
}

/// What `get` does: negotiate among the versions of the key, then act on
/// the chosen slot's state, or fall back.
pub open spec fn get_post(
    old: Seq<KeyEntry>,
    new: Seq<KeyEntry>,
    scope: Seq<char>,
    key: Seq<char>,
    range: VersionRange,
    strict: bool,
    singleton: bool,
    fallback: Fallback,
    r: GetAction,
) -> bool {
    if exists|ki: int| has_key(old, scope, key, ki) {
        let ki = choose|ki: int| has_key(old, scope, key, ki);
        exists|n: Negotiation|
            #![trigger negotiation_correct(range, strict, singleton, old[ki].versions@, old[ki].singleton, n)]
            negotiation_correct(range, strict, singleton, old[ki].versions@, old[ki].singleton, n)
                && get_step(old, new, ki, n, singleton, fallback, r)
    } else {
        new == old && r == fallback_spec(false, fallback)
    }
}

/// What `register` does: a new `(scope, key, version)` is appended, a known
/// one changes nothing.
pub open spec fn register_post(
    old: Seq<KeyEntry>,
    new: Seq<KeyEntry>,
    scope: Seq<char>,
    key: Seq<char>,
    version: Version,
    eager: bool,
    factory: u64,
    r: RegisterOutcome,
) -> bool {
    let slot = Slot {
        eager,
        factory,
        state: if eager {
            LoadState::Ready
        } else {
            LoadState::Registered
        },
    };
    let outcome = if eager {
        RegisterOutcome::RegisteredEager
    } else {
        RegisterOutcome::Registered
    };
    if exists|ki: int| has_key(old, scope, key, ki) {
        let ki = choose|ki: int| has_key(old, scope, key, ki);
        if has_version(old[ki], version) {
            r == RegisterOutcome::AlreadyRegistered && new == old
        } else {
            &&& r == outcome
            &&& others_kept(old, new, ki)
            &&& entry_with(
                old[ki],
                new[ki],
                old[ki].versions@.push(version),
                old[ki].slots@.push(slot),
                old[ki].singleton,
            )
        }
    } else {
        &&& r == outcome
        &&& new.len() == old.len() + 1
        &&& new.subrange(0, old.len() as int) == old
        &&& key_matches(new[old.len() as int], scope, key)
        &&& new[old.len() as int].versions@ == seq![version]
        &&& new[old.len() as int].slots@ == seq![slot]
        &&& new[old.len() as int].singleton is None
    }
}

/// What `finish_load` does: a slot in flight becomes `Ready` or `Failed`;
/// any other report changes nothing.
pub open spec fn finish_post(
    old: Seq<KeyEntry>,
    new: Seq<KeyEntry>,
    key: usize,
    slot: usize,
    loaded: bool,
    r: bool,
) -> bool {
    if key < old.len() && slot < old[key as int].slots@.len()
        && old[key as int].slots@[slot as int].state == LoadState::Loading {
        let s = old[key as int].slots@[slot as int];
        let state = if loaded {
            LoadState::Ready
        } else {
            LoadState::Failed
        };
        &&& r
        &&& others_kept(old, new, key as int)
        &&& entry_with(
            old[key as int],
            new[key as int],
            old[key as int].versions@,
            old[key as int].slots@.update(
                slot as int,
                Slot { eager: s.eager, factory: s.factory, state },
            ),
            old[key as int].singleton,
        )
    } else {
        !r && new == old
    }
}

/// Decides what a consumer gets when no shared module can serve it.
/// `strict_failure` says whether negotiation failed under strict versioning
/// (rather than finding no candidate at all).
pub fn resolve_fallback(strict_failure: bool, fallback: &Fallback) -> (r: GetAction)
    ensures
        r == fallback_spec(strict_failure, *fallback),
{
    match fallback {
        Fallback::Disabled => {
            if strict_failure {
                GetAction::Fail(SharingError::VersionNegotiationFailure)
            } else {
                GetAction::Fail(SharingError::FallbackLoadError)
            }
        },
        Fallback::Request(_) => GetAction::UseFallback,
    }
}

fn find_version(versions: &Vec<Version>, w: &Version) -> (r: Option<usize>)
    ensures
        r matches Some(i) ==> i < versions@.len() && same_version(versions@[i as int], *w),
        r is None ==> forall|i: int|
            0 <= i < versions@.len() ==> !same_version(#[trigger] versions@[i], *w),
{
    let mut i: usize = 0;
    while i < versions.len()
        invariant
            i <= versions@.len(),
            forall|j: int| 0 <= j < i ==> !same_version(#[trigger] versions@[j], *w),
        decreases versions@.len() - i,
    {
        match versions[i].compare(w) {
            std::cmp::Ordering::Equal => {
                return Some(i);
            },
            _ => {},
        }
        i = i + 1;
    }
    None
}

/// The sharing registry of a running process: every scope's registered
/// versions of every share key, with their load states.
pub struct SharingRegistry {
    keys: Vec<KeyEntry>,
}

impl View for SharingRegistry {
    type V = Seq<KeyEntry>;

    closed spec fn view(&self) -> Seq<KeyEntry> {
        self.keys@
    }
}

impl SharingRegistry {
    pub open spec fn wf(&self) -> bool {
        registry_wf(self@)
    }

    /// An empty registry.
    pub fn new() -> (r: SharingRegistry)
        ensures
            r.wf(),
            r@.len() == 0,
    {
        SharingRegistry { keys: Vec::new() }
    }

    fn find_key(&self, scope: &String, key: &String) -> (r: Option<usize>)
        ensures
            r matches Some(k) ==> has_key(self@, scope@, key@, k as int),
            r is None ==> forall|k: int| !has_key(self@, scope@, key@, k),
    {
        let mut i: usize = 0;
        while i < self.keys.len()
            invariant
                i <= self.keys@.len(),
                forall|k: int| 0 <= k < i ==> !#[trigger] has_key(self.keys@, scope@, key@, k),
            decreases self.keys@.len() - i,
        {
            if self.keys[i].scope == *scope && self.keys[i].key == *key {
                return Some(i);
            }
            i = i + 1;
        }
        None
    }

    /// Registers a factory for `version` of `key` in `scope`. A
    /// `(scope, key, version)` that is there already keeps its first
    /// registration. An eager factory is stored as ready, and the caller
    /// runs it at once.
    pub fn register(
        &mut self,
        scope: String,
        key: String,
        version: Version,
        eager: bool,
        factory: u64,
    ) -> (r: RegisterOutcome)
        requires
            old(self).wf(),
        ensures
            final(self).wf(),
            register_post(old(self)@, final(self)@, scope@, key@, version, eager, factory, r),
    {
        let slot = Slot {
            eager,
            factory,
            state: if eager {
                LoadState::Ready
            } else {
                LoadState::Registered
            },
        };
        let outcome = if eager {
            RegisterOutcome::RegisteredEager
        } else {
            RegisterOutcome::Registered
        };
        match self.find_key(&scope, &key) {
            Some(ki) => {
                match find_version(&self.keys[ki].versions, &version) {
                    Some(_) => RegisterOutcome::AlreadyRegistered,
                    None => {
                        let ghost old_e = self.keys@[ki as int];
                        self.keys[ki].versions.push(version);
                        self.keys[ki].slots.push(slot);
                        proof {
                            let e = self.keys@[ki as int];
                            assert forall|i: int, j: int|
                                0 <= i < j < e.versions@.len() implies !same_version(
                                #[trigger] e.versions@[i],
                                #[trigger] e.versions@[j],
                            ) by {
                                if j == old_e.versions@.len() {
                                    assert(!same_version(old_e.versions@[i], version));
                                } else {
                                    assert(entry_wf(old_e));
                                }
                            }
                            let v = self.keys@;
                            let o = old(self).keys@;
                            assert forall|k: int, l: int|
                                0 <= k < l < v.len() implies !(#[trigger] v[k].scope@
                                == #[trigger] v[l].scope@ && v[k].key@ == v[l].key@) by {
                                assert(v[k].scope == o[k].scope && v[k].key == o[k].key);
                                assert(v[l].scope == o[l].scope && v[l].key == o[l].key);
                            }
                            assert(entry_wf(e));
                        }
                        outcome
                    },
                }
            },
            None => {
                let mut versions: Vec<Version> = Vec::new();
                versions.push(version);
                let mut slots: Vec<Slot> = Vec::new();
                slots.push(slot);
                self.keys.push(KeyEntry { scope, key, versions, slots, singleton: None });
                proof {
                    let v = self.keys@;
                    let o = old(self).keys@;
                    assert(v.subrange(0, o.len() as int) =~= o);
                    assert(entry_wf(v[o.len() as int]));
                    assert forall|k: int, l: int|
                        0 <= k < l < v.len() implies !(#[trigger] v[k].scope@ == #[trigger] v[l].scope@
                        && v[k].key@ == v[l].key@) by {
                        if l == o.len() {
                            assert(!has_key(o, scope@, key@, k));
                        }
                    }
                }
                outcome
            },
        }
    }

    /// Serves a request for `key` in `scope`: negotiates among its
    /// registered versions and answers by the chosen slot's state, marking a
    /// slot that must be loaded as `Loading`, so that later requests wait for
    /// that one load. Without a usable version it falls back.
    pub fn get(
        &mut self,
        scope: &String,
        key: &String,
        range: &VersionRange,
        strict: bool,
        singleton: bool,
        fallback: &Fallback,
    ) -> (r: GetAction)
        requires
            old(self).wf(),
        ensures
            final(self).wf(),
            get_post(
                old(self)@,
                final(self)@,
                scope@,
                key@,
                *range,
                strict,
                singleton,
                *fallback,
                r,
            ),
    {
        match self.find_key(scope, key) {
            None => resolve_fallback(false, fallback),
            Some(ki) => {
                let ghost old_keys = self.keys@;
                assert(entry_wf(old_keys[ki as int]));
                let n = negotiate(
                    range,
                    strict,
                    singleton,
                    &self.keys[ki].versions,
                    self.keys[ki].singleton,
                );
                let r = match n {
                    Negotiation::Resolved { index, warning } => {
                        let s = self.keys[ki].slots[index];
                        if singleton {
                            self.keys[ki].singleton = Some(index);
                        }
                        match s.state {
                            LoadState::Ready => GetAction::Ready { key: ki, slot: index, warning },
                            LoadState::Loading => GetAction::Await { key: ki, slot: index, warning },
                            _ => {
                                self.keys[ki].slots.set(
                                    index,
                                    Slot { eager: s.eager, factory: s.factory, state: LoadState::Loading },
                                );
                                GetAction::Load { key: ki, slot: index, factory: s.factory, warning }
                            },
                        }
                    },
                    Negotiation::Failure => resolve_fallback(true, fallback),
                    Negotiation::NoCandidate => resolve_fallback(false, fallback),
                };
                proof {
                    assert(get_step(old_keys, self.keys@, ki as int, n, singleton, *fallback, r));
                    assert(entry_wf(self.keys@[ki as int]));
                }
                r
            },
        }
    }

    /// Reports the outcome of a load that `get` asked for. A slot in flight
    /// becomes `Ready`, or `Failed` (a later request may load it again);
    /// every waiter is then given that one outcome.
    pub fn finish_load(&mut self, key: usize, slot: usize, loaded: bool) -> (r: bool)
        requires
            old(self).wf(),
        ensures
            final(self).wf(),
            finish_post(old(self)@, final(self)@, key, slot, loaded, r),
    {
        if key < self.keys.len() && slot < self.keys[key].slots.len() {
            let s = self.keys[key].slots[slot];
            if s.state == LoadState::Loading {
                let state = if loaded {
                    LoadState::Ready
                } else {
                    LoadState::Failed
                };
                self.keys[key].slots.set(slot, Slot { eager: s.eager, factory: s.factory, state });
                return true;
            }
        }
        false
    }

    /// The state of a slot, if there is such a slot.
    pub fn state_of(&self, key: usize, slot: usize) -> (r: Option<LoadState>)
        ensures
            key < self@.len() && slot < self@[key as int].slots@.len() ==> r == Some(
                self@[key as int].slots@[slot as int].state,
            ),
            !(key < self@.len() && slot < self@[key as int].slots@.len()) ==> r is None,
    {
        if key < self.keys.len() && slot < self.keys[key].slots.len() {
            Some(self.keys[key].slots[slot].state)
        } else {
            None
        }
    }
}

/// Two registry states hold the same entries, slots and singleton choices.
pub open spec fn same_registry(a: Seq<KeyEntry>, b: Seq<KeyEntry>) -> bool {
    &&& a.len() == b.len()
    &&& forall|k: int|
        0 <= k < a.len() ==> entry_with(
            #[trigger] a[k],
            b[k],
            a[k].versions@,
            a[k].slots@,
            a[k].singleton,
        )
}

/// Singleton requests for entry `ki` have settled on slot `s`, which is ready.
pub open spec fn singleton_ready(v: Seq<KeyEntry>, ki: int, s: usize) -> bool {
    &&& 0 <= ki < v.len()
    &&& v[ki].singleton == Some(s)
    &&& s < v[ki].slots@.len()
    &&& v[ki].slots@[s as int].state == LoadState::Ready
}

proof fn lemma_key_unique(v: Seq<KeyEntry>, scope: Seq<char>, key: Seq<char>, k: int, l: int)
    requires
        registry_wf(v),
        has_key(v, scope, key, k),
        has_key(v, scope, key, l),
    ensures
        k == l,
{
    if k < l {
        assert(!(v[k].scope@ == v[l].scope@ && v[k].key@ == v[l].key@));
    } else if l < k {
        assert(!(v[l].scope@ == v[k].scope@ && v[l].key@ == v[k].key@));
    }
}

/// Registering the same `(scope, key, version)` a second time is a no-op,
/// whatever its eager flag and factory: the registry then holds exactly one
/// slot for that version.
pub proof fn lemma_register_idempotent(
    v0: Seq<KeyEntry>,
    v1: Seq<KeyEntry>,
    v2: Seq<KeyEntry>,
    scope: Seq<char>,
    key: Seq<char>,
    version: Version,
    eager1: bool,
    factory1: u64,
    r1: RegisterOutcome,
    eager2: bool,
    factory2: u64,
    r2: RegisterOutcome,
)
    requires
        registry_wf(v0),
        registry_wf(v1),
        register_post(v0, v1, scope, key, version, eager1, factory1, r1),
        register_post(v1, v2, scope, key, version, eager2, factory2, r2),
    ensures
        r2 == RegisterOutcome::AlreadyRegistered,
        v2 == v1,
        exists|ki: int| #[trigger]
            has_key(v2, scope, key, ki) && has_version(v2[ki], version) && forall|i: int, j: int|
                0 <= i < v2[ki].versions@.len() && 0 <= j < v2[ki].versions@.len() && same_version(
                    v2[ki].versions@[i],
                    version,
                ) && same_version(v2[ki].versions@[j], version) ==> i == j,
{
    let ki: int = if exists|k: int| has_key(v0, scope, key, k) {
        choose|k: int| has_key(v0, scope, key, k)
    } else {
        v0.len() as int
    };
    assert(has_key(v1, scope, key, ki));
    if exists|k: int| has_key(v0, scope, key, k) {
        if !has_version(v0[ki], version) {
            let last = v0[ki].versions@.len() as int;
            assert(v1[ki].versions@[last] == version);
        }
    } else {
        assert(v1[ki].versions@[0] == version);
    }
    assert(has_version(v1[ki], version));
    let k1 = choose|k: int| has_key(v1, scope, key, k);
    lemma_key_unique(v1, scope, key, ki, k1);
    assert(entry_wf(v1[ki]));
    assert(has_key(v2, scope, key, ki));
}

/// Registering two different versions of one key, one after the other,
/// keeps both: afterwards the key holds a slot for each.
pub proof fn lemma_register_distinct_versions(
    v0: Seq<KeyEntry>,
    v1: Seq<KeyEntry>,
    v2: Seq<KeyEntry>,
    scope: Seq<char>,
    key: Seq<char>,
    a: Version,
    eager_a: bool,
    factory_a: u64,
    ra: RegisterOutcome,
    b: Version,
    eager_b: bool,
    factory_b: u64,
    rb: RegisterOutcome,
)
    requires
        registry_wf(v0),
        registry_wf(v1),
        register_post(v0, v1, scope, key, a, eager_a, factory_a, ra),
        register_post(v1, v2, scope, key, b, eager_b, factory_b, rb),
    ensures
        exists|ki: int| #[trigger]
            has_key(v2, scope, key, ki) && has_version(v2[ki], a) && has_version(v2[ki], b),
{
    let ki: int = if exists|k: int| has_key(v0, scope, key, k) {
        choose|k: int| has_key(v0, scope, key, k)
    } else {
        v0.len() as int
    };
    assert(has_key(v1, scope, key, ki));
    if exists|k: int| has_key(v0, scope, key, k) {
        if !has_version(v0[ki], a) {
            let last = v0[ki].versions@.len() as int;
            assert(v1[ki].versions@[last] == a);
        }
    } else {
        assert(v1[ki].versions@[0] == a);
    }
    assert(has_version(v1[ki], a));
    let i = choose|i: int| 0 <= i < v1[ki].versions@.len() && same_version(#[trigger] v1[ki].versions@[i], a);
    let k1 = choose|k: int| has_key(v1, scope, key, k);
    lemma_key_unique(v1, scope, key, ki, k1);
    assert(has_key(v2, scope, key, ki));
    if !has_version(v1[ki], b) {
        let last = v1[ki].versions@.len() as int;
        assert(v2[ki].versions@[last] == b);
        assert(v2[ki].versions@[i] == v1[ki].versions@[i]);
    }
    assert(has_version(v2[ki], a));
}

/// Once singleton requests for a key have settled on a ready slot, a
/// singleton request for that key returns that slot and changes nothing:
/// no second version of the key is loaded.
pub proof fn lemma_singleton_reuse(
    v0: Seq<KeyEntry>,
    v1: Seq<KeyEntry>,
    scope: Seq<char>,
    key: Seq<char>,
    range: VersionRange,
    strict: bool,
    fallback: Fallback,
    r: GetAction,
    ki: int,
    s: usize,
)
    requires
        registry_wf(v0),
        has_key(v0, scope, key, ki),
        singleton_ready(v0, ki, s),
        get_post(v0, v1, scope, key, range, strict, true, fallback, r),
    ensures
        r matches GetAction::Ready { key: k, slot, .. } && k == ki as usize && slot == s,
        same_registry(v0, v1),
{
    let k = choose|k: int| has_key(v0, scope, key, k);
    lemma_key_unique(v0, scope, key, ki, k);
    let n = choose|n: Negotiation|
        #![trigger negotiation_correct(range, strict, true, v0[ki].versions@, v0[ki].singleton, n)]
        negotiation_correct(range, strict, true, v0[ki].versions@, v0[ki].singleton, n)
            && get_step(v0, v1, ki, n, true, fallback, r);
    assert(n->index == s);
    assert(same_registry(v0, v1));
}

/// A settled, ready singleton stays so through any registration.
pub proof fn lemma_singleton_kept_by_register(
    v0: Seq<KeyEntry>,
    v1: Seq<KeyEntry>,
    scope: Seq<char>,
    key: Seq<char>,
    version: Version,
    eager: bool,
    factory: u64,
    r: RegisterOutcome,
    ki: int,
    s: usize,
)
    requires
        registry_wf(v0),
        singleton_ready(v0, ki, s),
        register_post(v0, v1, scope, key, version, eager, factory, r),
    ensures
        singleton_ready(v1, ki, s),
        v1[ki].scope == v0[ki].scope && v1[ki].key == v0[ki].key,
{
    if !exists|k: int| has_key(v0, scope, key, k) {
        assert(v1[ki] == v1.subrange(0, v0.len() as int)[ki]);
    }
}

/// A settled, ready singleton stays so through any request, for its key or
/// another, singleton or not.
pub proof fn lemma_singleton_kept_by_get(
    v0: Seq<KeyEntry>,
    v1: Seq<KeyEntry>,
    scope: Seq<char>,
    key: Seq<char>,
    range: VersionRange,
    strict: bool,
    singleton: bool,
    fallback: Fallback,
    r: GetAction,
    ki: int,
    s: usize,
)
    requires
        registry_wf(v0),
        singleton_ready(v0, ki, s),
        get_post(v0, v1, scope, key, range, strict, singleton, fallback, r),
    ensures
        singleton_ready(v1, ki, s),
        v1[ki].scope == v0[ki].scope && v1[ki].key == v0[ki].key,
{
    if exists|k: int| has_key(v0, scope, key, k) {
        let k = choose|k: int| has_key(v0, scope, key, k);
        if k == ki && singleton {
            lemma_singleton_reuse(v0, v1, scope, key, range, strict, fallback, r, ki, s);
        }
    }
}

/// A settled, ready singleton stays so through any report of a load.
pub proof fn lemma_singleton_kept_by_finish(
    v0: Seq<KeyEntry>,
    v1: Seq<KeyEntry>,
    key: usize,
    slot: usize,
    loaded: bool,
    r: bool,
    ki: int,
    s: usize,
)
    requires
        registry_wf(v0),
        singleton_ready(v0, ki, s),
        finish_post(v0, v1, key, slot, loaded, r),
    ensures
        singleton_ready(v1, ki, s),
        v1[ki].scope == v0[ki].scope && v1[ki].key == v0[ki].key,
{
}

/// Concurrent requests coalesce: where a request starts the load of a
/// slot, any later request with the same arguments, made while the registry
/// still holds what that request left, waits for that same load and changes
/// nothing. Applied request after request, a single factory run serves them
/// all.
pub proof fn lemma_coalesced_load(
    v0: Seq<KeyEntry>,
    v1: Seq<KeyEntry>,
    w: Seq<KeyEntry>,
    w2: Seq<KeyEntry>,
    scope: Seq<char>,
    key: Seq<char>,
    range: VersionRange,
    strict: bool,
    singleton: bool,
    fallback: Fallback,
    r1: GetAction,
    r2: GetAction,
)
    requires
        registry_wf(v0),
        registry_wf(w),
        get_post(v0, v1, scope, key, range, strict, singleton, fallback, r1),
        r1 is Load,
        same_registry(v1, w),
        get_post(w, w2, scope, key, range, strict, singleton, fallback, r2),
    ensures
        r2 matches GetAction::Await { key: k, slot, .. } && k == r1->Load_key && slot
            == r1->Load_slot,
        same_registry(w, w2),
{
    assert(exists|k: int| has_key(v0, scope, key, k));
    let ki = choose|k: int| has_key(v0, scope, key, k);
    let n1 = choose|n: Negotiation|
        #![trigger negotiation_correct(range, strict, singleton, v0[ki].versions@, v0[ki].singleton, n)]
        negotiation_correct(range, strict, singleton, v0[ki].versions@, v0[ki].singleton, n)
            && get_step(v0, v1, ki, n, singleton, fallback, r1);
    assert(entry_with(v1[ki], w[ki], v1[ki].versions@, v1[ki].slots@, v1[ki].singleton));
    assert(has_key(w, scope, key, ki));
    let k1 = choose|k: int| has_key(w, scope, key, k);
    lemma_key_unique(w, scope, key, ki, k1);
    let n2 = choose|n: Negotiation|
        #![trigger negotiation_correct(range, strict, singleton, w[ki].versions@, w[ki].singleton, n)]
        negotiation_correct(range, strict, singleton, w[ki].versions@, w[ki].singleton, n)
            && get_step(w, w2, ki, n, singleton, fallback, r2);
    assert(entry_wf(v0[ki]));
    if !singleton {
        lemma_negotiation_unique(
            range,
            strict,
            singleton,
            v0[ki].versions@,
            v0[ki].singleton,
            n1,
            n2,
        );
    }
    assert(same_registry(w, w2));
}

} // verus!
