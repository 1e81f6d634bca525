use crate::classify::{ConsumeSharedDependency, ProvideSharedDependency};
use vstd::prelude::*;

verus! {

/// The identity of a dependency node in the module graph.
#[derive(PartialEq, Eq, Structural, Clone, Copy, Debug, Hash)]
pub struct DependencyId(pub u32);

/// Hands out dependency ids, each one greater than the last.
pub struct DependencyIds {
    pub next: u32,
}

impl DependencyIds {
    pub fn new() -> (r: DependencyIds)
        ensures
            r.next == 0,
    {
        DependencyIds { next: 0 }
    }

    /// A fresh id, never handed out before by this allocator.
    pub fn fresh(&mut self) -> (r: DependencyId)
        requires
            old(self).next < u32::MAX,
        ensures
            r == DependencyId(old(self).next),
            final(self).next == old(self).next + 1,
    {
        let id = DependencyId(self.next);
        self.next = self.next + 1;
        id
    }
}

/// What kind of dependency a node is.
#[derive(PartialEq, Eq, Structural, Clone, Copy, Debug)]
pub enum DependencyType {
    /// From a provide-shared module to the module it provides.
    ProvideModuleForShared,
    /// This module provides a share key in a scope.
    ProvideSharedModule,
    /// This import resolves through the sharing scope.
    ConsumeSharedModule,
    /// An ordinary import.
    EsmImport,
}

#[derive(PartialEq, Eq, Structural, Clone, Copy, Debug)]
pub enum DependencyCategory {
    Esm,
}

/// Whether a change to a dependency can affect the module that references it.
#[derive(PartialEq, Eq, Structural, Clone, Copy, Debug)]
pub enum AffectType {
    True,
    False,
    Transitive,
}

/// The dependency from a provide-shared module to the module it provides.
pub struct ProvideForSharedDependency {
    id: DependencyId,
    request: String,
}

impl ProvideForSharedDependency {
    pub closed spec fn spec_id(&self) -> DependencyId {
        self.id
    }

    pub closed spec fn spec_request(&self) -> Seq<char> {
        self.request@
    }

    pub fn new(id: DependencyId, request: String) -> (r: ProvideForSharedDependency)
        ensures
            r.spec_id() == id,
            r.spec_request() == request@,
    {
        ProvideForSharedDependency { id, request }
    }

    pub fn id(&self) -> (r: DependencyId)
        ensures
            r == self.spec_id(),
    {
        self.id
    }

    pub fn dependency_type(&self) -> (r: DependencyType)
        ensures
            r == DependencyType::ProvideModuleForShared,
    {
        DependencyType::ProvideModuleForShared
    }

    pub fn category(&self) -> (r: DependencyCategory)
        ensures
            r == DependencyCategory::Esm,
    {
        DependencyCategory::Esm
    }

    pub fn could_affect_referencing_module(&self) -> (r: AffectType)
        ensures
            r == AffectType::True,
    {
        AffectType::True
    }

    pub fn request(&self) -> (r: &str)
        ensures
            r@ == self.spec_request(),
    {
        self.request.as_str()
    }
}

/// Every kind of dependency node that sharing adds to the module graph,
/// beside ordinary imports.
pub enum DependencyNode {
    ProvideForShared(ProvideForSharedDependency),
    ProvideShared { id: DependencyId, provide: ProvideSharedDependency },
    ConsumeShared { id: DependencyId, consume: ConsumeSharedDependency },
    Import { id: DependencyId, request: String },
}

pub open spec fn node_id(n: DependencyNode) -> DependencyId {
    match n {
        DependencyNode::ProvideForShared(d) => d.spec_id(),
        DependencyNode::ProvideShared { id, .. } => id,
        DependencyNode::ConsumeShared { id, .. } => id,
        DependencyNode::Import { id, .. } => id,
    }
}

pub open spec fn node_request(n: DependencyNode) -> Seq<char> {
    match n {
        DependencyNode::ProvideForShared(d) => d.spec_request(),
        DependencyNode::ProvideShared { provide, .. } => provide.provided_request@,
        DependencyNode::ConsumeShared { consume, .. } => consume.request@,
        DependencyNode::Import { request, .. } => request@,
    }
}

pub open spec fn node_type(n: DependencyNode) -> DependencyType {
    match n {
        DependencyNode::ProvideForShared(_) => DependencyType::ProvideModuleForShared,
        DependencyNode::ProvideShared { .. } => DependencyType::ProvideSharedModule,
        DependencyNode::ConsumeShared { .. } => DependencyType::ConsumeSharedModule,
        DependencyNode::Import { .. } => DependencyType::EsmImport,
    }
}

impl DependencyNode {
    pub fn id(&self) -> (r: DependencyId)
        ensures
            r == node_id(*self),
    {
        match self {
            DependencyNode::ProvideForShared(d) => d.id(),
            DependencyNode::ProvideShared { id, .. } => *id,
            DependencyNode::ConsumeShared { id, .. } => *id,
            DependencyNode::Import { id, .. } => *id,
        }
    }

    pub fn dependency_type(&self) -> (r: DependencyType)
        ensures
            r == node_type(*self),
    {
        match self {
            DependencyNode::ProvideForShared(_) => DependencyType::ProvideModuleForShared,
            DependencyNode::ProvideShared { .. } => DependencyType::ProvideSharedModule,
            DependencyNode::ConsumeShared { .. } => DependencyType::ConsumeSharedModule,
            DependencyNode::Import { .. } => DependencyType::EsmImport,
        }
    }

    pub fn category(&self) -> (r: DependencyCategory)
        ensures
            r == DependencyCategory::Esm,
    {
        DependencyCategory::Esm
    }

    /// Every node kind here can affect the module that references it.
    pub fn could_affect_referencing_module(&self) -> (r: AffectType)
        ensures
            r == AffectType::True,
    {
        AffectType::True
    }

    pub fn request(&self) -> (r: &str)
        ensures
            r@ == node_request(*self),
    {
        match self {
            DependencyNode::ProvideForShared(d) => d.request(),
            DependencyNode::ProvideShared { provide, .. } => provide.provided_request.as_str(),
            DependencyNode::ConsumeShared { consume, .. } => consume.request.as_str(),
            DependencyNode::Import { request, .. } => request.as_str(),
        }
    }
}

} // verus!
