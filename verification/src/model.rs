//! The profile model: nodes, profiles, and the plain values that stand for
//! them in contracts.

use crate::scalar::{is_scalar_text, Scalar};
use vstd::prelude::*;

verus! {

/// What a node holds, as mathematics sees it.
pub struct NodeView {
    pub id: Seq<char>,
    pub rational: bool,
    pub content: Seq<char>,
    pub stability: Seq<char>,
    pub links: Seq<Seq<char>>,
}

/// What a profile holds, as mathematics sees it.
pub struct ProfileView {
    pub nodes: Seq<NodeView>,
    pub energy_state: Seq<char>,
    pub version: u32,
}

impl NodeView {
    /// The stability is a numeral.
    pub open spec fn well_formed(self) -> bool {
        is_scalar_text(self.stability)
    }
}

impl ProfileView {
    /// The energy state and every node's stability are numerals.
    pub open spec fn well_formed(self) -> bool {
        &&& is_scalar_text(self.energy_state)
        &&& forall|i: int| 0 <= i < self.nodes.len() ==> (#[trigger] self.nodes[i]).well_formed()
    }

    /// The identifiers of the nodes, in the nodes' order.
    pub open spec fn id_seq(self) -> Seq<Seq<char>> {
        Seq::new(self.nodes.len(), |i: int| self.nodes[i].id)
    }

    /// The identifiers that occur among the nodes, each counted once.
    pub open spec fn ids(self) -> Set<Seq<char>> {
        self.id_seq().to_set()
    }
}

/// The strings of `v`, as plain values.
pub open spec fn texts_of(v: Seq<String>) -> Seq<Seq<char>> {
    Seq::new(v.len(), |i: int| v[i]@)
}

/// The nodes of `v`, as plain values.
pub open spec fn nodes_of(v: Seq<OntoNode>) -> Seq<NodeView> {
    Seq::new(v.len(), |i: int| v[i]@)
}

/// A single identified unit of content within a profile.
///
/// Nothing is asked of the fields: an identifier may occur on several nodes
/// of a profile, and a link may name a node that is not there.
#[derive(Debug)]
pub struct OntoNode {
    pub id: String,
    pub rational: bool,
    pub content: String,
    pub stability: Scalar,
    pub links: Vec<String>,
}

/// A versioned snapshot of a collection of nodes, with the energy of the
/// whole.
#[derive(Debug)]
pub struct OntoProfile {
    pub nodes: Vec<OntoNode>,
    pub energy_state: Scalar,
    pub version: u32,
}

impl View for OntoNode {
    type V = NodeView;

    open spec fn view(&self) -> NodeView {
        NodeView {
            id: self.id@,
            rational: self.rational,
            content: self.content@,
            stability: self.stability@,
            links: texts_of(self.links@),
        }
    }
}

impl View for OntoProfile {
    type V = ProfileView;

    open spec fn view(&self) -> ProfileView {
        ProfileView {
            nodes: nodes_of(self.nodes@),
            energy_state: self.energy_state@,
            version: self.version,
        }
    }
}

/// A copy of the strings that shares nothing with them.
fn copy_texts(texts: &Vec<String>) -> (copy: Vec<String>)
    ensures
        texts_of(copy@) == texts_of(texts@),
{
    let mut copy: Vec<String> = Vec::new();
    let mut i: usize = 0;
    while i < texts.len()
        invariant
            i <= texts.len(),
            copy.len() == i,
            forall|j: int| 0 <= j < i ==> copy@[j]@ == texts@[j]@,
        decreases texts.len() - i,
    {
        copy.push(texts[i].clone());
        i += 1;
    }
    assert(texts_of(copy@) =~= texts_of(texts@));
    copy
}

/// A copy of the nodes that shares nothing with them.
fn copy_nodes(nodes: &Vec<OntoNode>) -> (copy: Vec<OntoNode>)
    ensures
        nodes_of(copy@) == nodes_of(nodes@),
{
    let mut copy: Vec<OntoNode> = Vec::new();
    let mut i: usize = 0;
    while i < nodes.len()
        invariant
            i <= nodes.len(),
            copy.len() == i,
            forall|j: int| 0 <= j < i ==> copy@[j]@ == nodes@[j]@,
        decreases nodes.len() - i,
    {
        copy.push(nodes[i].clone());
        i += 1;
    }
    assert(nodes_of(copy@) =~= nodes_of(nodes@));
    copy
}

impl OntoNode {
    /// The node with the given fields. Every value is accepted.
    pub fn new(
        id: String,
        rational: bool,
        content: String,
        stability: Scalar,
        links: Vec<String>,
    ) -> (node: OntoNode)
        ensures
            node.id == id,
            node.rational == rational,
            node.content == content,
            node.stability == stability,
            node.links == links,
    {
        OntoNode { id, rational, content, stability, links }
    }
}

impl Clone for OntoNode {
    /// An independent copy: it holds what the node holds and shares nothing
    /// with it.
    fn clone(&self) -> (copy: Self)
        ensures
            copy@ == self@,
    {
        OntoNode {
            id: self.id.clone(),
            rational: self.rational,
            content: self.content.clone(),
            stability: self.stability.clone(),
            links: copy_texts(&self.links),
        }
    }
}

impl OntoProfile {
    /// The profile with the given fields. Every value is accepted.
    pub fn new(nodes: Vec<OntoNode>, energy_state: Scalar, version: u32) -> (profile: OntoProfile)
        ensures
            profile.nodes == nodes,
            profile.energy_state == energy_state,
            profile.version == version,
    {
        OntoProfile { nodes, energy_state, version }
    }
}

/// The fields of a profile that are to be replaced. A field that is `None`
/// stays as it is.
#[derive(Debug)]
pub struct ProfileOverrides {
    pub nodes: Option<Vec<OntoNode>>,
    pub energy_state: Option<Scalar>,
    pub version: Option<u32>,
}

impl ProfileOverrides {
    /// Nothing is to be replaced.
    pub fn none() -> (overrides: ProfileOverrides)
        ensures
            overrides.nodes is None,
            overrides.energy_state is None,
            overrides.version is None,
    {
        ProfileOverrides { nodes: None, energy_state: None, version: None }
    }
}

impl Default for ProfileOverrides {
    /// Nothing is to be replaced.
    fn default() -> (overrides: ProfileOverrides)
        ensures
            overrides.nodes is None,
            overrides.energy_state is None,
            overrides.version is None,
    {
        ProfileOverrides::none()
    }
}

impl OntoProfile {
    /// A new profile that holds what this one holds, but for the fields that
    /// `overrides` names, which it takes from there. This profile is not
    /// changed, and the new one shares nothing with it.
    pub fn with_overrides(&self, overrides: ProfileOverrides) -> (profile: OntoProfile)
        ensures
            profile@.nodes == match overrides.nodes {
                Some(nodes) => nodes_of(nodes@),
                None => self@.nodes,
            },
            profile@.energy_state == match overrides.energy_state {
                Some(energy_state) => energy_state@,
                None => self@.energy_state,
            },
            profile@.version == match overrides.version {
                Some(version) => version,
                None => self@.version,
            },
    {
        let nodes = match overrides.nodes {
            Some(nodes) => nodes,
            None => copy_nodes(&self.nodes),
        };
        let energy_state = match overrides.energy_state {
            Some(energy_state) => energy_state,
            None => self.energy_state.clone(),
        };
        let version = match overrides.version {
            Some(version) => version,
            None => self.version,
        };
        OntoProfile { nodes, energy_state, version }
    }
}

impl Clone for OntoProfile {
    /// An independent deep copy: it holds what the profile holds, node for
    /// node, and shares nothing with it.
    fn clone(&self) -> (copy: Self)
        ensures
            copy@ == self@,
    {
        OntoProfile {
            nodes: copy_nodes(&self.nodes),
            energy_state: self.energy_state.clone(),
            version: self.version,
        }
    }
}

} // verus!
