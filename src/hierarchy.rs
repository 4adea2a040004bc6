//! The design tree. A HIERARCHY section is a sequence of records ended by
//! the end-of-hierarchy tag. A scope record is its tag and a name, followed
//! by the records inside it and an end-of-scope tag; a declaration record is
//! its tag, a name and a type reference. Nodes live in an arena, node 0
//! being the unnamed root, and are linked by indices.
use vstd::prelude::*;
use crate::error::FormatError;
use crate::kind::{GHWHierarchyKind, hier_kind_of, is_leaf_kind, is_scope_kind};
use crate::reader::{ByteReader, varint_at};
use crate::types::{TypeTable, append_ids, is_scalar_desc, read_name, read_type_ref};

verus! {

/// One entry of the design tree, stored in an arena and linked by indices.
/// A leaf declaration owns `slot_count` signal slots from `first_slot` on.
pub struct HierNode {
    pub kind: GHWHierarchyKind,
    pub name: usize,
    pub parent: Option<usize>,
    pub brother: Option<usize>,
    pub first_child: Option<usize>,
    pub type_id: usize,
    pub first_slot: usize,
    pub slot_count: usize,
}

/// The decoded design: node 0 is the root, and `slot_types` gives the
/// scalar type of each signal slot.
pub struct Design {
    pub nodes: Vec<HierNode>,
    pub slot_types: Vec<usize>,
}

/// The two nodes agree on everything but their sibling and child links.
pub open spec fn same_but_links(a: HierNode, b: HierNode) -> bool {
    &&& a.kind == b.kind
    &&& a.name == b.name
    &&& a.parent == b.parent
    &&& a.type_id == b.type_id
    &&& a.first_slot == b.first_slot
    &&& a.slot_count == b.slot_count
}

/// Node `i` comes after its parent, which is a scope.
pub open spec fn parent_ok(nodes: Seq<HierNode>, i: int) -> bool {
    nodes[i].parent is Some && nodes[i].parent->Some_0 < i && is_scope_kind(
        nodes[nodes[i].parent->Some_0 as int].kind,
    )
}

/// The first child of node `i` is its child of least index, if it has one.
pub open spec fn first_child_ok(nodes: Seq<HierNode>, i: int) -> bool {
    match nodes[i].first_child {
        Some(c) => i < c < nodes.len() && nodes[c as int].parent == Some(i as usize) && forall|j: int|
            0 <= j < c ==> (#[trigger] nodes[j].parent) != Some(i as usize),
        None => forall|j: int| 0 <= j < nodes.len() ==> (#[trigger] nodes[j].parent) != Some(i as usize),
    }
}

/// The brother of node `i` is the next node with the same parent, if any.
pub open spec fn brother_ok(nodes: Seq<HierNode>, i: int) -> bool {
    match nodes[i].brother {
        Some(b) => i < b < nodes.len() && nodes[b as int].parent == nodes[i].parent && forall|j: int|
            i < j < b ==> (#[trigger] nodes[j].parent) != nodes[i].parent,
        None => forall|j: int| i < j < nodes.len() ==> (#[trigger] nodes[j].parent) != nodes[i].parent,
    }
}

/// Parent, first-child and brother links form a tree rooted at node 0, in
/// which each node comes after its parent, a scope's first child is its
/// child of least index, and a node's brother is the next child of the same
/// parent.
#[verifier::opaque]
pub open spec fn links_ok(nodes: Seq<HierNode>) -> bool {
    &&& nodes.len() >= 1
    &&& nodes[0].parent is None
    &&& nodes[0].kind == GHWHierarchyKind::Design
    &&& forall|i: int| 0 < i < nodes.len() ==> #[trigger] parent_ok(nodes, i)
    &&& forall|i: int| 0 <= i < nodes.len() ==> #[trigger] first_child_ok(nodes, i)
    &&& forall|i: int| 0 <= i < nodes.len() ==> #[trigger] brother_ok(nodes, i)
}

/// The number of slots that the first `m` nodes own together.
pub open spec fn slot_total(nodes: Seq<HierNode>, m: int) -> int
    decreases m,
{
    if m <= 0 { 0 } else { slot_total(nodes, m - 1) + nodes[m - 1].slot_count }
}

impl Design {
    /// Each leaf's slots follow those of the nodes before it, hold the scalar
    /// types its type flattens to, and all slots together are `slot_types`;
    /// names are string indices below `nstr`.
    #[verifier::opaque]
    pub open spec fn slots_ok(&self, types: &TypeTable, nstr: int) -> bool {
        let nodes = self.nodes@;
        &&& self.slot_types@.len() == slot_total(nodes, nodes.len() as int)
        &&& forall|i: int|
            0 <= i < nodes.len() ==> {
                &&& (#[trigger] nodes[i]).first_slot == slot_total(nodes, i)
                &&& nodes[i].name < nstr
                &&& !is_leaf_kind(nodes[i].kind) ==> nodes[i].slot_count == 0
                &&& is_leaf_kind(nodes[i].kind) ==> nodes[i].type_id < types.entries@.len()
                    && types.scalars_of(nodes[i].type_id as int) == Some(
                    self.slot_types@.subrange(
                        nodes[i].first_slot as int,
                        nodes[i].first_slot + nodes[i].slot_count,
                    ),
                )
            }
    }

    /// Every slot holds a scalar type of the table.
    pub open spec fn slot_types_ok(&self, types: &TypeTable) -> bool {
        forall|k: int|
            0 <= k < self.slot_types@.len() ==> (#[trigger] self.slot_types@[k]) < types.entries@.len()
                && is_scalar_desc(types.entries@[self.slot_types@[k] as int].desc)
    }

    /// Every node below the root is a scope or a declaration, never a
    /// second design node nor an end tag.
    pub open spec fn kinds_ok(&self) -> bool {
        forall|i: int|
            0 < i < self.nodes@.len() ==> (is_scope_kind((#[trigger] self.nodes@[i]).kind)
                || is_leaf_kind(self.nodes@[i].kind)) && self.nodes@[i].kind != GHWHierarchyKind::Design
    }

    pub open spec fn wf(&self, types: &TypeTable, nstr: int) -> bool {
        links_ok(self.nodes@) && self.slots_ok(types, nstr) && self.slot_types_ok(types) && self.kinds_ok()
    }
}

impl Design {
    /// Appends a node of `kind` under scope `p`, after `last`, its last
    /// child so far. A leaf gets the slots that its type flattens to.
    #[verifier::rlimit(50)]
    fn add_child(
        &mut self,
        types: &TypeTable,
        nstr: usize,
        p: usize,
        last: Option<usize>,
        kind: GHWHierarchyKind,
        name: usize,
        type_id: usize,
    ) -> (r: usize)
        requires
            old(self).wf(types, nstr as int),
            types.wf(nstr as int),
            old(self).nodes@.len() < usize::MAX,
            p < old(self).nodes@.len(),
            is_scope_kind(old(self).nodes@[p as int].kind),
            name < nstr,
            kind != GHWHierarchyKind::Design,
            is_scope_kind(kind) || is_leaf_kind(kind),
            match last {
                None => old(self).nodes@[p as int].first_child is None,
                Some(l) => p < l < old(self).nodes@.len() && old(self).nodes@[l as int].parent == Some(p)
                    && old(self).nodes@[l as int].brother is None,
            },
            is_leaf_kind(kind) ==> type_id < types.entries@.len() && types.scalars_of(type_id as int) is Some,
        ensures
            final(self).wf(types, nstr as int),
            final(self).slot_types@.len() >= old(self).slot_types@.len(),
            r == old(self).nodes@.len(),
            final(self).nodes@.len() == r + 1,
            final(self).nodes@[r as int].parent == Some(p),
            final(self).nodes@[r as int].kind == kind,
            final(self).nodes@[r as int].name == name,
            final(self).nodes@[r as int].type_id == type_id,
            final(self).nodes@[r as int].brother is None,
            final(self).nodes@[r as int].first_child is None,
            forall|i: int|
                0 <= i < r ==> same_but_links(#[trigger] final(self).nodes@[i], old(self).nodes@[i])
                    && (final(self).nodes@[i].first_child == old(self).nodes@[i].first_child || i == p)
                    && (final(self).nodes@[i].brother == old(self).nodes@[i].brother || last == Some(i as usize)),
    {
        let ghost old_nodes = self.nodes@;
        let ghost old_slots = self.slot_types@;
        let m = self.nodes.len();
        let first_slot = self.slot_types.len();
        let mut slot_count: usize = 0;
        if kind.is_leaf() {
            match &types.entries[type_id].scalars {
                Some(v) => {
                    proof {
                        assert(types.entry_ok(type_id as int, nstr as int));
                        assert(types.scalars_of(type_id as int) == Some(v@));
                    }
                    slot_count = v.len();
                    append_ids(&mut self.slot_types, v);
                    proof {
                        assert(self.slot_types@.subrange(first_slot as int, first_slot + slot_count) =~= v@);
                        assert forall|k: int| 0 <= k < self.slot_types@.len() implies (
                        #[trigger] self.slot_types@[k]) < types.entries@.len() && is_scalar_desc(
                            types.entries@[self.slot_types@[k] as int].desc,
                        ) by {
                            if k >= old_slots.len() {
                                assert(self.slot_types@[k] == v@[k - old_slots.len()]);
                            } else {
                                assert(self.slot_types@[k] == old_slots[k]);
                            }
                        }
                    }
                },
                None => {},
            }
        }
        assert(self.slot_types@.subrange(0, old_slots.len() as int) =~= old_slots);
        let node = HierNode {
            kind,
            name,
            parent: Some(p),
            brother: None,
            first_child: None,
            type_id,
            first_slot,
            slot_count,
        };
        self.nodes.push(node);
        match last {
            None => {
                self.nodes[p].first_child = Some(m);
            },
            Some(l) => {
                self.nodes[l].brother = Some(m);
            },
        }
        proof {
            let nodes = self.nodes@;
            assert(nodes[m as int] == node);
            assert forall|i: int| 0 <= i < m implies same_but_links(#[trigger] nodes[i], old_nodes[i]) by {}
            assert forall|i: int| 0 <= i < m && i != p implies (#[trigger] nodes[i]).first_child == old_nodes[i].first_child by {}
            assert forall|i: int| 0 <= i < m && last != Some(i as usize) implies (#[trigger] nodes[i]).brother == old_nodes[i].brother by {}
            lemma_links_after_add(old_nodes, nodes, p, last);
            assert forall|i: int| 0 < i < nodes.len() implies (is_scope_kind((#[trigger] nodes[i]).kind)
                || is_leaf_kind(nodes[i].kind)) && nodes[i].kind != GHWHierarchyKind::Design by {
                if i < m {
                    assert(same_but_links(nodes[i], old_nodes[i]));
                }
            }
            lemma_slots_after_add(old(self), self, types, nstr as int);
        }
        m
    }
}

/// Appending node `m` under `p`, after `last`, and linking it keeps the
/// tree links consistent.
proof fn lemma_links_after_add(
    old_nodes: Seq<HierNode>,
    nodes: Seq<HierNode>,
    p: usize,
    last: Option<usize>,
)
    requires
        links_ok(old_nodes),
        old_nodes.len() < usize::MAX,
        nodes.len() == old_nodes.len() + 1,
        p < old_nodes.len(),
        is_scope_kind(old_nodes[p as int].kind),
        nodes[old_nodes.len() as int].parent == Some(p),
        nodes[old_nodes.len() as int].brother is None,
        nodes[old_nodes.len() as int].first_child is None,
        forall|i: int| 0 <= i < old_nodes.len() ==> same_but_links(#[trigger] nodes[i], old_nodes[i]),
        forall|i: int| 0 <= i < old_nodes.len() && i != p ==> (#[trigger] nodes[i]).first_child == old_nodes[i].first_child,
        forall|i: int| 0 <= i < old_nodes.len() && last != Some(i as usize) ==> (#[trigger] nodes[i]).brother == old_nodes[i].brother,
        match last {
            None => old_nodes[p as int].first_child is None && nodes[p as int].first_child == Some(old_nodes.len() as usize),
            Some(l) => p < l < old_nodes.len() && old_nodes[l as int].parent == Some(p)
                && old_nodes[l as int].brother is None && nodes[l as int].brother == Some(old_nodes.len() as usize)
                && nodes[p as int].first_child == old_nodes[p as int].first_child,
        },
    ensures
        links_ok(nodes),
{
    reveal(links_ok);
    let m = old_nodes.len() as int;
    assert forall|i: int| 0 < i < nodes.len() implies #[trigger] parent_ok(nodes, i) by {
        if i < m {
            assert(parent_ok(old_nodes, i));
            assert(same_but_links(nodes[i], old_nodes[i]));
            assert(same_but_links(nodes[old_nodes[i].parent->Some_0 as int], old_nodes[old_nodes[i].parent->Some_0 as int]));
        } else {
            assert(same_but_links(nodes[p as int], old_nodes[p as int]));
        }
    }
    assert(same_but_links(nodes[0], old_nodes[0]));
    lemma_first_child_after_add(old_nodes, nodes, p, last);
    lemma_brother_after_add(old_nodes, nodes, p, last);
}

proof fn lemma_first_child_after_add(
    old_nodes: Seq<HierNode>,
    nodes: Seq<HierNode>,
    p: usize,
    last: Option<usize>,
)
    requires
        links_ok(old_nodes),
        old_nodes.len() < usize::MAX,
        nodes.len() == old_nodes.len() + 1,
        p < old_nodes.len(),
        nodes[old_nodes.len() as int].parent == Some(p),
        nodes[old_nodes.len() as int].brother is None,
        nodes[old_nodes.len() as int].first_child is None,
        forall|i: int| 0 <= i < old_nodes.len() ==> same_but_links(#[trigger] nodes[i], old_nodes[i]),
        forall|i: int| 0 <= i < old_nodes.len() && i != p ==> (#[trigger] nodes[i]).first_child == old_nodes[i].first_child,
        forall|i: int| 0 <= i < old_nodes.len() && last != Some(i as usize) ==> (#[trigger] nodes[i]).brother == old_nodes[i].brother,
        match last {
            None => old_nodes[p as int].first_child is None && nodes[p as int].first_child == Some(old_nodes.len() as usize),
            Some(l) => p < l < old_nodes.len() && old_nodes[l as int].parent == Some(p)
                && old_nodes[l as int].brother is None && nodes[l as int].brother == Some(old_nodes.len() as usize)
                && nodes[p as int].first_child == old_nodes[p as int].first_child,
        },
    ensures
        forall|i: int| 0 <= i < nodes.len() ==> #[trigger] first_child_ok(nodes, i),
{
    reveal(links_ok);
    let m = old_nodes.len() as int;
    assert forall|i: int| 0 <= i < nodes.len() implies #[trigger] first_child_ok(nodes, i) by {
        if i < m {
            assert(first_child_ok(old_nodes, i));
            let o = old_nodes[i];
            if i != p || last is Some {
                assert(nodes[i].first_child == o.first_child);
                match o.first_child {
                    Some(c) => {
                        assert(same_but_links(nodes[c as int], old_nodes[c as int]));
                        assert forall|j: int| 0 <= j < c implies (#[trigger] nodes[j].parent) != Some(i as usize) by {
                            assert(same_but_links(nodes[j], old_nodes[j]));
                        }
                    },
                    None => {
                        if i == p {
                            let l = last->Some_0;
                            assert(old_nodes[l as int].parent == Some(i as usize));
                        }
                        assert forall|j: int| 0 <= j < nodes.len() implies (#[trigger] nodes[j].parent) != Some(i as usize) by {
                            if j < m {
                                assert(same_but_links(nodes[j], old_nodes[j]));
                            }
                        }
                    },
                }
            } else {
                assert forall|j: int| 0 <= j < m implies (#[trigger] nodes[j].parent) != Some(i as usize) by {
                    assert(same_but_links(nodes[j], old_nodes[j]));
                }
            }
        } else {
            assert forall|j: int| 0 <= j < nodes.len() implies (#[trigger] nodes[j].parent) != Some(i as usize) by {
                if j < m {
                    assert(same_but_links(nodes[j], old_nodes[j]));
                    if j > 0 {
                        assert(parent_ok(old_nodes, j));
                    }
                }
            }
        }
    }
}

proof fn lemma_brother_after_add(
    old_nodes: Seq<HierNode>,
    nodes: Seq<HierNode>,
    p: usize,
    last: Option<usize>,
)
    requires
        links_ok(old_nodes),
        old_nodes.len() < usize::MAX,
        nodes.len() == old_nodes.len() + 1,
        p < old_nodes.len(),
        nodes[old_nodes.len() as int].parent == Some(p),
        nodes[old_nodes.len() as int].brother is None,
        nodes[old_nodes.len() as int].first_child is None,
        forall|i: int| 0 <= i < old_nodes.len() ==> same_but_links(#[trigger] nodes[i], old_nodes[i]),
        forall|i: int| 0 <= i < old_nodes.len() && i != p ==> (#[trigger] nodes[i]).first_child == old_nodes[i].first_child,
        forall|i: int| 0 <= i < old_nodes.len() && last != Some(i as usize) ==> (#[trigger] nodes[i]).brother == old_nodes[i].brother,
        match last {
            None => old_nodes[p as int].first_child is None && nodes[p as int].first_child == Some(old_nodes.len() as usize),
            Some(l) => p < l < old_nodes.len() && old_nodes[l as int].parent == Some(p)
                && old_nodes[l as int].brother is None && nodes[l as int].brother == Some(old_nodes.len() as usize)
                && nodes[p as int].first_child == old_nodes[p as int].first_child,
        },
    ensures
        forall|i: int| 0 <= i < nodes.len() ==> #[trigger] brother_ok(nodes, i),
{
    reveal(links_ok);
    let m = old_nodes.len() as int;
    assert forall|i: int| 0 <= i < nodes.len() implies #[trigger] brother_ok(nodes, i) by {
        if i < m {
            assert(brother_ok(old_nodes, i));
            assert(same_but_links(nodes[i], old_nodes[i]));
            if last == Some(i as usize) {
                assert forall|j: int| i < j < m implies (#[trigger] nodes[j].parent) != nodes[i].parent by {
                    assert(same_but_links(nodes[j], old_nodes[j]));
                }
            } else {
                assert(nodes[i].brother == old_nodes[i].brother);
                match old_nodes[i].brother {
                    Some(b) => {
                        assert(same_but_links(nodes[b as int], old_nodes[b as int]));
                        assert forall|j: int| i < j < b implies (#[trigger] nodes[j].parent) != nodes[i].parent by {
                            assert(same_but_links(nodes[j], old_nodes[j]));
                        }
                    },
                    None => {
                        assert forall|j: int| i < j < nodes.len() implies (#[trigger] nodes[j].parent) != nodes[i].parent by {
                            if j < m {
                                assert(same_but_links(nodes[j], old_nodes[j]));
                            } else if old_nodes[i].parent == Some(p) {
                                match last {
                                    None => {
                                        assert(first_child_ok(old_nodes, p as int));
                                    },
                                    Some(l) => {
                                        if i < l {
                                            assert(old_nodes[l as int].parent == old_nodes[i].parent);
                                        } else {
                                            assert(brother_ok(old_nodes, l as int));
                                            assert(old_nodes[i].parent == old_nodes[l as int].parent);
                                        }
                                    },
                                }
                            }
                        }
                    },
                }
            }
        }
    }
}

/// Appending a node with its slots after the existing ones keeps the slot
/// accounting of a design whose other nodes kept their non-link fields.
proof fn lemma_slots_after_add(old_d: &Design, d: &Design, types: &TypeTable, nstr: int)
    requires
        old_d.slots_ok(types, nstr),
        d.nodes@.len() == old_d.nodes@.len() + 1,
        forall|i: int| 0 <= i < old_d.nodes@.len() ==> same_but_links(#[trigger] d.nodes@[i], old_d.nodes@[i]),
        d.slot_types@.subrange(0, old_d.slot_types@.len() as int) == old_d.slot_types@,
        ({
            let n = d.nodes@[old_d.nodes@.len() as int];
            &&& n.first_slot == old_d.slot_types@.len()
            &&& n.first_slot + n.slot_count == d.slot_types@.len()
            &&& n.name < nstr
            &&& !is_leaf_kind(n.kind) ==> n.slot_count == 0
            &&& is_leaf_kind(n.kind) ==> n.type_id < types.entries@.len() && types.scalars_of(n.type_id as int)
                == Some(d.slot_types@.subrange(n.first_slot as int, n.first_slot + n.slot_count))
        }),
        forall|k: int|
            0 <= k < d.slot_types@.len() ==> (#[trigger] d.slot_types@[k]) < types.entries@.len()
                && is_scalar_desc(types.entries@[d.slot_types@[k] as int].desc),
    ensures
        d.slots_ok(types, nstr),
{
    reveal(Design::slots_ok);
    let nodes = d.nodes@;
    let old_nodes = old_d.nodes@;
    let m = old_nodes.len() as int;
    lemma_slot_total_frame(nodes, old_nodes, m);
    assert forall|i: int| 0 <= i < nodes.len() implies {
        &&& (#[trigger] nodes[i]).first_slot == slot_total(nodes, i)
        &&& nodes[i].name < nstr
        &&& !is_leaf_kind(nodes[i].kind) ==> nodes[i].slot_count == 0
        &&& is_leaf_kind(nodes[i].kind) ==> nodes[i].type_id < types.entries@.len()
            && types.scalars_of(nodes[i].type_id as int) == Some(
            d.slot_types@.subrange(nodes[i].first_slot as int, nodes[i].first_slot + nodes[i].slot_count),
        )
    } by {
        if i < m {
            assert(same_but_links(nodes[i], old_nodes[i]));
            lemma_slot_total_frame(nodes, old_nodes, i);
            lemma_slot_total_frame(old_nodes, old_nodes, i + 1);
            lemma_slot_total_mono(old_nodes, i + 1, m);
            let lo = nodes[i].first_slot as int;
            let hi = lo + nodes[i].slot_count;
            assert(slot_total(old_nodes, i + 1) == slot_total(old_nodes, i) + old_nodes[i].slot_count);
            assert(hi <= old_d.slot_types@.len());
            assert(d.slot_types@.subrange(lo, hi) =~= old_d.slot_types@.subrange(lo, hi));
        }
    }
}

/// One hierarchy record as stored: its kind, name, type (0 for a scope)
/// and the node index of the scope it stands in.
pub type HierRecord = (GHWHierarchyKind, usize, usize, usize);

/// The records of a HIERARCHY section from `i` on, in file order, with the
/// position after the end-of-hierarchy tag. `open` holds the node indices
/// of the scopes open at `i`, the root first; `n` nodes exist before `i`.
pub open spec fn records_at(
    s: Seq<u8>,
    i: int,
    t: TypeTable,
    nstr: int,
    open: Seq<usize>,
    n: int,
) -> Result<(Seq<HierRecord>, int), FormatError>
    decreases s.len() - i,
{
    if i < 0 || i >= s.len() || open.len() == 0 {
        Err(FormatError::Truncated)
    } else {
        match hier_kind_of(s[i] as int) {
            None => Err(FormatError::MalformedHierarchy),
            Some(k) => if k == GHWHierarchyKind::EOH {
                if open.len() == 1 {
                    Ok((Seq::empty(), i + 1))
                } else {
                    Err(FormatError::MalformedHierarchy)
                }
            } else if k == GHWHierarchyKind::EndOfSection {
                if open.len() == 1 {
                    Err(FormatError::MalformedHierarchy)
                } else {
                    records_at(s, i + 1, t, nstr, open.drop_last(), n)
                }
            } else if k == GHWHierarchyKind::Design {
                Err(FormatError::MalformedHierarchy)
            } else {
                match varint_at(s, i + 1) {
                    Err(x) => Err(x),
                    Ok((nm, e)) => if nm >= nstr {
                        Err(FormatError::BadStringIndex)
                    } else if n < 0 || n >= usize::MAX {
                        Err(FormatError::Overflow)
                    } else if e <= i || e > s.len() {
                        Err(FormatError::Truncated)
                    } else if is_scope_kind(k) {
                        prepend(
                            seq![(k, nm as usize, 0usize, open.last())],
                            records_at(s, e, t, nstr, open.push(n as usize), n + 1),
                        )
                    } else {
                        match varint_at(s, e) {
                            Err(x) => Err(x),
                            Ok((tid, g)) => if tid >= t.entries@.len() {
                                Err(FormatError::ForwardTypeReference)
                            } else if t.scalars_of(tid as int) is None {
                                Err(FormatError::MalformedHierarchy)
                            } else if g <= i || g > s.len() {
                                Err(FormatError::Truncated)
                            } else {
                                prepend(
                                    seq![(k, nm as usize, tid as usize, open.last())],
                                    records_at(s, g, t, nstr, open, n + 1),
                                )
                            },
                        }
                    },
                }
            },
        }
    }
}

/// `a` put before the records of `r`, or the error of `r`.
pub open spec fn prepend(a: Seq<HierRecord>, r: Result<(Seq<HierRecord>, int), FormatError>) -> Result<
    (Seq<HierRecord>, int),
    FormatError,
> {
    match r {
        Ok((rs, f)) => Ok((a + rs, f)),
        Err(x) => Err(x),
    }
}

/// The records of nodes `a` to `b`: kind, name, type and parent.
pub open spec fn node_records(nodes: Seq<HierNode>, a: int, b: int) -> Seq<HierRecord> {
    Seq::new(
        (b - a) as nat,
        |k: int|
            (nodes[a + k].kind, nodes[a + k].name, nodes[a + k].type_id, nodes[a + k].parent->Some_0),
    )
}

proof fn lemma_prepend_prepend(a: Seq<HierRecord>, b: Seq<HierRecord>, r: Result<(Seq<HierRecord>, int), FormatError>)
    ensures
        prepend(a, prepend(b, r)) == prepend(a + b, r),
{
    match r {
        Ok((rs, f)) => {
            assert(a + (b + rs) =~= (a + b) + rs);
        },
        Err(_) => {},
    }
}

proof fn lemma_prepend_empty(r: Result<(Seq<HierRecord>, int), FormatError>)
    ensures
        prepend(Seq::empty(), r) == r,
{
    match r {
        Ok((rs, f)) => {
            assert(Seq::<HierRecord>::empty() + rs =~= rs);
        },
        Err(_) => {},
    }
}

impl Design {
    /// A design that holds only its unnamed root.
    pub fn new(types: &TypeTable, nstr: usize) -> (r: Design)
        requires
            nstr >= 1,
        ensures
            r.wf(types, nstr as int),
            r.nodes@.len() == 1,
            r.nodes@[0].kind == GHWHierarchyKind::Design,
            r.nodes@[0].name == 0,
            r.nodes@[0].first_child is None,
            r.slot_types@.len() == 0,
    {
        let root = HierNode {
            kind: GHWHierarchyKind::Design,
            name: 0,
            parent: None,
            brother: None,
            first_child: None,
            type_id: 0,
            first_slot: 0,
            slot_count: 0,
        };
        let mut nodes: Vec<HierNode> = Vec::new();
        nodes.push(root);
        let d = Design { nodes, slot_types: Vec::new() };
        assert(d.nodes@[0] == root);
        reveal(links_ok);
        reveal(Design::slots_ok);
        assert(first_child_ok(d.nodes@, 0));
        assert(brother_ok(d.nodes@, 0));
        assert(slot_total(d.nodes@, 0) == 0);
        assert(slot_total(d.nodes@, 1) == 0);
        d
    }

    /// Reads the records inside scope `p`, the last node so far, until the
    /// tag that closes it: end-of-hierarchy at the top level, end-of-scope
    /// below it. Scope records nest; leaf records take slots.
    fn decode_scope(
        &mut self,
        rd: &mut ByteReader,
        types: &TypeTable,
        nstr: usize,
        p: usize,
        top: bool,
        open: Ghost<Seq<usize>>,
    ) -> (r: Result<(), FormatError>)
        requires
            open@.len() >= 1,
            open@.last() == p,
            top <==> open@.len() == 1,
            old(rd).wf(),
            old(self).wf(types, nstr as int),
            types.wf(nstr as int),
            p + 1 == old(self).nodes@.len(),
            is_scope_kind(old(self).nodes@[p as int].kind),
            old(self).nodes@[p as int].first_child is None,
        ensures
            final(rd).wf(),
            final(rd).data == old(rd).data,
            final(rd).big_endian == old(rd).big_endian,
            final(rd).pos >= old(rd).pos,
            final(self).wf(types, nstr as int),
            final(self).nodes@.len() >= old(self).nodes@.len(),
            forall|i: int| 0 <= i < p ==> #[trigger] final(self).nodes@[i] == old(self).nodes@[i],
            same_but_links(final(self).nodes@[p as int], old(self).nodes@[p as int]),
            final(self).nodes@[p as int].brother == old(self).nodes@[p as int].brother,
            forall|j: int|
                old(self).nodes@.len() <= j < final(self).nodes@.len() ==> (
                    #[trigger] final(self).nodes@[j]).parent->Some_0 >= p,
            ({
                let r0 = records_at(old(rd).data@, old(rd).pos as int, *types, nstr as int, open@, old(self).nodes@.len() as int);
                let recs = node_records(final(self).nodes@, old(self).nodes@.len() as int, final(self).nodes@.len() as int);
                match r {
                    Ok(()) => if top {
                        r0 == Ok::<(Seq<HierRecord>, int), FormatError>((recs, final(rd).pos as int))
                    } else {
                        r0 == prepend(recs, records_at(old(rd).data@, final(rd).pos as int, *types, nstr as int, open@.drop_last(), final(self).nodes@.len() as int))
                    },
                    Err(x) => r0 == Err::<(Seq<HierRecord>, int), FormatError>(x),
                }
            }),
        decreases old(rd).data@.len() - old(rd).pos,
    {
        let ghost s = rd.data@;
        let ghost n0 = self.nodes@.len() as int;
        let ghost r0 = records_at(s, rd.pos as int, *types, nstr as int, open@, n0);
        proof {
            lemma_prepend_empty(r0);
            assert(node_records(self.nodes@, n0, n0) =~= Seq::<HierRecord>::empty());
        }
        let mut last: Option<usize> = None;
        loop
            invariant
                rd.wf(),
                rd.data == old(rd).data,
                rd.big_endian == old(rd).big_endian,
                rd.pos >= old(rd).pos,
                self.wf(types, nstr as int),
                types.wf(nstr as int),
                self.nodes@.len() >= old(self).nodes@.len(),
                p < self.nodes@.len(),
                p < old(self).nodes@.len(),
                is_scope_kind(self.nodes@[p as int].kind),
                forall|i: int| 0 <= i < p ==> #[trigger] self.nodes@[i] == old(self).nodes@[i],
                same_but_links(self.nodes@[p as int], old(self).nodes@[p as int]),
                self.nodes@[p as int].brother == old(self).nodes@[p as int].brother,
                forall|j: int|
                    old(self).nodes@.len() <= j < self.nodes@.len() ==> (#[trigger] self.nodes@[j]).parent->Some_0 >= p,
                match last {
                    None => self.nodes@[p as int].first_child is None,
                    Some(l) => p < l < self.nodes@.len() && self.nodes@[l as int].parent == Some(p)
                        && self.nodes@[l as int].brother is None,
                },
                s == rd.data@,
                n0 == old(self).nodes@.len(),
                r0 == records_at(s, old(rd).pos as int, *types, nstr as int, open@, n0),
                open@.len() >= 1,
                open@.last() == p,
                top <==> open@.len() == 1,
                r0 == prepend(
                    node_records(self.nodes@, n0, self.nodes@.len() as int),
                    records_at(s, rd.pos as int, *types, nstr as int, open@, self.nodes@.len() as int),
                ),
            decreases rd.data@.len() - rd.pos,
        {
            let ghost pos0 = rd.pos as int;
            let ghost len0 = self.nodes@.len() as int;
            let ghost recs0 = node_records(self.nodes@, n0, len0);
            let tag = match rd.read_u8() {
                Ok(b) => b,
                Err(x) => return Err(x),
            };
            let kind = match GHWHierarchyKind::from_i32(tag as i32) {
                Ok(k) => k,
                Err(x) => return Err(x),
            };
            match kind {
                GHWHierarchyKind::EOH => {
                    if top {
                        assert(recs0 + Seq::<HierRecord>::empty() =~= recs0);
                        return Ok(());
                    }
                    return Err(FormatError::MalformedHierarchy);
                },
                GHWHierarchyKind::EndOfSection => {
                    if top {
                        return Err(FormatError::MalformedHierarchy);
                    }
                    return Ok(());
                },
                GHWHierarchyKind::Design => {
                    return Err(FormatError::MalformedHierarchy);
                },
                _ => {},
            }
            let name = match read_name(rd, nstr) {
                Ok(v) => v,
                Err(x) => return Err(x),
            };
            if self.nodes.len() == usize::MAX {
                return Err(FormatError::Overflow);
            }
            let ghost before = self.nodes@;
            if kind.is_scope() {
                let ghost e = rd.pos as int;
                let m = self.add_child(types, nstr, p, last, kind, name, 0);
                let ghost mid = self.nodes@;
                assert forall|i: int| 0 <= i < p implies #[trigger] mid[i] == old(self).nodes@[i] by {
                    assert(same_but_links(mid[i], before[i]));
                }
                let ghost inner = open@.push(m);
                proof {
                    assert(inner.drop_last() =~= open@);
                    assert(records_at(s, pos0, *types, nstr as int, open@, len0) == prepend(
                        seq![(kind, name, 0usize, p)],
                        records_at(s, e, *types, nstr as int, inner, len0 + 1),
                    ));
                }
                match self.decode_scope(rd, types, nstr, m, false, Ghost(inner)) {
                    Ok(()) => {},
                    Err(x) => {
                        proof {
                            assert(records_at(s, pos0, *types, nstr as int, open@, len0) == Err::<(Seq<HierRecord>, int), FormatError>(x));
                            assert(node_records(self.nodes@, n0, self.nodes@.len() as int) == node_records(self.nodes@, n0, self.nodes@.len() as int));
                        }
                        return Err(x);
                    },
                }
                proof {
                    let fin = self.nodes@;
                    let l2 = fin.len() as int;
                    let rest = records_at(s, rd.pos as int, *types, nstr as int, open@, l2);
                    let inner_recs = node_records(fin, len0 + 1, l2);
                    assert(records_at(s, e, *types, nstr as int, inner, len0 + 1) == prepend(inner_recs, rest));
                    lemma_prepend_prepend(seq![(kind, name, 0usize, p)], inner_recs, rest);
                    lemma_prepend_prepend(recs0, seq![(kind, name, 0usize, p)] + inner_recs, rest);
                    assert(same_but_links(fin[len0], mid[len0]));
                    assert forall|i: int| n0 <= i < len0 implies #[trigger] fin[i] == mid[i] by {}
                    assert forall|i: int| n0 <= i < len0 implies same_but_links(#[trigger] mid[i], before[i]) by {}
                    assert(node_records(fin, n0, l2) =~= recs0 + (seq![(kind, name, 0usize, p)] + inner_recs));
                }
                assert forall|i: int| 0 <= i < p implies #[trigger] self.nodes@[i] == old(self).nodes@[i] by {
                    assert(self.nodes@[i] == mid[i]);
                }
                assert(self.nodes@[p as int] == mid[p as int]);
                assert(same_but_links(mid[p as int], before[p as int]));
                last = Some(m);
            } else {
                let type_id = match read_type_ref(rd, types.entries.len()) {
                    Ok(v) => v,
                    Err(x) => return Err(x),
                };
                match &types.entries[type_id].scalars {
                    Some(_) => {},
                    None => return Err(FormatError::MalformedHierarchy),
                }
                let m = self.add_child(types, nstr, p, last, kind, name, type_id);
                assert forall|i: int| 0 <= i < p implies #[trigger] self.nodes@[i] == old(self).nodes@[i] by {
                    assert(same_but_links(self.nodes@[i], before[i]));
                }
                proof {
                    let fin = self.nodes@;
                    let rest = records_at(s, rd.pos as int, *types, nstr as int, open@, len0 + 1);
                    assert(records_at(s, pos0, *types, nstr as int, open@, len0) == prepend(
                        seq![(kind, name, type_id, p)],
                        rest,
                    ));
                    lemma_prepend_prepend(recs0, seq![(kind, name, type_id, p)], rest);
                    assert forall|i: int| n0 <= i < len0 implies same_but_links(#[trigger] fin[i], before[i]) by {}
                    assert(node_records(fin, n0, len0 + 1) =~= recs0 + seq![(kind, name, type_id, p)]);
                }
                assert(same_but_links(self.nodes@[p as int], before[p as int]));
                last = Some(m);
            }
        }
    }

    /// Reads a HIERARCHY section into a design under a fresh root: records
    /// up to the end-of-hierarchy tag become the root's children, in order.
    pub fn decode_hierarchy(rd: &mut ByteReader, types: &TypeTable, nstr: usize) -> (r: Result<
        Design,
        FormatError,
    >)
        requires
            old(rd).wf(),
            types.wf(nstr as int),
            nstr >= 1,
        ensures
            final(rd).wf(),
            final(rd).data == old(rd).data,
            final(rd).big_endian == old(rd).big_endian,
            final(rd).pos >= old(rd).pos,
            r is Ok ==> r->Ok_0.wf(types, nstr as int) && r->Ok_0.nodes@[0].name == 0,
            match records_at(old(rd).data@, old(rd).pos as int, *types, nstr as int, seq![0usize], 1) {
                Ok((recs, e)) => r is Ok && node_records(r->Ok_0.nodes@, 1, r->Ok_0.nodes@.len() as int) == recs
                    && final(rd).pos == e,
                Err(x) => r is Err && r->Err_0 == x,
            },
    {
        let mut d = Design::new(types, nstr);
        let ghost root_open: Seq<usize> = seq![0usize];
        match d.decode_scope(rd, types, nstr, 0, true, Ghost(root_open)) {
            Ok(()) => Ok(d),
            Err(x) => Err(x),
        }
    }
}

/// The children of `p` among the first `m` nodes, in index order.
pub open spec fn kids_below(nodes: Seq<HierNode>, p: int, m: int) -> Seq<usize>
    decreases m,
{
    if m <= 0 {
        Seq::empty()
    } else if nodes[m - 1].parent == Some(p as usize) {
        kids_below(nodes, p, m - 1).push((m - 1) as usize)
    } else {
        kids_below(nodes, p, m - 1)
    }
}

/// The direct children of node `p`: the nodes whose parent it is, in file
/// order.
pub open spec fn children_of(nodes: Seq<HierNode>, p: int) -> Seq<usize> {
    kids_below(nodes, p, nodes.len() as int)
}

proof fn lemma_kids_gap(nodes: Seq<HierNode>, p: int, a: int, b: int)
    requires
        0 <= a <= b <= nodes.len(),
        forall|j: int| a <= j < b ==> (#[trigger] nodes[j].parent) != Some(p as usize),
    ensures
        kids_below(nodes, p, b) == kids_below(nodes, p, a),
    decreases b,
{
    if a < b {
        lemma_kids_gap(nodes, p, a, b - 1);
    }
}

/// What `kids_below` holds: exactly the children of `p` below `m`, each
/// once, in increasing order.
proof fn lemma_kids_below(nodes: Seq<HierNode>, p: int, m: int)
    requires
        0 <= m <= nodes.len(),
        m <= usize::MAX + 1,
        0 <= p <= usize::MAX,
    ensures
        forall|i: int|
            0 <= i < m ==> (kids_below(nodes, p, m).contains(i as usize) <==> (#[trigger] nodes[i].parent)
                == Some(p as usize)),
        forall|k: int|
            0 <= k < kids_below(nodes, p, m).len() ==> #[trigger] kids_below(nodes, p, m)[k] < m,
        forall|a: int, b: int|
            0 <= a < b < kids_below(nodes, p, m).len() ==> #[trigger] kids_below(nodes, p, m)[a]
                < #[trigger] kids_below(nodes, p, m)[b],
    decreases m,
{
    if m > 0 {
        lemma_kids_below(nodes, p, m - 1);
        let prev = kids_below(nodes, p, m - 1);
        let cur = kids_below(nodes, p, m);
        if nodes[m - 1].parent == Some(p as usize) {
            assert(cur == prev.push((m - 1) as usize));
            assert forall|i: int| 0 <= i < m implies (cur.contains(i as usize) <==> (#[trigger] nodes[i].parent)
                == Some(p as usize)) by {
                if i < m - 1 {
                    if cur.contains(i as usize) {
                        let k = choose|k: int| 0 <= k < cur.len() && cur[k] == i as usize;
                        if k < prev.len() {
                            assert(prev[k] == i as usize);
                        }
                    }
                    if prev.contains(i as usize) {
                        let k = choose|k: int| 0 <= k < prev.len() && prev[k] == i as usize;
                        assert(cur[k] == i as usize);
                    }
                } else {
                    assert(cur[cur.len() - 1] == i as usize);
                }
            }
        } else {
            assert forall|i: int| 0 <= i < m implies (cur.contains(i as usize) <==> (#[trigger] nodes[i].parent)
                == Some(p as usize)) by {
                if i == m - 1 && cur.contains(i as usize) {
                    let k = choose|k: int| 0 <= k < cur.len() && cur[k] == i as usize;
                    assert(prev[k] < m - 1);
                }
            }
        }
    }
}

impl Design {
    /// The indices of the direct children of node `p`, in file order, found
    /// by walking from its first child along the brother links.
    pub fn child_indices(&self, p: usize) -> (r: Vec<usize>)
        requires
            links_ok(self.nodes@),
            p < self.nodes@.len(),
        ensures
            r@ == children_of(self.nodes@, p as int),
            self.nodes@.len() <= usize::MAX,
    {
        proof {
            reveal(links_ok);
            assert(first_child_ok(self.nodes@, p as int));
        }
        let n = self.nodes.len();
        let mut acc: Vec<usize> = Vec::new();
        let mut cur = self.nodes[p].first_child;
        proof {
            match cur {
                Some(c) => lemma_kids_gap(self.nodes@, p as int, 0, c as int),
                None => lemma_kids_gap(self.nodes@, p as int, 0, n as int),
            }
        }
        while cur.is_some()
            invariant
                n == self.nodes@.len(),
                links_ok(self.nodes@),
                match cur {
                    Some(c) => p < c < n && self.nodes@[c as int].parent == Some(p) && acc@ == kids_below(
                        self.nodes@,
                        p as int,
                        c as int,
                    ),
                    None => acc@ == kids_below(self.nodes@, p as int, n as int),
                },
            decreases
                match cur {
                    Some(c) => n - c,
                    None => 0,
                },
        {
            let c = match cur {
                Some(c) => c,
                None => 0,
            };
            acc.push(c);
            proof {
                reveal(links_ok);
                assert(brother_ok(self.nodes@, c as int));
                assert(kids_below(self.nodes@, p as int, c + 1) == kids_below(self.nodes@, p as int, c as int).push(c));
            }
            cur = self.nodes[c].brother;
            proof {
                match cur {
                    Some(b) => lemma_kids_gap(self.nodes@, p as int, c + 1, b as int),
                    None => lemma_kids_gap(self.nodes@, p as int, c + 1, n as int),
                }
            }
        }
        acc
    }
}

/// The children of a node are nodes of the tree.
pub proof fn lemma_children_in_range(nodes: Seq<HierNode>, p: int)
    requires
        0 <= p < nodes.len(),
        nodes.len() <= usize::MAX,
    ensures
        forall|k: int| 0 <= k < children_of(nodes, p).len() ==> #[trigger] children_of(nodes, p)[k] < nodes.len(),
{
    lemma_kids_below(nodes, p, nodes.len() as int);
}

/// Every node but the root is a direct child of exactly one node, its
/// parent, which comes before it, and stands once in that node's children;
/// the root is nobody's child. Walking the children from the root therefore
/// ends, and reaches each node exactly once.
pub proof fn lemma_tree_each_node_once(nodes: Seq<HierNode>)
    requires
        links_ok(nodes),
        nodes.len() <= usize::MAX,
    ensures
        forall|i: int| 0 < i < nodes.len() ==> #[trigger] nodes[i].parent is Some && nodes[i].parent->Some_0 < i,
        forall|i: int, p: int|
            0 <= i < nodes.len() && 0 <= p < nodes.len() ==> (#[trigger] children_of(nodes, p).contains(
                i as usize,
            ) <==> nodes[i].parent == Some(p as usize)),
        forall|p: int| 0 <= p < nodes.len() ==> !(#[trigger] children_of(nodes, p)).contains(0),
        forall|p: int, a: int, b: int|
            0 <= p < nodes.len() && 0 <= a < b < children_of(nodes, p).len() ==> #[trigger] children_of(
                nodes,
                p,
            )[a] < #[trigger] children_of(nodes, p)[b],
{
    reveal(links_ok);
    assert forall|i: int| 0 < i < nodes.len() implies #[trigger] nodes[i].parent is Some && nodes[i].parent->Some_0 < i by {
        assert(parent_ok(nodes, i));
    }
    assert forall|i: int, p: int|
        0 <= i < nodes.len() && 0 <= p < nodes.len() implies (#[trigger] children_of(nodes, p).contains(
            i as usize,
        ) <==> nodes[i].parent == Some(p as usize)) by {
        lemma_kids_below(nodes, p, nodes.len() as int);
    }
    assert forall|p: int| 0 <= p < nodes.len() implies !(#[trigger] children_of(nodes, p)).contains(0) by {
        lemma_kids_below(nodes, p, nodes.len() as int);
    }
    assert forall|p: int, a: int, b: int|
        0 <= p < nodes.len() && 0 <= a < b < children_of(nodes, p).len() implies #[trigger] children_of(
            nodes,
            p,
        )[a] < #[trigger] children_of(nodes, p)[b] by {
        lemma_kids_below(nodes, p, nodes.len() as int);
    }
}

proof fn lemma_slot_total_frame(a: Seq<HierNode>, b: Seq<HierNode>, m: int)
    requires
        0 <= m <= a.len(),
        m <= b.len(),
        forall|i: int| 0 <= i < m ==> (#[trigger] a[i]).slot_count == b[i].slot_count,
    ensures
        slot_total(a, m) == slot_total(b, m),
    decreases m,
{
    if m > 0 {
        lemma_slot_total_frame(a, b, m - 1);
    }
}

pub proof fn lemma_slot_total_mono(a: Seq<HierNode>, i: int, m: int)
    requires
        0 <= i <= m,
    ensures
        slot_total(a, i) <= slot_total(a, m),
    decreases m,
{
    if i < m {
        lemma_slot_total_mono(a, i, m - 1);
    }
}

} // verus!
