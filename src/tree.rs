//! Read-only views of a decoded file: nodes of the design tree, types and
//! signals, sharing the decoded tables.
use vstd::prelude::*;
use std::rc::Rc;
use crate::hierarchy::{Design, children_of, links_ok};
use crate::kind::{GHWHierarchyKind, is_leaf_kind, is_scope_kind};
use crate::strings::StringTable;
use crate::rtik::GHDLRTIK;
use crate::types::TypeTable;

verus! {

/// The characters of a byte string read as ASCII.
pub open spec fn ascii_chars(b: Seq<u8>) -> Seq<char> {
    b.map_values(|x: u8| x as char)
}

/// Relies on `String::from_utf8_lossy`: valid UTF-8 is taken over
/// unchanged, and ASCII in particular one character per byte.
#[verifier::external_body]
fn text_of(b: &Vec<u8>) -> (r: String)
    ensures
        (forall|i: int| 0 <= i < b@.len() ==> #[trigger] b@[i] < 128) ==> r@ == ascii_chars(b@),
        vstd::utf8::valid_utf8(b@) ==> r@ == vstd::utf8::decode_utf8(b@),
{
    String::from_utf8_lossy(b.as_slice()).into_owned()
}

/// The tables and the design tree of a file, once its header sections
/// have been read; shared read-only by every hierarchy handle.
pub struct Decoded {
    pub strings: StringTable,
    pub types: TypeTable,
    pub design: Design,
}

impl Decoded {
    pub open spec fn nstr(&self) -> int {
        self.strings.entries@.len() as int
    }

    pub open spec fn wf(&self) -> bool {
        &&& self.strings.wf()
        &&& self.types.wf(self.nstr())
        &&& self.design.wf(&self.types, self.nstr())
        &&& self.design.nodes@[0].name == 0
    }
}

/// Every string index held by a type or hierarchy record of a decoded file
/// lies inside its string table, so looking it up never fails; index 0, and
/// only it, stands for no string.
pub proof fn lemma_names_resolve(t: &Decoded)
    requires
        t.wf(),
    ensures
        forall|i: int|
            0 <= i < t.design.nodes@.len() ==> (#[trigger] t.design.nodes@[i]).name < t.strings.entries@.len(),
        forall|i: int|
            0 <= i < t.types.entries@.len() ==> crate::types::desc_name(
                (#[trigger] t.types.entries@[i]).desc,
            ) < t.strings.entries@.len(),
        t.strings.entries@.len() >= 1,
{
    reveal(Design::slots_ok);
    assert forall|i: int| 0 <= i < t.types.entries@.len() implies crate::types::desc_name(
        (#[trigger] t.types.entries@[i]).desc,
    ) < t.strings.entries@.len() by {
        assert(t.types.entry_ok(i, t.nstr()));
    }
}

/// The number of signals equals the number of scalars that the leaf
/// declarations flatten to: each leaf owns as many consecutive slots as its
/// type has scalars, and the slots of all leaves together are all slots.
pub proof fn lemma_signal_count(t: &Decoded)
    requires
        t.wf(),
    ensures
        t.design.slot_types@.len() == crate::hierarchy::slot_total(
            t.design.nodes@,
            t.design.nodes@.len() as int,
        ),
        forall|i: int|
            0 <= i < t.design.nodes@.len() ==> {
                let n = #[trigger] t.design.nodes@[i];
                &&& n.first_slot == crate::hierarchy::slot_total(t.design.nodes@, i)
                &&& !is_leaf_kind(n.kind) ==> n.slot_count == 0
                &&& is_leaf_kind(n.kind) ==> t.types.scalars_of(n.type_id as int) is Some
                    && n.slot_count == t.types.scalars_of(n.type_id as int)->Some_0.len()
            },
{
    reveal(Design::slots_ok);
    assert forall|i: int| 0 <= i < t.design.nodes@.len() implies {
        let n = #[trigger] t.design.nodes@[i];
        &&& n.first_slot == crate::hierarchy::slot_total(t.design.nodes@, i)
        &&& !is_leaf_kind(n.kind) ==> n.slot_count == 0
        &&& is_leaf_kind(n.kind) ==> t.types.scalars_of(n.type_id as int) is Some
            && n.slot_count == t.types.scalars_of(n.type_id as int)->Some_0.len()
    } by {
        let n = t.design.nodes@[i];
        if is_leaf_kind(n.kind) {
            crate::hierarchy::lemma_slot_total_mono(t.design.nodes@, i + 1, t.design.nodes@.len() as int);
        }
    }
}

/// A type of a decoded file, seen through its common attributes.
pub struct GHWTypeCommon {
    pub tree: Rc<Decoded>,
    pub index: usize,
}

impl GHWTypeCommon {
    pub open spec fn wf(&self) -> bool {
        self.tree.wf() && self.index < self.tree.types.entries@.len()
    }

    /// The type's name, or `None` where the file gives it none.
    pub fn name(&self) -> (r: Option<String>)
        requires
            self.wf(),
        ensures
            crate::types::desc_name(self.tree.types.entries@[self.index as int].desc) == 0 <==> r is None,
            ({
                let k = crate::types::desc_name(self.tree.types.entries@[self.index as int].desc) as int;
                let b = self.tree.strings.entries@[k]@;
                &&& r is Some && (forall|i: int| 0 <= i < b.len() ==> #[trigger] b[i] < 128) ==> r->Some_0@
                    == ascii_chars(b)
                &&& r is Some && vstd::utf8::valid_utf8(b) ==> r->Some_0@ == vstd::utf8::decode_utf8(b)
            }),
    {
        let idx = self.tree.types.entries[self.index].desc.name_index();
        proof {
            assert(self.tree.types.entry_ok(self.index as int, self.tree.nstr()));
        }
        if idx == 0 {
            None
        } else {
            Some(text_of(&self.tree.strings.entries[idx]))
        }
    }

    /// The kind of run-time type information of the type.
    pub fn kind(&self) -> (r: GHDLRTIK)
        requires
            self.wf(),
        ensures
            r == crate::types::desc_kind(self.tree.types.entries@[self.index as int].desc),
    {
        self.tree.types.entries[self.index].desc.kind()
    }
}

/// One elementary signal of a decoded file, by its slot number.
pub struct GHWSignal {
    pub tree: Rc<Decoded>,
    pub slot: usize,
}

impl GHWSignal {
    pub open spec fn wf(&self) -> bool {
        self.tree.wf() && self.slot < self.tree.design.slot_types@.len()
    }

    /// The scalar type of the signal, as an index into the type table.
    pub fn get_type(&self) -> (r: usize)
        requires
            self.wf(),
        ensures
            r == self.tree.design.slot_types@[self.slot as int],
            r < self.tree.types.entries@.len(),
    {
        self.tree.design.slot_types[self.slot]
    }
}

/// The nodes among `ids` whose kind satisfies the scope test (when `scopes`)
/// or the leaf test (otherwise), in order.
pub open spec fn select(nodes: Seq<crate::hierarchy::HierNode>, ids: Seq<usize>, scopes: bool) -> Seq<usize>
    decreases ids.len(),
{
    if ids.len() == 0 {
        Seq::empty()
    } else {
        let rest = select(nodes, ids.drop_last(), scopes);
        let k = nodes[ids.last() as int].kind;
        if (scopes && is_scope_kind(k)) || (!scopes && is_leaf_kind(k)) {
            rest.push(ids.last())
        } else {
            rest
        }
    }
}

/// A node of the design tree of a decoded file.
pub struct GHWHierarchy {
    pub tree: Rc<Decoded>,
    pub index: usize,
}

impl GHWHierarchy {
    pub open spec fn wf(&self) -> bool {
        self.tree.wf() && self.index < self.tree.design.nodes@.len()
    }

    pub open spec fn node(&self) -> crate::hierarchy::HierNode {
        self.tree.design.nodes@[self.index as int]
    }

    /// The handle of node `index` of the same tree.
    fn at(&self, index: usize) -> (r: GHWHierarchy)
        ensures
            r.tree == self.tree,
            r.index == index,
    {
        GHWHierarchy { tree: Rc::clone(&self.tree), index }
    }

    /// The node's kind.
    pub fn kind(&self) -> (r: GHWHierarchyKind)
        requires
            self.wf(),
        ensures
            r == self.node().kind,
    {
        self.tree.design.nodes[self.index].kind
    }

    /// The node's name, or `None` for an unnamed node such as the root.
    pub fn name(&self) -> (r: Option<String>)
        requires
            self.wf(),
        ensures
            self.node().name == 0 <==> r is None,
            r is Some && (forall|i: int|
                0 <= i < self.tree.strings.entries@[self.node().name as int]@.len()
                    ==> #[trigger] self.tree.strings.entries@[self.node().name as int]@[i] < 128)
                ==> r->Some_0@ == ascii_chars(self.tree.strings.entries@[self.node().name as int]@),
            r is Some && vstd::utf8::valid_utf8(self.tree.strings.entries@[self.node().name as int]@)
                ==> r->Some_0@ == vstd::utf8::decode_utf8(self.tree.strings.entries@[self.node().name as int]@),
    {
        let idx = self.tree.design.nodes[self.index].name;
        proof {
            reveal(Design::slots_ok);
            assert(self.tree.design.nodes@[self.index as int].name < self.tree.nstr());
        }
        if idx == 0 {
            None
        } else {
            Some(text_of(&self.tree.strings.entries[idx]))
        }
    }

    /// The enclosing scope, or `None` at the root.
    pub fn parent(&self) -> (r: Option<GHWHierarchy>)
        requires
            self.wf(),
        ensures
            match self.node().parent {
                Some(q) => r is Some && r->Some_0.tree == self.tree && r->Some_0.index == q && r->Some_0.wf(),
                None => r is None,
            },
    {
        proof {
            reveal(links_ok);
            if self.index > 0 {
                assert(crate::hierarchy::parent_ok(self.tree.design.nodes@, self.index as int));
            }
        }
        match self.tree.design.nodes[self.index].parent {
            Some(q) => Some(self.at(q)),
            None => None,
        }
    }

    /// The next child of the same parent, or `None` for the last one.
    pub fn brother(&self) -> (r: Option<GHWHierarchy>)
        requires
            self.wf(),
        ensures
            match self.node().brother {
                Some(b) => r is Some && r->Some_0.tree == self.tree && r->Some_0.index == b && r->Some_0.wf(),
                None => r is None,
            },
    {
        proof {
            reveal(links_ok);
            assert(crate::hierarchy::brother_ok(self.tree.design.nodes@, self.index as int));
        }
        match self.tree.design.nodes[self.index].brother {
            Some(b) => Some(self.at(b)),
            None => None,
        }
    }

    /// Handles for `ids`, all nodes of this tree.
    fn handles(&self, ids: &Vec<usize>) -> (r: Vec<GHWHierarchy>)
        requires
            self.wf(),
            forall|k: int| 0 <= k < ids@.len() ==> #[trigger] ids@[k] < self.tree.design.nodes@.len(),
        ensures
            r@.len() == ids@.len(),
            forall|k: int|
                0 <= k < r@.len() ==> (#[trigger] r@[k]).tree == self.tree && r@[k].index == ids@[k]
                    && r@[k].wf(),
    {
        let mut out: Vec<GHWHierarchy> = Vec::new();
        let mut k: usize = 0;
        while k < ids.len()
            invariant
                self.wf(),
                k <= ids@.len(),
                out@.len() == k,
                forall|j: int| 0 <= j < ids@.len() ==> #[trigger] ids@[j] < self.tree.design.nodes@.len(),
                forall|j: int|
                    0 <= j < k ==> (#[trigger] out@[j]).tree == self.tree && out@[j].index == ids@[j]
                        && out@[j].wf(),
            decreases ids@.len() - k,
        {
            out.push(self.at(ids[k]));
            k = k + 1;
        }
        out
    }

    /// The direct children, in file order. A declaration has none.
    pub fn children(&self) -> (r: Vec<GHWHierarchy>)
        requires
            self.wf(),
        ensures
            r@.len() == children_of(self.tree.design.nodes@, self.index as int).len(),
            forall|k: int|
                0 <= k < r@.len() ==> (#[trigger] r@[k]).tree == self.tree && r@[k].index == children_of(
                    self.tree.design.nodes@,
                    self.index as int,
                )[k] && r@[k].wf(),
    {
        let ids = self.tree.design.child_indices(self.index);
        proof {
            crate::hierarchy::lemma_children_in_range(self.tree.design.nodes@, self.index as int);
        }
        self.handles(&ids)
    }

    /// The ids among `ids` whose kind is a scope (`scopes`) or a leaf.
    fn pick(&self, ids: &Vec<usize>, scopes: bool) -> (r: Vec<usize>)
        requires
            self.wf(),
            forall|k: int| 0 <= k < ids@.len() ==> #[trigger] ids@[k] < self.tree.design.nodes@.len(),
        ensures
            r@ == select(self.tree.design.nodes@, ids@, scopes),
            forall|k: int| 0 <= k < r@.len() ==> #[trigger] r@[k] < self.tree.design.nodes@.len(),
    {
        let ghost nodes = self.tree.design.nodes@;
        let mut out: Vec<usize> = Vec::new();
        let mut k: usize = 0;
        while k < ids.len()
            invariant
                self.wf(),
                nodes == self.tree.design.nodes@,
                k <= ids@.len(),
                forall|j: int| 0 <= j < ids@.len() ==> #[trigger] ids@[j] < nodes.len(),
                out@ == select(nodes, ids@.take(k as int), scopes),
                forall|j: int| 0 <= j < out@.len() ==> #[trigger] out@[j] < nodes.len(),
            decreases ids@.len() - k,
        {
            let c = ids[k];
            let kind = self.tree.design.nodes[c].kind;
            let keep = if scopes { kind.is_scope() } else { kind.is_leaf() };
            proof {
                assert(ids@.take(k + 1).drop_last() =~= ids@.take(k as int));
                assert(ids@.take(k + 1).last() == c);
            }
            if keep {
                out.push(c);
            }
            k = k + 1;
        }
        assert(ids@.take(ids@.len() as int) =~= ids@);
        out
    }

    /// The direct children that are scopes, in file order.
    pub fn child_scopes(&self) -> (r: Vec<GHWHierarchy>)
        requires
            self.wf(),
        ensures
            r@.len() == select(self.tree.design.nodes@, children_of(self.tree.design.nodes@, self.index as int), true).len(),
            forall|k: int|
                0 <= k < r@.len() ==> (#[trigger] r@[k]).tree == self.tree && r@[k].index == select(
                    self.tree.design.nodes@,
                    children_of(self.tree.design.nodes@, self.index as int),
                    true,
                )[k] && r@[k].wf(),
    {
        let ids = self.tree.design.child_indices(self.index);
        proof {
            crate::hierarchy::lemma_children_in_range(self.tree.design.nodes@, self.index as int);
        }
        let picked = self.pick(&ids, true);
        self.handles(&picked)
    }

    /// The direct children that are signals, ports or generics, in file order.
    pub fn child_variables(&self) -> (r: Vec<GHWHierarchy>)
        requires
            self.wf(),
        ensures
            r@.len() == select(self.tree.design.nodes@, children_of(self.tree.design.nodes@, self.index as int), false).len(),
            forall|k: int|
                0 <= k < r@.len() ==> (#[trigger] r@[k]).tree == self.tree && r@[k].index == select(
                    self.tree.design.nodes@,
                    children_of(self.tree.design.nodes@, self.index as int),
                    false,
                )[k] && r@[k].wf(),
    {
        let ids = self.tree.design.child_indices(self.index);
        proof {
            crate::hierarchy::lemma_children_in_range(self.tree.design.nodes@, self.index as int);
        }
        let picked = self.pick(&ids, false);
        self.handles(&picked)
    }
}

} // verus!
