//! The lazily-expanded row model: a projection of the capture tree as a
//! flat, virtualised list whose length shrinks and grows as rows are
//! expanded and collapsed.
//!
//! Nodes live in an arena; parents are integer ids, so upward walks need no
//! shared ownership. Only expanded nodes are kept; a row that is merely
//! displayed is materialised afresh on each query.

use vstd::prelude::*;

use crate::CaptureError;
use crate::capture::{Capture, Item};

verus! {

broadcast use vstd::arithmetic::mul::group_mul_basics;

/// One list-change notification: at `position`, `removed` rows were
/// replaced by `added` rows.
#[derive(Copy, Clone, PartialEq, Eq, Structural, Debug)]
pub struct ItemsChanged {
    pub position: u32,
    pub removed: u32,
    pub added: u32,
}

/// Errors of the row model.
#[derive(Copy, Clone, PartialEq, Eq, Structural, Debug)]
pub enum ModelError {
    /// A row count exceeded the 32-bit row addressing limit.
    RangeError,
    /// The requested position is not below the current row count.
    InvalidPosition,
    /// The store refused a lookup the model relied on.
    CaptureError(CaptureError),
}

/// One row as handed to a renderer.
#[derive(Copy, Clone, PartialEq, Eq, Structural, Debug)]
pub struct Row {
    pub item: Item,
    pub expanded: bool,
    pub child_count: u32,
}

/// A node of the expansion tree. The root carries no item; every other
/// node is an expanded row.
pub struct TreeNode {
    pub item: Option<Item>,
    pub parent: Option<usize>,
    /// Position among the parent's direct children.
    pub item_index: u32,
    /// Number of direct children.
    pub direct_count: u32,
    /// Number of visible descendants: direct children plus the subtrees of
    /// the expanded ones.
    pub child_count: u32,
    /// Arena ids of the expanded children, ordered by `item_index`.
    pub children: Vec<usize>,
    pub expanded: bool,
}

impl TreeNode {
    pub fn item(&self) -> (r: Item)
        requires
            self.item is Some,
        ensures
            r == self.item->0,
    {
        match &self.item {
            Some(it) => *it,
            None => Item::Transfer(0),
        }
    }

    pub fn expanded(&self) -> (r: bool)
        ensures
            r == self.expanded,
    {
        self.expanded
    }

    pub fn is_expandable(&self) -> (r: bool)
        ensures
            r == (self.child_count != 0),
    {
        self.child_count != 0
    }
}

/// The visible descendants contributed by the children from index `j` on.
pub open spec fn ssum(nodes: Seq<TreeNode>, ch: Seq<usize>, j: int) -> int
    decreases ch.len() - j,
{
    if j < 0 || j >= ch.len() {
        0
    } else {
        nodes[ch[j] as int].child_count + ssum(nodes, ch, j + 1)
    }
}

/// The row model: the immutable store plus the arena of expanded nodes,
/// the root at id zero.
pub struct TreeListModel {
    pub capture: Capture,
    pub nodes: Vec<TreeNode>,
}

/// How often arena id `c` occurs in the child list from index `j` on.
pub open spec fn occurrences(ch: Seq<usize>, c: usize, j: int) -> int
    decreases ch.len() - j,
{
    if j < 0 || j >= ch.len() {
        0
    } else {
        (if ch[j] == c {
            1int
        } else {
            0int
        }) + occurrences(ch, c, j + 1)
    }
}

proof fn lemma_ssum_nonneg(nodes: Seq<TreeNode>, ch: Seq<usize>, j: int)
    ensures
        ssum(nodes, ch, j) >= 0,
    decreases ch.len() - j,
{
    if 0 <= j < ch.len() {
        lemma_ssum_nonneg(nodes, ch, j + 1);
    }
}

/// Changing one arena node shifts a child-list sum by the count change
/// times the number of times that node is listed.
proof fn lemma_ssum_update(nodes: Seq<TreeNode>, c: usize, n2: TreeNode, ch: Seq<usize>,
    j: int)
    requires
        (c as int) < nodes.len(),
        forall|k: int| 0 <= k < ch.len() ==> (#[trigger] ch[k]) < nodes.len(),
    ensures
        ssum(nodes.update(c as int, n2), ch, j) == ssum(nodes, ch, j)
            + occurrences(ch, c, j) * (n2.child_count - nodes[c as int].child_count),
    decreases ch.len() - j,
{
    if 0 <= j < ch.len() {
        lemma_ssum_update(nodes, c, n2, ch, j + 1);
        let occ = occurrences(ch, c, j);
        let occ1 = occurrences(ch, c, j + 1);
        let d = n2.child_count - nodes[c as int].child_count;
        if ch[j] == c {
            assert(occ == occ1 + 1);
            assert((occ1 + 1) * d == occ1 * d + d) by (nonlinear_arith);
        }
    }
}

proof fn lemma_occ_zero(ch: Seq<usize>, c: usize, j: int)
    requires
        forall|k: int| 0 <= k < ch.len() ==> (#[trigger] ch[k]) != c,
    ensures
        occurrences(ch, c, j) == 0,
    decreases ch.len() - j,
{
    if 0 <= j < ch.len() {
        lemma_occ_zero(ch, c, j + 1);
    }
}

proof fn lemma_occ_one(ch: Seq<usize>, c: usize, j: int, at: int)
    requires
        0 <= j,
        0 <= at < ch.len(),
        ch[at] == c,
        forall|k: int| 0 <= k < ch.len() && k != at ==> (#[trigger] ch[k]) != c,
    ensures
        j <= at ==> occurrences(ch, c, j) == 1,
        j > at ==> occurrences(ch, c, j) == 0,
    decreases ch.len() - j,
{
    if 0 <= j < ch.len() {
        lemma_occ_one(ch, c, j + 1, at);
    } else {
    }
}

/// Growing the arena does not change a sum over existing ids.
proof fn lemma_ssum_push(nodes: Seq<TreeNode>, x: TreeNode, ch: Seq<usize>, j: int)
    requires
        forall|k: int| 0 <= k < ch.len() ==> (#[trigger] ch[k]) < nodes.len(),
    ensures
        ssum(nodes.push(x), ch, j) == ssum(nodes, ch, j),
    decreases ch.len() - j,
{
    if 0 <= j < ch.len() {
        lemma_ssum_push(nodes, x, ch, j + 1);
    }
}

/// Inserting a child adds its count to the sum.
proof fn lemma_ssum_insert(nodes: Seq<TreeNode>, ch: Seq<usize>, at: int, c: usize, j: int)
    requires
        0 <= at <= ch.len(),
        0 <= j <= at,
    ensures
        ssum(nodes, ch.insert(at, c), j) == ssum(nodes, ch, j)
            + nodes[c as int].child_count,
    decreases ch.len() - j,
{
    let ins = ch.insert(at, c);
    if j < at {
        assert(ins[j] == ch[j]);
        lemma_ssum_insert(nodes, ch, at, c, j + 1);
    } else {
        assert(j == at);
        assert(ins[j] == c);
        lemma_ssum_suffix_insert(nodes, ch, at, c, j);
    }
}

proof fn lemma_ssum_suffix_insert(nodes: Seq<TreeNode>, ch: Seq<usize>, at: int, c: usize,
    j: int)
    requires
        0 <= at <= ch.len(),
        at <= j <= ch.len(),
    ensures
        ssum(nodes, ch.insert(at, c), j + 1) == ssum(nodes, ch, j),
    decreases ch.len() - j,
{
    let ins = ch.insert(at, c);
    if j < ch.len() {
        assert(ins[j + 1] == ch[j]);
        lemma_ssum_suffix_insert(nodes, ch, at, c, j + 1);
    }
}

/// Removing a child takes its count out of the sum.
proof fn lemma_ssum_remove(nodes: Seq<TreeNode>, ch: Seq<usize>, at: int, j: int)
    requires
        0 <= at < ch.len(),
        0 <= j <= at,
    ensures
        ssum(nodes, ch.remove(at), j) == ssum(nodes, ch, j)
            - nodes[ch[at] as int].child_count,
    decreases ch.len() - j,
{
    let rem = ch.remove(at);
    if j < at {
        assert(rem[j] == ch[j]);
        lemma_ssum_remove(nodes, ch, at, j + 1);
    } else {
        assert(j == at);
        lemma_ssum_suffix_remove(nodes, ch, at, j);
    }
}

proof fn lemma_ssum_suffix_remove(nodes: Seq<TreeNode>, ch: Seq<usize>, at: int, j: int)
    requires
        0 <= at < ch.len(),
        at <= j < ch.len(),
    ensures
        ssum(nodes, ch.remove(at), j) == ssum(nodes, ch, j + 1),
    decreases ch.len() - j,
{
    let rem = ch.remove(at);
    if j < ch.len() - 1 {
        assert(rem[j] == ch[j + 1]);
        lemma_ssum_suffix_remove(nodes, ch, at, j + 1);
    }
}

/// Every ancestor up to the root is an expanded node.
pub open spec fn ancestors_expanded(nodes: Seq<TreeNode>, i: int) -> bool
    decreases i,
{
    if i == 0 {
        true
    } else {
        match nodes[i].parent {
            Some(p) => 0 <= p < i && nodes[p as int].expanded
                && ancestors_expanded(nodes, p as int),
            None => false,
        }
    }
}

/// Every node on the chain from `i` to the root can grow by `k` without
/// overrunning the 32-bit row limit.
pub open spec fn chain_fits(nodes: Seq<TreeNode>, i: int, k: u32) -> bool
    decreases i,
{
    &&& nodes[i].child_count + k <= u32::MAX
    &&& i != 0 ==> match nodes[i].parent {
        Some(p) => 0 <= p < i && chain_fits(nodes, p as int, k),
        None => false,
    }
}

/// Where a visible row lies: an expanded node's own row, or a collapsed
/// row given by its parent node and its offset among that parent's direct
/// children.
pub enum RowLoc {
    Expanded(usize),
    Collapsed(usize, u32),
}

/// The row lookup's descent, scanning node `p`'s expanded
/// children from index `j` with `rel` rows still to skip: before the next
/// expanded child the target is a collapsed row of `p`; at it, that child's
/// own row; within its subtree, the descent continues there; after it, its
/// subtree is skipped.
pub open spec fn spec_scan(nodes: Seq<TreeNode>, p: int, j: int, rel: u32) -> RowLoc
    decreases nodes.len() - p, nodes[p].children@.len() - j,
{
    if !(0 <= p < nodes.len()) {
        RowLoc::Collapsed(p as usize, rel)
    } else {
        let ch = nodes[p].children@;
        if !(0 <= j < ch.len()) {
            RowLoc::Collapsed(p as usize, rel)
        } else {
            let c = ch[j] as int;
            if !(p < c < nodes.len()) {
                RowLoc::Collapsed(p as usize, rel)
            } else {
                let cn = nodes[c];
                if rel < cn.item_index {
                    RowLoc::Collapsed(p as usize, rel)
                } else if rel == cn.item_index {
                    RowLoc::Expanded(ch[j])
                } else if rel <= cn.item_index + cn.child_count {
                    spec_scan(nodes, c, 0, (rel - cn.item_index - 1) as u32)
                } else {
                    spec_scan(nodes, p, j + 1, (rel - cn.child_count) as u32)
                }
            }
        }
    }
}

/// The row shown at `position`: the descent from the root.
pub open spec fn spec_locate(nodes: Seq<TreeNode>, position: u32) -> RowLoc {
    spec_scan(nodes, 0, 0, position)
}

impl TreeListModel {
    /// The linkage part of a node's consistency: its item and direct count
    /// agree with the store, and its expanded children are ordered, in
    /// range and linked back to it.
    pub open spec fn node_links_ok(&self, i: int) -> bool {
        let n = self.nodes@[i];
        &&& match n.item {
            Some(it) => i != 0 && self.capture.spec_item_valid(it)
                && n.direct_count == self.capture.spec_child_count(it),
            None => i == 0,
        }
        &&& i == 0 ==> n.parent is None && n.item_index == 0
            && n.direct_count == self.capture.item_index@.len()
        &&& i != 0 ==> (n.parent matches Some(p) && p < i
            && self.nodes@[p as int].children@.contains(i as usize))
        &&& forall|k: int| 0 <= k < n.children@.len() ==> {
            let c = (#[trigger] n.children@[k]) as int;
            &&& i < c < self.nodes@.len()
            &&& self.nodes@[c].expanded
            &&& self.nodes@[c].parent == Some(i as usize)
            &&& self.nodes@[c].item_index < n.direct_count
        }
        &&& forall|k: int, l: int| #![trigger n.children@[k], n.children@[l]]
            0 <= k < l < n.children@.len()
                ==> self.nodes@[n.children@[k] as int].item_index
                    < self.nodes@[n.children@[l] as int].item_index
    }

    /// A node's visible count balances its direct children and the
    /// subtrees of its expanded ones.
    pub open spec fn node_count_ok(&self, i: int) -> bool {
        let n = self.nodes@[i];
        n.child_count == n.direct_count + ssum(self.nodes@, n.children@, 0)
    }

    /// Full consistency of one attached node.
    pub open spec fn node_ok(&self, i: int) -> bool {
        self.node_links_ok(i) && self.node_count_ok(i)
    }

    /// Structural soundness of the model.
    pub open spec fn wf(&self) -> bool {
        &&& self.capture.wf()
        &&& self.nodes@.len() >= 1
        &&& self.nodes@[0].expanded
        &&& self.capture.item_index@.len() <= u32::MAX
        &&& forall|i: int| 0 <= i < self.nodes@.len() && (#[trigger] self.nodes@[i]).expanded
            ==> self.node_ok(i)
    }

    /// The current number of visible rows.
    pub open spec fn spec_n_items(&self) -> u32 {
        self.nodes@[0].child_count
    }

    /// The item of the collapsed row at offset `off` among the direct
    /// children of arena node `p`: a top-level transfer row under the root,
    /// a store descent anywhere else.
    pub open spec fn spec_item_at(&self, p: int, off: u32) -> Item {
        match self.nodes@[p].item {
            None => Item::Transfer(self.capture.item_index@[off as int]),
            Some(it) => self.capture.spec_child(it, off as u64),
        }
    }

    /// Builds the model over a finished capture, all rows collapsed; fails
    /// exactly when the top-level row count exceeds the 32-bit limit.
    pub fn new(capture: Capture) -> (r: Result<TreeListModel, ModelError>)
        requires
            capture.wf(),
        ensures
            capture.item_index@.len() > u32::MAX ==> r == Err::<TreeListModel, ModelError>(
                ModelError::RangeError),
            capture.item_index@.len() <= u32::MAX ==> (r matches Ok(m) && m.wf()
                && m.capture == capture
                && m.spec_n_items() == capture.item_index@.len()),
    {
        let count = capture.item_index.len();
        if count > u32::MAX as u64 {
            return Err(ModelError::RangeError);
        }
        let root = TreeNode {
            item: None,
            parent: None,
            item_index: 0,
            direct_count: count as u32,
            child_count: count as u32,
            children: Vec::new(),
            expanded: true,
        };
        let mut nodes: Vec<TreeNode> = Vec::new();
        nodes.push(root);
        let m = TreeListModel { capture, nodes };
        proof {
            assert(ssum(m.nodes@, m.nodes@[0].children@, 0) == 0);
            assert(m.node_ok(0));
        }
        Ok(m)
    }

    /// The current number of visible rows.
    pub fn n_items(&self) -> (r: u32)
        requires
            self.wf(),
        ensures
            r == self.spec_n_items(),
    {
        self.nodes[0].child_count
    }

    /// Walks from the root to the row at `position`: either an expanded
    /// node (its arena id) or a collapsed row, given by its parent's arena
    /// id and its offset among that parent's direct children.
    #[verifier::loop_isolation(false)]
    fn locate(&self, position: u32) -> (r: (usize, u32, Option<usize>))
        requires
            self.wf(),
            position < self.spec_n_items(),
        ensures
            ({
                let (p, rel, found) = r;
                &&& p < self.nodes@.len()
                &&& self.nodes@[p as int].expanded
                &&& ancestors_expanded(self.nodes@, p as int)
                &&& match found {
                    Some(c) => c < self.nodes@.len() && self.nodes@[c as int].expanded
                        && c != 0 && self.nodes@[c as int].parent == Some(p)
                        && spec_locate(self.nodes@, position) == RowLoc::Expanded(c),
                    None => rel < self.nodes@[p as int].direct_count
                        && spec_locate(self.nodes@, position)
                            == RowLoc::Collapsed(p, rel)
                        && forall|k: int| 0 <= k
                            < self.nodes@[p as int].children@.len()
                            ==> self.nodes@[(#[trigger] self.nodes@[
                                p as int].children@[k]) as int].item_index != rel,
                }
            }),
    {
        let mut p: usize = 0;
        let mut rel: u32 = position;
        loop
            invariant
                self.wf(),
                p < self.nodes@.len(),
                self.nodes@[p as int].expanded,
                ancestors_expanded(self.nodes@, p as int),
                rel < self.nodes@[p as int].child_count,
                spec_scan(self.nodes@, p as int, 0, rel)
                    == spec_locate(self.nodes@, position),
            decreases self.nodes@.len() - p,
        {
            let n = self.nodes.len();
            let m = self.nodes[p].children.len();
            let mut j: usize = 0;
            let mut descend: Option<(usize, u32)> = None;
            proof {
                assert(self.node_ok(p as int));
            }
            while j < m && descend.is_none()
                invariant
                    0 <= j <= m,
                    m == self.nodes@[p as int].children@.len(),
                    match descend {
                        Some((c, nr)) => c < self.nodes@.len()
                            && self.nodes@[c as int].expanded && p < c && c != 0
                            && self.nodes@[c as int].parent == Some(p)
                            && nr < self.nodes@[c as int].child_count
                            && spec_scan(self.nodes@, c as int, 0, nr)
                                == spec_locate(self.nodes@, position),
                        None => rel < self.nodes@[p as int].direct_count
                            + ssum(self.nodes@, self.nodes@[p as int].children@, j as int)
                            && spec_scan(self.nodes@, p as int, j as int, rel)
                                == spec_locate(self.nodes@, position)
                            && forall|k: int| 0 <= k < j
                                ==> self.nodes@[(#[trigger] self.nodes@[
                                    p as int].children@[k]) as int].item_index < rel,
                    },
                decreases m - j, (if descend is None { 1int } else { 0int }),
            {
                proof {
                    assert(self.node_ok(p as int));
                }
                let c = self.nodes[p].children[j];
                let cn_index = self.nodes[c].item_index;
                let cn_count = self.nodes[c].child_count;
                if rel < cn_index {
                    // The target sits among the collapsed rows before this
                    // expanded child: no expanded child occupies its offset.
                    proof {
                        assert(rel < self.nodes@[p as int].direct_count);
                        let ch = self.nodes@[p as int].children@;
                        assert forall|k: int| 0 <= k < ch.len()
                            implies self.nodes@[(#[trigger] ch[k]) as int].item_index
                                != rel by {
                            if k >= j {
                                assert(self.nodes@[ch[j as int] as int].item_index
                                    <= self.nodes@[ch[k] as int].item_index);
                            }
                        }
                    }
                    return (p, rel, None);
                } else if rel == cn_index {
                    return (p, rel, Some(c));
                } else if (rel as u64) <= cn_index as u64 + cn_count as u64 {
                    // Inside this expanded child's subtree.
                    descend = Some((c, rel - cn_index - 1));
                } else {
                    proof {
                        let ch = self.nodes@[p as int].children@;
                        let rel2 = (rel - cn_count) as u32;
                        assert forall|k: int| 0 <= k < j + 1
                            implies self.nodes@[(#[trigger] ch[k]) as int].item_index
                                < rel2 by {
                            if k < j {
                                assert(self.nodes@[ch[k] as int].item_index
                                    < self.nodes@[ch[j as int] as int].item_index);
                            }
                        }
                    }
                    rel = rel - cn_count;
                    j = j + 1;
                }
            }
            match descend {
                Some((c, new_rel)) => {
                    proof {
                        assert(self.node_ok(p as int));
                        assert(p < c);
                    }
                    p = c;
                    rel = new_rel;
                },
                None => {
                    proof {
                        assert(ssum(self.nodes@, self.nodes@[p as int].children@,
                            m as int) == 0);
                        let ch = self.nodes@[p as int].children@;
                        assert forall|k: int| 0 <= k < ch.len()
                            implies self.nodes@[(#[trigger] ch[k]) as int].item_index
                                != rel by {}
                    }
                    return (p, rel, None);
                },
            }
        }
    }

    /// The row at `position`: the entry the lookup's descent reaches. An
    /// expanded node shows its own item and visible count; a
    /// collapsed row shows the store's item at its offset with its direct
    /// child count. `None` past the end, and otherwise only for a row whose
    /// child count exceeds the 32-bit limit.
    pub fn get(&self, position: u32) -> (r: Option<Row>)
        requires
            self.wf(),
        ensures
            position >= self.spec_n_items() ==> r is None,
            position < self.spec_n_items() ==> match spec_locate(self.nodes@, position) {
                RowLoc::Expanded(c) => r == Some(Row {
                    item: self.nodes@[c as int].item->0,
                    expanded: true,
                    child_count: self.nodes@[c as int].child_count,
                }),
                RowLoc::Collapsed(p, off) => {
                    let item = self.spec_item_at(p as int, off);
                    let k = self.capture.spec_child_count(item);
                    &&& k <= u32::MAX ==> r == Some(Row {
                        item,
                        expanded: false,
                        child_count: k as u32,
                    })
                    &&& k > u32::MAX ==> r is None
                },
            },
    {
        if position >= self.n_items() {
            return None;
        }
        let (p, rel, found) = self.locate(position);
        match found {
            Some(c) => {
                proof {
                    assert(self.node_ok(c as int));
                }
                let node = &self.nodes[c];
                Some(Row {
                    item: node.item(),
                    expanded: true,
                    child_count: node.child_count,
                })
            },
            None => {
                proof {
                    assert(self.node_ok(p as int));
                }
                let parent_item = &self.nodes[p].item;
                let item = match self.capture.get_item(parent_item, rel as u64) {
                    Ok(it) => it,
                    Err(..) => {
                        proof {
                            assert(false);
                        }
                        return None;
                    },
                };
                proof {
                    match self.nodes@[p as int].item {
                        Some(pit) => {
                            self.capture.lemma_child_item_valid(pit, rel as u64);
                        },
                        None => {},
                    }
                }
                let count = match self.capture.child_count(&item) {
                    Ok(n) => n,
                    Err(..) => {
                        proof {
                            assert(false);
                        }
                        return None;
                    },
                };
                if count > u32::MAX as u64 {
                    return None;
                }
                Some(Row { item, expanded: false, child_count: count as u32 })
            },
        }
    }
}

/// An update at an arena id above `i` touches nothing on `i`'s ancestor
/// chain.
proof fn lemma_anc_exp_update_above(nodes: Seq<TreeNode>, c: int, n2: TreeNode, i: int)
    requires
        0 <= i <= c < nodes.len(),
        ancestors_expanded(nodes, i),
        i == c ==> n2.parent == nodes[c].parent && n2.expanded == nodes[c].expanded,
    ensures
        ancestors_expanded(nodes.update(c, n2), i),
    decreases i,
{
    if i != 0 {
        match nodes[i].parent {
            Some(p) => {
                lemma_anc_exp_update_above(nodes, c, n2, p as int);
            },
            None => {},
        }
    }
}

proof fn lemma_chain_fits_update_above(nodes: Seq<TreeNode>, c: int, n2: TreeNode, i: int,
    k: u32)
    requires
        0 <= i <= c < nodes.len(),
        chain_fits(nodes, i, k),
        i == c ==> n2.parent == nodes[c].parent && n2.child_count == nodes[c].child_count,
    ensures
        chain_fits(nodes.update(c, n2), i, k),
    decreases i,
{
    if i != 0 {
        match nodes[i].parent {
            Some(p) => {
                lemma_chain_fits_update_above(nodes, c, n2, p as int, k);
            },
            None => {},
        }
    }
}

proof fn lemma_anc_exp_push(nodes: Seq<TreeNode>, x: TreeNode, i: int)
    requires
        0 <= i < nodes.len(),
        ancestors_expanded(nodes, i),
    ensures
        ancestors_expanded(nodes.push(x), i),
    decreases i,
{
    if i != 0 {
        match nodes[i].parent {
            Some(p) => {
                lemma_anc_exp_push(nodes, x, p as int);
            },
            None => {},
        }
    }
}

proof fn lemma_chain_fits_push(nodes: Seq<TreeNode>, x: TreeNode, i: int, k: u32)
    requires
        0 <= i < nodes.len(),
        chain_fits(nodes, i, k),
    ensures
        chain_fits(nodes.push(x), i, k),
    decreases i,
{
    if i != 0 {
        match nodes[i].parent {
            Some(p) => {
                lemma_chain_fits_push(nodes, x, p as int, k);
            },
            None => {},
        }
    }
}

impl TreeListModel {
    /// The model mid-adjustment: every attached node is consistent except
    /// `cur`, whose visible count still needs `delta` added.
    pub open spec fn wf_pending(&self, cur: int, delta: int) -> bool {
        &&& self.capture.wf()
        &&& self.nodes@.len() >= 1
        &&& self.nodes@[0].expanded
        &&& self.capture.item_index@.len() <= u32::MAX
        &&& 0 <= cur < self.nodes@.len()
        &&& self.nodes@[cur].expanded
        &&& forall|i: int| 0 <= i < self.nodes@.len()
            && (#[trigger] self.nodes@[i]).expanded && i != cur ==> self.node_ok(i)
        &&& self.node_links_ok(cur)
        &&& self.nodes@[cur].child_count + delta == self.nodes@[cur].direct_count
            + ssum(self.nodes@, self.nodes@[cur].children@, 0)
        &&& 0 <= self.nodes@[cur].child_count + delta <= u32::MAX
    }

    /// Whether every node from `start` up to the root can grow by `k`.
    fn check_chain(&self, start: usize, k: u32) -> (r: bool)
        requires
            self.wf(),
            (start as int) < self.nodes@.len(),
            self.nodes@[start as int].expanded,
            ancestors_expanded(self.nodes@, start as int),
        ensures
            r == chain_fits(self.nodes@, start as int, k),
    {
        let mut cur: usize = start;
        loop
            invariant
                self.wf(),
                (cur as int) < self.nodes@.len(),
                self.nodes@[cur as int].expanded,
                ancestors_expanded(self.nodes@, cur as int),
                chain_fits(self.nodes@, start as int, k)
                    <==> chain_fits(self.nodes@, cur as int, k),
            decreases cur,
        {
            if self.nodes[cur].child_count as u64 + k as u64 > u32::MAX as u64 {
                return false;
            }
            proof {
                assert(self.node_ok(cur as int));
            }
            match self.nodes[cur].parent {
                Some(p) => {
                    cur = p;
                },
                None => {
                    return true;
                },
            }
        }
    }

    /// Adds `k` to (or subtracts it from) the visible count of `start` and
    /// each of its ancestors, restoring consistency after a subtree was
    /// attached or detached below `start`.
    #[verifier::loop_isolation(false)]
    #[verifier::rlimit(100)]
    #[verifier::spinoff_prover]
    fn adjust_ancestors(&mut self, start: usize, k: u32, add: bool)
        requires
            old(self).wf_pending(start as int, if add {
                k as int
            } else {
                -(k as int)
            }),
            ancestors_expanded(old(self).nodes@, start as int),
            add ==> chain_fits(old(self).nodes@, start as int, k),
        ensures
            final(self).wf(),
            final(self).capture == old(self).capture,
            final(self).nodes@.len() == old(self).nodes@.len(),
            final(self).nodes@[0].child_count as int == old(self).nodes@[0].child_count
                + (if add {
                    k as int
                } else {
                    -(k as int)
                }),
    {
        let ghost delta: int = if add {
            k as int
        } else {
            -(k as int)
        };
        let mut cur: usize = start;
        while cur != 0
            invariant
                self.wf_pending(cur as int, delta),
                ancestors_expanded(self.nodes@, cur as int),
                add ==> chain_fits(self.nodes@, cur as int, k),
                self.capture == old(self).capture,
                self.nodes@.len() == old(self).nodes@.len(),
                self.nodes@[0].child_count == old(self).nodes@[0].child_count,
            decreases cur,
        {
            let cc = self.nodes[cur].child_count;
            proof {
                lemma_ssum_nonneg(self.nodes@, self.nodes@[cur as int].children@, 0);
            }
            let nv: u32 = if add {
                cc + k
            } else {
                cc - k
            };
            let ghost pre = self.nodes@;
            let ghost parent_g = self.nodes@[cur as int].parent;
            let nref = &mut self.nodes[cur];
            nref.child_count = nv;
            let ghost n2 = self.nodes@[cur as int];
            let parent = match self.nodes[cur].parent {
                Some(p) => p,
                None => {
                    proof {
                        assert(false);
                    }
                    0
                },
            };
            proof {
                let nodes2 = self.nodes@;
                assert(nodes2 == pre.update(cur as int, n2));
                // `cur`'s own sum is untouched: its children lie above it.
                assert forall|x: int| 0 <= x < n2.children@.len()
                    implies (#[trigger] n2.children@[x]) != cur by {
                    assert(pre[cur as int].children@[x] > cur as int);
                }
                lemma_occ_zero(n2.children@, cur, 0);
                lemma_ssum_update(pre, cur, n2, n2.children@, 0);
                assert(self.node_count_ok(cur as int));
                assert(self.node_ok(cur as int));
                // The parent's sum gains exactly `delta` through `cur`.
                assert(pre[parent as int].children@.contains(cur));
                let ch_p = pre[parent as int].children@;
                let at = choose|x: int| 0 <= x < ch_p.len() && ch_p[x] == cur;
                assert forall|x: int| 0 <= x < ch_p.len() && x != at
                    implies (#[trigger] ch_p[x]) != cur by {
                    if ch_p[x] == cur {
                        if x < at {
                            assert(pre[ch_p[x] as int].item_index
                                < pre[ch_p[at] as int].item_index);
                        } else {
                            assert(pre[ch_p[at] as int].item_index
                                < pre[ch_p[x] as int].item_index);
                        }
                    }
                }
                lemma_occ_one(ch_p, cur, 0, at);
                lemma_ssum_update(pre, cur, n2, ch_p, 0);
                assert(ssum(nodes2, ch_p, 0) == ssum(pre, ch_p, 0) + delta);
                // Everything else keeps its balance.
                assert forall|i: int| 0 <= i < nodes2.len()
                    && (#[trigger] nodes2[i]).expanded && i != parent
                    implies self.node_ok(i) by {
                    if i != cur {
                        let ch_i = nodes2[i].children@;
                        assert forall|x: int| 0 <= x < ch_i.len()
                            implies (#[trigger] ch_i[x]) != cur by {
                            if ch_i[x] == cur {
                                assert(pre[cur as int].parent == Some(i as usize));
                            }
                        }
                        lemma_occ_zero(ch_i, cur, 0);
                        lemma_ssum_update(pre, cur, n2, ch_i, 0);
                    }
                }
                lemma_anc_exp_update_above(pre, cur as int, n2, parent as int);
                if add {
                    lemma_chain_fits_update_above(pre, cur as int, n2, parent as int, k);
                }
                lemma_ssum_nonneg(nodes2, ch_p, 0);
                assert(nodes2[parent as int].expanded);
                assert(pre[parent as int].child_count == pre[parent as int].direct_count
                    + ssum(pre, ch_p, 0));
                assert(self.wf_pending(parent as int, delta));
            }
            cur = parent;
        }
        let cc = self.nodes[0].child_count;
        proof {
            lemma_ssum_nonneg(self.nodes@, self.nodes@[0].children@, 0);
        }
        let nv: u32 = if add {
            cc + k
        } else {
            cc - k
        };
        let ghost pre = self.nodes@;
        let nref = &mut self.nodes[0];
        nref.child_count = nv;
        let ghost n2 = self.nodes@[0];
        proof {
            let nodes2 = self.nodes@;
            assert forall|x: int| 0 <= x < n2.children@.len()
                implies (#[trigger] n2.children@[x]) != 0usize by {
                assert(pre[0].children@[x] > 0int);
            }
            lemma_occ_zero(n2.children@, 0, 0);
            lemma_ssum_update(pre, 0, n2, n2.children@, 0);
            assert(self.node_ok(0));
            assert forall|i: int| 0 <= i < nodes2.len()
                && (#[trigger] nodes2[i]).expanded && i != 0
                implies self.node_ok(i) by {
                let ch_i = nodes2[i].children@;
                assert forall|x: int| 0 <= x < ch_i.len()
                    implies (#[trigger] ch_i[x]) != 0usize by {
                    assert(pre[i].children@[x] > i);
                }
                lemma_occ_zero(ch_i, 0, 0);
                lemma_ssum_update(pre, 0, n2, ch_i, 0);
            }
        }
    }
}


/// Detaching expanded node `c` from its parent `p` and clearing its flag
/// leaves every node consistent except `p`, whose count still carries the
/// removed subtree.
#[verifier::rlimit(100)]
#[verifier::spinoff_prover]
proof fn lemma_collapse_reestablish(m0: TreeListModel, m2: TreeListModel, p: usize,
    c: usize, at: int, k: u32, pre: Seq<TreeNode>, ch_p: Seq<usize>, mid: Seq<TreeNode>)
    requires
        m0.wf(),
        pre == m0.nodes@,
        pre.len() <= usize::MAX,
        (p as int) < pre.len(),
        pre[p as int].expanded,
        (c as int) < pre.len(),
        c != 0,
        p != c,
        pre[c as int].expanded,
        pre[c as int].parent == Some(p),
        ancestors_expanded(pre, p as int),
        ch_p == pre[p as int].children@,
        0 <= at < ch_p.len(),
        ch_p[at] == c,
        k == pre[c as int].child_count,
        m2.capture == m0.capture,
        mid.len() == pre.len(),
        mid == pre.update(p as int, mid[p as int]),
        mid[p as int].children@ == ch_p.remove(at),
        mid[p as int].item == pre[p as int].item,
        mid[p as int].parent == pre[p as int].parent,
        mid[p as int].item_index == pre[p as int].item_index,
        mid[p as int].direct_count == pre[p as int].direct_count,
        mid[p as int].child_count == pre[p as int].child_count,
        mid[p as int].expanded == pre[p as int].expanded,
        m2.nodes@ == mid.update(c as int, m2.nodes@[c as int]),
        m2.nodes@[c as int].expanded == false,
        m2.nodes@[c as int].item == pre[c as int].item,
        m2.nodes@[c as int].parent == pre[c as int].parent,
        m2.nodes@[c as int].item_index == pre[c as int].item_index,
        m2.nodes@[c as int].direct_count == pre[c as int].direct_count,
        m2.nodes@[c as int].child_count == pre[c as int].child_count,
        m2.nodes@[c as int].children@ == pre[c as int].children@,
    ensures
        m2.wf_pending(p as int, -(k as int)),
        ancestors_expanded(m2.nodes@, p as int),
{
        let nodes2 = m2.nodes@;
        let ghost pnode = nodes2[p as int];
        let ghost ch2 = pnode.children@;
        assert(ch2 == ch_p.remove(at as int));
        let ghost cn2 = nodes2[c as int];
        assert(cn2.child_count == pre[c as int].child_count);
        lemma_ssum_remove(pre, ch_p, at as int, 0);
        // Containment of other nodes in the parent's list.
        assert forall|i: int| 0 <= i < nodes2.len()
            && (#[trigger] nodes2[i]).expanded && i != 0
            implies nodes2[i].parent matches Some(pp)
                && nodes2[pp as int].children@.contains(i as usize) by {
            assert(i != c);
            assert(m0.node_ok(i));
            let pp = pre[i].parent->0;
            assert(pre[pp as int].children@.contains(i as usize));
            if pp as int == p as int {
                let w = choose|x: int| 0 <= x < ch_p.len()
                    && ch_p[x] == i as usize;
                assert(w != at);
                if w < at {
                    assert(ch2[w] == ch_p[w]);
                    assert(ch2.contains(i as usize));
                } else {
                    assert(ch2[w - 1] == ch_p[w]);
                    assert(ch2.contains(i as usize));
                }
            }
        }
        // The parent's child list survives the removal in order.
        assert forall|x: int| 0 <= x < ch2.len() implies {
            let cc = (#[trigger] ch2[x]) as int;
            &&& p < cc < nodes2.len()
            &&& nodes2[cc].expanded
            &&& nodes2[cc].parent == Some(p)
            &&& nodes2[cc].item_index < pnode.direct_count
            &&& cc != c
        } by {
            assert(m0.node_ok(p as int));
            if x < at {
                assert(ch2[x] == ch_p[x]);
                assert(ch_p[x] != c) by {
                    if x < at && ch_p[x] == c {
                        assert(pre[ch_p[x] as int].item_index
                            < pre[ch_p[at as int] as int].item_index);
                    }
                }
            } else {
                assert(ch2[x] == ch_p[x + 1]);
                assert(ch_p[x + 1] != c) by {
                    if ch_p[x + 1] == c {
                        assert(pre[ch_p[at as int] as int].item_index
                            < pre[ch_p[x + 1] as int].item_index);
                    }
                }
            }
        }
        assert forall|x: int, l: int| #![trigger ch2[x], ch2[l]]
            0 <= x < l < ch2.len()
            implies nodes2[ch2[x] as int].item_index
                < nodes2[ch2[l] as int].item_index by {
            assert(m0.node_ok(p as int));
            let ox: int = if x < at {
                x
            } else {
                x + 1
            };
            let ol: int = if l < at {
                l
            } else {
                l + 1
            };
            assert(ch2[x] == ch_p[ox]);
            assert(ch2[l] == ch_p[ol]);
            assert(pre[ch_p[ox] as int].item_index
                < pre[ch_p[ol] as int].item_index);
        }
        // Every attached node but the parent keeps its balance.
        assert forall|i: int| 0 <= i < nodes2.len()
            && (#[trigger] nodes2[i]).expanded && i != p
            implies m2.node_ok(i) by {
            assert(i != c);
            assert(m0.node_ok(i));
            let ch_i = nodes2[i].children@;
            assert(ch_i == pre[i].children@);
            assert forall|x: int| 0 <= x < ch_i.len() implies {
                &&& (#[trigger] ch_i[x]) != c
                &&& (ch_i[x] as int) < pre.len()
            } by {
                assert(i < ch_i[x] as int && (ch_i[x] as int) < pre.len());
                if ch_i[x] == c {
                    assert(pre[c as int].parent == Some(i as usize));
                }
            }
            lemma_occ_zero(ch_i, c, 0);
            lemma_ssum_update(mid, c, cn2, ch_i, 0);
            lemma_ssum_update(pre, p, mid[p as int], ch_i, 0);
            assert(ssum(nodes2, ch_i, 0) == ssum(pre, ch_i, 0));
        }
        assert(m2.node_links_ok(p as int));
        // The parent's balance is off by exactly the removed subtree.
        assert forall|x: int| 0 <= x < ch2.len()
            implies ((#[trigger] ch2[x]) as int) < pre.len() && ch2[x] != c by {}
        lemma_ssum_update(pre, p, mid[p as int], ch2, 0);
        lemma_occ_zero(ch2, c, 0);
        lemma_ssum_update(mid, c, cn2, ch2, 0);
        assert(ssum(nodes2, ch2, 0) == ssum(pre, ch2, 0));
        lemma_ssum_nonneg(nodes2, ch2, 0);
        assert(m0.node_ok(p as int));
        lemma_anc_exp_update_above(pre, p as int, mid[p as int], p as int);
        lemma_anc_exp_update_above(mid, c as int, cn2, p as int);
    
    assert(m2.wf_pending(p as int, -(k as int)));
}


/// Attaching a fresh expanded node for the row at offset `rel` under `p`
/// leaves every node consistent except `p`, whose count still lacks the
/// inserted subtree.
#[verifier::rlimit(100)]
#[verifier::spinoff_prover]
proof fn lemma_expand_reestablish(m0: TreeListModel, m2: TreeListModel, p: usize,
    rel: u32, at: int, k: u32, id: usize, fresh: TreeNode, pre: Seq<TreeNode>,
    ch_p: Seq<usize>, mid: Seq<TreeNode>)
    requires
        m0.wf(),
        pre == m0.nodes@,
        pre.len() <= usize::MAX,
        (p as int) < pre.len(),
        pre[p as int].expanded,
        rel < pre[p as int].direct_count,
        ancestors_expanded(pre, p as int),
        chain_fits(pre, p as int, k),
        ch_p == pre[p as int].children@,
        0 <= at <= ch_p.len(),
        forall|x: int| 0 <= x < at
            ==> pre[(#[trigger] ch_p[x]) as int].item_index < rel,
        forall|x: int| at <= x < ch_p.len()
            ==> pre[(#[trigger] ch_p[x]) as int].item_index > rel,
        id == pre.len(),
        fresh.item matches Some(it) && m0.capture.spec_item_valid(it)
            && fresh.direct_count == m0.capture.spec_child_count(it),
        fresh.parent == Some(p),
        fresh.item_index == rel,
        fresh.direct_count == k,
        fresh.child_count == k,
        fresh.children@.len() == 0,
        fresh.expanded,
        m2.capture == m0.capture,
        mid == pre.push(fresh),
        m2.nodes@ == mid.update(p as int, m2.nodes@[p as int]),
        m2.nodes@[p as int].children@ == ch_p.insert(at, id),
        m2.nodes@[p as int].item == pre[p as int].item,
        m2.nodes@[p as int].parent == pre[p as int].parent,
        m2.nodes@[p as int].item_index == pre[p as int].item_index,
        m2.nodes@[p as int].direct_count == pre[p as int].direct_count,
        m2.nodes@[p as int].child_count == pre[p as int].child_count,
        m2.nodes@[p as int].expanded == pre[p as int].expanded,
    ensures
        m2.wf_pending(p as int, k as int),
        ancestors_expanded(m2.nodes@, p as int),
        chain_fits(m2.nodes@, p as int, k),
{
        let nodes2 = m2.nodes@;
        let pnode = nodes2[p as int];
        let ch2 = pnode.children@;
        assert(ch2 == ch_p.insert(at as int, id));
        assert(m0.node_ok(p as int));
        // Containment of other nodes in the parent's list.
        assert forall|i: int| 0 <= i < nodes2.len()
            && (#[trigger] nodes2[i]).expanded && i != 0 && i != id
            implies nodes2[i].parent matches Some(pp)
                && nodes2[pp as int].children@.contains(i as usize) by {
            assert(m0.node_ok(i));
            let pp = pre[i].parent->0;
            assert(pre[pp as int].children@.contains(i as usize));
            if pp as int == p as int {
                let w = choose|x: int| 0 <= x < ch_p.len()
                    && ch_p[x] == i as usize;
                if w < at {
                    assert(ch2[w] == ch_p[w]);
                    assert(ch2.contains(i as usize));
                } else {
                    assert(ch2[w + 1] == ch_p[w]);
                    assert(ch2.contains(i as usize));
                }
            }
        }
        // Every attached node but the parent keeps its balance.
        assert forall|i: int| 0 <= i < nodes2.len()
            && (#[trigger] nodes2[i]).expanded && i != p && i != id
            implies m2.node_ok(i) by {
            assert(m0.node_ok(i));
            let ch_i = nodes2[i].children@;
            assert(ch_i == pre[i].children@);
            assert forall|x: int| 0 <= x < ch_i.len()
                implies ((#[trigger] ch_i[x]) as int) < pre.len() by {
                assert(i < ch_i[x] as int && (ch_i[x] as int) < pre.len());
            }
            lemma_ssum_push(pre, fresh, ch_i, 0);
            lemma_ssum_update(mid, p, nodes2[p as int], ch_i, 0);
            assert(ssum(nodes2, ch_i, 0) == ssum(pre, ch_i, 0));
        }
        // The new node is consistent on its own.
        assert(ssum(nodes2, nodes2[id as int].children@, 0) == 0);
        assert(ch2[at as int] == id);
        assert(ch2.contains(id));
        assert(m2.node_ok(id as int));
        // The parent's links, with the new child in place.
        assert forall|x: int| 0 <= x < ch2.len() implies {
            let cc = (#[trigger] ch2[x]) as int;
            &&& p < cc < nodes2.len()
            &&& nodes2[cc].expanded
            &&& nodes2[cc].parent == Some(p)
            &&& nodes2[cc].item_index < pnode.direct_count
        } by {
            if x < at {
                assert(ch2[x] == ch_p[x]);
            } else if x > at {
                assert(ch2[x] == ch_p[x - 1]);
            }
        }
        assert forall|x: int, l: int| #![trigger ch2[x], ch2[l]]
            0 <= x < l < ch2.len()
            implies nodes2[ch2[x] as int].item_index
                < nodes2[ch2[l] as int].item_index by {
            if x != at && l != at {
                let ox: int = if x < at {
                    x
                } else {
                    x - 1
                };
                let ol: int = if l < at {
                    l
                } else {
                    l - 1
                };
                assert(ch2[x] == ch_p[ox]);
                assert(ch2[l] == ch_p[ol]);
                assert(pre[ch_p[ox] as int].item_index
                    < pre[ch_p[ol] as int].item_index);
            } else if l == at {
                assert(ch2[x] == ch_p[x]);
                assert(pre[ch_p[x] as int].item_index < rel);
            } else {
                assert(ch2[l] == ch_p[l - 1]);
                if l - 1 > at {
                    assert(pre[ch_p[at as int] as int].item_index
                        < pre[ch_p[l - 1] as int].item_index);
                }
                assert(!(pre[ch_p[l - 1] as int].item_index < rel));
                assert(pre[ch_p[l - 1] as int].item_index != rel);
            }
        }
        assert(m2.node_links_ok(p as int));
        assert forall|x: int| 0 <= x < ch_p.len()
            implies ((#[trigger] ch_p[x]) as int) < pre.len() by {}
        lemma_ssum_push(pre, fresh, ch_p, 0);
        lemma_ssum_update(mid, p, nodes2[p as int], ch_p, 0);
        lemma_ssum_insert(mid.update(p as int, nodes2[p as int]), ch_p,
            at as int, id, 0);
        lemma_ssum_nonneg(nodes2, ch2, 0);
        lemma_anc_exp_push(pre, fresh, p as int);
        lemma_anc_exp_update_above(mid, p as int, nodes2[p as int], p as int);
        lemma_chain_fits_push(pre, fresh, p as int, k);
        lemma_chain_fits_update_above(mid, p as int, nodes2[p as int],
            p as int, k);
    
    assert(m2.wf_pending(p as int, k as int));
}

impl TreeListModel {
    /// Collapses the expanded node `c` (the row at `position`), removing
    /// the rows its subtree contributed.
    #[verifier::loop_isolation(false)]
    #[verifier::rlimit(100)]
    #[verifier::spinoff_prover]
    fn collapse_at(&mut self, p: usize, c: usize, position: u32) -> (r: Result<
        Option<ItemsChanged>,
        ModelError,
    >)
        requires
            old(self).wf(),
            position < u32::MAX,
            (c as int) < old(self).nodes@.len(),
            c != 0,
            old(self).nodes@[c as int].expanded,
            old(self).nodes@[c as int].parent == Some(p),
            (p as int) < old(self).nodes@.len(),
            old(self).nodes@[p as int].expanded,
            ancestors_expanded(old(self).nodes@, p as int),
        ensures
            final(self).wf(),
            final(self).capture == old(self).capture,
            r == Ok::<Option<ItemsChanged>, ModelError>(Some(ItemsChanged {
                position: (position + 1) as u32,
                removed: old(self).nodes@[c as int].child_count,
                added: 0,
            })),
            final(self).spec_n_items() as int == old(self).spec_n_items()
                - old(self).nodes@[c as int].child_count,
    {
        proof {
            assert(self.node_ok(c as int));
            assert(self.node_ok(p as int));
        }
        let k = self.nodes[c].child_count;
        // Find and remove the node in its parent's child list.
        let m = self.nodes[p].children.len();
        let mut at: usize = 0;
        while at < m && self.nodes[p].children[at] != c
            invariant
                at <= m,
                forall|x: int| 0 <= x < at
                    ==> (#[trigger] self.nodes@[p as int].children@[x]) != c,
            decreases m - at,
        {
            at = at + 1;
        }
        if at >= m {
            proof {
                let ch = self.nodes@[p as int].children@;
                assert(ch.contains(c));
                let w = choose|x: int| 0 <= x < ch.len() && ch[x] == c;
                assert(ch[w] != c);
                assert(false);
            }
            return Err(ModelError::InvalidPosition);
        }
        proof {
            assert(self.nodes@[p as int].children@[at as int] == c);
        }
        let ghost pre = self.nodes@;
        let ghost ch_p = pre[p as int].children@;
        let nref = &mut self.nodes[p];
        nref.children.remove(at);
        let ghost mid = self.nodes@;
        let cref = &mut self.nodes[c];
        cref.expanded = false;
        proof {
            vstd::std_specs::vec::axiom_spec_len(&old(self).nodes);
            lemma_collapse_reestablish(*old(self), *self, p, c, at as int, k, pre, ch_p,
                mid);
        }
        self.adjust_ancestors(p, k, false);
        Ok(Some(ItemsChanged { position: position + 1, removed: k, added: 0 }))
    }

    /// Expands the collapsed row at `position`, the direct child of arena
    /// node `p` at offset `rel`, inserting its children right after it.
    #[verifier::loop_isolation(false)]
    #[verifier::rlimit(100)]
    #[verifier::spinoff_prover]
    fn expand_at(&mut self, p: usize, rel: u32, position: u32) -> (r: Result<
        Option<ItemsChanged>,
        ModelError,
    >)
        requires
            old(self).wf(),
            position < u32::MAX,
            (p as int) < old(self).nodes@.len(),
            old(self).nodes@[p as int].expanded,
            rel < old(self).nodes@[p as int].direct_count,
            ancestors_expanded(old(self).nodes@, p as int),
            forall|k: int| 0 <= k < old(self).nodes@[p as int].children@.len()
                ==> old(self).nodes@[(#[trigger] old(self).nodes@[
                    p as int].children@[k]) as int].item_index != rel,
        ensures
            final(self).wf(),
            final(self).capture == old(self).capture,
            ({
                let item = old(self).spec_item_at(p as int, rel);
                let k = old(self).capture.spec_child_count(item);
                if k <= u32::MAX && chain_fits(old(self).nodes@, p as int, k as u32) {
                    r == Ok::<Option<ItemsChanged>, ModelError>(Some(ItemsChanged {
                        position: (position + 1) as u32,
                        removed: 0,
                        added: k as u32,
                    })) && final(self).spec_n_items() as int == old(self).spec_n_items()
                        + k
                } else {
                    r == Err::<Option<ItemsChanged>, ModelError>(ModelError::RangeError)
                        && final(self).nodes@ == old(self).nodes@
                }
            }),
    {
        proof {
            assert(self.node_ok(p as int));
        }
        let parent_item = &self.nodes[p].item;
        let item = match self.capture.get_item(parent_item, rel as u64) {
            Ok(it) => it,
            Err(..) => {
                proof {
                    assert(false);
                }
                return Err(ModelError::InvalidPosition);
            },
        };
        proof {
            match self.nodes@[p as int].item {
                Some(pit) => {
                    self.capture.lemma_child_item_valid(pit, rel as u64);
                },
                None => {},
            }
        }
        let count = match self.capture.child_count(&item) {
            Ok(n) => n,
            Err(..) => {
                proof {
                    assert(false);
                }
                return Err(ModelError::InvalidPosition);
            },
        };
        if count > u32::MAX as u64 {
            return Err(ModelError::RangeError);
        }
        let k = count as u32;
        if !self.check_chain(p, k) {
            return Err(ModelError::RangeError);
        }
        // Where the new node goes among its expanded siblings.
        let m = self.nodes[p].children.len();
        let mut at: usize = 0;
        while at < m && self.nodes[self.nodes[p].children[at]].item_index < rel
            invariant
                at <= m,
                forall|x: int| 0 <= x < at ==> self.nodes@[(
                    #[trigger] self.nodes@[p as int].children@[x]) as int].item_index
                    < rel,
            decreases m - at,
        {
            proof {
                assert(self.node_ok(p as int));
            }
            at = at + 1;
        }
        if at < m {
            proof {
                assert(self.node_ok(p as int));
            }
            if self.nodes[self.nodes[p].children[at]].item_index == rel {
                // No expanded sibling occupies a collapsed row's offset.
                proof {
                    assert(false);
                }
                return Err(ModelError::InvalidPosition);
            }
        }
        let id = self.nodes.len();
        let ghost pre = self.nodes@;
        let ghost ch_p = pre[p as int].children@;
        let fresh = TreeNode {
            item: Some(item),
            parent: Some(p),
            item_index: rel,
            direct_count: k,
            child_count: k,
            children: Vec::new(),
            expanded: true,
        };
        self.nodes.push(fresh);
        let ghost mid = self.nodes@;
        let nref = &mut self.nodes[p];
        nref.children.insert(at, id);
        proof {
            vstd::std_specs::vec::axiom_spec_len(&old(self).nodes);
            lemma_expand_reestablish(*old(self), *self, p, rel, at as int, k, id, fresh,
                pre, ch_p, mid);
        }
        self.adjust_ancestors(p, k, true);
        Ok(Some(ItemsChanged { position: position + 1, removed: 0, added: k }))
    }

    /// Expands or collapses the row at `position`. A transition reports
    /// exactly one notification: expansion inserts the row's children right
    /// after it, collapse removes the rows its subtree contributed; asking
    /// for the state a row already has changes nothing. Fails on a position
    /// past the end, or when a count would overrun the 32-bit limit.
    pub fn set_expanded(&mut self, position: u32, expand: bool) -> (r: Result<
        Option<ItemsChanged>,
        ModelError,
    >)
        requires
            old(self).wf(),
        ensures
            final(self).wf(),
            final(self).capture == old(self).capture,
            position >= old(self).spec_n_items() ==> r == Err::<Option<ItemsChanged>,
                ModelError>(ModelError::InvalidPosition)
                && final(self).nodes@ == old(self).nodes@,
            position < old(self).spec_n_items() ==> match spec_locate(old(self).nodes@,
                position) {
                RowLoc::Expanded(c) => {
                    &&& expand ==> r == Ok::<Option<ItemsChanged>, ModelError>(None)
                        && final(self).nodes@ == old(self).nodes@
                    &&& !expand ==> r == Ok::<Option<ItemsChanged>, ModelError>(Some(
                        ItemsChanged {
                            position: (position + 1) as u32,
                            removed: old(self).nodes@[c as int].child_count,
                            added: 0,
                        })) && final(self).spec_n_items() as int
                            == old(self).spec_n_items()
                                - old(self).nodes@[c as int].child_count
                },
                RowLoc::Collapsed(p, off) => {
                    &&& !expand ==> r == Ok::<Option<ItemsChanged>, ModelError>(None)
                        && final(self).nodes@ == old(self).nodes@
                    &&& expand ==> ({
                        let item = old(self).spec_item_at(p as int, off);
                        let k = old(self).capture.spec_child_count(item);
                        if k <= u32::MAX && chain_fits(old(self).nodes@, p as int,
                            k as u32) {
                            r == Ok::<Option<ItemsChanged>, ModelError>(Some(
                                ItemsChanged {
                                    position: (position + 1) as u32,
                                    removed: 0,
                                    added: k as u32,
                                })) && final(self).spec_n_items() as int
                                    == old(self).spec_n_items() + k
                        } else {
                            r == Err::<Option<ItemsChanged>, ModelError>(
                                ModelError::RangeError)
                                && final(self).nodes@ == old(self).nodes@
                        }
                    })
                },
            },
    {
        if position >= self.n_items() {
            return Err(ModelError::InvalidPosition);
        }
        let (p, rel, found) = self.locate(position);
        match found {
            Some(c) => {
                if expand {
                    // Already expanded: no transition.
                    return Ok(None);
                }
                self.collapse_at(p, c, position)
            },
            None => {
                if !expand {
                    // Already collapsed: no transition.
                    return Ok(None);
                }
                self.expand_at(p, rel, position)
            },
        }
    }
}

} // verus!
