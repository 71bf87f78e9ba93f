//! A binary tree kept in a stable arena: nodes refer to their children by
//! arena index, and removing a node empties its slot without moving others.
use vstd::prelude::*;

verus! {

/// Nodes are addressed by their position in the arena.
pub type TreeIndex = usize;

/// One node: a value and the arena indices of its children.
#[derive(Clone, Copy, Debug, PartialEq, Eq, Structural)]
pub struct TreeNode {
    pub value: usize,
    pub left: Option<TreeIndex>,
    pub right: Option<TreeIndex>,
}

impl TreeNode {
    pub fn new(value: usize, left: Option<TreeIndex>, right: Option<TreeIndex>) -> (r: Self)
        ensures
            r == (TreeNode { value, left, right }),
    {
        TreeNode { value, left, right }
    }
}

/// The arena and the index of the root, if any.
#[derive(Debug)]
pub struct Tree {
    arena: Vec<Option<TreeNode>>,
    root: Option<TreeIndex>,
}

/// What the node at `index` of `arena` is, if the slot exists and is filled.
pub open spec fn node_in(arena: Seq<Option<TreeNode>>, index: int) -> Option<TreeNode> {
    if 0 <= index < arena.len() {
        arena[index]
    } else {
        None
    }
}

impl Tree {
    /// The arena, slot by slot.
    pub closed spec fn arena(&self) -> Seq<Option<TreeNode>> {
        self.arena@
    }

    /// The root index, if one was set.
    pub closed spec fn root(&self) -> Option<TreeIndex> {
        self.root
    }

    pub fn new() -> (r: Self)
        ensures
            r.arena() == Seq::<Option<TreeNode>>::empty(),
            r.root() is None,
    {
        Self { arena: Vec::new(), root: None }
    }

    /// A preorder walk from the root.
    pub fn iter(&self) -> (r: PreorderIter)
        ensures
            r.stack() == (match self.root() {
                Some(i) => seq![i],
                None => Seq::<TreeIndex>::empty(),
            }),
    {
        PreorderIter::new(self.root)
    }

    pub fn set_root(&mut self, root: Option<TreeIndex>)
        ensures
            final(self).root() == root,
            final(self).arena() == old(self).arena(),
    {
        self.root = root
    }

    /// Puts `node` in a new slot at the end of the arena and returns its index.
    pub fn add_node(&mut self, node: TreeNode) -> (r: TreeIndex)
        ensures
            r == old(self).arena().len(),
            final(self).arena() == old(self).arena().push(Some(node)),
            final(self).root() == old(self).root(),
    {
        let index = self.arena.len();
        self.arena.push(Some(node));
        index
    }

    /// Empties the slot at `index` and returns what it held; an index past
    /// the arena changes nothing.
    pub fn remove_node_at(&mut self, index: TreeIndex) -> (r: Option<TreeNode>)
        ensures
            r == node_in(old(self).arena(), index as int),
            final(self).arena() == (if index < old(self).arena().len() {
                old(self).arena().update(index as int, None)
            } else {
                old(self).arena()
            }),
            final(self).root() == old(self).root(),
    {
        if index < self.arena.len() {
            let node = self.arena[index];
            self.arena.set(index, None);
            node
        } else {
            None
        }
    }

    /// The node at `index`, if the slot exists and is filled.
    pub fn node_at(&self, index: TreeIndex) -> (r: Option<&TreeNode>)
        ensures
            r == (match node_in(self.arena(), index as int) {
                Some(n) => Some(&n),
                None => None::<&TreeNode>,
            }),
    {
        if index < self.arena.len() {
            self.arena[index].as_ref()
        } else {
            None
        }
    }

    /// The node at `index`, to change in place, if the slot exists and is
    /// filled.
    pub fn node_at_mut(&mut self, index: TreeIndex) -> (r: Option<&mut TreeNode>)
        ensures
            r is Some <==> node_in(old(self).arena(), index as int) is Some,
            r matches Some(m) ==> *m == node_in(old(self).arena(), index as int)->Some_0
                && final(self).arena() == old(self).arena().update(index as int, Some(*final(m))),
            r is None ==> final(self).arena() == old(self).arena(),
            final(self).root() == old(self).root(),
    {
        if index < self.arena.len() {
            self.arena[index].as_mut()
        } else {
            None
        }
    }
}

/// A preorder walk over a tree, kept apart from the tree it walks: the
/// indices still to visit, the next one last.
pub struct PreorderIter {
    stack: Vec<TreeIndex>,
}

/// The stack after visiting a node: its right child below its left one.
pub open spec fn push_children(stack: Seq<TreeIndex>, node: TreeNode) -> Seq<TreeIndex> {
    let s = match node.right {
        Some(r) => stack.push(r),
        None => stack,
    };
    match node.left {
        Some(l) => s.push(l),
        None => s,
    }
}

/// One step of the walk: indices whose slot is empty are skipped; the first
/// index that holds a node is visited, and its children go on the stack.
pub open spec fn walk_step(stack: Seq<TreeIndex>, arena: Seq<Option<TreeNode>>) -> (Seq<TreeIndex>, Option<TreeIndex>)
    decreases stack.len(),
{
    if stack.len() == 0 {
        (stack, None)
    } else {
        match node_in(arena, stack.last() as int) {
            Some(node) => (push_children(stack.drop_last(), node), Some(stack.last())),
            None => walk_step(stack.drop_last(), arena),
        }
    }
}

impl PreorderIter {
    /// The indices still to visit.
    pub closed spec fn stack(&self) -> Seq<TreeIndex> {
        self.stack@
    }

    pub fn new(root: Option<TreeIndex>) -> (r: Self)
        ensures
            r.stack() == (match root {
                Some(i) => seq![i],
                None => Seq::<TreeIndex>::empty(),
            }),
    {
        if let Some(index) = root {
            PreorderIter { stack: vec![index] }
        } else {
            PreorderIter { stack: vec![] }
        }
    }

    /// The next index of the walk over `tree`, or `None` when it is over.
    pub fn next(&mut self, tree: &Tree) -> (r: Option<TreeIndex>)
        ensures
            (final(self).stack(), r) == walk_step(old(self).stack(), tree.arena()),
    {
        loop
            invariant
                walk_step(self.stack@, tree.arena()) == walk_step(old(self).stack(), tree.arena()),
            decreases self.stack@.len(),
        {
            let top = self.stack.pop();
            match top {
                None => {
                    return None;
                },
                Some(node_index) => {
                    if let Some(node) = tree.node_at(node_index) {
                        if let Some(right) = node.right {
                            self.stack.push(right)
                        }
                        if let Some(left) = node.left {
                            self.stack.push(left)
                        }
                        return Some(node_index);
                    }
                },
            }
        }
    }
}

} // verus!
