use vstd::prelude::*;

use crate::expressiongraph::{ExpressionGraphParameterId, ExpressionNodeId};
use crate::uniqueid::UniqueId;

verus! {

/// Identifies a variable of a lexical layout.
#[derive(Debug, Copy, Clone, PartialEq, Eq, Structural, Hash)]
pub struct VariableId(pub usize);

impl VariableId {
    /// The identifier with the given integer.
    pub fn new(value: usize) -> (id: VariableId)
        ensures
            id.0 == value,
    {
        VariableId(value)
    }
}

impl Default for VariableId {
    /// The first identifier, 1.
    fn default() -> (id: VariableId)
        ensures
            id.0 == 1,
    {
        VariableId(1)
    }
}

impl UniqueId for VariableId {
    open spec fn id_value(&self) -> int {
        self.0 as int
    }

    fn with_value(value: usize) -> (id: VariableId) {
        VariableId(value)
    }

    fn value(&self) -> (v: usize) {
        self.0
    }

    fn next(&self) -> (n: VariableId) {
        VariableId(self.0 + 1)
    }
}

/// What a node of an expression's syntax tree is.
pub enum ASTNodeValue {
    /// A hole still to be filled.
    Empty,
    /// An operator or function applied to child nodes.
    Internal(Box<InternalASTNode>),
    /// A use of a variable.
    Variable(VariableId),
    /// A use of one of the expression graph's parameters.
    GraphInput(ExpressionGraphParameterId),
}

/// A node of an expression's syntax tree.
pub struct ASTNode {
    value: ASTNodeValue,
}

/// How an operator or function node lays out its children.
pub enum InternalASTNodeValue {
    Prefix(ExpressionNodeId, ASTNode),
    Infix(ASTNode, ExpressionNodeId, ASTNode),
    Postfix(ASTNode, ExpressionNodeId),
    Function(ExpressionNodeId, Vec<ASTNode>),
}

/// An operator or function node of a syntax tree.
pub struct InternalASTNode {
    value: InternalASTNodeValue,
}

impl InternalASTNode {
    pub closed spec fn spec_value(self) -> InternalASTNodeValue {
        self.value
    }

    /// How many children the node has.
    pub open spec fn spec_num_children(self) -> nat {
        match self.spec_value() {
            InternalASTNodeValue::Prefix(_, _) => 1,
            InternalASTNodeValue::Infix(_, _, _) => 2,
            InternalASTNodeValue::Postfix(_, _) => 1,
            InternalASTNodeValue::Function(_, cs) => cs@.len(),
        }
    }

    /// The child at position `i`, from left to right.
    pub open spec fn spec_child(self, i: int) -> ASTNode {
        match self.spec_value() {
            InternalASTNodeValue::Prefix(_, c) => c,
            InternalASTNodeValue::Infix(a, _, b) => if i == 0 {
                a
            } else {
                b
            },
            InternalASTNodeValue::Postfix(c, _) => c,
            InternalASTNodeValue::Function(_, cs) => cs@[i],
        }
    }

    /// The expression node this syntax node stands for.
    pub open spec fn spec_expression_node_id(self) -> ExpressionNodeId {
        match self.spec_value() {
            InternalASTNodeValue::Prefix(id, _) => id,
            InternalASTNodeValue::Infix(_, id, _) => id,
            InternalASTNodeValue::Postfix(_, id) => id,
            InternalASTNodeValue::Function(id, _) => id,
        }
    }

    pub fn new(value: InternalASTNodeValue) -> (n: InternalASTNode)
        ensures
            n.spec_value() == value,
    {
        InternalASTNode { value }
    }

    pub fn value(&self) -> (v: &InternalASTNodeValue)
        ensures
            *v == self.spec_value(),
    {
        &self.value
    }

    /// The expression node this syntax node stands for.
    pub fn expression_node_id(&self) -> (id: ExpressionNodeId)
        ensures
            id == self.spec_expression_node_id(),
    {
        match &self.value {
            InternalASTNodeValue::Prefix(id, _) => *id,
            InternalASTNodeValue::Infix(_, id, _) => *id,
            InternalASTNodeValue::Postfix(_, id) => *id,
            InternalASTNodeValue::Function(id, _) => *id,
        }
    }

    /// How many children the node has.
    pub fn num_children(&self) -> (n: usize)
        ensures
            n == self.spec_num_children(),
    {
        match &self.value {
            InternalASTNodeValue::Prefix(_, _) => 1,
            InternalASTNodeValue::Infix(_, _, _) => 2,
            InternalASTNodeValue::Postfix(_, _) => 1,
            InternalASTNodeValue::Function(_, c) => c.len(),
        }
    }

    fn child_ref(&self, i: usize) -> (c: &ASTNode)
        requires
            i < self.spec_num_children(),
        ensures
            *c == self.spec_child(i as int),
    {
        match &self.value {
            InternalASTNodeValue::Prefix(_, c) => c,
            InternalASTNodeValue::Infix(a, _, b) => if i == 0 {
                a
            } else {
                b
            },
            InternalASTNodeValue::Postfix(c, _) => c,
            InternalASTNodeValue::Function(_, cs) => &cs[i],
        }
    }
}

impl ASTNode {
    pub closed spec fn spec_value(self) -> ASTNodeValue {
        self.value
    }

    /// How many children the node has.
    pub open spec fn spec_num_children(self) -> nat {
        match self.spec_value() {
            ASTNodeValue::Internal(n) => n.spec_num_children(),
            _ => 0,
        }
    }

    /// The child at position `i`, from left to right.
    pub open spec fn spec_child(self, i: int) -> ASTNode {
        match self.spec_value() {
            ASTNodeValue::Internal(n) => n.spec_child(i),
            _ => self,
        }
    }

    pub fn new(value: ASTNodeValue) -> (n: ASTNode)
        ensures
            n.spec_value() == value,
    {
        ASTNode { value }
    }

    pub fn value(&self) -> (v: &ASTNodeValue)
        ensures
            *v == self.spec_value(),
    {
        &self.value
    }

    /// The operator or function node, if this is one.
    pub fn internal_node(&self) -> (n: Option<&InternalASTNode>)
        ensures
            n == match self.spec_value() {
                ASTNodeValue::Internal(b) => Some(&*b),
                _ => None,
            },
    {
        match &self.value {
            ASTNodeValue::Internal(n) => Some(&**n),
            _ => None,
        }
    }

    /// How many children the node has.
    pub fn num_children(&self) -> (n: usize)
        ensures
            n == self.spec_num_children(),
    {
        match &self.value {
            ASTNodeValue::Internal(n) => n.num_children(),
            _ => 0,
        }
    }

    /// Whether the node is a hole still to be filled.
    pub fn is_empty(&self) -> (b: bool)
        ensures
            b == (self.spec_value() is Empty),
    {
        match &self.value {
            ASTNodeValue::Empty => true,
            _ => false,
        }
    }

    fn child_ref(&self, i: usize) -> (c: &ASTNode)
        requires
            i < self.spec_num_children(),
        ensures
            *c == self.spec_child(i as int),
    {
        match &self.value {
            ASTNodeValue::Internal(n) => n.child_ref(i),
            _ => self,
        }
    }

    /// The node reached from this one by following `path`, each step the
    /// position of a child.
    pub fn get_along_path(&self, path: &[usize]) -> (n: &ASTNode)
        requires
            valid_path(*self, path@),
        ensures
            *n == node_at(*self, path@),
    {
        let mut node: &ASTNode = self;
        let mut k: usize = 0;
        while k < path.len()
            invariant
                k <= path@.len(),
                valid_path(*self, path@),
                *node == node_at(*self, path@.take(k as int)),
            decreases path.len() - k,
        {
            proof {
                lemma_valid_prefix(*self, path@, k + 1);
                assert(path@.take(k + 1).drop_last() =~= path@.take(k as int));
            }
            node = node.child_ref(path[k]);
            k = k + 1;
        }
        proof {
            assert(path@.take(k as int) =~= path@);
        }
        node
    }
}

/// The node reached from `tree` by following `p`.
pub open spec fn node_at(tree: ASTNode, p: Seq<usize>) -> ASTNode
    decreases p.len(),
{
    if p.len() == 0 {
        tree
    } else {
        node_at(tree, p.drop_last()).spec_child(p.last() as int)
    }
}

/// Every step of `p` names an existing child.
pub open spec fn valid_path(tree: ASTNode, p: Seq<usize>) -> bool
    decreases p.len(),
{
    p.len() == 0 || (valid_path(tree, p.drop_last()) && p.last() < node_at(
        tree,
        p.drop_last(),
    ).spec_num_children())
}

/// The path from `node` down to its last descendant, taking the last child
/// at each level.
pub open spec fn rightmost_path(node: ASTNode) -> Seq<usize>
    decreases node,
{
    match node.spec_value() {
        ASTNodeValue::Internal(n) => match n.spec_value() {
            InternalASTNodeValue::Prefix(_, c) => seq![0usize] + rightmost_path(c),
            InternalASTNodeValue::Infix(_, _, b) => seq![1usize] + rightmost_path(b),
            InternalASTNodeValue::Postfix(c, _) => seq![0usize] + rightmost_path(c),
            InternalASTNodeValue::Function(_, cs) => if cs@.len() > 0 {
                seq![(cs@.len() - 1) as usize] + rightmost_path(cs@[cs@.len() - 1])
            } else {
                seq![]
            },
        },
        _ => seq![],
    }
}

/// Going up from `p`, the path to the next sibling of the nearest node on
/// the way (the node itself first) that has one.
pub open spec fn climb(tree: ASTNode, p: Seq<usize>) -> Option<Seq<usize>>
    decreases p.len(),
{
    if p.len() == 0 {
        None
    } else if p.last() + 1 < node_at(tree, p.drop_last()).spec_num_children() {
        Some(p.drop_last().push((p.last() + 1) as usize))
    } else {
        climb(tree, p.drop_last())
    }
}

/// The node before the one at `p` in a left-to-right reading of the tree
/// (each node before its children): the last descendant of the previous
/// sibling, or else the parent. The first node stays where it is.
pub open spec fn path_left(tree: ASTNode, p: Seq<usize>) -> Seq<usize> {
    if p.len() == 0 {
        p
    } else if p.last() == 0 {
        p.drop_last()
    } else {
        let q = p.drop_last().push((p.last() - 1) as usize);
        q + rightmost_path(node_at(tree, q))
    }
}

/// The node after the one at `p` in a left-to-right reading of the tree
/// (each node before its children): the first child, or else the next
/// sibling of the nearest node on the way up. The last node stays where
/// it is.
pub open spec fn path_right(tree: ASTNode, p: Seq<usize>) -> Seq<usize> {
    if node_at(tree, p).spec_num_children() > 0 {
        p.push(0)
    } else {
        match climb(tree, p) {
            Some(q) => q,
            None => rightmost_path(tree),
        }
    }
}

proof fn lemma_valid_prefix(tree: ASTNode, p: Seq<usize>, k: int)
    requires
        valid_path(tree, p),
        0 <= k <= p.len(),
    ensures
        valid_path(tree, p.take(k)),
        k < p.len() ==> p[k] < node_at(tree, p.take(k)).spec_num_children(),
    decreases p.len() - k,
{
    if k < p.len() {
        lemma_valid_prefix(tree, p, k + 1);
        assert(p.take(k + 1).drop_last() =~= p.take(k));
    } else {
        assert(p.take(k) =~= p);
    }
}

proof fn lemma_rightmost_step(node: ASTNode)
    ensures
        node.spec_num_children() > 0 ==> rightmost_path(node) == seq![
            (node.spec_num_children() - 1) as usize,
        ] + rightmost_path(node.spec_child(node.spec_num_children() - 1)),
        node.spec_num_children() == 0 ==> rightmost_path(node) == Seq::<usize>::empty(),
{
}

proof fn lemma_push_child(tree: ASTNode, p: Seq<usize>, i: usize)
    ensures
        node_at(tree, p.push(i)) == node_at(tree, p).spec_child(i as int),
        valid_path(tree, p.push(i)) == (valid_path(tree, p) && i < node_at(tree, p).spec_num_children()),
{
    assert(p.push(i).drop_last() =~= p);
}

/// A position in a syntax tree: the positions of the children to take,
/// from the root down.
#[derive(Clone)]
pub struct ASTPath {
    steps: Vec<usize>,
}

impl View for ASTPath {
    type V = Seq<usize>;

    closed spec fn view(&self) -> Seq<usize> {
        self.steps@
    }
}

impl ASTPath {
    /// The path with the given steps.
    pub fn new(steps: Vec<usize>) -> (p: ASTPath)
        ensures
            p@ == steps@,
    {
        ASTPath { steps }
    }

    /// Whether the path is at the root.
    pub fn at_beginning(&self) -> (b: bool)
        ensures
            b == (self@.len() == 0),
    {
        self.steps.len() == 0
    }

    /// The steps of the path.
    pub fn steps(&self) -> (s: &[usize])
        ensures
            s@ == self@,
    {
        self.steps.as_slice()
    }

    /// Moves down to the child at position `index`.
    pub fn go_into(&mut self, index: usize)
        ensures
            final(self)@ == old(self)@.push(index),
    {
        self.steps.push(index);
    }

    /// Moves up to the parent, unless at the root.
    pub fn go_out(&mut self)
        ensures
            final(self)@ == if old(self)@.len() > 0 {
                old(self)@.drop_last()
            } else {
                old(self)@
            },
    {
        let _ = self.steps.pop();
    }

    /// The path at the root.
    pub fn new_at_beginning() -> (p: ASTPath)
        ensures
            p@ == Seq::<usize>::empty(),
    {
        ASTPath { steps: Vec::new() }
    }

    /// The path to the last node of `tree` when it is read from left to
    /// right: the last child at every level.
    pub fn new_at_end_of(tree: &ASTNode) -> (p: ASTPath)
        ensures
            p@ == rightmost_path(*tree),
            valid_path(*tree, p@),
    {
        let mut p = ASTPath { steps: Vec::new() };
        proof {
            assert(valid_path(*tree, p@));
            assert(node_at(*tree, p@) == *tree);
        }
        p.descend_rightmost(tree);
        proof {
            assert(Seq::<usize>::empty() + rightmost_path(*tree) =~= rightmost_path(*tree));
        }
        p
    }

    /// Whether the path is at the root.
    pub fn is_at_beginning(&self) -> (b: bool)
        ensures
            b == (self@.len() == 0),
    {
        self.steps.len() == 0
    }

    /// Whether the path is at the last node of `tree`.
    pub fn is_at_end_of(&self, tree: &ASTNode) -> (b: bool)
        ensures
            b == (self@ == rightmost_path(*tree)),
    {
        let end = ASTPath::new_at_end_of(tree);
        assert(end.steps@ == rightmost_path(*tree));
        if end.steps.len() != self.steps.len() {
            assert(self.steps@.len() != rightmost_path(*tree).len());
            return false;
        }
        let mut i: usize = 0;
        while i < self.steps.len()
            invariant
                end.steps@.len() == self.steps@.len(),
                end.steps@ == rightmost_path(*tree),
                i <= self.steps@.len(),
                forall|j: int| 0 <= j < i ==> self.steps@[j] == end.steps@[j],
            decreases self.steps.len() - i,
        {
            if self.steps[i] != end.steps[i] {
                assert(self.steps@[i as int] != rightmost_path(*tree)[i as int]);
                return false;
            }
            i = i + 1;
        }
        assert(self.steps@ =~= end.steps@);
        true
    }

    /// Moves to the root.
    pub fn clear(&mut self)
        ensures
            final(self)@ == Seq::<usize>::empty(),
    {
        self.steps.clear();
    }

    fn descend_rightmost(&mut self, tree: &ASTNode)
        requires
            valid_path(*tree, old(self)@),
        ensures
            final(self)@ == old(self)@ + rightmost_path(node_at(*tree, old(self)@)),
            valid_path(*tree, final(self)@),
    {
        let ghost target = self.steps@ + rightmost_path(node_at(*tree, self.steps@));
        proof {
            assert(target =~= self.steps@ + rightmost_path(node_at(*tree, self.steps@)));
        }
        loop
            invariant
                valid_path(*tree, self.steps@),
                self.steps@ + rightmost_path(node_at(*tree, self.steps@)) == target,
            ensures
                self.steps@ == target,
                valid_path(*tree, self.steps@),
            decreases rightmost_path(node_at(*tree, self.steps@)).len(),
        {
            let node = tree.get_along_path(self.steps.as_slice());
            let num_children = node.num_children();
            proof {
                lemma_rightmost_step(*node);
            }
            if num_children > 0 {
                let ghost before = self.steps@;
                self.steps.push(num_children - 1);
                proof {
                    lemma_push_child(*tree, before, (num_children - 1) as usize);
                    assert(self.steps@ + rightmost_path(node_at(*tree, self.steps@)) =~= before
                        + rightmost_path(node_at(*tree, before)));
                }
            } else {
                proof {
                    assert(self.steps@ + Seq::<usize>::empty() =~= self.steps@);
                }
                break;
            }
        }
    }

    /// Moves to the node before this one when the tree is read from left
    /// to right, each node before its children.
    pub fn go_left(&mut self, tree: &ASTNode)
        requires
            valid_path(*tree, old(self)@),
        ensures
            final(self)@ == path_left(*tree, old(self)@),
            valid_path(*tree, final(self)@),
    {
        let ghost p = self.steps@;
        let last_step = match self.steps.pop() {
            Some(s) => s,
            None => {
                return;
            },
        };
        proof {
            assert(p.drop_last() == self.steps@);
            assert(p.last() == last_step);
        }
        if last_step > 0 {
            let ghost before = self.steps@;
            self.steps.push(last_step - 1);
            proof {
                lemma_push_child(*tree, before, (last_step - 1) as usize);
            }
            self.descend_rightmost(tree);
        }
    }

    /// Moves to the node after this one when the tree is read from left to
    /// right, each node before its children.
    pub fn go_right(&mut self, tree: &ASTNode)
        requires
            valid_path(*tree, old(self)@),
        ensures
            final(self)@ == path_right(*tree, old(self)@),
            valid_path(*tree, final(self)@),
    {
        let ghost p = self.steps@;
        if tree.get_along_path(self.steps.as_slice()).num_children() > 0 {
            self.steps.push(0);
            proof {
                lemma_push_child(*tree, p, 0);
            }
            return;
        }
        loop
            invariant
                p == old(self)@,
                valid_path(*tree, self.steps@),
                path_right(*tree, p) == match climb(*tree, self.steps@) {
                    Some(q) => q,
                    None => rightmost_path(*tree),
                },
            ensures
                self.steps@.len() == 0,
                path_right(*tree, p) == rightmost_path(*tree),
            decreases self.steps@.len(),
        {
            let ghost cur = self.steps@;
            let last_step = match self.steps.pop() {
                Some(s) => s,
                None => {
                    break;
                },
            };
            proof {
                assert(cur.drop_last() == self.steps@);
                assert(cur.last() == last_step);
                assert(valid_path(*tree, self.steps@));
            }
            let parent = tree.get_along_path(self.steps.as_slice());
            let num_siblings = parent.num_children();
            let next_step = last_step + 1;
            if next_step < num_siblings {
                let ghost before = self.steps@;
                self.steps.push(next_step);
                proof {
                    lemma_push_child(*tree, before, next_step);
                    assert(cur.drop_last().push((cur.last() + 1) as usize) =~= self.steps@);
                    assert(climb(*tree, cur) == Some(self.steps@));
                }
                return;
            }
        }
        proof {
            assert(self.steps@ =~= Seq::<usize>::empty());
            assert(node_at(*tree, self.steps@) == *tree);
            assert(Seq::<usize>::empty() + rightmost_path(*tree) =~= rightmost_path(*tree));
        }
        self.descend_rightmost(tree);
    }
}

/// A node's children can be counted in a `usize`.
proof fn lemma_num_children_fits(n: ASTNode)
    ensures
        n.spec_num_children() <= usize::MAX,
{
    match n.value {
        ASTNodeValue::Internal(i) => match i.value {
            InternalASTNodeValue::Function(_, cs) => {
                assert(cs.len() == cs@.len());
            },
            _ => {},
        },
        _ => {},
    }
}

/// Following the last child down from `a` ends at a node without children,
/// inside the tree, from which going up finds the same next sibling as
/// from `a`.
proof fn lemma_descend_to_last(tree: ASTNode, a: Seq<usize>)
    requires
        valid_path(tree, a),
    ensures
        valid_path(tree, a + rightmost_path(node_at(tree, a))),
        node_at(tree, a + rightmost_path(node_at(tree, a))).spec_num_children() == 0,
        climb(tree, a + rightmost_path(node_at(tree, a))) == climb(tree, a),
    decreases rightmost_path(node_at(tree, a)).len(),
{
    let n = node_at(tree, a);
    lemma_rightmost_step(n);
    lemma_num_children_fits(n);
    if n.spec_num_children() == 0 {
        assert(a + rightmost_path(n) =~= a);
    } else {
        let c = (n.spec_num_children() - 1) as usize;
        let a2 = a.push(c);
        lemma_push_child(tree, a, c);
        assert(rightmost_path(node_at(tree, a2)).len() < rightmost_path(n).len());
        lemma_descend_to_last(tree, a2);
        assert(a + rightmost_path(n) =~= a2 + rightmost_path(node_at(tree, a2)));
        assert(a2.drop_last() =~= a);
        assert(climb(tree, a2) == climb(tree, a));
    }
}

/// Where going up from `a` finds a next sibling, stepping back from that
/// sibling lands on the last node under `a`.
proof fn lemma_left_of_climb(tree: ASTNode, a: Seq<usize>)
    requires
        valid_path(tree, a),
        climb(tree, a) is Some,
    ensures
        path_left(tree, climb(tree, a)->0) == a + rightmost_path(node_at(tree, a)),
    decreases a.len(),
{
    let parent = a.drop_last();
    let last = a.last();
    assert(parent.push(last) =~= a);
    lemma_push_child(tree, parent, last);
    lemma_num_children_fits(node_at(tree, parent));
    if last + 1 < node_at(tree, parent).spec_num_children() {
        let q = parent.push((last + 1) as usize);
        assert(q.drop_last() =~= parent);
        assert(q.drop_last().push((q.last() - 1) as usize) =~= a);
    } else {
        let n = node_at(tree, parent);
        lemma_rightmost_step(n);
        lemma_left_of_climb(tree, parent);
        assert(parent + rightmost_path(n) =~= a + rightmost_path(node_at(tree, a)));
    }
}

/// Where going up from `a` finds no next sibling, the last node under `a` is
/// the last node of the tree.
proof fn lemma_no_climb_is_end(tree: ASTNode, a: Seq<usize>)
    requires
        valid_path(tree, a),
        climb(tree, a) is None,
    ensures
        a + rightmost_path(node_at(tree, a)) == rightmost_path(tree),
    decreases a.len(),
{
    if a.len() == 0 {
        assert(a + rightmost_path(tree) =~= rightmost_path(tree));
    } else {
        let parent = a.drop_last();
        let last = a.last();
        assert(parent.push(last) =~= a);
        lemma_push_child(tree, parent, last);
        let n = node_at(tree, parent);
        lemma_rightmost_step(n);
        lemma_no_climb_is_end(tree, parent);
        assert(parent + rightmost_path(n) =~= a + rightmost_path(node_at(tree, a)));
    }
}

/// Moving right and then left comes back, from every node but the last.
pub proof fn law_left_undoes_right(tree: ASTNode, p: Seq<usize>)
    requires
        valid_path(tree, p),
        p != rightmost_path(tree),
    ensures
        path_left(tree, path_right(tree, p)) == p,
{
    let n = node_at(tree, p);
    if n.spec_num_children() > 0 {
        assert(p.push(0).drop_last() =~= p);
    } else {
        lemma_rightmost_step(n);
        assert(p + rightmost_path(n) =~= p);
        if climb(tree, p) is None {
            lemma_no_climb_is_end(tree, p);
        } else {
            lemma_left_of_climb(tree, p);
        }
    }
}

/// Moving left and then right comes back, from every node but the first.
pub proof fn law_right_undoes_left(tree: ASTNode, p: Seq<usize>)
    requires
        valid_path(tree, p),
        p.len() > 0,
    ensures
        path_right(tree, path_left(tree, p)) == p,
{
    let parent = p.drop_last();
    let last = p.last();
    assert(parent.push(last) =~= p);
    lemma_push_child(tree, parent, last);
    if last == 0 {
        lemma_push_child(tree, parent, 0);
    } else {
        let q = parent.push((last - 1) as usize);
        lemma_push_child(tree, parent, (last - 1) as usize);
        lemma_descend_to_last(tree, q);
        assert(q.drop_last() =~= parent);
        assert(parent.push((q.last() + 1) as usize) =~= p);
    }
}

/// The root is in every tree.
pub proof fn lemma_root_valid(tree: ASTNode)
    ensures
        valid_path(tree, Seq::<usize>::empty()),
{
}

/// A variable of a lexical layout: its name and the expression it stands for.
pub struct VariableDefinition {
    name: String,
    value: ASTNode,
}

impl VariableDefinition {
    pub closed spec fn spec_name(&self) -> Seq<char> {
        self.name@
    }

    pub closed spec fn spec_value(&self) -> ASTNode {
        self.value
    }

    pub fn new(name: String, value: ASTNode) -> (d: VariableDefinition)
        ensures
            d.spec_name() == name@,
            d.spec_value() == value,
    {
        VariableDefinition { name, value }
    }

    pub fn name(&self) -> (r: &str)
        ensures
            r@ == self.spec_name(),
    {
        self.name.as_str()
    }

    pub fn value(&self) -> (r: &ASTNode)
        ensures
            *r == self.spec_value(),
    {
        &self.value
    }
}

} // verus!
