use vstd::prelude::*;

verus! {

/// Handle to an interned identifier name, valid for the lifetime of the
/// [`Arena`] that produced it.
#[derive(Clone, Copy, PartialEq, Eq, Structural, Debug)]
pub struct StringId(pub usize);

/// Handle to a syntax node, valid for the lifetime of the [`Arena`]
/// that produced it.
#[derive(Clone, Copy, PartialEq, Eq, Structural, Debug)]
pub struct NodeId(pub usize);

/// One expression node. Children are referenced by handle, never owned,
/// so several independent trees can live in one arena and share subtrees.
#[derive(Clone, Copy, PartialEq, Eq, Structural, Debug)]
pub enum Node {
    Identifier(StringId),
    Addition(NodeId, NodeId),
    Subtraction(NodeId, NodeId),
    Multiplication(NodeId, NodeId),
    Division(NodeId, NodeId),
    RightShift(NodeId, NodeId),
    LeftShift(NodeId, NodeId),
    Equal(NodeId, NodeId),
    NotEqual(NodeId, NodeId),
    Const(i64),
    Negation(NodeId),
    Conditional(NodeId, NodeId, NodeId),
}

/// The binary operators, named independently of the syntax tree so that
/// operator semantics can be stated once per domain.
#[derive(Clone, Copy, PartialEq, Eq, Structural, Debug)]
pub enum BinOp {
    Add,
    Sub,
    Mul,
    Div,
    Shr,
    Shl,
    Eq,
    Neq,
}

/// The operator and children of a binary node, if `node` is one.
pub open spec fn bin_op_of(node: Node) -> Option<(BinOp, NodeId, NodeId)> {
    match node {
        Node::Addition(a, b) => Some((BinOp::Add, a, b)),
        Node::Subtraction(a, b) => Some((BinOp::Sub, a, b)),
        Node::Multiplication(a, b) => Some((BinOp::Mul, a, b)),
        Node::Division(a, b) => Some((BinOp::Div, a, b)),
        Node::RightShift(a, b) => Some((BinOp::Shr, a, b)),
        Node::LeftShift(a, b) => Some((BinOp::Shl, a, b)),
        Node::Equal(a, b) => Some((BinOp::Eq, a, b)),
        Node::NotEqual(a, b) => Some((BinOp::Neq, a, b)),
        _ => None,
    }
}

/// A node is well formed at position `i` when every child handle points
/// strictly below `i` (the arena is append-only, so children always exist
/// before their parent) and every name handle is a live interner entry.
pub open spec fn node_wf(node: Node, i: int, n_names: int) -> bool {
    match node {
        Node::Identifier(s) => s.0 < n_names,
        Node::Addition(a, b) => a.0 < i && b.0 < i,
        Node::Subtraction(a, b) => a.0 < i && b.0 < i,
        Node::Multiplication(a, b) => a.0 < i && b.0 < i,
        Node::Division(a, b) => a.0 < i && b.0 < i,
        Node::RightShift(a, b) => a.0 < i && b.0 < i,
        Node::LeftShift(a, b) => a.0 < i && b.0 < i,
        Node::Equal(a, b) => a.0 < i && b.0 < i,
        Node::NotEqual(a, b) => a.0 < i && b.0 < i,
        Node::Const(_) => true,
        Node::Negation(a) => a.0 < i,
        Node::Conditional(c, t, f) => c.0 < i && t.0 < i && f.0 < i,
    }
}

/// Every node of the sequence is well formed at its own position.
pub open spec fn nodes_wf(nodes: Seq<Node>, n_names: int) -> bool {
    forall|i: int| 0 <= i < nodes.len() ==> node_wf(#[trigger] nodes[i], i, n_names)
}

/// `newer` grew out of `older` by appending only: every handle into
/// `older` still resolves to the same node in `newer`.
pub open spec fn arena_extends(older: Seq<Node>, newer: Seq<Node>) -> bool {
    older.len() <= newer.len() && older == newer.take(older.len() as int)
}

pub proof fn lemma_arena_extends_refl(s: Seq<Node>)
    ensures
        arena_extends(s, s),
{
    assert(s =~= s.take(s.len() as int));
}

pub proof fn lemma_arena_extends_trans(a: Seq<Node>, b: Seq<Node>, c: Seq<Node>)
    requires
        arena_extends(a, b),
        arena_extends(b, c),
    ensures
        arena_extends(a, c),
{
    assert(a =~= c.take(a.len() as int));
}

pub proof fn lemma_arena_push_extends(s: Seq<Node>, n: Node)
    ensures
        arena_extends(s, s.push(n)),
{
    assert(s =~= s.push(n).take(s.len() as int));
}

/// `newer` keeps every interned name of `older` under the same handle.
pub open spec fn names_extends(older: Seq<Seq<char>>, newer: Seq<Seq<char>>) -> bool {
    older.len() <= newer.len() && older == newer.take(older.len() as int)
}

pub proof fn lemma_names_extends_refl(s: Seq<Seq<char>>)
    ensures
        names_extends(s, s),
{
    assert(s =~= s.take(s.len() as int));
}

pub proof fn lemma_names_extends_trans(a: Seq<Seq<char>>, b: Seq<Seq<char>>, c: Seq<Seq<char>>)
    requires
        names_extends(a, b),
        names_extends(b, c),
    ensures
        names_extends(a, c),
{
    assert(a =~= c.take(a.len() as int));
}

pub proof fn lemma_names_extends_push(s: Seq<Seq<char>>, n: Seq<char>)
    ensures
        names_extends(s, s.push(n)),
{
    assert(s =~= s.push(n).take(s.len() as int));
}

/// A whole expression, as a mathematical value: what a tree in the arena
/// stands for, free of handles. Contracts about source text speak of
/// these.
pub enum Expr {
    Const(i64),
    Var(Seq<char>),
    Bin(BinOp, Box<Expr>, Box<Expr>),
    Neg(Box<Expr>),
    Cond(Box<Expr>, Box<Expr>, Box<Expr>),
}

/// The expression the tree rooted at `n` stands for.
pub open spec fn expr_at(nodes: Seq<Node>, names: Seq<Seq<char>>, n: int) -> Expr
    decreases n,
{
    if 0 <= n < nodes.len() {
        match nodes[n] {
            Node::Const(c) => Expr::Const(c),
            Node::Identifier(s) => if s.0 < names.len() {
                Expr::Var(names[s.0 as int])
            } else {
                arbitrary()
            },
            Node::Negation(a) => if a.0 < n {
                Expr::Neg(Box::new(expr_at(nodes, names, a.0 as int)))
            } else {
                arbitrary()
            },
            Node::Conditional(c, t, f) => if c.0 < n && t.0 < n && f.0 < n {
                Expr::Cond(
                    Box::new(expr_at(nodes, names, c.0 as int)),
                    Box::new(expr_at(nodes, names, t.0 as int)),
                    Box::new(expr_at(nodes, names, f.0 as int)),
                )
            } else {
                arbitrary()
            },
            node => match bin_op_of(node) {
                Some((op, a, b)) => if a.0 < n && b.0 < n {
                    Expr::Bin(
                        op,
                        Box::new(expr_at(nodes, names, a.0 as int)),
                        Box::new(expr_at(nodes, names, b.0 as int)),
                    )
                } else {
                    arbitrary()
                },
                None => arbitrary(),
            },
        }
    } else {
        arbitrary()
    }
}

/// Growing the arena never changes what an existing tree stands for.
pub proof fn lemma_expr_at_stable(
    nodes1: Seq<Node>,
    names1: Seq<Seq<char>>,
    nodes2: Seq<Node>,
    names2: Seq<Seq<char>>,
    n: int,
)
    requires
        nodes_wf(nodes1, names1.len() as int),
        0 <= n < nodes1.len(),
        arena_extends(nodes1, nodes2),
        names_extends(names1, names2),
    ensures
        expr_at(nodes2, names2, n) == expr_at(nodes1, names1, n),
    decreases n,
{
    assert(node_wf(nodes1[n], n, names1.len() as int));
    assert(nodes2[n] == nodes1[n]);
    match nodes1[n] {
        Node::Const(_) => {
        },
        Node::Identifier(s) => {
            assert(names2[s.0 as int] == names1[s.0 as int]);
        },
        Node::Negation(a) => {
            lemma_expr_at_stable(nodes1, names1, nodes2, names2, a.0 as int);
        },
        Node::Conditional(c, t, f) => {
            lemma_expr_at_stable(nodes1, names1, nodes2, names2, c.0 as int);
            lemma_expr_at_stable(nodes1, names1, nodes2, names2, t.0 as int);
            lemma_expr_at_stable(nodes1, names1, nodes2, names2, f.0 as int);
        },
        node => {
            match bin_op_of(node) {
                Some((op, a, b)) => {
                    lemma_expr_at_stable(nodes1, names1, nodes2, names2, a.0 as int);
                    lemma_expr_at_stable(nodes1, names1, nodes2, names2, b.0 as int);
                },
                None => {
                },
            }
        },
    }
}

/// Owns the expression nodes and the interned identifier names behind
/// stable integer handles. Append-only: a handle, once issued, stays valid
/// and keeps denoting the same node or name.
pub struct Arena {
    idents: Vec<String>,
    nodes: Vec<Node>,
}

impl Arena {
    /// The interned names, as character sequences, in handle order.
    pub closed spec fn names(self) -> Seq<Seq<char>> {
        self.idents@.map(|i: int, s: String| s@)
    }

    /// The nodes, in handle order.
    pub closed spec fn nodes(self) -> Seq<Node> {
        self.nodes@
    }

    /// Arena invariant: all nodes well formed, and the interner is a
    /// bijection (no name is stored under two handles).
    pub open spec fn wf(self) -> bool {
        &&& nodes_wf(self.nodes(), self.names().len() as int)
        &&& forall|i: int, j: int|
            0 <= i < j < self.names().len() ==> self.names()[i] != self.names()[j]
    }

    /// `id` was issued by this arena.
    pub open spec fn valid_node(self, id: NodeId) -> bool {
        id.0 < self.nodes().len()
    }

    /// `id` is a live interner handle.
    pub open spec fn valid_name(self, id: StringId) -> bool {
        id.0 < self.names().len()
    }

    /// An empty arena.
    pub fn new() -> (r: Arena)
        ensures
            r.wf(),
            r.nodes().len() == 0,
            r.names().len() == 0,
    {
        Arena { idents: Vec::new(), nodes: Vec::new() }
    }

    /// Intern `s`: idempotent, the same text always yields the same handle.
    pub fn intern(&mut self, s: &str) -> (r: StringId)
        requires
            old(self).wf(),
        ensures
            final(self).wf(),
            final(self).nodes() == old(self).nodes(),
            final(self).valid_name(r),
            final(self).names()[r.0 as int] == s@,
            old(self).names().contains(s@) ==> final(self).names() == old(self).names(),
            !old(self).names().contains(s@) ==> final(self).names() == old(self).names().push(s@),
    {
        let owned: String = s.to_owned();
        let n = self.idents.len();
        for i in 0..n
            invariant
                *self == *old(self),
                self.wf(),
                n == self.idents.len(),
                owned@ == s@,
                forall|j: int| 0 <= j < i ==> self.names()[j] != s@,
        {
            if self.idents[i] == owned {
                assert(self.names()[i as int] == s@);
                return StringId(i);
            }
        }
        assert(forall|j: int| 0 <= j < n ==> self.names()[j] != s@);
        assert(!self.names().contains(s@));
        self.idents.push(owned);
        assert(self.names() =~= old(self).names().push(s@));
        StringId(n)
    }

    /// Append `node`; its handles must already be valid here.
    pub fn new_node(&mut self, node: Node) -> (r: NodeId)
        requires
            old(self).wf(),
            node_wf(node, old(self).nodes().len() as int, old(self).names().len() as int),
        ensures
            final(self).wf(),
            final(self).names() == old(self).names(),
            final(self).nodes() == old(self).nodes().push(node),
            r.0 == old(self).nodes().len(),
            final(self).valid_node(r),
    {
        let id = NodeId(self.nodes.len());
        self.nodes.push(node);
        id
    }

    /// Intern `s` and append an identifier node referring to it.
    pub fn new_identifier(&mut self, s: &str) -> (r: NodeId)
        requires
            old(self).wf(),
        ensures
            final(self).wf(),
            final(self).nodes().len() == old(self).nodes().len() + 1,
            old(self).nodes() == final(self).nodes().take(old(self).nodes().len() as int),
            r.0 == old(self).nodes().len(),
            final(self).valid_node(r),
            ({
                let last = final(self).nodes()[r.0 as int];
                &&& last matches Node::Identifier(sid)
                &&& final(self).valid_name(sid)
                &&& final(self).names()[sid.0 as int] == s@
            }),
            old(self).names().contains(s@) ==> final(self).names() == old(self).names(),
            !old(self).names().contains(s@) ==> final(self).names() == old(self).names().push(s@),
    {
        let sid = self.intern(s);
        let r = self.new_node(Node::Identifier(sid));
        assert(old(self).nodes() =~= self.nodes().take(old(self).nodes().len() as int));
        r
    }

    /// Resolve a node handle.
    pub fn node_ref(&self, id: NodeId) -> (r: &Node)
        requires
            self.valid_node(id),
        ensures
            *r == self.nodes()[id.0 as int],
    {
        &self.nodes[id.0]
    }

    /// Resolve an interned name handle.
    pub fn interned(&self, id: StringId) -> (r: &str)
        requires
            self.valid_name(id),
        ensures
            r@ == self.names()[id.0 as int],
    {
        self.idents[id.0].as_str()
    }
}

impl Default for Arena {
    fn default() -> (r: Arena)
        ensures
            r.wf(),
            r.nodes().len() == 0,
            r.names().len() == 0,
    {
        Arena::new()
    }
}

} // verus!
