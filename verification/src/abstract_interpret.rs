use vstd::prelude::*;

use crate::ast::{bin_op_of, node_wf, BinOp, Arena, Node, NodeId, StringId};
use crate::Error;

verus! {

/// A semantic domain for the expression language.
///
/// [`interpret`] walks a syntax tree once and calls back into these
/// operators; the same traversal serves every domain. Each domain states
/// what a whole traversal means through `interp_post`, says what each
/// operator application means through the `post_*` predicates, and proves
/// through the `step_*` lemmas that the operator meanings compose into the
/// traversal meaning along the fixed evaluation order (left operand fully,
/// then right; all three subtrees of a conditional unconditionally).
pub trait AbstractInterpret: Sized {
    /// The output type of this interpreter.
    type Output;

    /// The domain's internal consistency condition.
    spec fn inv(&self) -> bool;

    /// What one traversal of the node at `n` means in this domain:
    /// `pre` and `post` are the domain states around the traversal and
    /// `res` its outcome.
    spec fn interp_post(
        pre: Self,
        nodes: Seq<Node>,
        names: Seq<Seq<char>>,
        n: int,
        post: Self,
        res: Result<Self::Output, Error>,
    ) -> bool;

    /// Meaning of one binary operator application. `res` is always `Ok`
    /// for the total operators; division and the shifts may fail.
    spec fn post_bin(
        pre: Self,
        post: Self,
        op: BinOp,
        lhs: Self::Output,
        rhs: Self::Output,
        res: Result<Self::Output, Error>,
    ) -> bool;

    /// Meaning of creating the constant `c`.
    spec fn post_constant(pre: Self, post: Self, c: i64, res: Self::Output) -> bool;

    /// Meaning of negating `e`.
    spec fn post_neg(pre: Self, post: Self, e: Self::Output, res: Self::Output) -> bool;

    /// Meaning of resolving the identifier `name`.
    spec fn post_lookup(
        pre: Self,
        post: Self,
        name: Seq<char>,
        res: Result<Self::Output, Error>,
    ) -> bool;

    /// Create a constant output value.
    fn constant(&mut self, c: i64) -> (res: Self::Output)
        requires
            old(self).inv(),
        ensures
            final(self).inv(),
            Self::post_constant(*old(self), *final(self), c, res),
    ;

    /// `lhs + rhs`
    fn add(&mut self, lhs: &Self::Output, rhs: &Self::Output) -> (res: Self::Output)
        requires
            old(self).inv(),
        ensures
            final(self).inv(),
            Self::post_bin(*old(self), *final(self), BinOp::Add, *lhs, *rhs, Ok(res)),
    ;

    /// `lhs - rhs`
    fn sub(&mut self, lhs: &Self::Output, rhs: &Self::Output) -> (res: Self::Output)
        requires
            old(self).inv(),
        ensures
            final(self).inv(),
            Self::post_bin(*old(self), *final(self), BinOp::Sub, *lhs, *rhs, Ok(res)),
    ;

    /// `lhs * rhs`
    fn mul(&mut self, lhs: &Self::Output, rhs: &Self::Output) -> (res: Self::Output)
        requires
            old(self).inv(),
        ensures
            final(self).inv(),
            Self::post_bin(*old(self), *final(self), BinOp::Mul, *lhs, *rhs, Ok(res)),
    ;

    /// `lhs / rhs`. May fail on division by zero.
    fn div(&mut self, lhs: &Self::Output, rhs: &Self::Output) -> (res: Result<Self::Output, Error>)
        requires
            old(self).inv(),
        ensures
            final(self).inv(),
            Self::post_bin(*old(self), *final(self), BinOp::Div, *lhs, *rhs, res),
    ;

    /// `lhs >> rhs`. May fail on a shift amount outside the bit width.
    fn shr(&mut self, lhs: &Self::Output, rhs: &Self::Output) -> (res: Result<Self::Output, Error>)
        requires
            old(self).inv(),
        ensures
            final(self).inv(),
            Self::post_bin(*old(self), *final(self), BinOp::Shr, *lhs, *rhs, res),
    ;

    /// `lhs << rhs`. May fail on a shift amount outside the bit width.
    fn shl(&mut self, lhs: &Self::Output, rhs: &Self::Output) -> (res: Result<Self::Output, Error>)
        requires
            old(self).inv(),
        ensures
            final(self).inv(),
            Self::post_bin(*old(self), *final(self), BinOp::Shl, *lhs, *rhs, res),
    ;

    /// `-e`
    fn neg(&mut self, e: &Self::Output) -> (res: Self::Output)
        requires
            old(self).inv(),
        ensures
            final(self).inv(),
            Self::post_neg(*old(self), *final(self), *e, res),
    ;

    /// The domain's `1` if `lhs == rhs`, its `0` otherwise.
    fn eq(&mut self, lhs: &Self::Output, rhs: &Self::Output) -> (res: Self::Output)
        requires
            old(self).inv(),
        ensures
            final(self).inv(),
            Self::post_bin(*old(self), *final(self), BinOp::Eq, *lhs, *rhs, Ok(res)),
    ;

    /// The domain's `1` if `lhs != rhs`, its `0` otherwise.
    fn neq(&mut self, lhs: &Self::Output, rhs: &Self::Output) -> (res: Self::Output)
        requires
            old(self).inv(),
        ensures
            final(self).inv(),
            Self::post_bin(*old(self), *final(self), BinOp::Neq, *lhs, *rhs, Ok(res)),
    ;

    /// Resolve the identifier `var`; may fail in domains with a fixed
    /// environment.
    fn lookup(&mut self, var: &str) -> (res: Result<Self::Output, Error>)
        requires
            old(self).inv(),
        ensures
            final(self).inv(),
            Self::post_lookup(*old(self), *final(self), var@, res),
    ;

    /// A constant node means what `constant` produced.
    proof fn step_constant(
        pre: Self, nodes: Seq<Node>, names: Seq<Seq<char>>, n: int,
        post: Self, c: i64, res: Self::Output,
    )
        requires
            0 <= n < nodes.len(),
            nodes[n] == Node::Const(c),
            Self::post_constant(pre, post, c, res),
        ensures
            Self::interp_post(pre, nodes, names, n, post, Ok(res)),
    ;

    /// An identifier node means what `lookup` produced.
    proof fn step_identifier(
        pre: Self, nodes: Seq<Node>, names: Seq<Seq<char>>, n: int,
        s: StringId, post: Self, res: Result<Self::Output, Error>,
    )
        requires
            0 <= n < nodes.len(),
            nodes[n] == Node::Identifier(s),
            s.0 < names.len(),
            Self::post_lookup(pre, post, names[s.0 as int], res),
        ensures
            Self::interp_post(pre, nodes, names, n, post, res),
    ;

    /// A failed left operand aborts a binary node.
    proof fn step_bin_err_left(
        pre: Self, nodes: Seq<Node>, names: Seq<Seq<char>>, n: int,
        op: BinOp, a: NodeId, b: NodeId, post: Self, e: Error,
    )
        requires
            0 <= n < nodes.len(),
            bin_op_of(nodes[n]) == Some((op, a, b)),
            a.0 < n && b.0 < n,
            Self::interp_post(pre, nodes, names, a.0 as int, post, Err(e)),
        ensures
            Self::interp_post(pre, nodes, names, n, post, Err(e)),
    ;

    /// A failed right operand aborts a binary node after the left one ran.
    proof fn step_bin_err_right(
        pre: Self, nodes: Seq<Node>, names: Seq<Seq<char>>, n: int,
        op: BinOp, a: NodeId, b: NodeId, mid: Self, lv: Self::Output, post: Self, e: Error,
    )
        requires
            0 <= n < nodes.len(),
            bin_op_of(nodes[n]) == Some((op, a, b)),
            a.0 < n && b.0 < n,
            Self::interp_post(pre, nodes, names, a.0 as int, mid, Ok(lv)),
            Self::interp_post(mid, nodes, names, b.0 as int, post, Err(e)),
        ensures
            Self::interp_post(pre, nodes, names, n, post, Err(e)),
    ;

    /// A binary node means its operator applied to its operands' meanings,
    /// left operand evaluated first.
    proof fn step_bin_op(
        pre: Self, nodes: Seq<Node>, names: Seq<Seq<char>>, n: int,
        op: BinOp, a: NodeId, b: NodeId, mid: Self, lv: Self::Output,
        mid2: Self, rv: Self::Output, post: Self, res: Result<Self::Output, Error>,
    )
        requires
            0 <= n < nodes.len(),
            bin_op_of(nodes[n]) == Some((op, a, b)),
            a.0 < n && b.0 < n,
            Self::interp_post(pre, nodes, names, a.0 as int, mid, Ok(lv)),
            Self::interp_post(mid, nodes, names, b.0 as int, mid2, Ok(rv)),
            Self::post_bin(mid2, post, op, lv, rv, res),
        ensures
            Self::interp_post(pre, nodes, names, n, post, res),
    ;

    /// A failed operand aborts a negation node.
    proof fn step_neg_err(
        pre: Self, nodes: Seq<Node>, names: Seq<Seq<char>>, n: int,
        a: NodeId, post: Self, e: Error,
    )
        requires
            0 <= n < nodes.len(),
            nodes[n] == Node::Negation(a),
            a.0 < n,
            Self::interp_post(pre, nodes, names, a.0 as int, post, Err(e)),
        ensures
            Self::interp_post(pre, nodes, names, n, post, Err(e)),
    ;

    /// A negation node means `neg` of its operand's meaning.
    proof fn step_neg(
        pre: Self, nodes: Seq<Node>, names: Seq<Seq<char>>, n: int,
        a: NodeId, mid: Self, ev: Self::Output, post: Self, res: Self::Output,
    )
        requires
            0 <= n < nodes.len(),
            nodes[n] == Node::Negation(a),
            a.0 < n,
            Self::interp_post(pre, nodes, names, a.0 as int, mid, Ok(ev)),
            Self::post_neg(mid, post, ev, res),
        ensures
            Self::interp_post(pre, nodes, names, n, post, Ok(res)),
    ;

    /// A failed condition aborts a conditional node.
    proof fn step_cond_err_cond(
        pre: Self, nodes: Seq<Node>, names: Seq<Seq<char>>, n: int,
        c: NodeId, t: NodeId, f: NodeId, post: Self, e: Error,
    )
        requires
            0 <= n < nodes.len(),
            nodes[n] == Node::Conditional(c, t, f),
            c.0 < n && t.0 < n && f.0 < n,
            Self::interp_post(pre, nodes, names, c.0 as int, post, Err(e)),
        ensures
            Self::interp_post(pre, nodes, names, n, post, Err(e)),
    ;

    /// A failed consequent aborts a conditional node: both branches are
    /// evaluated whatever the condition meant.
    proof fn step_cond_err_then(
        pre: Self, nodes: Seq<Node>, names: Seq<Seq<char>>, n: int,
        c: NodeId, t: NodeId, f: NodeId, mid: Self, cv: Self::Output, post: Self, e: Error,
    )
        requires
            0 <= n < nodes.len(),
            nodes[n] == Node::Conditional(c, t, f),
            c.0 < n && t.0 < n && f.0 < n,
            Self::interp_post(pre, nodes, names, c.0 as int, mid, Ok(cv)),
            Self::interp_post(mid, nodes, names, t.0 as int, post, Err(e)),
        ensures
            Self::interp_post(pre, nodes, names, n, post, Err(e)),
    ;

    /// A failed alternative aborts a conditional node.
    proof fn step_cond_err_else(
        pre: Self, nodes: Seq<Node>, names: Seq<Seq<char>>, n: int,
        c: NodeId, t: NodeId, f: NodeId, s1: Self, cv: Self::Output,
        s2: Self, tv: Self::Output, post: Self, e: Error,
    )
        requires
            0 <= n < nodes.len(),
            nodes[n] == Node::Conditional(c, t, f),
            c.0 < n && t.0 < n && f.0 < n,
            Self::interp_post(pre, nodes, names, c.0 as int, s1, Ok(cv)),
            Self::interp_post(s1, nodes, names, t.0 as int, s2, Ok(tv)),
            Self::interp_post(s2, nodes, names, f.0 as int, post, Err(e)),
        ensures
            Self::interp_post(pre, nodes, names, n, post, Err(e)),
    ;

    /// A conditional node is encoded arithmetically:
    /// `(cond != 0) * consequent + (cond == 0) * alternative`,
    /// built from the domain's own operators in this exact order.
    proof fn step_cond(
        pre: Self, nodes: Seq<Node>, names: Seq<Seq<char>>, n: int,
        c: NodeId, t: NodeId, f: NodeId,
        s1: Self, cv: Self::Output, s2: Self, tv: Self::Output, s3: Self, fv: Self::Output,
        s4: Self, zero: Self::Output, s5: Self, nz: Self::Output, s6: Self, ez: Self::Output,
        s7: Self, m1: Self::Output, s8: Self, m2: Self::Output,
        post: Self, res: Self::Output,
    )
        requires
            0 <= n < nodes.len(),
            nodes[n] == Node::Conditional(c, t, f),
            c.0 < n && t.0 < n && f.0 < n,
            Self::interp_post(pre, nodes, names, c.0 as int, s1, Ok(cv)),
            Self::interp_post(s1, nodes, names, t.0 as int, s2, Ok(tv)),
            Self::interp_post(s2, nodes, names, f.0 as int, s3, Ok(fv)),
            Self::post_constant(s3, s4, 0, zero),
            Self::post_bin(s4, s5, BinOp::Neq, cv, zero, Ok(nz)),
            Self::post_bin(s5, s6, BinOp::Eq, cv, zero, Ok(ez)),
            Self::post_bin(s6, s7, BinOp::Mul, nz, tv, Ok(m1)),
            Self::post_bin(s7, s8, BinOp::Mul, ez, fv, Ok(m2)),
            Self::post_bin(s8, post, BinOp::Add, m1, m2, Ok(res)),
        ensures
            Self::interp_post(pre, nodes, names, n, post, Ok(res)),
    ;
}

/// Compile the tree rooted at `node` into the domain of `interpreter`:
/// one recursive traversal, correct for every domain that implements the
/// operator set, dispatching on the node's structure.
pub fn interpret<A: AbstractInterpret>(
    interpreter: &mut A,
    ctx: &Arena,
    node: NodeId,
) -> (res: Result<A::Output, Error>)
    requires
        old(interpreter).inv(),
        ctx.wf(),
        ctx.valid_node(node),
    ensures
        final(interpreter).inv(),
        A::interp_post(
            *old(interpreter),
            ctx.nodes(),
            ctx.names(),
            node.0 as int,
            *final(interpreter),
            res,
        ),
    decreases node.0,
{
    let ghost nodes = ctx.nodes();
    let ghost names = ctx.names();
    let ghost pre = *old(interpreter);
    let ghost n = node.0 as int;
    proof {
        assert(node_wf(nodes[n], n, names.len() as int));
    }
    match *ctx.node_ref(node) {
        Node::Const(c) => {
            let res = interpreter.constant(c);
            proof {
                A::step_constant(pre, nodes, names, n, *interpreter, c, res);
            }
            Ok(res)
        }
        Node::Identifier(s) => {
            let name = ctx.interned(s);
            let res = interpreter.lookup(name);
            proof {
                A::step_identifier(pre, nodes, names, n, s, *interpreter, res);
            }
            res
        }
        Node::Addition(a, b) => {
            let (pair, mid) = interpret_operands(interpreter, ctx, node, Ghost(BinOp::Add), a, b);
            let (lv, rv) = match pair {
                Ok(p) => p,
                Err(e) => {
                    return Err(e);
                },
            };
            let ghost s2 = *interpreter;
            let res = interpreter.add(&lv, &rv);
            proof {
                A::step_bin_op(pre, nodes, names, n, BinOp::Add, a, b, mid@, lv, s2, rv, *interpreter, Ok(res));
            }
            Ok(res)
        }
        Node::Subtraction(a, b) => {
            let (pair, mid) = interpret_operands(interpreter, ctx, node, Ghost(BinOp::Sub), a, b);
            let (lv, rv) = match pair {
                Ok(p) => p,
                Err(e) => {
                    return Err(e);
                },
            };
            let ghost s2 = *interpreter;
            let res = interpreter.sub(&lv, &rv);
            proof {
                A::step_bin_op(pre, nodes, names, n, BinOp::Sub, a, b, mid@, lv, s2, rv, *interpreter, Ok(res));
            }
            Ok(res)
        }
        Node::Multiplication(a, b) => {
            let (pair, mid) = interpret_operands(interpreter, ctx, node, Ghost(BinOp::Mul), a, b);
            let (lv, rv) = match pair {
                Ok(p) => p,
                Err(e) => {
                    return Err(e);
                },
            };
            let ghost s2 = *interpreter;
            let res = interpreter.mul(&lv, &rv);
            proof {
                A::step_bin_op(pre, nodes, names, n, BinOp::Mul, a, b, mid@, lv, s2, rv, *interpreter, Ok(res));
            }
            Ok(res)
        }
        Node::Division(a, b) => {
            let (pair, mid) = interpret_operands(interpreter, ctx, node, Ghost(BinOp::Div), a, b);
            let (lv, rv) = match pair {
                Ok(p) => p,
                Err(e) => {
                    return Err(e);
                },
            };
            let ghost s2 = *interpreter;
            let res = interpreter.div(&lv, &rv);
            proof {
                A::step_bin_op(pre, nodes, names, n, BinOp::Div, a, b, mid@, lv, s2, rv, *interpreter, res);
            }
            res
        }
        Node::RightShift(a, b) => {
            let (pair, mid) = interpret_operands(interpreter, ctx, node, Ghost(BinOp::Shr), a, b);
            let (lv, rv) = match pair {
                Ok(p) => p,
                Err(e) => {
                    return Err(e);
                },
            };
            let ghost s2 = *interpreter;
            let res = interpreter.shr(&lv, &rv);
            proof {
                A::step_bin_op(pre, nodes, names, n, BinOp::Shr, a, b, mid@, lv, s2, rv, *interpreter, res);
            }
            res
        }
        Node::LeftShift(a, b) => {
            let (pair, mid) = interpret_operands(interpreter, ctx, node, Ghost(BinOp::Shl), a, b);
            let (lv, rv) = match pair {
                Ok(p) => p,
                Err(e) => {
                    return Err(e);
                },
            };
            let ghost s2 = *interpreter;
            let res = interpreter.shl(&lv, &rv);
            proof {
                A::step_bin_op(pre, nodes, names, n, BinOp::Shl, a, b, mid@, lv, s2, rv, *interpreter, res);
            }
            res
        }
        Node::Equal(a, b) => {
            let (pair, mid) = interpret_operands(interpreter, ctx, node, Ghost(BinOp::Eq), a, b);
            let (lv, rv) = match pair {
                Ok(p) => p,
                Err(e) => {
                    return Err(e);
                },
            };
            let ghost s2 = *interpreter;
            let res = interpreter.eq(&lv, &rv);
            proof {
                A::step_bin_op(pre, nodes, names, n, BinOp::Eq, a, b, mid@, lv, s2, rv, *interpreter, Ok(res));
            }
            Ok(res)
        }
        Node::NotEqual(a, b) => {
            let (pair, mid) = interpret_operands(interpreter, ctx, node, Ghost(BinOp::Neq), a, b);
            let (lv, rv) = match pair {
                Ok(p) => p,
                Err(e) => {
                    return Err(e);
                },
            };
            let ghost s2 = *interpreter;
            let res = interpreter.neq(&lv, &rv);
            proof {
                A::step_bin_op(pre, nodes, names, n, BinOp::Neq, a, b, mid@, lv, s2, rv, *interpreter, Ok(res));
            }
            Ok(res)
        }
        Node::Negation(a) => {
            let ev = match interpret(interpreter, ctx, a) {
                Ok(v) => v,
                Err(e) => {
                    proof {
                        A::step_neg_err(pre, nodes, names, n, a, *interpreter, e);
                    }
                    return Err(e);
                },
            };
            let ghost mid = *interpreter;
            let res = interpreter.neg(&ev);
            proof {
                A::step_neg(pre, nodes, names, n, a, mid, ev, *interpreter, res);
            }
            Ok(res)
        }
        Node::Conditional(c, t, f) => {
            let cv = match interpret(interpreter, ctx, c) {
                Ok(v) => v,
                Err(e) => {
                    proof {
                        A::step_cond_err_cond(pre, nodes, names, n, c, t, f, *interpreter, e);
                    }
                    return Err(e);
                },
            };
            let ghost s1 = *interpreter;
            let tv = match interpret(interpreter, ctx, t) {
                Ok(v) => v,
                Err(e) => {
                    proof {
                        A::step_cond_err_then(pre, nodes, names, n, c, t, f, s1, cv, *interpreter, e);
                    }
                    return Err(e);
                },
            };
            let ghost s2 = *interpreter;
            let fv = match interpret(interpreter, ctx, f) {
                Ok(v) => v,
                Err(e) => {
                    proof {
                        A::step_cond_err_else(pre, nodes, names, n, c, t, f, s1, cv, s2, tv, *interpreter, e);
                    }
                    return Err(e);
                },
            };
            let ghost s3 = *interpreter;
            let zero = interpreter.constant(0);
            let ghost s4 = *interpreter;
            let nz = interpreter.neq(&cv, &zero);
            let ghost s5 = *interpreter;
            let ez = interpreter.eq(&cv, &zero);
            let ghost s6 = *interpreter;
            let m1 = interpreter.mul(&nz, &tv);
            let ghost s7 = *interpreter;
            let m2 = interpreter.mul(&ez, &fv);
            let ghost s8 = *interpreter;
            let res = interpreter.add(&m1, &m2);
            proof {
                A::step_cond(
                    pre, nodes, names, n, c, t, f,
                    s1, cv, s2, tv, s3, fv,
                    s4, zero, s5, nz, s6, ez,
                    s7, m1, s8, m2,
                    *interpreter, res,
                );
            }
            Ok(res)
        }
    }
}

/// Runs both operands of the binary node at `node` (left first), applying
/// the abort steps on failure, and reporting the domain state between the
/// two operand traversals.
fn interpret_operands<A: AbstractInterpret>(
    interpreter: &mut A,
    ctx: &Arena,
    node: NodeId,
    Ghost(op): Ghost<BinOp>,
    a: NodeId,
    b: NodeId,
) -> (r: (Result<(A::Output, A::Output), Error>, Ghost<A>))
    requires
        old(interpreter).inv(),
        ctx.wf(),
        ctx.valid_node(node),
        bin_op_of(ctx.nodes()[node.0 as int]) == Some((op, a, b)),
        a.0 < node.0 && b.0 < node.0,
    ensures
        final(interpreter).inv(),
        match r.0 {
            Ok(pair) => A::interp_post(
                *old(interpreter), ctx.nodes(), ctx.names(), a.0 as int, r.1@, Ok(pair.0),
            ) && A::interp_post(
                r.1@, ctx.nodes(), ctx.names(), b.0 as int, *final(interpreter), Ok(pair.1),
            ),
            Err(e) => A::interp_post(
                *old(interpreter), ctx.nodes(), ctx.names(), node.0 as int, *final(interpreter), Err(e),
            ),
        },
    decreases node.0, 0int,
{
    let ghost nodes = ctx.nodes();
    let ghost names = ctx.names();
    let ghost pre = *old(interpreter);
    let ghost n = node.0 as int;
    let lv = match interpret(interpreter, ctx, a) {
        Ok(v) => v,
        Err(e) => {
            proof {
                A::step_bin_err_left(pre, nodes, names, n, op, a, b, *interpreter, e);
            }
            return (Err(e), Ghost(pre));
        },
    };
    let ghost mid = *interpreter;
    let rv = match interpret(interpreter, ctx, b) {
        Ok(v) => v,
        Err(e) => {
            proof {
                A::step_bin_err_right(pre, nodes, names, n, op, a, b, mid, lv, *interpreter, e);
            }
            return (Err(e), Ghost(mid));
        },
    };
    (Ok((lv, rv)), Ghost(mid))
}

} // verus!
