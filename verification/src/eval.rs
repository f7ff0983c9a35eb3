use vstd::prelude::*;

use crate::abstract_interpret::{interpret, AbstractInterpret};
use crate::ast::{bin_op_of, expr_at, nodes_wf, Arena, BinOp, Expr, Node, NodeId};
use crate::env::Env;
use crate::ast::StringId;
use crate::{Error, ErrorSpec};

verus! {

/// The exec outcome `res` carries exactly the mathematical outcome `s`.
pub open spec fn agrees(res: Result<i64, Error>, s: Result<i64, ErrorSpec>) -> bool {
    match (res, s) {
        (Ok(a), Ok(b)) => a == b,
        (Err(e), Err(se)) => e@ == se,
        _ => false,
    }
}

/// Concrete meaning of one binary operator on 64-bit two's-complement
/// integers: add, subtract and multiply wrap; division truncates toward
/// zero, wraps on `i64::MIN / -1`, and fails on a zero divisor; the shifts
/// fail outside `0..64`; the comparisons yield 1 or 0.
pub open spec fn eval_bin_spec(op: BinOp, l: i64, r: i64) -> Result<i64, ErrorSpec> {
    match op {
        BinOp::Add => Ok(l.wrapping_add(r)),
        BinOp::Sub => Ok(l.wrapping_sub(r)),
        BinOp::Mul => Ok(l.wrapping_mul(r)),
        BinOp::Div => if r == 0 {
            Err(ErrorSpec::DivideByZero)
        } else {
            match l.checked_div(r) {
                Some(q) => Ok(q),
                None => Ok(i64::MIN),
            }
        },
        BinOp::Shr => if 0 <= r < 64 {
            Ok(l.wrapping_shr(r as u32))
        } else {
            Err(ErrorSpec::ShiftOutOfRange)
        },
        BinOp::Shl => if 0 <= r < 64 {
            Ok(l.wrapping_shl(r as u32))
        } else {
            Err(ErrorSpec::ShiftOutOfRange)
        },
        BinOp::Eq => Ok(if l == r { 1i64 } else { 0i64 }),
        BinOp::Neq => Ok(if l != r { 1i64 } else { 0i64 }),
    }
}

/// Concrete meaning of resolving `name` in `env`.
pub open spec fn lookup_spec(env: Map<Seq<char>, i64>, name: Seq<char>) -> Result<i64, ErrorSpec> {
    if env.contains_key(name) {
        Ok(env[name])
    } else {
        Err(ErrorSpec::UndefinedVariable(name))
    }
}

/// The integer an expression tree denotes under `env`, or how it fails.
/// The conditional is encoded arithmetically, so its untaken branch is
/// still evaluated and may still fail.
pub open spec fn eval_node_spec(
    nodes: Seq<Node>,
    names: Seq<Seq<char>>,
    env: Map<Seq<char>, i64>,
    n: int,
) -> Result<i64, ErrorSpec>
    decreases n,
{
    if 0 <= n < nodes.len() {
        match nodes[n] {
            Node::Const(c) => Ok(c),
            Node::Identifier(s) => if s.0 < names.len() {
                lookup_spec(env, names[s.0 as int])
            } else {
                arbitrary()
            },
            Node::Negation(a) => if a.0 < n {
                match eval_node_spec(nodes, names, env, a.0 as int) {
                    Ok(v) => Ok((0i64).wrapping_sub(v)),
                    Err(e) => Err(e),
                }
            } else {
                arbitrary()
            },
            Node::Conditional(c, t, f) => if c.0 < n && t.0 < n && f.0 < n {
                match eval_node_spec(nodes, names, env, c.0 as int) {
                    Err(e) => Err(e),
                    Ok(cv) => match eval_node_spec(nodes, names, env, t.0 as int) {
                        Err(e) => Err(e),
                        Ok(tv) => match eval_node_spec(nodes, names, env, f.0 as int) {
                            Err(e) => Err(e),
                            Ok(fv) => {
                                let nz: i64 = if cv != 0 { 1i64 } else { 0i64 };
                                let ez: i64 = if cv == 0 { 1i64 } else { 0i64 };
                                Ok(nz.wrapping_mul(tv).wrapping_add(ez.wrapping_mul(fv)))
                            },
                        },
                    },
                }
            } else {
                arbitrary()
            },
            node => match bin_op_of(node) {
                Some((op, a, b)) => if a.0 < n && b.0 < n {
                    match eval_node_spec(nodes, names, env, a.0 as int) {
                        Err(e) => Err(e),
                        Ok(l) => match eval_node_spec(nodes, names, env, b.0 as int) {
                            Err(e) => Err(e),
                            Ok(r) => eval_bin_spec(op, l, r),
                        },
                    }
                } else {
                    arbitrary()
                },
                None => arbitrary(),
            },
        }
    } else {
        arbitrary()
    }
}

/// The integer an expression denotes under `env`, or how it fails: the
/// concrete semantics of the language, stated over whole expressions.
pub open spec fn eval_expr_spec(e: Expr, env: Map<Seq<char>, i64>) -> Result<i64, ErrorSpec>
    decreases e,
{
    match e {
        Expr::Const(c) => Ok(c),
        Expr::Var(name) => lookup_spec(env, name),
        Expr::Neg(a) => match eval_expr_spec(*a, env) {
            Ok(v) => Ok((0i64).wrapping_sub(v)),
            Err(e) => Err(e),
        },
        Expr::Bin(op, a, b) => match eval_expr_spec(*a, env) {
            Err(e) => Err(e),
            Ok(l) => match eval_expr_spec(*b, env) {
                Err(e) => Err(e),
                Ok(r) => eval_bin_spec(op, l, r),
            },
        },
        Expr::Cond(c, t, f) => match eval_expr_spec(*c, env) {
            Err(e) => Err(e),
            Ok(cv) => match eval_expr_spec(*t, env) {
                Err(e) => Err(e),
                Ok(tv) => match eval_expr_spec(*f, env) {
                    Err(e) => Err(e),
                    Ok(fv) => {
                        let nz: i64 = if cv != 0 { 1i64 } else { 0i64 };
                        let ez: i64 = if cv == 0 { 1i64 } else { 0i64 };
                        Ok(nz.wrapping_mul(tv).wrapping_add(ez.wrapping_mul(fv)))
                    },
                },
            },
        },
    }
}

/// A tree means what the expression it stands for means.
pub proof fn lemma_eval_expr_at(
    nodes: Seq<Node>,
    names: Seq<Seq<char>>,
    env: Map<Seq<char>, i64>,
    n: int,
)
    requires
        nodes_wf(nodes, names.len() as int),
        0 <= n < nodes.len(),
    ensures
        eval_node_spec(nodes, names, env, n) == eval_expr_spec(expr_at(nodes, names, n), env),
    decreases n,
{
    assert(crate::ast::node_wf(nodes[n], n, names.len() as int));
    match nodes[n] {
        Node::Const(_) => {
        },
        Node::Identifier(_) => {
        },
        Node::Negation(a) => {
            lemma_eval_expr_at(nodes, names, env, a.0 as int);
        },
        Node::Conditional(c, t, f) => {
            lemma_eval_expr_at(nodes, names, env, c.0 as int);
            lemma_eval_expr_at(nodes, names, env, t.0 as int);
            lemma_eval_expr_at(nodes, names, env, f.0 as int);
        },
        node => {
            match bin_op_of(node) {
                Some((op, a, b)) => {
                    lemma_eval_expr_at(nodes, names, env, a.0 as int);
                    lemma_eval_expr_at(nodes, names, env, b.0 as int);
                },
                None => {
                },
            }
        },
    }
}

/// The concrete evaluation domain: `D = i64`, identifiers resolved against
/// a caller-supplied environment.
struct Eval<'a> {
    env: &'a Env,
}

impl<'a> AbstractInterpret for Eval<'a> {
    type Output = i64;

    closed spec fn inv(&self) -> bool {
        self.env.wf()
    }

    closed spec fn interp_post(
        pre: Self,
        nodes: Seq<Node>,
        names: Seq<Seq<char>>,
        n: int,
        post: Self,
        res: Result<i64, Error>,
    ) -> bool {
        post == pre && agrees(res, eval_node_spec(nodes, names, pre.env@, n))
    }

    open spec fn post_bin(
        pre: Self,
        post: Self,
        op: BinOp,
        lhs: i64,
        rhs: i64,
        res: Result<i64, Error>,
    ) -> bool {
        post == pre && agrees(res, eval_bin_spec(op, lhs, rhs))
    }

    open spec fn post_constant(pre: Self, post: Self, c: i64, res: i64) -> bool {
        post == pre && res == c
    }

    open spec fn post_neg(pre: Self, post: Self, e: i64, res: i64) -> bool {
        post == pre && res == (0i64).wrapping_sub(e)
    }

    closed spec fn post_lookup(
        pre: Self,
        post: Self,
        name: Seq<char>,
        res: Result<i64, Error>,
    ) -> bool {
        post == pre && agrees(res, lookup_spec(pre.env@, name))
    }

    fn constant(&mut self, c: i64) -> i64 {
        c
    }

    fn add(&mut self, lhs: &i64, rhs: &i64) -> i64 {
        lhs.wrapping_add(*rhs)
    }

    fn sub(&mut self, lhs: &i64, rhs: &i64) -> i64 {
        lhs.wrapping_sub(*rhs)
    }

    fn mul(&mut self, lhs: &i64, rhs: &i64) -> i64 {
        lhs.wrapping_mul(*rhs)
    }

    fn div(&mut self, lhs: &i64, rhs: &i64) -> Result<i64, Error> {
        if *rhs == 0 {
            Err(Error::DivideByZero)
        } else {
            match lhs.checked_div(*rhs) {
                Some(q) => Ok(q),
                None => Ok(i64::MIN),
            }
        }
    }

    fn shr(&mut self, lhs: &i64, rhs: &i64) -> Result<i64, Error> {
        if 0 <= *rhs && *rhs < 64 {
            Ok(lhs.wrapping_shr(*rhs as u32))
        } else {
            Err(Error::ShiftOutOfRange)
        }
    }

    fn shl(&mut self, lhs: &i64, rhs: &i64) -> Result<i64, Error> {
        if 0 <= *rhs && *rhs < 64 {
            Ok(lhs.wrapping_shl(*rhs as u32))
        } else {
            Err(Error::ShiftOutOfRange)
        }
    }

    fn neg(&mut self, e: &i64) -> i64 {
        (0i64).wrapping_sub(*e)
    }

    fn eq(&mut self, lhs: &i64, rhs: &i64) -> i64 {
        if *lhs == *rhs {
            1
        } else {
            0
        }
    }

    fn neq(&mut self, lhs: &i64, rhs: &i64) -> i64 {
        if *lhs != *rhs {
            1
        } else {
            0
        }
    }

    fn lookup(&mut self, var: &str) -> Result<i64, Error> {
        match self.env.get(var) {
            Some(v) => Ok(v),
            None => Err(Error::UndefinedVariable(var.to_owned())),
        }
    }

    proof fn step_constant(
        pre: Self, nodes: Seq<Node>, names: Seq<Seq<char>>, n: int,
        post: Self, c: i64, res: i64,
    ) {
    }

    proof fn step_identifier(
        pre: Self, nodes: Seq<Node>, names: Seq<Seq<char>>, n: int,
        s: crate::ast::StringId, post: Self, res: Result<i64, Error>,
    ) {
    }

    proof fn step_bin_err_left(
        pre: Self, nodes: Seq<Node>, names: Seq<Seq<char>>, n: int,
        op: BinOp, a: NodeId, b: NodeId, post: Self, e: Error,
    ) {
    }

    proof fn step_bin_err_right(
        pre: Self, nodes: Seq<Node>, names: Seq<Seq<char>>, n: int,
        op: BinOp, a: NodeId, b: NodeId, mid: Self, lv: i64, post: Self, e: Error,
    ) {
    }

    proof fn step_bin_op(
        pre: Self, nodes: Seq<Node>, names: Seq<Seq<char>>, n: int,
        op: BinOp, a: NodeId, b: NodeId, mid: Self, lv: i64,
        mid2: Self, rv: i64, post: Self, res: Result<i64, Error>,
    ) {
    }

    proof fn step_neg_err(
        pre: Self, nodes: Seq<Node>, names: Seq<Seq<char>>, n: int,
        a: NodeId, post: Self, e: Error,
    ) {
    }

    proof fn step_neg(
        pre: Self, nodes: Seq<Node>, names: Seq<Seq<char>>, n: int,
        a: NodeId, mid: Self, ev: i64, post: Self, res: i64,
    ) {
    }

    proof fn step_cond_err_cond(
        pre: Self, nodes: Seq<Node>, names: Seq<Seq<char>>, n: int,
        c: NodeId, t: NodeId, f: NodeId, post: Self, e: Error,
    ) {
    }

    proof fn step_cond_err_then(
        pre: Self, nodes: Seq<Node>, names: Seq<Seq<char>>, n: int,
        c: NodeId, t: NodeId, f: NodeId, mid: Self, cv: i64, post: Self, e: Error,
    ) {
    }

    proof fn step_cond_err_else(
        pre: Self, nodes: Seq<Node>, names: Seq<Seq<char>>, n: int,
        c: NodeId, t: NodeId, f: NodeId, s1: Self, cv: i64,
        s2: Self, tv: i64, post: Self, e: Error,
    ) {
    }

    proof fn step_cond(
        pre: Self, nodes: Seq<Node>, names: Seq<Seq<char>>, n: int,
        c: NodeId, t: NodeId, f: NodeId,
        s1: Self, cv: i64, s2: Self, tv: i64, s3: Self, fv: i64,
        s4: Self, zero: i64, s5: Self, nz: i64, s6: Self, ez: i64,
        s7: Self, m1: i64, s8: Self, m2: i64,
        post: Self, res: i64,
    ) {
    }
}

/// For literal operands, a binary node evaluates exactly as
/// [`eval_bin_spec`] says: native 64-bit two's-complement semantics of the
/// operator, including the failure cases of division and the shifts.
pub proof fn lemma_literal_binop(
    nodes: Seq<Node>,
    names: Seq<Seq<char>>,
    env: Map<Seq<char>, i64>,
    n: int,
    op: BinOp,
    a: NodeId,
    b: NodeId,
    av: i64,
    bv: i64,
)
    requires
        0 <= n < nodes.len(),
        bin_op_of(nodes[n]) == Some((op, a, b)),
        a.0 < n && b.0 < n,
        nodes[a.0 as int] == Node::Const(av),
        nodes[b.0 as int] == Node::Const(bv),
    ensures
        eval_node_spec(nodes, names, env, n) == eval_bin_spec(op, av, bv),
{
    assert(eval_node_spec(nodes, names, env, a.0 as int) == Ok::<i64, ErrorSpec>(av));
    assert(eval_node_spec(nodes, names, env, b.0 as int) == Ok::<i64, ErrorSpec>(bv));
}

/// Division by a divisor that evaluated to zero fails with the
/// divide-by-zero condition, whatever the dividend evaluated to.
pub proof fn lemma_divide_by_zero(
    nodes: Seq<Node>,
    names: Seq<Seq<char>>,
    env: Map<Seq<char>, i64>,
    n: int,
    a: NodeId,
    b: NodeId,
    av: i64,
)
    requires
        0 <= n < nodes.len(),
        nodes[n] == Node::Division(a, b),
        a.0 < n && b.0 < n,
        eval_node_spec(nodes, names, env, a.0 as int) == Ok::<i64, ErrorSpec>(av),
        eval_node_spec(nodes, names, env, b.0 as int) == Ok::<i64, ErrorSpec>(0i64),
    ensures
        eval_node_spec(nodes, names, env, n) == Err::<i64, ErrorSpec>(ErrorSpec::DivideByZero),
{
}

/// A conditional selects its branch by the condition: non-zero picks the
/// consequent, zero the alternative. Stated for inputs on which both
/// branches evaluate: the arithmetic encoding runs the untaken branch too,
/// so its failure is the conditional's failure.
pub proof fn lemma_conditional_selects_branch(
    nodes: Seq<Node>,
    names: Seq<Seq<char>>,
    env: Map<Seq<char>, i64>,
    n: int,
    c: NodeId,
    t: NodeId,
    f: NodeId,
    cv: i64,
    tv: i64,
    fv: i64,
)
    requires
        0 <= n < nodes.len(),
        nodes[n] == Node::Conditional(c, t, f),
        c.0 < n && t.0 < n && f.0 < n,
        eval_node_spec(nodes, names, env, c.0 as int) == Ok::<i64, ErrorSpec>(cv),
        eval_node_spec(nodes, names, env, t.0 as int) == Ok::<i64, ErrorSpec>(tv),
        eval_node_spec(nodes, names, env, f.0 as int) == Ok::<i64, ErrorSpec>(fv),
    ensures
        eval_node_spec(nodes, names, env, n) == Ok::<i64, ErrorSpec>(
            if cv != 0 { tv } else { fv },
        ),
{
    assert((1i64).wrapping_mul(tv) == tv);
    assert((1i64).wrapping_mul(fv) == fv);
    assert((0i64).wrapping_mul(tv) == 0i64);
    assert((0i64).wrapping_mul(fv) == 0i64);
    assert(tv.wrapping_add(0i64) == tv);
    assert((0i64).wrapping_add(fv) == fv);
}

/// An identifier absent from the environment fails with the
/// undefined-variable condition naming it; a present one evaluates to its
/// binding.
pub proof fn lemma_identifier(
    nodes: Seq<Node>,
    names: Seq<Seq<char>>,
    env: Map<Seq<char>, i64>,
    n: int,
    s: StringId,
)
    requires
        0 <= n < nodes.len(),
        nodes[n] == Node::Identifier(s),
        s.0 < names.len(),
    ensures
        !env.contains_key(names[s.0 as int]) ==> eval_node_spec(nodes, names, env, n)
            == Err::<i64, ErrorSpec>(ErrorSpec::UndefinedVariable(names[s.0 as int])),
        env.contains_key(names[s.0 as int]) ==> eval_node_spec(nodes, names, env, n)
            == Ok::<i64, ErrorSpec>(env[names[s.0 as int]]),
{
}

/// Concrete evaluation fails only the ways the concrete domain can fail:
/// an undefined variable, a zero divisor, or an out-of-range shift amount.
pub proof fn lemma_eval_error_kinds(
    nodes: Seq<Node>,
    names: Seq<Seq<char>>,
    env: Map<Seq<char>, i64>,
    n: int,
)
    requires
        nodes_wf(nodes, names.len() as int),
        0 <= n < nodes.len(),
    ensures
        eval_node_spec(nodes, names, env, n) matches Err(e) ==> (e is UndefinedVariable
            || e is DivideByZero || e is ShiftOutOfRange),
    decreases n,
{
    assert(crate::ast::node_wf(nodes[n], n, names.len() as int));
    match nodes[n] {
        Node::Const(_) => {
        },
        Node::Identifier(_) => {
        },
        Node::Negation(a) => {
            lemma_eval_error_kinds(nodes, names, env, a.0 as int);
        },
        Node::Conditional(c, t, f) => {
            lemma_eval_error_kinds(nodes, names, env, c.0 as int);
            lemma_eval_error_kinds(nodes, names, env, t.0 as int);
            lemma_eval_error_kinds(nodes, names, env, f.0 as int);
        },
        node => {
            match bin_op_of(node) {
                Some((op, a, b)) => {
                    lemma_eval_error_kinds(nodes, names, env, a.0 as int);
                    lemma_eval_error_kinds(nodes, names, env, b.0 as int);
                },
                None => {
                },
            }
        },
    }
}

/// Evaluate the tree rooted at `node` to a 64-bit integer under `env`.
pub fn eval(ctx: &Arena, node: NodeId, env: &Env) -> (res: Result<i64, Error>)
    requires
        ctx.wf(),
        ctx.valid_node(node),
        env.wf(),
    ensures
        agrees(res, eval_node_spec(ctx.nodes(), ctx.names(), env@, node.0 as int)),
{
    let mut e = Eval { env };
    interpret(&mut e, ctx, node)
}

} // verus!
