use vstd::prelude::*;
use vstd::string::StrSliceExecFns;

use crate::abstract_interpret::{interpret, AbstractInterpret};
use crate::ast::{bin_op_of, expr_at, nodes_wf, Arena, BinOp, Expr, Node, NodeId, StringId};
use crate::env::Env;
use crate::solver::{
    bool_clone, bool_ite_bv, bool_not, bv_add, bv_as_i64, bv_as_u64, bv_clone, bv_eq_term,
    bv_forall, bv_fresh, bv_literal, bv_lshr, bv_mul, bv_neg, bv_sdiv, bv_shl, bv_sub,
    model_eval_bv, solver_assert, solver_check_model, solver_new,
};
use crate::Error;

verus! {

/// `name` follows the reserved hole-prefix convention: holes are the
/// synthesis unknowns, every other free variable is a constant input.
pub open spec fn is_hole_name(name: Seq<char>) -> bool {
    name.len() > 0 && name[0] == 'h'
}

fn name_is_hole(name: &str) -> (r: bool)
    ensures
        r == is_hole_name(name@),
{
    if name.unicode_len() == 0 {
        false
    } else {
        name.get_char(0) == 'h'
    }
}

/// The free-variable names that compiling the tree at `n` leaves in the
/// shared table, given the names `seen` so far: each identifier is added
/// on its first use, in evaluation order (left before right, condition
/// before consequent before alternative).
pub open spec fn collect_vars(
    nodes: Seq<Node>,
    names: Seq<Seq<char>>,
    n: int,
    seen: Seq<Seq<char>>,
) -> Seq<Seq<char>>
    decreases n,
{
    if 0 <= n < nodes.len() {
        match nodes[n] {
            Node::Const(_) => seen,
            Node::Identifier(s) => if s.0 < names.len() {
                if seen.contains(names[s.0 as int]) {
                    seen
                } else {
                    seen.push(names[s.0 as int])
                }
            } else {
                arbitrary()
            },
            Node::Negation(a) => if a.0 < n {
                collect_vars(nodes, names, a.0 as int, seen)
            } else {
                arbitrary()
            },
            Node::Conditional(c, t, f) => if c.0 < n && t.0 < n && f.0 < n {
                collect_vars(
                    nodes,
                    names,
                    f.0 as int,
                    collect_vars(nodes, names, t.0 as int, collect_vars(nodes, names, c.0 as int, seen)),
                )
            } else {
                arbitrary()
            },
            node => match bin_op_of(node) {
                Some((op, a, b)) => if a.0 < n && b.0 < n {
                    collect_vars(nodes, names, b.0 as int, collect_vars(nodes, names, a.0 as int, seen))
                } else {
                    arbitrary()
                },
                None => arbitrary(),
            },
        }
    } else {
        arbitrary()
    }
}

/// The free-variable names of a whole expression, in first-use order,
/// after those in `seen`: the expression-level counterpart of
/// [`collect_vars`].
pub open spec fn expr_vars(e: Expr, seen: Seq<Seq<char>>) -> Seq<Seq<char>>
    decreases e,
{
    match e {
        Expr::Const(_) => seen,
        Expr::Var(name) => if seen.contains(name) {
            seen
        } else {
            seen.push(name)
        },
        Expr::Neg(a) => expr_vars(*a, seen),
        Expr::Bin(op, a, b) => expr_vars(*b, expr_vars(*a, seen)),
        Expr::Cond(c, t, f) => expr_vars(*f, expr_vars(*t, expr_vars(*c, seen))),
    }
}

/// A tree's variable discovery is its expression's variable discovery.
pub proof fn lemma_collect_expr_vars(
    nodes: Seq<Node>,
    names: Seq<Seq<char>>,
    n: int,
    seen: Seq<Seq<char>>,
)
    requires
        nodes_wf(nodes, names.len() as int),
        0 <= n < nodes.len(),
    ensures
        collect_vars(nodes, names, n, seen) == expr_vars(expr_at(nodes, names, n), seen),
    decreases n,
{
    assert(crate::ast::node_wf(nodes[n], n, names.len() as int));
    match nodes[n] {
        Node::Const(_) => {
        },
        Node::Identifier(_) => {
        },
        Node::Negation(a) => {
            lemma_collect_expr_vars(nodes, names, a.0 as int, seen);
        },
        Node::Conditional(c, t, f) => {
            lemma_collect_expr_vars(nodes, names, c.0 as int, seen);
            let s1 = collect_vars(nodes, names, c.0 as int, seen);
            lemma_collect_expr_vars(nodes, names, t.0 as int, s1);
            let s2 = collect_vars(nodes, names, t.0 as int, s1);
            lemma_collect_expr_vars(nodes, names, f.0 as int, s2);
        },
        node => {
            match bin_op_of(node) {
                Some((op, a, b)) => {
                    lemma_collect_expr_vars(nodes, names, a.0 as int, seen);
                    let s1 = collect_vars(nodes, names, a.0 as int, seen);
                    lemma_collect_expr_vars(nodes, names, b.0 as int, s1);
                },
                None => {
                },
            }
        },
    }
}

/// Some name among `vars` is hole-named.
pub open spec fn has_hole(vars: Seq<Seq<char>>) -> bool {
    exists|i: int| 0 <= i < vars.len() && is_hole_name(#[trigger] vars[i])
}

/// The hole-named names among `vars`, as a set.
pub open spec fn hole_set(vars: Seq<Seq<char>>) -> Set<Seq<char>> {
    Set::new(|name: Seq<char>| vars.contains(name) && is_hole_name(name))
}

/// The symbolic formula domain: `D` is a 64-bit bitvector term. Free
/// variables are discovered on first use and classified by name into
/// holes and constants; the same name always resolves to the identical
/// term, across both trees compiled with the same tables.
struct Synthesize<'ctx> {
    ctx: &'ctx z3::Context,
    vars: Vec<(String, z3::ast::BV<'ctx>)>,
    holes: Vec<(String, z3::ast::BV<'ctx>)>,
    consts: Vec<z3::ast::BV<'ctx>>,
}

impl<'ctx> Synthesize<'ctx> {
    /// All free-variable names seen so far, in first-use order.
    closed spec fn var_names(self) -> Seq<Seq<char>> {
        self.vars@.map_values(|p: (String, z3::ast::BV<'ctx>)| p.0@)
    }

    /// The names recorded as holes.
    closed spec fn hole_names(self) -> Seq<Seq<char>> {
        self.holes@.map_values(|p: (String, z3::ast::BV<'ctx>)| p.0@)
    }
}

impl<'ctx> AbstractInterpret for Synthesize<'ctx> {
    type Output = z3::ast::BV<'ctx>;

    /// Table consistency: names are recorded once, and the holes are
    /// exactly the hole-named entries of the variable table.
    closed spec fn inv(&self) -> bool {
        &&& forall|i: int, j: int|
            0 <= i < j < self.vars@.len() ==> self.vars@[i].0@ != self.vars@[j].0@
        &&& forall|k: int|
            0 <= k < self.holes@.len() ==> is_hole_name(#[trigger] self.holes@[k].0@)
                && self.var_names().contains(self.holes@[k].0@)
        &&& forall|i: int|
            0 <= i < self.vars@.len() && is_hole_name(#[trigger] self.vars@[i].0@)
                ==> self.hole_names().contains(self.vars@[i].0@)
    }

    /// Compiling a tree always succeeds in this domain, shares one term
    /// context throughout, and grows the variable table exactly by the
    /// names the tree mentions, in first-use order.
    closed spec fn interp_post(
        pre: Self,
        nodes: Seq<Node>,
        names: Seq<Seq<char>>,
        n: int,
        post: Self,
        res: Result<z3::ast::BV<'ctx>, Error>,
    ) -> bool {
        &&& res is Ok
        &&& post.ctx == pre.ctx
        &&& post.var_names() == collect_vars(nodes, names, n, pre.var_names())
    }

    open spec fn post_bin(
        pre: Self,
        post: Self,
        op: BinOp,
        lhs: z3::ast::BV<'ctx>,
        rhs: z3::ast::BV<'ctx>,
        res: Result<z3::ast::BV<'ctx>, Error>,
    ) -> bool {
        post == pre && res is Ok
    }

    open spec fn post_constant(pre: Self, post: Self, c: i64, res: z3::ast::BV<'ctx>) -> bool {
        post == pre
    }

    open spec fn post_neg(
        pre: Self,
        post: Self,
        e: z3::ast::BV<'ctx>,
        res: z3::ast::BV<'ctx>,
    ) -> bool {
        post == pre
    }

    /// A seen name resolves to its recorded term, unchanged tables; an
    /// unseen one is appended and classified by the hole-prefix rule.
    closed spec fn post_lookup(
        pre: Self,
        post: Self,
        name: Seq<char>,
        res: Result<z3::ast::BV<'ctx>, Error>,
    ) -> bool {
        &&& res is Ok
        &&& post.ctx == pre.ctx
        &&& if pre.var_names().contains(name) {
            &&& post == pre
            &&& exists|i: int|
                0 <= i < pre.vars@.len() && (#[trigger] pre.vars@[i].0@) == name && res
                    == Ok::<z3::ast::BV<'ctx>, Error>(pre.vars@[i].1)
        } else {
            &&& post.vars@.len() == pre.vars@.len() + 1
            &&& post.vars@.take(pre.vars@.len() as int) == pre.vars@
            &&& post.var_names() == pre.var_names().push(name)
            &&& post.vars@.last().0@ == name
            &&& res == Ok::<z3::ast::BV<'ctx>, Error>(post.vars@.last().1)
            &&& if is_hole_name(name) {
                &&& post.holes@.len() == pre.holes@.len() + 1
                &&& post.holes@.take(pre.holes@.len() as int) == pre.holes@
                &&& post.holes@.last().0@ == name
                &&& post.consts@ == pre.consts@
            } else {
                &&& post.holes@ == pre.holes@
                &&& post.consts@.len() == pre.consts@.len() + 1
            }
        }
    }

    fn constant(&mut self, c: i64) -> z3::ast::BV<'ctx> {
        bv_literal(self.ctx, c)
    }

    fn add(&mut self, lhs: &z3::ast::BV<'ctx>, rhs: &z3::ast::BV<'ctx>) -> z3::ast::BV<'ctx> {
        bv_add(lhs, rhs)
    }

    fn sub(&mut self, lhs: &z3::ast::BV<'ctx>, rhs: &z3::ast::BV<'ctx>) -> z3::ast::BV<'ctx> {
        bv_sub(lhs, rhs)
    }

    fn mul(&mut self, lhs: &z3::ast::BV<'ctx>, rhs: &z3::ast::BV<'ctx>) -> z3::ast::BV<'ctx> {
        bv_mul(lhs, rhs)
    }

    /// Symbolic division builds a signed bitvector division term and never
    /// fails here: the divisor may itself be symbolic, so divide-by-zero
    /// safety is the query's concern, not the compiler's.
    fn div(&mut self, lhs: &z3::ast::BV<'ctx>, rhs: &z3::ast::BV<'ctx>) -> Result<
        z3::ast::BV<'ctx>,
        Error,
    > {
        Ok(bv_sdiv(lhs, rhs))
    }

    fn shr(&mut self, lhs: &z3::ast::BV<'ctx>, rhs: &z3::ast::BV<'ctx>) -> Result<
        z3::ast::BV<'ctx>,
        Error,
    > {
        Ok(bv_lshr(lhs, rhs))
    }

    fn shl(&mut self, lhs: &z3::ast::BV<'ctx>, rhs: &z3::ast::BV<'ctx>) -> Result<
        z3::ast::BV<'ctx>,
        Error,
    > {
        Ok(bv_shl(lhs, rhs))
    }

    fn neg(&mut self, e: &z3::ast::BV<'ctx>) -> z3::ast::BV<'ctx> {
        bv_neg(e)
    }

    /// A boolean equality term, converted at once to a 1/0 bitvector so
    /// that every domain value stays bitvector-typed.
    fn eq(&mut self, lhs: &z3::ast::BV<'ctx>, rhs: &z3::ast::BV<'ctx>) -> z3::ast::BV<'ctx> {
        let one = bv_literal(self.ctx, 1);
        let zero = bv_literal(self.ctx, 0);
        let t = bv_eq_term(lhs, rhs);
        bool_ite_bv(&t, &one, &zero)
    }

    fn neq(&mut self, lhs: &z3::ast::BV<'ctx>, rhs: &z3::ast::BV<'ctx>) -> z3::ast::BV<'ctx> {
        let one = bv_literal(self.ctx, 1);
        let zero = bv_literal(self.ctx, 0);
        let t = bool_not(&bv_eq_term(lhs, rhs));
        bool_ite_bv(&t, &one, &zero)
    }

    /// First use allocates a fresh free term and classifies the name;
    /// later uses return the identical term.
    fn lookup(&mut self, var: &str) -> (res: Result<z3::ast::BV<'ctx>, Error>) {
        let ghost pre = *old(self);
        let owned: String = var.to_owned();
        let n = self.vars.len();
        for i in 0..n
            invariant
                *self == pre,
                pre == *old(self),
                old(self).inv(),
                owned@ == var@,
                n == self.vars@.len(),
                forall|j: int| 0 <= j < i ==> self.vars@[j].0@ != var@,
        {
            if self.vars[i].0 == owned {
                let ast = bv_clone(&self.vars[i].1);
                proof {
                    assert(pre.var_names()[i as int] == var@);
                    assert(pre.var_names().contains(var@));
                    assert(pre.vars@[i as int].0@ == var@ && ast == pre.vars@[i as int].1);
                }
                return Ok(ast);
            }
        }
        proof {
            assert(forall|j: int|
                0 <= j < pre.var_names().len() ==> #[trigger] pre.var_names()[j] != var@);
            assert(!pre.var_names().contains(var@));
        }
        let ast = bv_fresh(self.ctx);
        let stored = bv_clone(&ast);
        self.vars.push((owned, stored));
        if name_is_hole(var) {
            let kept = bv_clone(&ast);
            self.holes.push((var.to_owned(), kept));
        } else {
            self.consts.push(bv_clone(&ast));
        }
        proof {
            assert(self.vars@.take(pre.vars@.len() as int) =~= pre.vars@);
            assert(self.var_names() =~= pre.var_names().push(var@));
            if is_hole_name(var@) {
                assert(self.holes@.take(pre.holes@.len() as int) =~= pre.holes@);
            }
            assert(self.inv()) by {
                assert(forall|k: int|
                    0 <= k < self.holes@.len() ==> is_hole_name(#[trigger] self.holes@[k].0@)
                        && self.var_names().contains(self.holes@[k].0@)) by {
                    assert(forall|k: int|
                        0 <= k < pre.holes@.len() ==> self.holes@[k] == pre.holes@[k]);
                    assert(forall|name: Seq<char>|
                        pre.var_names().contains(name) ==> self.var_names().contains(name)) by {
                        assert(forall|j: int|
                            0 <= j < pre.var_names().len()
                                ==> self.var_names()[j] == #[trigger] pre.var_names()[j]);
                    }
                    assert(self.var_names().last() == var@);
                    assert(self.var_names().contains(var@));
                }
                assert(forall|i: int|
                    0 <= i < self.vars@.len() && is_hole_name(#[trigger] self.vars@[i].0@)
                        ==> self.hole_names().contains(self.vars@[i].0@)) by {
                    assert(forall|k: int|
                        0 <= k < pre.holes@.len()
                            ==> self.hole_names()[k] == #[trigger] pre.hole_names()[k]);
                    assert(forall|name: Seq<char>|
                        pre.hole_names().contains(name) ==> self.hole_names().contains(name));
                    if is_hole_name(var@) {
                        assert(self.hole_names().last() == var@);
                        assert(self.hole_names().contains(var@));
                    }
                    assert(forall|i: int| 0 <= i < pre.vars@.len() ==> self.vars@[i] == pre.vars@[i]);
                }
            }
        }
        Ok(ast)
    }

    proof fn step_constant(
        pre: Self, nodes: Seq<Node>, names: Seq<Seq<char>>, n: int,
        post: Self, c: i64, res: z3::ast::BV<'ctx>,
    ) {
    }

    proof fn step_identifier(
        pre: Self, nodes: Seq<Node>, names: Seq<Seq<char>>, n: int,
        s: StringId, post: Self, res: Result<z3::ast::BV<'ctx>, Error>,
    ) {
    }

    proof fn step_bin_err_left(
        pre: Self, nodes: Seq<Node>, names: Seq<Seq<char>>, n: int,
        op: BinOp, a: NodeId, b: NodeId, post: Self, e: Error,
    ) {
    }

    proof fn step_bin_err_right(
        pre: Self, nodes: Seq<Node>, names: Seq<Seq<char>>, n: int,
        op: BinOp, a: NodeId, b: NodeId, mid: Self, lv: z3::ast::BV<'ctx>, post: Self, e: Error,
    ) {
    }

    proof fn step_bin_op(
        pre: Self, nodes: Seq<Node>, names: Seq<Seq<char>>, n: int,
        op: BinOp, a: NodeId, b: NodeId, mid: Self, lv: z3::ast::BV<'ctx>,
        mid2: Self, rv: z3::ast::BV<'ctx>, post: Self, res: Result<z3::ast::BV<'ctx>, Error>,
    ) {
    }

    proof fn step_neg_err(
        pre: Self, nodes: Seq<Node>, names: Seq<Seq<char>>, n: int,
        a: NodeId, post: Self, e: Error,
    ) {
    }

    proof fn step_neg(
        pre: Self, nodes: Seq<Node>, names: Seq<Seq<char>>, n: int,
        a: NodeId, mid: Self, ev: z3::ast::BV<'ctx>, post: Self, res: z3::ast::BV<'ctx>,
    ) {
    }

    proof fn step_cond_err_cond(
        pre: Self, nodes: Seq<Node>, names: Seq<Seq<char>>, n: int,
        c: NodeId, t: NodeId, f: NodeId, post: Self, e: Error,
    ) {
    }

    proof fn step_cond_err_then(
        pre: Self, nodes: Seq<Node>, names: Seq<Seq<char>>, n: int,
        c: NodeId, t: NodeId, f: NodeId, mid: Self, cv: z3::ast::BV<'ctx>, post: Self, e: Error,
    ) {
    }

    proof fn step_cond_err_else(
        pre: Self, nodes: Seq<Node>, names: Seq<Seq<char>>, n: int,
        c: NodeId, t: NodeId, f: NodeId, s1: Self, cv: z3::ast::BV<'ctx>,
        s2: Self, tv: z3::ast::BV<'ctx>, post: Self, e: Error,
    ) {
    }

    proof fn step_cond(
        pre: Self, nodes: Seq<Node>, names: Seq<Seq<char>>, n: int,
        c: NodeId, t: NodeId, f: NodeId,
        s1: Self, cv: z3::ast::BV<'ctx>, s2: Self, tv: z3::ast::BV<'ctx>,
        s3: Self, fv: z3::ast::BV<'ctx>,
        s4: Self, zero: z3::ast::BV<'ctx>, s5: Self, nz: z3::ast::BV<'ctx>,
        s6: Self, ez: z3::ast::BV<'ctx>,
        s7: Self, m1: z3::ast::BV<'ctx>, s8: Self, m2: z3::ast::BV<'ctx>,
        post: Self, res: z3::ast::BV<'ctx>,
    ) {
    }
}

/// Find integer values for the holes of `template` that make it equal to
/// `specification` for every value of the remaining free variables.
///
/// The specification must not mention hole-named variables; that failure
/// is detected before the solver is consulted. A satisfiable query yields
/// one value per hole of the template; an unsatisfiable one is the
/// no-solution failure.
pub fn synthesize<'ctx>(
    z3_ctx: &'ctx z3::Context,
    ast_ctx: &Arena,
    specification: NodeId,
    template: NodeId,
) -> (r: Result<Env, Error>)
    requires
        ast_ctx.wf(),
        ast_ctx.valid_node(specification),
        ast_ctx.valid_node(template),
    ensures
        ({
            let spec_vars = collect_vars(
                ast_ctx.nodes(), ast_ctx.names(), specification.0 as int, Seq::empty(),
            );
            let all_vars = collect_vars(
                ast_ctx.nodes(), ast_ctx.names(), template.0 as int, spec_vars,
            );
            &&& (r matches Err(e) ==> (e@ is HolesInSpecification || e@ is NoSolution))
            &&& ((r matches Err(e) && e@ is HolesInSpecification) <==> has_hole(spec_vars))
            &&& (r matches Ok(asgn) ==> asgn.wf() && asgn@.dom() == hole_set(all_vars))
        }),
{
    let ghost nodes = ast_ctx.nodes();
    let ghost names = ast_ctx.names();
    let ghost spec_vars = collect_vars(nodes, names, specification.0 as int, Seq::empty());
    let ghost all_vars = collect_vars(nodes, names, template.0 as int, spec_vars);

    let mut synth = Synthesize {
        ctx: z3_ctx,
        vars: Vec::new(),
        holes: Vec::new(),
        consts: Vec::new(),
    };
    proof {
        assert(synth.var_names() =~= Seq::<Seq<char>>::empty());
    }
    let spec_formula = match interpret(&mut synth, ast_ctx, specification) {
        Ok(f) => f,
        Err(_) => {
            proof {
                assert(false);
            }
            return Err(Error::NoSolution);
        },
    };
    proof {
        assert(synth.var_names() == spec_vars);
    }
    if synth.holes.len() > 0 {
        proof {
            assert(is_hole_name(synth.holes@[0].0@));
            assert(synth.var_names().contains(synth.holes@[0].0@));
            let i = choose|i: int|
                0 <= i < synth.var_names().len() && synth.var_names()[i] == synth.holes@[0].0@;
            assert(has_hole(spec_vars));
        }
        return Err(Error::HolesInSpecification);
    }
    proof {
        assert(!has_hole(spec_vars)) by {
            assert(forall|i: int|
                0 <= i < spec_vars.len() ==> !is_hole_name(#[trigger] spec_vars[i])) by {
                assert(forall|i: int|
                    0 <= i < synth.vars@.len() && is_hole_name(#[trigger] synth.vars@[i].0@)
                        ==> synth.hole_names().contains(synth.vars@[i].0@));
                assert(synth.hole_names().len() == 0);
            }
        }
    }
    let templ_formula = match interpret(&mut synth, ast_ctx, template) {
        Ok(f) => f,
        Err(_) => {
            proof {
                assert(false);
            }
            return Err(Error::NoSolution);
        },
    };
    proof {
        assert(synth.var_names() == all_vars);
    }

    let goal_eq = bv_eq_term(&spec_formula, &templ_formula);
    let goal = if synth.consts.len() == 0 {
        bool_clone(&goal_eq)
    } else {
        bv_forall(z3_ctx, &synth.consts, &goal_eq)
    };

    let solver = solver_new(z3_ctx);
    solver_assert(&solver, &goal);
    if let Some(model) = solver_check_model(&solver) {
        let mut results = Env::new();
        let n = synth.holes.len();
        for i in 0..n
            invariant
                results.wf(),
                n == synth.holes@.len(),
                synth.inv(),
                synth.var_names() == all_vars,
                results@.dom() == Set::new(
                    |name: Seq<char>|
                        exists|j: int| 0 <= j < i && (#[trigger] synth.holes@[j].0@) == name,
                ),
        {
            let value = match model_eval_bv(&model, &synth.holes[i].1) {
                Some(term) => match bv_as_i64(&term) {
                    Some(v) => v,
                    None => match bv_as_u64(&term) {
                        Some(u) => #[verifier::truncate] (u as i64),
                        None => 0,
                    },
                },
                None => 0,
            };
            let ghost pre_dom = results@.dom();
            results.insert(synth.holes[i].0.as_str(), value);
            proof {
                assert(results@.dom() =~= Set::new(
                    |name: Seq<char>|
                        exists|j: int| 0 <= j < i + 1 && (#[trigger] synth.holes@[j].0@) == name,
                ));
            }
        }
        proof {
            assert(results@.dom() =~= hole_set(all_vars)) by {
                assert(forall|name: Seq<char>| #[trigger] results@.dom().contains(name)
                    ==> hole_set(all_vars).contains(name)) by {
                    assert(forall|j: int|
                        0 <= j < synth.holes@.len() ==> is_hole_name(#[trigger] synth.holes@[j].0@)
                            && synth.var_names().contains(synth.holes@[j].0@));
                }
                assert(forall|name: Seq<char>| #[trigger] hole_set(all_vars).contains(name)
                    ==> results@.dom().contains(name)) by {
                    assert(forall|name: Seq<char>|
                        #[trigger] all_vars.contains(name) && is_hole_name(name) ==> exists|j: int|
                            0 <= j < synth.holes@.len() && (#[trigger] synth.holes@[j].0@)
                                == name) by {
                        assert(forall|i2: int|
                            0 <= i2 < synth.vars@.len() && is_hole_name(
                                #[trigger] synth.vars@[i2].0@,
                            ) ==> synth.hole_names().contains(synth.vars@[i2].0@));
                    }
                }
            }
        }
        Ok(results)
    } else {
        Err(Error::NoSolution)
    }
}

} // verus!
