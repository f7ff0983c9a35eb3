use vstd::prelude::*;

use z3::ast::Ast;

verus! {

// The solver boundary: an opaque decision procedure. Everything in this
// module is declared, not verified; each item names the one function of
// the z3 crate it relies on. Nothing is promised of the terms themselves —
// they are opaque handles into the solver's context — so the wrappers'
// contracts state only what the callers' proofs rest on: that a clone of a
// term handle equals the original.

#[verifier::external_type_specification]
#[verifier::external_body]
pub struct ExConfig(z3::Config);

#[verifier::external_type_specification]
#[verifier::external_body]
pub struct ExContext(z3::Context);

#[verifier::external_type_specification]
#[verifier::external_body]
pub struct ExSolver<'ctx>(z3::Solver<'ctx>);

#[verifier::external_type_specification]
#[verifier::external_body]
pub struct ExModel<'ctx>(z3::Model<'ctx>);

#[verifier::external_type_specification]
#[verifier::external_body]
pub struct ExBV<'ctx>(z3::ast::BV<'ctx>);

#[verifier::external_type_specification]
#[verifier::external_body]
pub struct ExBool<'ctx>(z3::ast::Bool<'ctx>);

/// Relies on z3::Config::new: a fresh solver configuration.
#[verifier::external_body]
pub(crate) fn config_new() -> z3::Config {
    z3::Config::new()
}

/// Relies on z3::Context::new: a fresh term context.
#[verifier::external_body]
pub(crate) fn context_new(cfg: &z3::Config) -> z3::Context {
    z3::Context::new(cfg)
}

/// Relies on z3::ast::BV::from_i64: the 64-bit bitvector literal for `c`.
#[verifier::external_body]
pub(crate) fn bv_literal<'ctx>(ctx: &'ctx z3::Context, c: i64) -> z3::ast::BV<'ctx> {
    z3::ast::BV::from_i64(ctx, c, 64)
}

/// Relies on z3::ast::BV::fresh_const: a fresh free 64-bit bitvector
/// variable, distinct from every term made before it. The display prefix
/// is fixed here: fresh_const builds a C string from it and would panic on
/// an interior NUL, so no caller-supplied text may reach it.
#[verifier::external_body]
pub(crate) fn bv_fresh<'ctx>(ctx: &'ctx z3::Context) -> z3::ast::BV<'ctx> {
    z3::ast::BV::fresh_const(ctx, "v", 64)
}

/// Relies on z3::ast::BV::bvadd: the bitvector sum term.
#[verifier::external_body]
pub(crate) fn bv_add<'ctx>(a: &z3::ast::BV<'ctx>, b: &z3::ast::BV<'ctx>) -> z3::ast::BV<'ctx> {
    a.bvadd(b)
}

/// Relies on z3::ast::BV::bvsub: the bitvector difference term.
#[verifier::external_body]
pub(crate) fn bv_sub<'ctx>(a: &z3::ast::BV<'ctx>, b: &z3::ast::BV<'ctx>) -> z3::ast::BV<'ctx> {
    a.bvsub(b)
}

/// Relies on z3::ast::BV::bvmul: the bitvector product term.
#[verifier::external_body]
pub(crate) fn bv_mul<'ctx>(a: &z3::ast::BV<'ctx>, b: &z3::ast::BV<'ctx>) -> z3::ast::BV<'ctx> {
    a.bvmul(b)
}

/// Relies on z3::ast::BV::bvsdiv: the signed bitvector division term.
#[verifier::external_body]
pub(crate) fn bv_sdiv<'ctx>(a: &z3::ast::BV<'ctx>, b: &z3::ast::BV<'ctx>) -> z3::ast::BV<'ctx> {
    a.bvsdiv(b)
}

/// Relies on z3::ast::BV::bvlshr: the logical right-shift term.
#[verifier::external_body]
pub(crate) fn bv_lshr<'ctx>(a: &z3::ast::BV<'ctx>, b: &z3::ast::BV<'ctx>) -> z3::ast::BV<'ctx> {
    a.bvlshr(b)
}

/// Relies on z3::ast::BV::bvshl: the left-shift term.
#[verifier::external_body]
pub(crate) fn bv_shl<'ctx>(a: &z3::ast::BV<'ctx>, b: &z3::ast::BV<'ctx>) -> z3::ast::BV<'ctx> {
    a.bvshl(b)
}

/// Relies on z3::ast::BV::bvneg: the bitvector negation term.
#[verifier::external_body]
pub(crate) fn bv_neg<'ctx>(a: &z3::ast::BV<'ctx>) -> z3::ast::BV<'ctx> {
    a.bvneg()
}

/// Relies on z3::ast::Ast::_eq: the boolean term `a == b`.
#[verifier::external_body]
pub(crate) fn bv_eq_term<'ctx>(a: &z3::ast::BV<'ctx>, b: &z3::ast::BV<'ctx>) -> z3::ast::Bool<
    'ctx,
> {
    a._eq(b)
}

/// Relies on z3::ast::Bool::not: the boolean negation term.
#[verifier::external_body]
pub(crate) fn bool_not<'ctx>(b: &z3::ast::Bool<'ctx>) -> z3::ast::Bool<'ctx> {
    b.not()
}

/// Relies on z3::ast::Bool::ite: the if-then-else term over bitvectors.
#[verifier::external_body]
pub(crate) fn bool_ite_bv<'ctx>(
    c: &z3::ast::Bool<'ctx>,
    t: &z3::ast::BV<'ctx>,
    f: &z3::ast::BV<'ctx>,
) -> z3::ast::BV<'ctx> {
    c.ite(t, f)
}

/// Relies on the z3 crate's Clone for BV: it re-wraps the same underlying
/// term handle, so the clone equals the original.
#[verifier::external_body]
pub(crate) fn bv_clone<'ctx>(t: &z3::ast::BV<'ctx>) -> (r: z3::ast::BV<'ctx>)
    ensures
        r == *t,
{
    t.clone()
}

/// Relies on the z3 crate's Clone for Bool: it re-wraps the same
/// underlying term handle, so the clone equals the original.
#[verifier::external_body]
pub(crate) fn bool_clone<'ctx>(b: &z3::ast::Bool<'ctx>) -> (r: z3::ast::Bool<'ctx>)
    ensures
        r == *b,
{
    b.clone()
}

/// Relies on z3::ast::forall_const: the universal closure of `body` over
/// `bounds` (the identity on `body` when `bounds` is empty). The rest of
/// the body converts the bound terms to the dynamically sorted form the
/// call expects and the boolean result back; a quantification of a boolean
/// body is boolean, so the final conversion cannot fail.
#[verifier::external_body]
pub(crate) fn bv_forall<'ctx>(
    ctx: &'ctx z3::Context,
    bounds: &Vec<z3::ast::BV<'ctx>>,
    body: &z3::ast::Bool<'ctx>,
) -> z3::ast::Bool<'ctx> {
    let dyns: Vec<z3::ast::Dynamic<'ctx>> =
        bounds.iter().map(|b| z3::ast::Dynamic::from(b.clone())).collect();
    let refs: Vec<&z3::ast::Dynamic<'ctx>> = dyns.iter().collect();
    let q = z3::ast::forall_const(ctx, &refs, &[], &z3::ast::Dynamic::from(body.clone()));
    q.as_bool().unwrap()
}

/// Relies on z3::Solver::new: a fresh solver over `ctx`.
#[verifier::external_body]
pub(crate) fn solver_new<'ctx>(ctx: &'ctx z3::Context) -> z3::Solver<'ctx> {
    z3::Solver::new(ctx)
}

/// Relies on z3::Solver::assert: adds `b` to the solver's assertions.
#[verifier::external_body]
pub(crate) fn solver_assert<'ctx>(s: &z3::Solver<'ctx>, b: &z3::ast::Bool<'ctx>) {
    s.assert(b)
}

/// Relies on z3::Solver::check and, only under a satisfiable verdict,
/// z3::Solver::get_model: the model when the assertions were found
/// satisfiable, and `None` otherwise (an unknown verdict counts as
/// unsatisfiable). The two calls share one trusted body so that no model
/// is ever read without a successful check, which z3 documents as the one
/// state in which `get_model` returns normally.
#[verifier::external_body]
pub(crate) fn solver_check_model<'ctx>(s: &z3::Solver<'ctx>) -> Option<z3::Model<'ctx>> {
    match s.check() {
        z3::SatResult::Sat => Some(s.get_model()),
        z3::SatResult::Unsat => None,
        z3::SatResult::Unknown => None,
    }
}

/// Relies on z3::Model::eval (with model completion): the model's value
/// for `t`, as a term.
#[verifier::external_body]
pub(crate) fn model_eval_bv<'ctx>(
    m: &z3::Model<'ctx>,
    t: &z3::ast::BV<'ctx>,
) -> Option<z3::ast::BV<'ctx>> {
    m.eval(t)
}

/// Relies on z3::ast::BV::as_i64: the numeral's value when it fits the
/// signed 64-bit range.
#[verifier::external_body]
pub(crate) fn bv_as_i64<'ctx>(t: &z3::ast::BV<'ctx>) -> Option<i64> {
    t.as_i64()
}

/// Relies on z3::ast::BV::as_u64: the numeral's value when it fits the
/// unsigned 64-bit range.
#[verifier::external_body]
pub(crate) fn bv_as_u64<'ctx>(t: &z3::ast::BV<'ctx>) -> Option<u64> {
    t.as_u64()
}

} // verus!
