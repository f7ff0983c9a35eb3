pub mod abstract_interpret;
pub mod ast;
pub mod env;
pub mod eval;
pub mod parse;
pub mod solver;
pub mod synthesize;

use vstd::prelude::*;
use vstd::string::StringExecFns;

use crate::env::Env;

verus! {

/// Ghost-level mirror of [`Error`]: identifier payloads appear as
/// character sequences so that contracts can speak about them.
pub enum ErrorSpec {
    Parse,
    UndefinedVariable(Seq<char>),
    DivideByZero,
    ShiftOutOfRange,
    HolesInSpecification,
    NoSolution,
}

/// Every terminal failure of evaluation or synthesis.
#[derive(Debug)]
pub enum Error {
    /// The source text is malformed; carries a short description.
    Parse(String),
    /// A concrete lookup missed; carries the offending identifier.
    UndefinedVariable(String),
    /// Concrete division with a divisor that evaluated to zero.
    DivideByZero,
    /// Concrete shift with an amount outside `0..64`.
    ShiftOutOfRange,
    /// A hole-named free variable occurred in a specification tree.
    HolesInSpecification,
    /// The solver proved the synthesis query unsatisfiable.
    NoSolution,
}

impl View for Error {
    type V = ErrorSpec;

    open spec fn view(&self) -> ErrorSpec {
        match self {
            Error::Parse(_) => ErrorSpec::Parse,
            Error::UndefinedVariable(name) => ErrorSpec::UndefinedVariable(name@),
            Error::DivideByZero => ErrorSpec::DivideByZero,
            Error::ShiftOutOfRange => ErrorSpec::ShiftOutOfRange,
            Error::HolesInSpecification => ErrorSpec::HolesInSpecification,
            Error::NoSolution => ErrorSpec::NoSolution,
        }
    }
}

impl Error {
    /// A short human-readable description of the failure.
    pub fn describe(&self) -> (r: String)
        ensures
            match self {
                Error::Parse(msg) => r@ == msg@,
                Error::UndefinedVariable(name) => r@ == "undefined variable: "@ + name@,
                Error::DivideByZero => r@ == "divide by zero"@,
                Error::ShiftOutOfRange => r@ == "shift amount out of range"@,
                Error::HolesInSpecification => r@ == "the specification cannot have any holes!"@,
                Error::NoSolution => r@ == "no solution"@,
            },
    {
        match self {
            Error::Parse(msg) => msg.clone(),
            Error::UndefinedVariable(name) => "undefined variable: ".to_owned().concat(
                name.as_str(),
            ),
            Error::DivideByZero => "divide by zero".to_owned(),
            Error::ShiftOutOfRange => "shift amount out of range".to_owned(),
            Error::HolesInSpecification => "the specification cannot have any holes!".to_owned(),
            Error::NoSolution => "no solution".to_owned(),
        }
    }
}

/// Parse `source` and evaluate it under `env`: the result is exactly what
/// the grammar and the concrete semantics say, a parse failure on text the
/// grammar rejects, and otherwise the value or failure of the denoted
/// expression.
pub fn eval(source: &str, env: &Env) -> (r: Result<i64, Error>)
    requires
        env.wf(),
    ensures
        match parse::spec_parse_text(source@) {
            Some(expr) => eval::agrees(r, eval::eval_expr_spec(expr, env@)),
            None => r matches Err(e) && e@ is Parse,
        },
        r matches Err(e) ==> (e@ is Parse || e@ is UndefinedVariable || e@ is DivideByZero
            || e@ is ShiftOutOfRange),
{
    let mut ctx = ast::Arena::new();
    let node = match parse::parse(&mut ctx, source) {
        Ok(n) => n,
        Err(e) => {
            return Err(e);
        },
    };
    let r = eval::eval(&ctx, node, env);
    proof {
        eval::lemma_eval_error_kinds(ctx.nodes(), ctx.names(), env@, node.0 as int);
        eval::lemma_eval_expr_at(ctx.nodes(), ctx.names(), env@, node.0 as int);
    }
    r
}

/// Say which of the two synthesis inputs failed to parse, keeping the
/// parser's own message.
fn prefix_parse_error(which: &str, e: Error) -> (r: Error)
    requires
        e@ is Parse,
    ensures
        r@ is Parse,
{
    match e {
        Error::Parse(msg) => Error::Parse(which.to_owned().concat(msg.as_str())),
        other => other,
    }
}

/// Parse a specification and a template into one shared arena and find
/// integer values for the template's holes that make the two expressions
/// equal for every value of their shared free variables.
///
/// A parse failure comes exactly on text the grammar rejects; the
/// hole-in-specification failure comes exactly when the parsed
/// specification mentions a hole-named variable; and a successful
/// assignment covers exactly the holes of the parsed pair.
pub fn synth(specification: &str, template: &str) -> (r: Result<Env, Error>)
    ensures
        r matches Ok(asgn) ==> asgn.wf(),
        r matches Err(e) ==> (e@ is Parse || e@ is HolesInSpecification || e@ is NoSolution),
        ({
            let s = parse::spec_parse_text(specification@);
            let t = parse::spec_parse_text(template@);
            &&& ((s is None || t is None) <==> (r matches Err(e) && e@ is Parse))
            &&& match (s, t) {
                (Some(se), Some(te)) => {
                    let spec_vars = synthesize::expr_vars(se, Seq::empty());
                    let all_vars = synthesize::expr_vars(te, spec_vars);
                    &&& ((r matches Err(e) && e@ is HolesInSpecification)
                        <==> synthesize::has_hole(spec_vars))
                    &&& (r matches Ok(asgn) ==> asgn@.dom() == synthesize::hole_set(all_vars))
                },
                _ => true,
            }
        }),
{
    let config = solver::config_new();
    let z3_ctx = solver::context_new(&config);

    let mut ast_ctx = ast::Arena::new();
    let specification = match parse::parse(&mut ast_ctx, specification) {
        Ok(n) => n,
        Err(e) => {
            return Err(prefix_parse_error("error parsing specification: ", e));
        },
    };
    let ghost ctx1 = ast_ctx;
    let template = match parse::parse(&mut ast_ctx, template) {
        Ok(n) => n,
        Err(e) => {
            return Err(prefix_parse_error("error parsing template: ", e));
        },
    };
    proof {
        ast::lemma_expr_at_stable(
            ctx1.nodes(),
            ctx1.names(),
            ast_ctx.nodes(),
            ast_ctx.names(),
            specification.0 as int,
        );
        synthesize::lemma_collect_expr_vars(
            ast_ctx.nodes(),
            ast_ctx.names(),
            specification.0 as int,
            Seq::empty(),
        );
        synthesize::lemma_collect_expr_vars(
            ast_ctx.nodes(),
            ast_ctx.names(),
            template.0 as int,
            synthesize::collect_vars(
                ast_ctx.nodes(),
                ast_ctx.names(),
                specification.0 as int,
                Seq::empty(),
            ),
        );
    }
    synthesize::synthesize(&z3_ctx, &ast_ctx, specification, template)
}

} // verus!
