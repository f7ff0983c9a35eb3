use minisynth::env::Env;
use minisynth::{eval, synth, Error};

#[test]
fn test_divide_by_zero_fails() {
    let r = eval("7 / 0", &Default::default());
    assert!(matches!(r, Err(Error::DivideByZero)));
}

#[test]
fn test_divide_by_zero_in_untaken_branch_still_fails() {
    // the conditional is encoded arithmetically, so both branches run
    let r = eval("1 ? 2 : 3 / 0", &Default::default());
    assert!(matches!(r, Err(Error::DivideByZero)));
}

#[test]
fn test_undefined_variable_fails() {
    let r = eval("name", &Default::default());
    match r {
        Err(Error::UndefinedVariable(n)) => assert_eq!(n, "name"),
        other => panic!("expected an undefined-variable failure, got {:?}", other),
    }
}

#[test]
fn test_shift_out_of_range_fails() {
    assert!(matches!(
        eval("1 << 64", &Default::default()),
        Err(Error::ShiftOutOfRange)
    ));
    assert!(matches!(
        eval("1 >> -1", &Default::default()),
        Err(Error::ShiftOutOfRange)
    ));
}

#[test]
fn test_parse_error() {
    assert!(matches!(eval("1 +", &Default::default()), Err(Error::Parse(_))));
    assert!(matches!(eval("(1", &Default::default()), Err(Error::Parse(_))));
    assert!(matches!(eval("", &Default::default()), Err(Error::Parse(_))));
    assert!(matches!(eval("1 = 2", &Default::default()), Err(Error::Parse(_))));
    assert!(matches!(
        eval("99999999999999999999", &Default::default()),
        Err(Error::Parse(_))
    ));
}

#[test]
fn test_holes_in_specification_fails() {
    assert!(matches!(synth("h1", "h1"), Err(Error::HolesInSpecification)));
}

#[test]
fn test_no_solution() {
    assert!(matches!(synth("0", "1"), Err(Error::NoSolution)));
}

#[test]
fn test_describe_names_the_failure() {
    assert_eq!(Error::DivideByZero.describe(), "divide by zero");
    assert_eq!(Error::NoSolution.describe(), "no solution");
    assert_eq!(
        Error::UndefinedVariable("name".to_string()).describe(),
        "undefined variable: name"
    );
}

#[test]
fn test_synth_parse_error_names_the_input() {
    match synth("1 +", "h1") {
        Err(Error::Parse(msg)) => assert!(msg.starts_with("error parsing specification: ")),
        other => panic!("expected a parse failure, got {:?}", other),
    }
    match synth("1", "h1 +") {
        Err(Error::Parse(msg)) => assert!(msg.starts_with("error parsing template: ")),
        other => panic!("expected a parse failure, got {:?}", other),
    }
}

#[test]
fn test_env_insert_overwrites() {
    let mut env = Env::new();
    env.insert("a", 1);
    env.insert("a", 2);
    assert_eq!(env.get("a"), Some(2));
    assert_eq!(env.get("b"), None);
}

#[test]
fn test_intern_is_idempotent() {
    let mut arena = minisynth::ast::Arena::new();
    let a = arena.intern("x");
    let b = arena.intern("x");
    let c = arena.intern("y");
    assert_eq!(a, b);
    assert_ne!(a, c);
    assert_eq!(arena.interned(a), "x");
    assert_eq!(arena.interned(c), "y");
}
