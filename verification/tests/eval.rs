use minisynth::env::Env;
use minisynth::eval;

#[test]
fn eval_test_add() {
    assert_eq!(eval("1 + 2", &Default::default()).unwrap(), 3);
}

#[test]
fn eval_test_sub() {
    assert_eq!(eval("2 - 1", &Default::default()).unwrap(), 1);
}

#[test]
fn eval_test_mul() {
    assert_eq!(eval("2 * 3", &Default::default()).unwrap(), 6);
}

#[test]
fn eval_test_div() {
    assert_eq!(eval("4 / 2", &Default::default()).unwrap(), 2);
}

#[test]
fn eval_test_shr() {
    assert_eq!(eval("2 >> 1", &Default::default()).unwrap(), 1);
}

#[test]
fn eval_test_shl() {
    assert_eq!(eval("2 << 1", &Default::default()).unwrap(), 4);
}

#[test]
fn eval_test_neg() {
    assert_eq!(eval("-2", &Default::default()).unwrap(), -2);
}

#[test]
fn eval_test_conditional() {
    assert_eq!(eval("1 ? 2 : 3", &Default::default()).unwrap(), 2);
}

#[test]
fn test_var() {
    let mut vars = Env::new();
    vars.insert("a", 42);
    assert_eq!(eval("a", &vars).unwrap(), 42);
}

#[test]
fn test_conditional_false_branch() {
    assert_eq!(eval("0 ? 2 : 3", &Default::default()).unwrap(), 3);
}

#[test]
fn test_conditional_env_selects_branch() {
    let mut vars = Env::new();
    vars.insert("c", 7);
    vars.insert("x", 10);
    vars.insert("y", 20);
    assert_eq!(eval("c ? x : y", &vars).unwrap(), 10);
    vars.insert("c", 0);
    assert_eq!(eval("c ? x : y", &vars).unwrap(), 20);
}

#[test]
fn test_division_truncates_toward_zero() {
    let empty = Env::new();
    assert_eq!(eval("-5 / 2", &empty).unwrap(), -2);
    assert_eq!(eval("5 / -2", &empty).unwrap(), -2);
    assert_eq!(eval("7 >> 1", &empty).unwrap(), 3);
    assert_eq!(eval("3 == 3", &empty).unwrap(), 1);
    assert_eq!(eval("3 != 3", &empty).unwrap(), 0);
    assert_eq!(eval("3 != 4", &empty).unwrap(), 1);
}

#[test]
fn test_precedence_shift_binds_tighter_than_sum() {
    let empty = Env::new();
    assert_eq!(eval("1 << 2 + 1", &empty).unwrap(), 5);
    assert_eq!(eval("2 * 3 + 4", &empty).unwrap(), 10);
    assert_eq!(eval("10 - 2 - 3", &empty).unwrap(), 5);
}
