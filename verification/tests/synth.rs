use minisynth::{eval, synth};

fn assert_synth(spec: &str, templ: &str, consts: &[&str]) {
    println!("specification = {}", spec);
    println!("     template = {}", templ);
    let mut r = synth(spec, templ).unwrap();
    println!("{:#?}", r);

    // Assert that the results make the template fulfill the specification for
    // an arbitrary range of constant values.
    for x in -255..256 {
        for c in consts {
            r.insert(c, x);
        }
        assert_eq!(eval(spec, &r).unwrap(), eval(templ, &r).unwrap());
    }
}

#[test]
fn test_x_mul_ten_is_sum_of_shifts() {
    assert_synth("x * 10", "(x << h1) + (x << h2)", &["x"]);
}

#[test]
fn synth_test_add() {
    assert_synth("3", "h1 + h2", &[]);
}

#[test]
fn synth_test_sub() {
    assert_synth("3", "h1 - h2", &[]);
}

#[test]
fn synth_test_mul() {
    assert_synth("6", "2 * h1", &[]);
}

#[test]
fn synth_test_div() {
    assert_synth("6", "12 / h1", &[]);
}

#[test]
fn synth_test_shr() {
    assert_synth("6", "12 >> h1", &[]);
}

#[test]
fn synth_test_shl() {
    assert_synth("48", "3 << h1", &[]);
}

#[test]
fn synth_test_neg() {
    assert_synth("-42", "-(2 * h1)", &[]);
}

#[test]
fn synth_test_conditional() {
    assert_synth("x * 9", "x << (hb1 ? x : hn1) + (hb2 ? x : hn2)", &["x"]);
}

#[test]
fn test_mul_ten_holes_are_one_and_three() {
    let r = synth("x * 10", "(x << h1) + (x << h2)").unwrap();
    let h1 = r.get("h1").unwrap();
    let h2 = r.get("h2").unwrap();
    assert!((h1 == 1 && h2 == 3) || (h1 == 3 && h2 == 1));
}

#[test]
fn test_sum_holes_add_up() {
    let r = synth("3", "h1 + h2").unwrap();
    let h1 = r.get("h1").unwrap();
    let h2 = r.get("h2").unwrap();
    assert_eq!(h1.wrapping_add(h2), 3);
}

#[test]
fn test_div_hole_is_two() {
    let r = synth("6", "12 / h1").unwrap();
    assert_eq!(r.get("h1").unwrap(), 2);
}
