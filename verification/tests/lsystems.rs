use mathatura::lsystems::{generate, Rule};

fn rule(from: char, to: &str) -> Rule {
    Rule { from, to: to.to_string() }
}

fn tree_rules() -> Vec<Rule> {
    vec![rule('1', "11"), rule('0', "1[0]0")]
}

fn plant_rules() -> Vec<Rule> {
    vec![rule('X', "F+[[X]-X]-F[-FX]+X"), rule('F', "FF")]
}

#[test]
fn test_generate_tree() {
    let rules = tree_rules();
    let s0 = generate("0", &rules, 0);
    assert_eq!(s0, "0");
    let s1 = generate("0", &rules, 1);
    assert_eq!(s1, "1[0]0");
    let s2 = generate("0", &rules, 2);
    assert_eq!(s2, "11[1[0]0]1[0]0");
}

#[test]
fn test_generate_koch() {
    let rules = vec![rule('F', "F+F-F-F+F")];
    let s1 = generate("F", &rules, 1);
    assert_eq!(s1, "F+F-F-F+F");
}

#[test]
fn test_string_growth() {
    let rules = plant_rules();
    let lengths: Vec<usize> = (0..5).map(|i| generate("X", &rules, i).len()).collect();
    for w in lengths.windows(2) {
        assert!(w[1] > w[0], "String should grow each iteration");
    }
}

#[test]
fn generate_dragon_curve_generations() {
    let rules = vec![rule('X', "X+YF+"), rule('Y', "-FX-Y")];
    assert_eq!(generate("FX", &rules, 1), "FX+YF+");
    assert_eq!(generate("FX", &rules, 2), "FX+YF++-FX-YF+");
}

#[test]
fn generate_rewrites_all_characters_at_once() {
    // A -> B and B -> A swap in one generation; rewriting one rule after
    // the other would turn everything into one letter.
    let rules = vec![rule('A', "B"), rule('B', "A")];
    assert_eq!(generate("AABA", &rules, 1), "BBAB");
    assert_eq!(generate("AABA", &rules, 2), "AABA");
}

#[test]
fn generate_uses_the_first_rule_that_matches() {
    let rules = vec![rule('A', "x"), rule('A', "y"), rule('B', "")];
    assert_eq!(generate("ABA", &rules, 1), "xx");
}

#[test]
fn generate_keeps_characters_without_a_rule() {
    let rules = vec![rule('F', "FF")];
    assert_eq!(generate("[F]+é-", &rules, 2), "[FFFF]+é-");
    assert_eq!(generate("abc", &Vec::new(), 9), "abc");
    assert_eq!(generate("", &rules, 3), "");
}

#[test]
fn generate_in_two_parts_equals_one_run() {
    let rules = plant_rules();
    let three = generate("X", &rules, 3);
    let one = generate("X", &rules, 1);
    assert_eq!(generate(&one, &rules, 2), three);
}
