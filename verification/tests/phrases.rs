use zk_tui::phrases::{fill, humanise};

#[test]
fn fill_replaces_named_values_only() {
    assert_eq!(fill("Proving with {system}", &[("system", "Groth16")]), "Proving with Groth16");
    assert_eq!(fill("{a}{b} {c}", &[("a", "1"), ("b", "{c}")]), "1{c} {c}");
    assert_eq!(humanise("public-inputs"), "public inputs");
}

#[test]
fn unclosed_and_repeated_names() {
    assert_eq!(fill("{x", &[("x", "1")]), "{x");
    assert_eq!(fill("{x}{x}", &[("x", "1"), ("x", "2")]), "11");
    assert_eq!(fill("{{x}}", &[("x", "1")]), "{1}");
    assert_eq!(humanise("zero_knowledge-proof"), "zero knowledge proof");
}

#[test]
fn a_template_without_a_known_name_comes_back_unchanged() {
    assert_eq!(fill("Proving with {system} {x", &[]), "Proving with {system} {x");
    assert_eq!(fill("no braces here", &[("system", "Groth16")]), "no braces here");
    assert_eq!(fill("{other} and {{more}", &[("system", "Groth16")]), "{other} and {{more}");
}
