use cargo_templated_examples::templates::{expand_templates, TemplateArgs};

fn strings(items: &[&str]) -> Vec<String> {
    items.iter().map(|s| String::from(*s)).collect()
}

#[test]
fn three_values_give_three_commands() {
    let mut args = TemplateArgs::new();
    assert!(args.insert(String::from("X"), strings(&["a", "bb", ""])));
    let out = expand_templates(strings(&["cargo run -n {{X}} --example eg"]), &args);
    assert_eq!(
        out,
        strings(&[
            "cargo run -n a --example eg",
            "cargo run -n bb --example eg",
            "cargo run -n  --example eg"
        ])
    );
}

#[test]
fn every_occurrence_is_replaced() {
    let mut args = TemplateArgs::new();
    args.insert(String::from("N"), strings(&["2", "4"]));
    let out = expand_templates(strings(&["{{N}} a {{N}}{{N}} {N} {{N}"]), &args);
    assert_eq!(out, strings(&["2 a 22 {N} {{N}", "4 a 44 {N} {{N}"]));
}

#[test]
fn no_placeholder_passes_through_once() {
    let mut args = TemplateArgs::new();
    args.insert(String::from("X"), strings(&["1", "2", "3"]));
    args.insert(String::from("Y"), strings(&["a", "b"]));
    let out = expand_templates(strings(&["cargo run --example plain"]), &args);
    assert_eq!(out, strings(&["cargo run --example plain"]));
    // a placeholder whose name is not in the table stays
    let out = expand_templates(strings(&["cargo run {{Z}}"]), &args);
    assert_eq!(out, strings(&["cargo run {{Z}}"]));
    // an empty table changes nothing
    let out = expand_templates(strings(&["{{X}}", "b"]), &TemplateArgs::new());
    assert_eq!(out, strings(&["{{X}}", "b"]));
}

#[test]
fn cartesian_product_in_table_order() {
    let mut args = TemplateArgs::new();
    args.insert(String::from("X"), strings(&["1", "2"]));
    args.insert(String::from("Y"), strings(&["a", "b", "c"]));
    let out = expand_templates(strings(&["{{X}}-{{Y}}", "plain", "only {{Y}}"]), &args);
    assert_eq!(
        out,
        strings(&[
            "1-a", "1-b", "1-c", "2-a", "2-b", "2-c", "plain", "only a", "only b", "only c"
        ])
    );
}

#[test]
fn no_values_drop_the_command() {
    let mut args = TemplateArgs::new();
    args.insert(String::from("X"), vec![]);
    let out = expand_templates(strings(&["a {{X}}", "b"]), &args);
    assert_eq!(out, strings(&["b"]));
}

#[test]
fn values_are_not_expanded_again() {
    let mut args = TemplateArgs::new();
    args.insert(String::from("X"), strings(&["{{X}}", "{{Y}}"]));
    let out = expand_templates(strings(&["run {{X}}"]), &args);
    assert_eq!(out, strings(&["run {{X}}", "run {{Y}}"]));
    // a later entry does see what an earlier one put in
    args.insert(String::from("Y"), strings(&["1"]));
    let out = expand_templates(strings(&["run {{X}}"]), &args);
    assert_eq!(out, strings(&["run {{X}}", "run 1"]));
}

#[test]
fn overlapping_occurrences_left_to_right() {
    let mut args = TemplateArgs::new();
    args.insert(String::from("{"), strings(&["x"]));
    // the placeholder is `{{{}}`
    let out = expand_templates(strings(&["{{{{}}}"]), &args);
    assert_eq!(out, strings(&[String::from("{{{{}}}").replace("{{{}}", "x").as_str()]));
    assert_eq!(out, strings(&["{x}"]));
}

#[test]
fn insert_replaces_and_reserves() {
    let mut args = TemplateArgs::new();
    assert_eq!(args.len(), 0);
    assert!(args.insert(String::from("A"), strings(&["1"])));
    assert!(args.insert(String::from("B"), strings(&["2"])));
    assert!(args.insert(String::from("A"), strings(&["3", "4"])));
    assert_eq!(args.len(), 2);
    assert_eq!(args.get("A"), Some(&strings(&["3", "4"])));
    assert_eq!(args.get("B"), Some(&strings(&["2"])));
    assert_eq!(args.get("C"), None);
    // the replaced entry keeps its place
    let out = expand_templates(strings(&["{{A}}{{B}}"]), &args);
    assert_eq!(out, strings(&["32", "42"]));
    assert!(!args.insert(String::from("build"), strings(&["release"])));
    assert_eq!(args.len(), 2);
    assert_eq!(args.get("build"), None);
    let copy = args.copy();
    assert_eq!(copy.len(), 2);
    assert_eq!(copy.get("A"), Some(&strings(&["3", "4"])));
}
