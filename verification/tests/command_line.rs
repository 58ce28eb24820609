use cargo_templated_examples::command_line::load_args;
use cargo_templated_examples::errors::ExampleError;
use cargo_templated_examples::templates::TemplateArgs;

fn strings(items: &[&str]) -> Vec<String> {
    items.iter().map(|s| String::from(*s)).collect()
}

#[test]
fn pairs_fill_the_table() {
    let mut args = TemplateArgs::new();
    args.insert(String::from("N"), strings(&["1"]));
    let r = load_args(
        &mut args,
        &strings(&["templated-examples", "N", "2,4", "SIZE", "big"]),
    );
    assert_eq!(r, Ok(None));
    assert_eq!(args.len(), 2);
    assert_eq!(args.get("N"), Some(&strings(&["2", "4"])));
    assert_eq!(args.get("SIZE"), Some(&strings(&["big"])));
}

#[test]
fn features_are_no_template_argument() {
    let mut args = TemplateArgs::new();
    let r = load_args(
        &mut args,
        &strings(&[
            "templated-examples",
            "--features",
            "a",
            "N",
            "2",
            "--features",
            "one,two",
            "build",
            "debug",
        ]),
    );
    assert_eq!(r, Ok(Some(strings(&["one", "two"]))));
    assert_eq!(args.len(), 1);
    assert_eq!(args.get("N"), Some(&strings(&["2"])));
    assert_eq!(args.get("--features"), None);
    assert_eq!(args.get("build"), None);
}

#[test]
fn a_key_without_value_is_passed_over() {
    let mut args = TemplateArgs::new();
    let r = load_args(&mut args, &strings(&["templated-examples", "N", "2", "M"]));
    assert_eq!(r, Ok(None));
    assert_eq!(args.len(), 1);
    let r = load_args(&mut args, &strings(&["templated-examples"]));
    assert_eq!(r, Ok(None));
    assert_eq!(args.len(), 1);
    let r = load_args(&mut args, &strings(&["templated-examples", "K", ""]));
    assert_eq!(r, Ok(None));
    assert_eq!(args.get("K"), Some(&strings(&[""])));
}

#[test]
fn subcommand_must_come_first() {
    let mut args = TemplateArgs::new();
    assert_eq!(
        load_args(&mut args, &strings(&[])),
        Err(ExampleError::NotSubcommand)
    );
    assert_eq!(
        load_args(&mut args, &strings(&["N", "2"])),
        Err(ExampleError::NotSubcommand)
    );
    assert_eq!(
        load_args(&mut args, &strings(&["cargo", "templated-examples", "N", "2"])),
        Err(ExampleError::NotSubcommand)
    );
    assert_eq!(args.len(), 0);
}
