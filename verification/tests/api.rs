use bounds::api::{authorization, sort_templates};
use bounds::model::GitignoreTemplate;

fn template(key: &str, name: &str) -> GitignoreTemplate {
    GitignoreTemplate {
        key: key.to_owned(),
        name: name.to_owned(),
        source: String::new(),
    }
}

#[test]
fn sorts_templates_by_lowercased_name() {
    let sorted = sort_templates(vec![
        template("rust", "Rust"),
        template("astro", "astro"),
        template("node", "Node"),
        template("go", "Go"),
    ]);
    let names: Vec<&str> = sorted.iter().map(|t| t.name.as_str()).collect();
    assert_eq!(names, vec!["astro", "Go", "Node", "Rust"]);
}

#[test]
fn sorting_keeps_every_template() {
    let sorted = sort_templates(vec![
        template("b", "B"),
        template("a2", "a"),
        template("a1", "A"),
    ]);
    let mut keys: Vec<&str> = sorted.iter().map(|t| t.key.as_str()).collect();
    assert_eq!(sorted[2].key, "b");
    keys.sort();
    assert_eq!(keys, vec!["a1", "a2", "b"]);
}

#[test]
fn sorting_nothing_gives_nothing() {
    assert!(sort_templates(Vec::new()).is_empty());
}

#[test]
fn bearer_token_header() {
    assert_eq!(
        authorization(&Some("abc".to_owned())),
        Some("Bearer abc".to_owned())
    );
    assert_eq!(authorization(&None), None);
}
