use bounds::generate::gitignore::{merge, render};
use bounds::model::GitignoreTemplate;

fn template(name: &str, source: &str) -> GitignoreTemplate {
    GitignoreTemplate {
        key: name.to_lowercase(),
        name: name.to_owned(),
        source: source.to_owned(),
    }
}

#[test]
fn render_labels_and_separates_templates() {
    let templates = [
        template("Rust", "\ntarget/\n"),
        template("Node", "node_modules/\n"),
    ];

    assert_eq!(
        render(&templates),
        "# Rust\ntarget/\n\n# Node\nnode_modules/\n\n"
    );
}

#[test]
fn merge_keeps_existing_rules_and_adds_only_new_rules() {
    let templates = [
        template("Rust", "target/\nCargo.lock\n"),
        template("Node", "target/\nnode_modules/\n"),
    ];

    assert_eq!(
        merge("# Existing\ntarget/\n", &templates),
        "# Existing\ntarget/\n\n# Rust\nCargo.lock\n\n# Node\nnode_modules/\n"
    );
}

#[test]
fn merge_into_empty_file_has_no_leading_blank_lines() {
    let templates = [template("Rust", "target/\n")];

    assert_eq!(merge("", &templates), "# Rust\ntarget/\n");
}

#[test]
fn render_removes_comments_blank_lines_and_duplicate_rules() {
    let templates = [
        template(
            "Astro",
            "# Created by Toptal\n\n### Astro ###\ndist/\n.astro/\n.env\n",
        ),
        template("Node", "# dependencies\nnode_modules/\ndist/\n.env\n"),
    ];

    assert_eq!(
        render(&templates),
        "# Astro\ndist/\n.astro/\n.env\n\n# Node\nnode_modules/\n\n"
    );
}

#[test]
fn render_preserves_escaped_hash_patterns() {
    let templates = [template("Example", "# comment\n\\#file\n")];

    assert_eq!(render(&templates), "# Example\n\\#file\n\n");
}

#[test]
fn merge_removes_rules_already_repeated_in_existing_file() {
    let templates = [template("Astro", ".env\ndist/\n")];

    assert_eq!(
        merge("# Existing\n.env\nnode_modules/\n.env\n", &templates),
        "# Existing\n.env\nnode_modules/\n\n# Astro\ndist/\n"
    );
}

#[test]
fn distinct_gitignore_patterns_are_not_fuzzily_deduplicated() {
    let templates = [template("Paths", "dist/\n/dist/\n**/dist/\n")];

    assert_eq!(render(&templates), "# Paths\ndist/\n/dist/\n**/dist/\n\n");
}

#[test]
fn new_file_equals_merge_into_empty_file_plus_blank_line() {
    let templates = [
        template("Rust", "target/\n# comment\nCargo.lock\n"),
        template("Node", "node_modules/\ntarget/\n"),
        template("Empty", "# nothing\n\n"),
    ];
    let merged = merge("", &templates);
    assert_eq!(render(&templates), format!("{merged}\n"));
    assert_eq!(render(&[]), "");
    assert_eq!(merge("", &[]), "");
}

#[test]
fn merging_twice_changes_nothing() {
    let templates = [
        template("Rust", "target/\nCargo.lock\n"),
        template("Node", "target/\nnode_modules/\n"),
    ];
    for existing in ["", "# Existing\ntarget/\n\n\n", "a\r\nb  \n\na\n", "x"] {
        let once = merge(existing, &templates);
        assert_eq!(merge(&once, &templates), once, "{existing:?}");
    }
}

#[test]
fn merged_file_ends_with_one_line_feed() {
    let templates = [template("Rust", "target/\n")];
    assert_eq!(merge("keep\n\n\n  \n", &[]), "keep\n");
    assert_eq!(merge("keep", &templates), "keep\n\n# Rust\ntarget/\n");
    assert_eq!(merge("   \n\n", &[]), "");
}

#[test]
fn merge_keeps_comments_and_trims_trailing_whitespace() {
    let templates = [template("Extra", "  indented/\nkeep\n")];
    assert_eq!(
        merge("# top\nkeep   \n\n# again\nkeep\n", &templates),
        "# top\nkeep\n\n# again\n\n# Extra\n  indented/\n"
    );
}

#[test]
fn compaction_drops_repeated_rules_and_trailing_blank_lines() {
    let (text, known) = bounds::generate::gitignore::compact_existing("# a\nx\n  x  \nx\n# a\n\n\n");
    assert_eq!(text.iter().collect::<String>(), "# a\nx\n  x\n# a");
    let known: Vec<String> = known.iter().map(|r| r.iter().collect()).collect();
    assert_eq!(known, vec!["x".to_owned(), "  x".to_owned()]);
}

#[test]
fn new_rules_skip_known_and_repeated_rules() {
    let mut known: Vec<Vec<char>> = vec!["a".chars().collect()];
    let adds = bounds::generate::gitignore::new_rules("a\nb \n#c\nb\n\n d\n", &mut known);
    let adds: Vec<String> = adds.iter().map(|r| r.iter().collect()).collect();
    assert_eq!(adds, vec!["b".to_owned(), " d".to_owned()]);
    assert_eq!(known.len(), 3);
}
