use bounds::detect::gitignore_templates;

fn entries(names: &[&str]) -> Vec<String> {
    names.iter().map(|n| n.to_string()).collect()
}

#[test]
fn detects_nothing_in_an_empty_directory() {
    assert!(gitignore_templates(&entries(&[])).is_empty());
}

#[test]
fn detects_each_ecosystem_in_fixed_order() {
    let found = gitignore_templates(&entries(&[
        "pyproject.toml",
        "go.mod",
        "astro.config.mjs",
        "package.json",
        "Cargo.toml",
        "README.md",
    ]));
    assert_eq!(found, vec!["rust", "node", "astro", "go", "python"]);
}

#[test]
fn detects_python_from_requirements_and_astro_from_any_config() {
    assert_eq!(
        gitignore_templates(&entries(&["requirements.txt", "astro.config.cts"])),
        vec!["astro", "python"]
    );
    assert_eq!(gitignore_templates(&entries(&["cargo.toml"])), Vec::<&str>::new());
}

#[test]
fn markers_are_the_files_detection_looks_at() {
    let markers = bounds::detect::marker_files();
    assert_eq!(markers.len(), 11);
    assert_eq!(markers[0], "Cargo.toml");
    let all: Vec<String> = markers.iter().map(|m| m.to_string()).collect();
    assert_eq!(
        gitignore_templates(&all),
        vec!["rust", "node", "astro", "go", "python"]
    );
}
