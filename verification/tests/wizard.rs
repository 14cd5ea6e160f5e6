use bounds::model::{Config, GitignoreTemplate, LicenseTemplate, WriteMode};
use bounds::wizard::{
    available_keys, drop_skipped, license_title, needs_author_prompt, preset_mode,
    select_templates, summary, user_name,
};

fn template(key: &str, name: &str) -> GitignoreTemplate {
    GitignoreTemplate {
        key: key.to_owned(),
        name: name.to_owned(),
        source: format!("{key}/\n"),
    }
}

fn license(body: &str) -> LicenseTemplate {
    LicenseTemplate {
        name: "MIT License".to_owned(),
        spdx_id: "MIT".to_owned(),
        description: "A short license".to_owned(),
        body: body.to_owned(),
    }
}

#[test]
fn modes_are_preset_unless_the_file_exists() {
    assert_eq!(preset_mode(false, true), Some(WriteMode::Skip));
    assert_eq!(preset_mode(false, false), Some(WriteMode::Skip));
    assert_eq!(preset_mode(true, false), Some(WriteMode::Create));
    assert_eq!(preset_mode(true, true), None);
}

#[test]
fn skipped_selections_are_dropped() {
    let (g, l) = drop_skipped(
        vec![template("rust", "Rust")],
        WriteMode::Skip,
        Some(license("x")),
        WriteMode::Replace,
    );
    assert!(g.is_empty());
    assert_eq!(l.unwrap().spdx_id, "MIT");
    let (g, l) = drop_skipped(
        vec![template("rust", "Rust")],
        WriteMode::Merge,
        Some(license("x")),
        WriteMode::Skip,
    );
    assert_eq!(g.len(), 1);
    assert!(l.is_none());
}

#[test]
fn author_is_asked_only_for_placeholders() {
    assert!(needs_author_prompt(&Some(license("(c) [fullname]"))));
    assert!(!needs_author_prompt(&Some(license("(c) nobody"))));
    assert!(!needs_author_prompt(&None));
}

#[test]
fn detected_keys_need_a_template() {
    let templates = [template("rust", "Rust"), template("go", "Go")];
    assert_eq!(
        available_keys(&vec!["rust", "node", "go"], &templates),
        vec!["rust".to_owned(), "go".to_owned()]
    );
}

#[test]
fn selection_follows_the_keys() {
    let templates = [
        template("rust", "Rust"),
        template("go", "Go"),
        template("rust", "Rust again"),
    ];
    let keys = vec!["go".to_owned(), "missing".to_owned(), "rust".to_owned()];
    let chosen = select_templates(&templates, &keys);
    let names: Vec<&str> = chosen.iter().map(|t| t.name.as_str()).collect();
    assert_eq!(names, vec!["Go", "Rust"]);
}

#[test]
fn license_title_shows_spdx_id() {
    assert_eq!(license_title(&license("x")), "MIT License (MIT)");
}

#[test]
fn summary_lists_what_will_be_written() {
    let config = Config {
        target: "/tmp/repo".to_owned(),
        gitignores: vec![template("rust", "Rust"), template("node", "Node")],
        gitignore_mode: WriteMode::Create,
        license: Some(license("x")),
        license_mode: WriteMode::Create,
        author: Some("Ada".to_owned()),
    };
    assert_eq!(
        summary(&config),
        "Directory: /tmp/repo\n.gitignore: Rust, Node\nLICENSE: MIT License (MIT)\nCopyright: Ada"
    );
}

#[test]
fn summary_of_a_bare_config_names_the_directory() {
    let config = Config {
        target: ".".to_owned(),
        gitignores: Vec::new(),
        gitignore_mode: WriteMode::Skip,
        license: None,
        license_mode: WriteMode::Skip,
        author: None,
    };
    assert_eq!(summary(&config), "Directory: .");
}

#[test]
fn git_user_name_is_trimmed() {
    assert_eq!(user_name(true, b"  Ada Lovelace\n".to_vec()), Some("Ada Lovelace".to_owned()));
    assert_eq!(user_name(true, b" \n".to_vec()), None);
    assert_eq!(user_name(false, b"Ada\n".to_vec()), None);
    assert_eq!(user_name(true, vec![0xff, 0x41]), None);
}

#[test]
fn config_drops_skipped_answers_and_unneeded_author() {
    let config = bounds::wizard::build_config(
        "repo".to_owned(),
        vec![template("rust", "Rust")],
        WriteMode::Skip,
        Some(license("(c) nobody")),
        WriteMode::Create,
        Some("Ada".to_owned()),
    );
    assert!(config.gitignores.is_empty());
    assert_eq!(config.gitignore_mode, WriteMode::Skip);
    assert!(config.license.is_some());
    assert_eq!(config.author, None);

    let config = bounds::wizard::build_config(
        "repo".to_owned(),
        vec![template("rust", "Rust")],
        WriteMode::Merge,
        Some(license("(c) [fullname]")),
        WriteMode::Skip,
        Some("Ada".to_owned()),
    );
    assert_eq!(config.gitignores.len(), 1);
    assert!(config.license.is_none());
    assert_eq!(config.author, None);

    let config = bounds::wizard::build_config(
        "repo".to_owned(),
        Vec::new(),
        WriteMode::Skip,
        Some(license("(c) [fullname]")),
        WriteMode::Replace,
        Some("Ada".to_owned()),
    );
    assert_eq!(config.author, Some("Ada".to_owned()));
}
