use bounds::generate::license::{decimal_chars, fill_placeholders};
use bounds::generate::{apply, FileWrite, ManagedFile};
use bounds::model::{Config, GitignoreTemplate, LicenseTemplate, WriteMode};

fn template(name: &str, source: &str) -> GitignoreTemplate {
    GitignoreTemplate {
        key: name.to_lowercase(),
        name: name.to_owned(),
        source: source.to_owned(),
    }
}

fn license(body: &str) -> LicenseTemplate {
    LicenseTemplate {
        name: "MIT License".to_owned(),
        spdx_id: "MIT".to_owned(),
        description: "A short license".to_owned(),
        body: body.to_owned(),
    }
}

fn config(
    gitignore_mode: WriteMode,
    license_mode: WriteMode,
    lic: Option<LicenseTemplate>,
    author: Option<&str>,
) -> Config {
    Config {
        target: "repo".to_owned(),
        gitignores: vec![template("Rust", "target/\n")],
        gitignore_mode,
        license: lic,
        license_mode,
        author: author.map(str::to_owned),
    }
}

fn planned(c: &Config, existing: &str) -> Vec<FileWrite> {
    let (writes, error) = apply(c, existing);
    assert!(error.is_none());
    writes
}

fn summary(ws: &[FileWrite]) -> Vec<(ManagedFile, bool, String)> {
    ws.iter()
        .map(|w| (w.file, w.create_new, w.contents.clone()))
        .collect()
}

#[test]
fn fills_year_and_author() {
    assert_eq!(
        fill_placeholders("Copyright (c) [year] [fullname]", 2024, "Ada"),
        "Copyright (c) 2024 Ada"
    );
    assert_eq!(
        fill_placeholders("[yyyy] [name of copyright owner] [yyyy]", 1999, "Bob"),
        "1999 Bob 1999"
    );
    assert_eq!(fill_placeholders("no placeholders", 2024, "x"), "no placeholders");
    assert_eq!(fill_placeholders("[fullname]", 2024, ""), "");
}

#[test]
fn writes_years_in_decimal() {
    let s = |n: i16| decimal_chars(n).into_iter().collect::<String>();
    assert_eq!(s(0), "0");
    assert_eq!(s(7), "7");
    assert_eq!(s(2024), "2024");
    assert_eq!(s(-45), "-45");
    assert_eq!(s(9999), "9999");
}

#[test]
fn apply_skips_everything_when_asked() {
    let c = config(WriteMode::Skip, WriteMode::Skip, Some(license("[year]")), None);
    assert!(planned(&c, "").is_empty());
}

#[test]
fn apply_creates_gitignore_then_license() {
    let c = config(
        WriteMode::Create,
        WriteMode::Create,
        Some(license("MIT [fullname]")),
        Some("Ada"),
    );
    let ws = planned(&c, "");
    assert_eq!(
        summary(&ws),
        vec![
            (ManagedFile::Gitignore, true, "# Rust\ntarget/\n\n".to_owned()),
            (ManagedFile::License, true, "MIT Ada".to_owned()),
        ]
    );
}

#[test]
fn apply_merges_existing_gitignore_and_leaves_license_on_merge() {
    let c = config(
        WriteMode::Merge,
        WriteMode::Merge,
        Some(license("MIT")),
        None,
    );
    let ws = planned(&c, "node_modules/\n");
    assert_eq!(
        summary(&ws),
        vec![(
            ManagedFile::Gitignore,
            false,
            "node_modules/\n\n# Rust\ntarget/\n".to_owned()
        )]
    );
}

#[test]
fn apply_replaces_license_with_current_year() {
    let c = config(WriteMode::Skip, WriteMode::Replace, Some(license("[year]")), None);
    let ws = planned(&c, "");
    assert_eq!(ws.len(), 1);
    assert_eq!(ws[0].file, ManagedFile::License);
    assert!(!ws[0].create_new);
    let year: i32 = ws[0].contents.parse().unwrap();
    assert!((2020..=9999).contains(&year));
}

#[test]
fn apply_without_license_writes_only_gitignore() {
    let c = config(WriteMode::Replace, WriteMode::Create, None, None);
    let ws = planned(&c, "ignored");
    assert_eq!(
        summary(&ws),
        vec![(ManagedFile::Gitignore, false, "# Rust\ntarget/\n\n".to_owned())]
    );
}
