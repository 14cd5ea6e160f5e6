//! Which `.gitignore` templates suit a repository, judged by the files at
//! its top level.
use vstd::prelude::*;

use crate::text::{chars_eq, chars_of};

verus! {

/// Whether one of `entries` is named `name`.
pub open spec fn has_entry(entries: Seq<String>, name: Seq<char>) -> bool {
    exists|i: int| 0 <= i < entries.len() && entries[i]@ == name
}

/// Whether one of `entries` names an Astro configuration file.
pub open spec fn has_astro_config(entries: Seq<String>) -> bool {
    ||| has_entry(entries, "astro.config.js"@)
    ||| has_entry(entries, "astro.config.mjs"@)
    ||| has_entry(entries, "astro.config.cjs"@)
    ||| has_entry(entries, "astro.config.ts"@)
    ||| has_entry(entries, "astro.config.mts"@)
    ||| has_entry(entries, "astro.config.cts"@)
}

/// `key` as a one-element list when `found`, else nothing.
pub open spec fn when(found: bool, key: Seq<char>) -> Seq<Seq<char>> {
    if found {
        seq![key]
    } else {
        seq![]
    }
}

/// The template keys suggested for a directory holding `entries`, in order:
/// rust, node, astro, go, python.
pub open spec fn detected(entries: Seq<String>) -> Seq<Seq<char>> {
    when(has_entry(entries, "Cargo.toml"@), "rust"@) + when(has_entry(entries, "package.json"@), "node"@)
        + when(has_astro_config(entries), "astro"@) + when(has_entry(entries, "go.mod"@), "go"@) + when(
        has_entry(entries, "requirements.txt"@) || has_entry(entries, "pyproject.toml"@),
        "python"@,
    )
}

/// The names of the files whose presence suggests a template.
pub open spec fn marker_names() -> Seq<Seq<char>> {
    seq![
        "Cargo.toml"@,
        "package.json"@,
        "astro.config.js"@,
        "astro.config.mjs"@,
        "astro.config.cjs"@,
        "astro.config.ts"@,
        "astro.config.mts"@,
        "astro.config.cts"@,
        "go.mod"@,
        "requirements.txt"@,
        "pyproject.toml"@,
    ]
}

/// The names of the files whose presence suggests a template: the only
/// entries of a directory that `gitignore_templates` looks at.
pub fn marker_files() -> (names: Vec<&'static str>)
    ensures
        names@.map_values(|n: &str| n@) == marker_names(),
{
    let names = vec![
        "Cargo.toml",
        "package.json",
        "astro.config.js",
        "astro.config.mjs",
        "astro.config.cjs",
        "astro.config.ts",
        "astro.config.mts",
        "astro.config.cts",
        "go.mod",
        "requirements.txt",
        "pyproject.toml",
    ];
    assert(names@.map_values(|n: &str| n@) =~= marker_names());
    names
}

/// The template key each marker file suggests, in the order of
/// `marker_names`.
pub open spec fn marker_keys() -> Seq<Seq<char>> {
    seq![
        "rust"@,
        "node"@,
        "astro"@,
        "astro"@,
        "astro"@,
        "astro"@,
        "astro"@,
        "astro"@,
        "go"@,
        "python"@,
        "python"@,
    ]
}

/// Law: a marker file suggests its template whatever else the directory
/// holds.
pub proof fn law_marker_suggests_its_template(entries: Seq<String>, i: int, j: int)
    requires
        0 <= i < marker_names().len(),
        0 <= j < entries.len(),
        entries[j]@ == marker_names()[i],
    ensures
        detected(entries).contains(marker_keys()[i]),
{
    let d = detected(entries);
    let a = when(has_entry(entries, "Cargo.toml"@), "rust"@);
    let b = when(has_entry(entries, "package.json"@), "node"@);
    let c = when(has_astro_config(entries), "astro"@);
    let g = when(has_entry(entries, "go.mod"@), "go"@);
    let p = when(
        has_entry(entries, "requirements.txt"@) || has_entry(entries, "pyproject.toml"@),
        "python"@,
    );
    assert(d == a + b + c + g + p);
    assert(has_entry(entries, marker_names()[i]));
    if i == 0 {
        assert(d[0] == "rust"@);
    } else if i == 1 {
        assert(d[a.len() as int] == "node"@);
    } else if i < 8 {
        assert(d[(a.len() + b.len()) as int] == "astro"@);
    } else if i == 8 {
        assert(d[(a.len() + b.len() + c.len()) as int] == "go"@);
    } else {
        assert(d[(a.len() + b.len() + c.len() + g.len()) as int] == "python"@);
    }
}

/// No two marker names are the same.
proof fn lemma_marker_names_distinct(k: int, l: int)
    requires
        0 <= k < marker_names().len(),
        0 <= l < marker_names().len(),
        k != l,
    ensures
        marker_names()[k] != marker_names()[l],
{
    reveal_strlit("Cargo.toml");
    reveal_strlit("package.json");
    reveal_strlit("astro.config.js");
    reveal_strlit("astro.config.mjs");
    reveal_strlit("astro.config.cjs");
    reveal_strlit("astro.config.ts");
    reveal_strlit("astro.config.mts");
    reveal_strlit("astro.config.cts");
    reveal_strlit("go.mod");
    reveal_strlit("requirements.txt");
    reveal_strlit("pyproject.toml");
    let a = marker_names()[k];
    let b = marker_names()[l];
    if a == b {
        assert(a.len() == b.len());
        assert(a[0] == b[0]);
        assert(a[13] == b[13]);
        assert(a[14] == b[14]);
    }
}

/// Law: in a directory that holds exactly one marker file, and nothing
/// else, the one suggestion is that marker's template.
pub proof fn law_single_marker(entries: Seq<String>, i: int)
    requires
        0 <= i < marker_names().len(),
        entries.len() == 1,
        entries[0]@ == marker_names()[i],
    ensures
        detected(entries) == seq![marker_keys()[i]],
{
    reveal_strlit("Cargo.toml");
    reveal_strlit("package.json");
    reveal_strlit("astro.config.js");
    reveal_strlit("astro.config.mjs");
    reveal_strlit("astro.config.cjs");
    reveal_strlit("astro.config.ts");
    reveal_strlit("astro.config.mts");
    reveal_strlit("astro.config.cts");
    reveal_strlit("go.mod");
    reveal_strlit("requirements.txt");
    reveal_strlit("pyproject.toml");
    let e = entries[0]@;
    let names = marker_names();
    assert forall|n: Seq<char>| #[trigger] has_entry(entries, n) <==> e == n by {
        if e == n {
            assert(entries[0]@ == n);
        }
    }
    assert(names[i] == e);
    assert forall|k: int| 0 <= k < names.len() && k != i implies names[k] != e by {
        lemma_marker_names_distinct(k, i);
    }
    assert(names[0] == "Cargo.toml"@);
    assert(names[1] == "package.json"@);
    assert(names[2] == "astro.config.js"@);
    assert(names[3] == "astro.config.mjs"@);
    assert(names[4] == "astro.config.cjs"@);
    assert(names[5] == "astro.config.ts"@);
    assert(names[6] == "astro.config.mts"@);
    assert(names[7] == "astro.config.cts"@);
    assert(names[8] == "go.mod"@);
    assert(names[9] == "requirements.txt"@);
    assert(names[10] == "pyproject.toml"@);
    assert(detected(entries) =~= seq![marker_keys()[i]]);
}

/// Whether one of `entries` is named `name`.
fn has_entry_named(entries: &[String], name: &str) -> (r: bool)
    ensures
        r == has_entry(entries@, name@),
{
    let wanted = chars_of(name);
    let mut i: usize = 0;
    while i < entries.len()
        invariant
            i <= entries.len(),
            wanted@ == name@,
            forall|j: int| 0 <= j < i ==> entries@[j]@ != name@,
        decreases entries.len() - i,
    {
        let entry = chars_of(entries[i].as_str());
        if chars_eq(&entry, &wanted) {
            return true;
        }
        i = i + 1;
    }
    false
}

/// The `.gitignore` template keys suggested for a directory in which the
/// files named `entries` exist. Only the names that `marker_files` gives
/// matter.
pub fn gitignore_templates(entries: &[String]) -> (detected_keys: Vec<&'static str>)
    ensures
        detected_keys@.map_values(|k: &str| k@) == detected(entries@),
{
    let mut detected_keys: Vec<&'static str> = Vec::new();
    let ghost mut expected: Seq<Seq<char>> = seq![];

    let rust = has_entry_named(entries, "Cargo.toml");
    if rust {
        detected_keys.push("rust");
    }
    proof {
        expected = expected + when(rust, "rust"@);
        assert(detected_keys@.map_values(|k: &str| k@) =~= expected);
    }

    let node = has_entry_named(entries, "package.json");
    if node {
        detected_keys.push("node");
    }
    proof {
        expected = expected + when(node, "node"@);
        assert(detected_keys@.map_values(|k: &str| k@) =~= expected);
    }

    let astro = has_entry_named(entries, "astro.config.js") || has_entry_named(
        entries,
        "astro.config.mjs",
    ) || has_entry_named(entries, "astro.config.cjs") || has_entry_named(entries, "astro.config.ts")
        || has_entry_named(entries, "astro.config.mts") || has_entry_named(
        entries,
        "astro.config.cts",
    );
    if astro {
        detected_keys.push("astro");
    }
    proof {
        expected = expected + when(astro, "astro"@);
        assert(detected_keys@.map_values(|k: &str| k@) =~= expected);
    }

    let go = has_entry_named(entries, "go.mod");
    if go {
        detected_keys.push("go");
    }
    proof {
        expected = expected + when(go, "go"@);
        assert(detected_keys@.map_values(|k: &str| k@) =~= expected);
    }

    let python = has_entry_named(entries, "requirements.txt") || has_entry_named(
        entries,
        "pyproject.toml",
    );
    if python {
        detected_keys.push("python");
    }
    proof {
        expected = expected + when(python, "python"@);
        assert(detected_keys@.map_values(|k: &str| k@) =~= expected);
    }
    detected_keys
}

} // verus!
