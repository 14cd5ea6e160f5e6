//! The decisions the setup wizard makes between its questions, and the
//! summary it shows before writing.
use vstd::prelude::*;
use vstd::utf8::{decode_utf8, valid_utf8};

use crate::model::{has_author_placeholder, Config, GitignoreTemplate, LicenseTemplate, WriteMode};
use crate::text::{
    append_str, chars_eq, chars_of, contains_text, join, join_chars, lemma_join_contains,
    lemma_join_first, string_of, trim, trim_chars, views,
};

verus! {

/// Decodes UTF-8 with `String::from_utf8`, which accepts exactly the valid
/// UTF-8 byte sequences and then holds the characters they encode.
#[verifier::external_body]
fn utf8_string(bytes: Vec<u8>) -> (r: Option<String>)
    ensures
        r is Some <==> valid_utf8(bytes@),
        r matches Some(s) ==> s@ == decode_utf8(bytes@),
{
    String::from_utf8(bytes).ok()
}

/// The mode a file gets without asking: `Skip` when the file was not
/// chosen, `Create` when it does not exist yet. `None` means the user is
/// asked.
pub open spec fn preset(enabled: bool, exists: bool) -> Option<WriteMode> {
    if !enabled {
        Some(WriteMode::Skip)
    } else if !exists {
        Some(WriteMode::Create)
    } else {
        None
    }
}

/// The mode a file gets without asking, or `None` when the user must
/// choose because the file exists.
pub fn preset_mode(enabled: bool, exists: bool) -> (mode: Option<WriteMode>)
    ensures
        mode == preset(enabled, exists),
{
    if !enabled {
        Some(WriteMode::Skip)
    } else if !exists {
        Some(WriteMode::Create)
    } else {
        None
    }
}

/// The selections once the modes are known: what is skipped is dropped.
pub fn drop_skipped(
    gitignores: Vec<GitignoreTemplate>,
    gitignore_mode: WriteMode,
    license: Option<LicenseTemplate>,
    license_mode: WriteMode,
) -> (r: (Vec<GitignoreTemplate>, Option<LicenseTemplate>))
    ensures
        r.0@ == (if gitignore_mode == WriteMode::Skip {
            Seq::<GitignoreTemplate>::empty()
        } else {
            gitignores@
        }),
        r.1 == (if license_mode == WriteMode::Skip {
            None::<LicenseTemplate>
        } else {
            license
        }),
{
    let mut gitignores = gitignores;
    let mut license = license;
    if gitignore_mode == WriteMode::Skip {
        gitignores.clear();
    }
    if license_mode == WriteMode::Skip {
        license = None;
    }
    (gitignores, license)
}

/// Whether a configuration hangs together as the wizard builds it: a file
/// is skipped exactly when nothing was chosen for it, the `LICENSE` is never
/// merged, and a copyright holder is only given for a license that has a
/// placeholder for it.
pub open spec fn consistent(config: Config) -> bool {
    &&& (config.gitignores.len() == 0 <==> config.gitignore_mode == WriteMode::Skip)
    &&& (config.license is None <==> config.license_mode == WriteMode::Skip)
    &&& config.license_mode != WriteMode::Merge
    &&& (config.author is Some ==> (config.license matches Some(l) && has_author_placeholder(
        l.body@,
    )))
}

/// The configuration made of the wizard's answers: what is skipped is
/// dropped, and the copyright holder is kept only for a license that asks
/// for one. The modes are those the wizard offers: `Skip` when nothing was
/// chosen, and never `Merge` for the `LICENSE`.
pub fn build_config(
    target: String,
    gitignores: Vec<GitignoreTemplate>,
    gitignore_mode: WriteMode,
    license: Option<LicenseTemplate>,
    license_mode: WriteMode,
    author: Option<String>,
) -> (config: Config)
    requires
        gitignores@.len() == 0 ==> gitignore_mode == WriteMode::Skip,
        license is None ==> license_mode == WriteMode::Skip,
        license_mode != WriteMode::Merge,
    ensures
        config.target == target,
        config.gitignore_mode == gitignore_mode,
        config.license_mode == license_mode,
        config.gitignores@ == (if gitignore_mode == WriteMode::Skip {
            Seq::<GitignoreTemplate>::empty()
        } else {
            gitignores@
        }),
        config.license == (if license_mode == WriteMode::Skip {
            None::<LicenseTemplate>
        } else {
            license
        }),
        config.author == (if config.license matches Some(l) && has_author_placeholder(l.body@) {
            author
        } else {
            None::<String>
        }),
        consistent(config),
{
    let (gitignores, license) = drop_skipped(gitignores, gitignore_mode, license, license_mode);
    let author = if needs_author_prompt(&license) {
        author
    } else {
        None
    };
    Config { target, gitignores, gitignore_mode, license, license_mode, author }
}

/// Whether the copyright holder must be asked for: the license chosen has a
/// placeholder for it.
pub fn needs_author_prompt(license: &Option<LicenseTemplate>) -> (r: bool)
    ensures
        r == (license matches Some(l) && has_author_placeholder(l.body@)),
{
    match license {
        Some(l) => l.needs_author(),
        None => false,
    }
}

/// Whether some template has the key `key`.
pub open spec fn offers(ts: Seq<GitignoreTemplate>, key: Seq<char>) -> bool {
    exists|i: int| 0 <= i < ts.len() && ts[i].key@ == key
}

/// The detected keys, in order, for which a template exists.
pub open spec fn available(detected: Seq<Seq<char>>, ts: Seq<GitignoreTemplate>) -> Seq<Seq<char>>
    decreases detected.len(),
{
    if detected.len() == 0 {
        seq![]
    } else if offers(ts, detected.last()) {
        available(detected.drop_last(), ts).push(detected.last())
    } else {
        available(detected.drop_last(), ts)
    }
}

fn offers_key(templates: &[GitignoreTemplate], key: &Vec<char>) -> (r: bool)
    ensures
        r == offers(templates@, key@),
{
    let mut i: usize = 0;
    while i < templates.len()
        invariant
            i <= templates.len(),
            forall|j: int| 0 <= j < i ==> templates@[j].key@ != key@,
        decreases templates.len() - i,
    {
        let k = chars_of(templates[i].key.as_str());
        if chars_eq(&k, key) {
            return true;
        }
        i = i + 1;
    }
    false
}

/// The detected template keys for which the service offers a template, in
/// order; they are the ones selected at first.
pub fn available_keys(detected: &Vec<&str>, templates: &[GitignoreTemplate]) -> (keys: Vec<String>)
    ensures
        keys@.map_values(|k: String| k@) == available(detected@.map_values(|d: &str| d@), templates@),
{
    let ghost ds = detected@.map_values(|d: &str| d@);
    let mut keys: Vec<String> = Vec::new();
    let mut i: usize = 0;
    assert(ds.take(0) =~= Seq::<Seq<char>>::empty());
    while i < detected.len()
        invariant
            i <= detected.len(),
            ds == detected@.map_values(|d: &str| d@),
            keys@.map_values(|k: String| k@) == available(ds.take(i as int), templates@),
        decreases detected.len() - i,
    {
        assert(ds.take(i + 1).drop_last() =~= ds.take(i as int));
        let d = chars_of(detected[i]);
        let ghost before = keys@.map_values(|k: String| k@);
        if offers_key(templates, &d) {
            keys.push(string_of(&d));
            assert(keys@.map_values(|k: String| k@) =~= before.push(ds[i as int]));
        } else {
            assert(keys@.map_values(|k: String| k@) =~= before);
        }
        i = i + 1;
    }
    assert(ds.take(i as int) =~= ds);
    keys
}

/// The first template with key `key`, if any.
pub open spec fn first_with_key(ts: Seq<GitignoreTemplate>, key: Seq<char>) -> Option<
    GitignoreTemplate,
>
    decreases ts.len(),
{
    if ts.len() == 0 {
        None
    } else if ts[0].key@ == key {
        Some(ts[0])
    } else {
        first_with_key(ts.drop_first(), key)
    }
}

/// For each selected key in order, the first template with that key; keys
/// without a template are passed over.
pub open spec fn chosen(ts: Seq<GitignoreTemplate>, keys: Seq<String>) -> Seq<GitignoreTemplate>
    decreases keys.len(),
{
    if keys.len() == 0 {
        seq![]
    } else {
        match first_with_key(ts, keys.last()@) {
            Some(t) => chosen(ts, keys.drop_last()).push(t),
            None => chosen(ts, keys.drop_last()),
        }
    }
}

fn find_template(templates: &[GitignoreTemplate], key: &String) -> (r: Option<GitignoreTemplate>)
    ensures
        r == first_with_key(templates@, key@),
{
    let wanted = chars_of(key.as_str());
    let mut i: usize = 0;
    assert(templates@.skip(0) =~= templates@);
    while i < templates.len()
        invariant
            i <= templates.len(),
            wanted@ == key@,
            first_with_key(templates@, key@) == first_with_key(templates@.skip(i as int), key@),
        decreases templates.len() - i,
    {
        assert(templates@.skip(i as int).drop_first() =~= templates@.skip(i + 1));
        let k = chars_of(templates[i].key.as_str());
        if chars_eq(&k, &wanted) {
            return Some(templates[i].duplicate());
        }
        i = i + 1;
    }
    None
}

/// The templates for the selected keys, in the order of the keys.
pub fn select_templates(templates: &[GitignoreTemplate], keys: &Vec<String>) -> (selected: Vec<
    GitignoreTemplate,
>)
    ensures
        selected@ == chosen(templates@, keys@),
{
    let mut selected: Vec<GitignoreTemplate> = Vec::new();
    let mut i: usize = 0;
    assert(keys@.take(0) =~= Seq::<String>::empty());
    while i < keys.len()
        invariant
            i <= keys.len(),
            selected@ == chosen(templates@, keys@.take(i as int)),
        decreases keys.len() - i,
    {
        assert(keys@.take(i + 1).drop_last() =~= keys@.take(i as int));
        match find_template(templates, &keys[i]) {
            Some(t) => {
                selected.push(t);
            },
            None => {},
        }
        i = i + 1;
    }
    assert(keys@.take(i as int) =~= keys@);
    selected
}

/// How a license is titled: `{name} ({spdx_id})`.
pub open spec fn title(license: LicenseTemplate) -> Seq<char> {
    license.name@ + " ("@ + license.spdx_id@ + ")"@
}

/// How a license is titled: its name and SPDX identifier.
pub fn license_title(license: &LicenseTemplate) -> (r: String)
    ensures
        r@ == title(*license),
{
    let mut out = chars_of(license.name.as_str());
    append_str(&mut out, " (");
    append_str(&mut out, license.spdx_id.as_str());
    append_str(&mut out, ")");
    string_of(&out)
}

/// The names of the templates, separated by `, `.
pub open spec fn template_names(ts: Seq<GitignoreTemplate>) -> Seq<Seq<char>> {
    ts.map_values(|t: GitignoreTemplate| t.name@)
}

/// The lines of the summary shown before writing: the directory, then the
/// templates, the license and the copyright holder when there are any.
pub open spec fn summary_lines(config: Config) -> Seq<Seq<char>> {
    seq!["Directory: "@ + config.target@] + (if config.gitignores.len() > 0 {
        seq![".gitignore: "@ + join(template_names(config.gitignores@), ", "@)]
    } else {
        seq![]
    }) + (match config.license {
        Some(l) => seq!["LICENSE: "@ + title(l)],
        None => seq![],
    }) + (match config.author {
        Some(a) => seq!["Copyright: "@ + a@],
        None => seq![],
    })
}

/// The summary shown before writing: one line per item.
pub fn summary(config: &Config) -> (text: String)
    ensures
        text@ == join(summary_lines(*config), "\n"@),
{
    let mut lines: Vec<Vec<char>> = Vec::new();
    let mut first = chars_of("Directory: ");
    append_str(&mut first, config.target.as_str());
    lines.push(first);
    let ghost mut expected = seq!["Directory: "@ + config.target@];
    assert(views(lines@) =~= expected);

    if config.gitignores.len() > 0 {
        let mut names: Vec<Vec<char>> = Vec::new();
        let mut i: usize = 0;
        while i < config.gitignores.len()
            invariant
                i <= config.gitignores.len(),
                views(names@) == template_names(config.gitignores@).take(i as int),
            decreases config.gitignores.len() - i,
        {
            let ghost before = views(names@);
            names.push(chars_of(config.gitignores[i].name.as_str()));
            assert(views(names@) =~= before.push(config.gitignores@[i as int].name@));
            assert(template_names(config.gitignores@).take(i + 1) =~= template_names(
                config.gitignores@,
            ).take(i as int).push(config.gitignores@[i as int].name@));
            i = i + 1;
        }
        assert(template_names(config.gitignores@).take(i as int) =~= template_names(
            config.gitignores@,
        ));
        let mut line = chars_of(".gitignore: ");
        let joined = join_chars(&names, ", ");
        crate::text::append_chars(&mut line, &joined);
        lines.push(line);
        proof {
            expected = expected + seq![
                ".gitignore: "@ + join(template_names(config.gitignores@), ", "@),
            ];
        }
        assert(views(lines@) =~= expected);
    }
    match &config.license {
        Some(l) => {
            let mut line = chars_of("LICENSE: ");
            let t = license_title(l);
            append_str(&mut line, t.as_str());
            lines.push(line);
            proof {
                expected = expected + seq!["LICENSE: "@ + title(*l)];
            }
            assert(views(lines@) =~= expected);
        },
        None => {},
    }
    match &config.author {
        Some(a) => {
            let mut line = chars_of("Copyright: ");
            append_str(&mut line, a.as_str());
            lines.push(line);
            proof {
                expected = expected + seq!["Copyright: "@ + a@];
            }
            assert(views(lines@) =~= expected);
        },
        None => {},
    }
    assert(expected =~= summary_lines(*config));
    let text = join_chars(&lines, "\n");
    string_of(&text)
}

/// Law: the summary starts with the directory, and it has a line naming
/// every selected template, separated by `, `, whenever a template is
/// selected, whatever the mode; a line with the license's name and SPDX
/// identifier whenever there is a license; and a line with the copyright
/// holder whenever there is one.
pub proof fn law_summary_mentions(config: Config)
    ensures
        ({
            let text = join(summary_lines(config), "\n"@);
            let dir = "Directory: "@ + config.target@;
            &&& text.len() >= dir.len() && text.take(dir.len() as int) == dir
            &&& config.gitignores.len() > 0 ==> contains_text(
                text,
                "\n"@ + (".gitignore: "@ + join(
                    config.gitignores@.map_values(|t: GitignoreTemplate| t.name@),
                    ", "@,
                )),
            )
            &&& config.license matches Some(l) ==> contains_text(
                text,
                "\n"@ + ("LICENSE: "@ + (l.name@ + " ("@ + l.spdx_id@ + ")"@)),
            )
            &&& config.author matches Some(a) ==> contains_text(text, "\n"@ + ("Copyright: "@ + a@))
        }),
{
    let ls = summary_lines(config);
    let dir = "Directory: "@ + config.target@;
    assert(ls[0] == dir);
    lemma_join_first(ls, "\n"@);
    let g: Seq<Seq<char>> = if config.gitignores.len() > 0 {
        seq![".gitignore: "@ + join(template_names(config.gitignores@), ", "@)]
    } else {
        seq![]
    };
    let lic: Seq<Seq<char>> = match config.license {
        Some(l) => seq!["LICENSE: "@ + title(l)],
        None => seq![],
    };
    let au: Seq<Seq<char>> = match config.author {
        Some(a) => seq!["Copyright: "@ + a@],
        None => seq![],
    };
    assert(ls == seq![dir] + g + lic + au);
    if config.gitignores.len() > 0 {
        assert(ls[1] == g[0]);
        lemma_join_contains(ls, "\n"@, 1);
    }
    if config.license is Some {
        let i: int = (1 + g.len()) as int;
        assert(ls[i] == lic[0]);
        lemma_join_contains(ls, "\n"@, i);
    }
    if config.author is Some {
        let i: int = (1 + g.len() + lic.len()) as int;
        assert(ls[i] == au[0]);
        lemma_join_contains(ls, "\n"@, i);
    }
}

/// The user name reported by `git config --get user.name`: the command's
/// output, trimmed, when the command succeeded, the output is UTF-8 and the
/// name is not empty.
pub open spec fn reported_name(success: bool, stdout: Seq<u8>) -> Option<Seq<char>> {
    if !success || !valid_utf8(stdout) {
        None
    } else {
        let name = trim(decode_utf8(stdout));
        if name.len() == 0 {
            None
        } else {
            Some(name)
        }
    }
}

/// The configured git user name, from whether `git config --get user.name`
/// succeeded and what it printed.
pub fn user_name(success: bool, stdout: Vec<u8>) -> (name: Option<String>)
    ensures
        match name {
            Some(n) => reported_name(success, stdout@) == Some(n@),
            None => reported_name(success, stdout@) is None,
        },
{
    if !success {
        return None;
    }
    let text = match utf8_string(stdout) {
        Some(text) => text,
        None => return None,
    };
    let chars = chars_of(text.as_str());
    let name = trim_chars(&chars);
    if name.len() == 0 {
        None
    } else {
        Some(string_of(&name))
    }
}

} // verus!
