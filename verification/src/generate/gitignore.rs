//! Rendering and merging `.gitignore` files from templates.
//!
//! A rule is a line that is neither blank nor a comment. Every rule is kept
//! once: a rule already present (in the existing file or in an earlier
//! template) is not written again.
use vstd::prelude::*;

use crate::generate::{FileWrite, ManagedFile};
use crate::model::{Config, GitignoreTemplate, WriteMode};
use crate::text::{
    append_chars, append_str, chars_of, contains_line, prefix, trimmed_end_len, lemma_contains_concat, copy_chars, leading_white_space_len, lines, split_lines, trim_end,
    string_of, trim_end_chars, trim_start, views, single_line,
};

verus! {

/// Whether a line (without trailing whitespace) is a rule: it is not blank
/// and, once leading whitespace is removed, does not start with `#`.
pub open spec fn is_rule(line: Seq<char>) -> bool {
    let t = trim_start(line);
    t.len() > 0 && t[0] != '#'
}

/// Each of `ls` without its trailing whitespace.
pub open spec fn trim_all(ls: Seq<Seq<char>>) -> Seq<Seq<char>> {
    ls.map_values(|l: Seq<char>| trim_end(l))
}

/// The lines of `s`, each without its trailing whitespace.
pub open spec fn trimmed_lines(s: Seq<char>) -> Seq<Seq<char>> {
    trim_all(lines(s))
}

/// The rules among `ls`, in order, that are not in `known` and do not repeat
/// an earlier rule of `ls`.
pub open spec fn fresh_rules(ls: Seq<Seq<char>>, known: Seq<Seq<char>>) -> Seq<Seq<char>>
    decreases ls.len(),
{
    if ls.len() == 0 {
        seq![]
    } else {
        let prev = fresh_rules(ls.drop_last(), known);
        let l = ls.last();
        if is_rule(l) && !known.contains(l) && !prev.contains(l) {
            prev.push(l)
        } else {
            prev
        }
    }
}

/// Each of `rules` followed by a line feed.
pub open spec fn joined(rules: Seq<Seq<char>>) -> Seq<char>
    decreases rules.len(),
{
    if rules.len() == 0 {
        seq![]
    } else {
        joined(rules.drop_last()) + rules.last() + seq!['\n']
    }
}

/// The comment line that labels a template's section: `# {name}\n`.
pub open spec fn heading(name: Seq<char>) -> Seq<char> {
    seq!['#', ' '] + name + seq!['\n']
}

/// The text rendered from `ts` and the rules written so far.
pub open spec fn render_state(ts: Seq<GitignoreTemplate>) -> (Seq<char>, Seq<Seq<char>>)
    decreases ts.len(),
{
    if ts.len() == 0 {
        (seq![], seq![])
    } else {
        let (out, known) = render_state(ts.drop_last());
        let adds = fresh_rules(trimmed_lines(ts.last().source@), known);
        if adds.len() == 0 {
            (out, known)
        } else {
            (out + heading(ts.last().name@) + joined(adds) + seq!['\n'], known + adds)
        }
    }
}

/// The `.gitignore` text for a new file made of the templates `ts`.
pub open spec fn rendered(ts: Seq<GitignoreTemplate>) -> Seq<char> {
    render_state(ts).0
}

/// The existing lines that a merge keeps, and the rules among them: a rule
/// that repeats an earlier one is dropped; comments and blank lines stay.
pub open spec fn compact_state(ls: Seq<Seq<char>>) -> (Seq<Seq<char>>, Seq<Seq<char>>)
    decreases ls.len(),
{
    if ls.len() == 0 {
        (seq![], seq![])
    } else {
        let (kept, known) = compact_state(ls.drop_last());
        let l = ls.last();
        if is_rule(l) && known.contains(l) {
            (kept, known)
        } else if is_rule(l) {
            (kept.push(l), known.push(l))
        } else {
            (kept.push(l), known)
        }
    }
}

/// The existing file with repeated rules removed and no trailing
/// whitespace, and the rules it holds.
pub open spec fn compacted(existing: Seq<char>) -> (Seq<char>, Seq<Seq<char>>) {
    let (kept, known) = compact_state(trimmed_lines(trim_end(existing)));
    (trim_end(joined(kept)), known)
}

/// What goes before a new section: nothing at the start of the file, a blank
/// line otherwise.
pub open spec fn separator(out: Seq<char>) -> Seq<char> {
    if out.len() == 0 {
        seq![]
    } else if out.last() != '\n' {
        seq!['\n', '\n']
    } else if !(out.len() >= 2 && out[out.len() - 2] == '\n') {
        seq!['\n']
    } else {
        seq![]
    }
}

/// The text of a merge of the templates `ts` into `existing`, before the
/// final line feed, and the rules it holds.
pub open spec fn merge_state(existing: Seq<char>, ts: Seq<GitignoreTemplate>) -> (
    Seq<char>,
    Seq<Seq<char>>,
)
    decreases ts.len(),
{
    if ts.len() == 0 {
        compacted(existing)
    } else {
        let (out, known) = merge_state(existing, ts.drop_last());
        let adds = fresh_rules(trimmed_lines(ts.last().source@), known);
        if adds.len() == 0 {
            (out, known)
        } else {
            (out + separator(out) + heading(ts.last().name@) + joined(adds), known + adds)
        }
    }
}

/// The `.gitignore` text that merging the templates `ts` into `existing` gives.
pub open spec fn merged(existing: Seq<char>, ts: Seq<GitignoreTemplate>) -> Seq<char> {
    let out = merge_state(existing, ts).0;
    if out.len() > 0 && out.last() != '\n' {
        out.push('\n')
    } else {
        out
    }
}

/// The rules among `ls`, in order.
pub open spec fn rules_in(ls: Seq<Seq<char>>) -> Seq<Seq<char>>
    decreases ls.len(),
{
    if ls.len() == 0 {
        seq![]
    } else if is_rule(ls.last()) {
        rules_in(ls.drop_last()).push(ls.last())
    } else {
        rules_in(ls.drop_last())
    }
}

/// The rules of a `.gitignore` text, in order: its lines, without trailing
/// whitespace, that are rules.
pub open spec fn rules_of(text: Seq<char>) -> Seq<Seq<char>> {
    rules_in(trimmed_lines(text))
}

/// The elements of `s` that are not in `known`, each once, in the order of
/// their first occurrence.
pub open spec fn distinct_from<A>(s: Seq<A>, known: Seq<A>) -> Seq<A>
    decreases s.len(),
{
    if s.len() == 0 {
        seq![]
    } else {
        let prev = distinct_from(s.drop_last(), known);
        if known.contains(s.last()) || prev.contains(s.last()) {
            prev
        } else {
            prev.push(s.last())
        }
    }
}

/// The elements of `s`, each once, in the order of their first occurrence.
pub open spec fn distinct<A>(s: Seq<A>) -> Seq<A> {
    distinct_from(s, Seq::empty())
}

/// The rules of all the templates, template after template.
pub open spec fn all_rules(ts: Seq<GitignoreTemplate>) -> Seq<Seq<char>>
    decreases ts.len(),
{
    if ts.len() == 0 {
        seq![]
    } else {
        all_rules(ts.drop_last()) + rules_of(ts.last().source@)
    }
}

/// Whether every template name fits on one line.
pub open spec fn single_line_names(ts: Seq<GitignoreTemplate>) -> bool {
    forall|i: int| 0 <= i < ts.len() ==> single_line(#[trigger] ts[i].name@)
}

/// Whether `line` (without trailing whitespace) is a rule.
pub fn is_rule_line(line: &Vec<char>) -> (r: bool)
    ensures
        r == is_rule(line@),
{
    let n = leading_white_space_len(line);
    n < line.len() && line[n] != '#'
}

/// The rules of `source` that are not yet in `known_rules`, in order and
/// without repeats; they are added to `known_rules`.
pub fn new_rules(source: &str, known_rules: &mut Vec<Vec<char>>) -> (adds: Vec<Vec<char>>)
    ensures
        views(adds@) == fresh_rules(trimmed_lines(source@), views(old(known_rules)@)),
        views(final(known_rules)@) == views(old(known_rules)@) + views(adds@),
{
    let ghost k0 = views(known_rules@);
    let ghost tl = trimmed_lines(source@);
    let text = chars_of(source);
    let ls = split_lines(&text);
    let mut adds: Vec<Vec<char>> = Vec::new();
    let mut i: usize = 0;
    assert(tl.take(0) =~= Seq::<Seq<char>>::empty());
    while i < ls.len()
        invariant
            i <= ls.len(),
            views(ls@) == lines(source@),
            tl == trimmed_lines(source@),
            views(adds@) == fresh_rules(tl.take(i as int), k0),
            views(known_rules@) == k0 + views(adds@),
        decreases ls.len() - i,
    {
        let line = trim_end_chars(&ls[i]);
        assert(line@ == tl[i as int]);
        assert(tl.take(i + 1).drop_last() =~= tl.take(i as int));
        let ghost prev = views(adds@);
        let ghost kb = views(known_rules@);
        proof {
            lemma_contains_concat(k0, prev, line@);
        }
        if is_rule_line(&line) && !contains_line(known_rules, &line) {
            let copy = copy_chars(&line);
            adds.push(line);
            known_rules.push(copy);
            assert(views(adds@) =~= prev.push(tl[i as int]));
            assert(views(known_rules@) =~= kb.push(line@));
            assert(views(known_rules@) =~= k0 + views(adds@));
        } else {
            assert(views(adds@) =~= prev);
        }
        i = i + 1;
    }
    assert(tl.take(i as int) =~= tl);
    adds
}

/// Appends the heading of a section named `name`.
fn push_heading(out: &mut Vec<char>, name: &str)
    ensures
        final(out)@ == old(out)@ + heading(name@),
{
    let ghost start = out@;
    out.push('#');
    out.push(' ');
    append_str(out, name);
    out.push('\n');
    assert(out@ =~= start + heading(name@));
}

/// Appends each rule followed by a line feed.
fn push_rules(out: &mut Vec<char>, rules: &Vec<Vec<char>>)
    ensures
        final(out)@ == old(out)@ + joined(views(rules@)),
{
    let ghost start = out@;
    let mut i: usize = 0;
    assert(views(rules@).take(0) =~= Seq::<Seq<char>>::empty());
    while i < rules.len()
        invariant
            i <= rules.len(),
            out@ == start + joined(views(rules@).take(i as int)),
        decreases rules.len() - i,
    {
        append_chars(out, &rules[i]);
        out.push('\n');
        assert(views(rules@).take(i + 1).drop_last() =~= views(rules@).take(i as int));
        assert(out@ =~= start + joined(views(rules@).take(i + 1)));
        i = i + 1;
    }
    assert(views(rules@).take(i as int) =~= views(rules@));
}

/// The `.gitignore` text for a new file made of `templates`: one section per
/// template that brings a new rule, headed by `# {name}` and followed by a
/// blank line.
pub fn render(templates: &[GitignoreTemplate]) -> (out: String)
    ensures
        out@ == rendered(templates@),
{
    let mut known_rules: Vec<Vec<char>> = Vec::new();
    let mut output: Vec<char> = Vec::new();
    let mut i: usize = 0;
    assert(templates@.take(0) =~= Seq::<GitignoreTemplate>::empty());
    while i < templates.len()
        invariant
            i <= templates.len(),
            render_state(templates@.take(i as int)) == (output@, views(known_rules@)),
        decreases templates.len() - i,
    {
        let template = &templates[i];
        assert(templates@.take(i + 1).drop_last() =~= templates@.take(i as int));
        let additions = new_rules(template.source.as_str(), &mut known_rules);
        if additions.len() > 0 {
            push_heading(&mut output, template.name.as_str());
            push_rules(&mut output, &additions);
            output.push('\n');
        }
        i = i + 1;
    }
    assert(templates@.take(i as int) =~= templates@);
    string_of(&output)
}

/// The existing file with every rule that repeats an earlier one removed and
/// trailing whitespace trimmed, and the rules it holds.
pub fn compact_existing(existing: &str) -> (r: (Vec<char>, Vec<Vec<char>>))
    ensures
        (r.0@, views(r.1@)) == compacted(existing@),
{
    let text = chars_of(existing);
    let n = trimmed_end_len(&text);
    let trimmed = prefix(&text, n);
    let ghost tl = trimmed_lines(trim_end(existing@));
    let ls = split_lines(&trimmed);
    let mut known_rules: Vec<Vec<char>> = Vec::new();
    let mut output: Vec<char> = Vec::new();
    let mut i: usize = 0;
    assert(tl.take(0) =~= Seq::<Seq<char>>::empty());
    while i < ls.len()
        invariant
            i <= ls.len(),
            views(ls@) == lines(trim_end(existing@)),
            tl == trimmed_lines(trim_end(existing@)),
            joined(compact_state(tl.take(i as int)).0) == output@,
            compact_state(tl.take(i as int)).1 == views(known_rules@),
        decreases ls.len() - i,
    {
        let line = trim_end_chars(&ls[i]);
        assert(line@ == tl[i as int]);
        assert(tl.take(i + 1).drop_last() =~= tl.take(i as int));
        let rule = is_rule_line(&line);
        let ghost kept_prev = compact_state(tl.take(i as int)).0;
        assert(kept_prev.push(line@).drop_last() =~= kept_prev);
        if !(rule && contains_line(&known_rules, &line)) {
            append_chars(&mut output, &line);
            output.push('\n');
            if rule {
                let ghost kb = views(known_rules@);
                known_rules.push(line);
                assert(views(known_rules@) =~= kb.push(tl[i as int]));
            }
        }
        i = i + 1;
    }
    assert(tl.take(i as int) =~= tl);
    let m = trimmed_end_len(&output);
    (prefix(&output, m), known_rules)
}

/// Appends what separates a new section from the text before it.
fn push_separator(out: &mut Vec<char>)
    ensures
        final(out)@ == old(out)@ + separator(old(out)@),
{
    let ghost start = out@;
    let len = out.len();
    if len > 0 {
        if out[len - 1] != '\n' {
            out.push('\n');
            out.push('\n');
        } else if !(len >= 2 && out[len - 2] == '\n') {
            out.push('\n');
        }
    }
    assert(out@ =~= start + separator(start));
}

/// The `.gitignore` text that merging `templates` into the file `existing`
/// gives: the existing file without repeated rules, then one section per
/// template that brings a rule the file does not have yet.
pub fn merge(existing: &str, templates: &[GitignoreTemplate]) -> (out: String)
    ensures
        out@ == merged(existing@, templates@),
{
    let (mut output, mut known_rules) = compact_existing(existing);
    let mut i: usize = 0;
    assert(templates@.take(0) =~= Seq::<GitignoreTemplate>::empty());
    while i < templates.len()
        invariant
            i <= templates.len(),
            merge_state(existing@, templates@.take(i as int)) == (output@, views(known_rules@)),
        decreases templates.len() - i,
    {
        let template = &templates[i];
        assert(templates@.take(i + 1).drop_last() =~= templates@.take(i as int));
        let additions = new_rules(template.source.as_str(), &mut known_rules);
        if additions.len() > 0 {
            push_separator(&mut output);
            push_heading(&mut output, template.name.as_str());
            push_rules(&mut output, &additions);
        }
        i = i + 1;
    }
    assert(templates@.take(i as int) =~= templates@);
    if output.len() > 0 && output[output.len() - 1] != '\n' {
        output.push('\n');
    }
    string_of(&output)
}

/// The `.gitignore` write that `config` calls for, `existing` being the
/// current file: whether the file must be new, and its contents.
pub open spec fn gitignore_write(config: Config, existing: Seq<char>) -> Option<(bool, Seq<char>)> {
    match config.gitignore_mode {
        WriteMode::Skip => None,
        WriteMode::Create => Some((true, rendered(config.gitignores@))),
        WriteMode::Replace => Some((false, rendered(config.gitignores@))),
        WriteMode::Merge => Some((false, merged(existing, config.gitignores@))),
    }
}

/// The `.gitignore` write that `config` calls for; `existing` is the current
/// file, which only a merge reads.
pub fn plan(config: &Config, existing: &str) -> (w: Option<FileWrite>)
    ensures
        FileWrite::view_of(w) == gitignore_write(*config, existing@),
        w matches Some(f) ==> f.file == ManagedFile::Gitignore,
{
    match config.gitignore_mode {
        WriteMode::Skip => None,
        WriteMode::Create => Some(
            FileWrite {
                file: ManagedFile::Gitignore,
                contents: render(config.gitignores.as_slice()),
                create_new: true,
            },
        ),
        WriteMode::Replace => Some(
            FileWrite {
                file: ManagedFile::Gitignore,
                contents: render(config.gitignores.as_slice()),
                create_new: false,
            },
        ),
        WriteMode::Merge => Some(
            FileWrite {
                file: ManagedFile::Gitignore,
                contents: merge(existing, config.gitignores.as_slice()),
                create_new: false,
            },
        ),
    }
}

} // verus!
