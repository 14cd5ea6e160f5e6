//! What rendering and merging `.gitignore` files guarantee for all inputs.
use vstd::prelude::*;

use crate::generate::gitignore::{
    all_rules, compact_state, compacted, distinct, distinct_from, fresh_rules, heading, is_rule,
    joined, merge_state, trim_all, merged, render_state, rendered, rules_in, rules_of, separator,
    single_line_names, trimmed_lines,
};
use crate::model::GitignoreTemplate;
use crate::text::{
    is_white_space, lemma_contains_concat, lemma_lines_concat, lemma_lines_from_single,
    lemma_lines_from_split, lemma_lines_single, lemma_trim_end_last, lemma_trim_end_prefix,
    lines_from, scan, lemma_trim_end_single_line, lines, single_line,
    strip_cr, trim_end, trim_start,
};

verus! {

/// A line as the generators handle it: on one line, without trailing
/// whitespace.
pub open spec fn clean_line(l: Seq<char>) -> bool {
    single_line(l) && trim_end(l) == l
}

/// The rules of two lists of lines are the rules of each.
pub proof fn lemma_rules_in_concat(a: Seq<Seq<char>>, b: Seq<Seq<char>>)
    ensures
        rules_in(a + b) == rules_in(a) + rules_in(b),
    decreases b.len(),
{
    if b.len() == 0 {
        assert(a + b =~= a);
        assert(rules_in(a) + rules_in(b) =~= rules_in(a));
    } else {
        lemma_rules_in_concat(a, b.drop_last());
        assert((a + b).drop_last() =~= a + b.drop_last());
        assert((a + b).last() == b.last());
        if is_rule(b.last()) {
            assert(rules_in(a + b) =~= rules_in(a) + rules_in(b));
        }
    }
}

/// The new rules of a template are its distinct rules that are not known.
pub proof fn lemma_fresh_is_distinct(ls: Seq<Seq<char>>, known: Seq<Seq<char>>)
    ensures
        fresh_rules(ls, known) == distinct_from(rules_in(ls), known),
    decreases ls.len(),
{
    if ls.len() > 0 {
        lemma_fresh_is_distinct(ls.drop_last(), known);
        if is_rule(ls.last()) {
            assert(rules_in(ls).drop_last() =~= rules_in(ls.drop_last()));
        }
    }
}

/// Taking distinct elements of two parts in turn.
pub proof fn lemma_distinct_from_concat<A>(a: Seq<A>, b: Seq<A>, k: Seq<A>)
    ensures
        distinct_from(a + b, k) == distinct_from(a, k) + distinct_from(b, k + distinct_from(a, k)),
    decreases b.len(),
{
    let da = distinct_from(a, k);
    if b.len() == 0 {
        assert(a + b =~= a);
        assert(da + distinct_from(b, k + da) =~= da);
    } else {
        lemma_distinct_from_concat(a, b.drop_last(), k);
        assert((a + b).drop_last() =~= a + b.drop_last());
        assert((a + b).last() == b.last());
        let x = b.last();
        let db = distinct_from(b.drop_last(), k + da);
        lemma_contains_concat(k, da, x);
        lemma_contains_concat(da, db, x);
        if !(k.contains(x) || (da + db).contains(x)) {
            assert((da + db).push(x) =~= da + db.push(x));
        }
    }
}

/// What `distinct_from` keeps: each element of `s` outside `k`, once.
pub proof fn lemma_distinct_from_props<A>(s: Seq<A>, k: Seq<A>)
    ensures
        distinct_from(s, k).no_duplicates(),
        forall|x: A| #[trigger]
            distinct_from(s, k).contains(x) <==> s.contains(x) && !k.contains(x),
    decreases s.len(),
{
    if s.len() > 0 {
        lemma_distinct_from_props(s.drop_last(), k);
        let prev = distinct_from(s.drop_last(), k);
        assert forall|x: A| #[trigger]
            distinct_from(s, k).contains(x) <==> s.contains(x) && !k.contains(x) by {
            lemma_contains_concat(s.drop_last(), seq![s.last()], x);
            assert(s =~= s.drop_last() + seq![s.last()]);
            if !(k.contains(s.last()) || prev.contains(s.last())) {
                lemma_contains_concat(prev, seq![s.last()], x);
                assert(prev.push(s.last()) =~= prev + seq![s.last()]);
            }
        }
    }
}

/// The rules written by a render are the distinct rules of the templates.
pub proof fn lemma_render_known(ts: Seq<GitignoreTemplate>)
    ensures
        render_state(ts).1 == distinct(all_rules(ts)),
    decreases ts.len(),
{
    if ts.len() > 0 {
        lemma_render_known(ts.drop_last());
        let known = render_state(ts.drop_last()).1;
        let a = all_rules(ts.drop_last());
        let r = rules_of(ts.last().source@);
        lemma_fresh_is_distinct(trimmed_lines(ts.last().source@), known);
        lemma_distinct_from_concat(a, r, Seq::empty());
        assert(Seq::<Seq<char>>::empty() + distinct(a) =~= distinct(a));
        let adds = fresh_rules(trimmed_lines(ts.last().source@), known);
        if adds.len() == 0 {
            assert(known + adds =~= known);
        }
    }
}

/// Trimming distributes over concatenation.
pub proof fn lemma_trim_all_concat(a: Seq<Seq<char>>, b: Seq<Seq<char>>)
    ensures
        trim_all(a + b) == trim_all(a) + trim_all(b),
{
    assert(trim_all(a + b) =~= trim_all(a) + trim_all(b));
}

/// The lines the generators compare are clean.
pub proof fn lemma_trimmed_lines_clean(s: Seq<char>)
    ensures
        forall|i: int|
            0 <= i < trimmed_lines(s).len() ==> clean_line(#[trigger] trimmed_lines(s)[i]),
{
    lemma_lines_from_single(Seq::empty(), s);
    assert forall|i: int| 0 <= i < trimmed_lines(s).len() implies clean_line(
        #[trigger] trimmed_lines(s)[i],
    ) by {
        assert(single_line(lines(s)[i]));
        lemma_trim_end_single_line(lines(s)[i]);
        lemma_trim_end_last(lines(s)[i]);
    }
}

/// The new rules of a template are rules among its lines.
pub proof fn lemma_fresh_from(ls: Seq<Seq<char>>, known: Seq<Seq<char>>)
    ensures
        forall|i: int|
            0 <= i < fresh_rules(ls, known).len() ==> is_rule(#[trigger] fresh_rules(ls, known)[i])
                && ls.contains(fresh_rules(ls, known)[i]),
    decreases ls.len(),
{
    if ls.len() > 0 {
        lemma_fresh_from(ls.drop_last(), known);
        let f = fresh_rules(ls, known);
        assert forall|i: int| 0 <= i < f.len() implies is_rule(#[trigger] f[i]) && ls.contains(f[i]) by {
            let prev = fresh_rules(ls.drop_last(), known);
            if i < prev.len() {
                assert(f[i] == prev[i]);
                let j = choose|j: int| 0 <= j < ls.drop_last().len() && ls.drop_last()[j] == prev[i];
                assert(ls[j] == f[i]);
            } else {
                assert(ls[ls.len() - 1] == f[i]);
            }
        }
    }
}

/// The new rules of a template are clean rules.
pub proof fn lemma_fresh_clean(source: Seq<char>, known: Seq<Seq<char>>)
    ensures
        forall|i: int|
            0 <= i < fresh_rules(trimmed_lines(source), known).len() ==> is_rule(
                #[trigger] fresh_rules(trimmed_lines(source), known)[i],
            ) && clean_line(fresh_rules(trimmed_lines(source), known)[i]),
{
    let ls = trimmed_lines(source);
    lemma_fresh_from(ls, known);
    lemma_trimmed_lines_clean(source);
    assert forall|i: int| 0 <= i < fresh_rules(ls, known).len() implies is_rule(
        #[trigger] fresh_rules(ls, known)[i],
    ) && clean_line(fresh_rules(ls, known)[i]) by {
        let j = choose|j: int| 0 <= j < ls.len() && ls[j] == fresh_rules(ls, known)[i];
        assert(clean_line(ls[j]));
    }
}

/// A clean line does not end with a carriage return.
pub proof fn lemma_clean_no_cr(l: Seq<char>)
    requires
        clean_line(l),
    ensures
        strip_cr(l) == l,
        trim_end(l) == l,
{
    lemma_trim_end_last(l);
    if l.len() > 0 {
        assert(!is_white_space(l.last()));
    }
}

/// Clean lines each followed by a line feed split back into those lines.
pub proof fn lemma_lines_joined(rs: Seq<Seq<char>>)
    requires
        forall|i: int| 0 <= i < rs.len() ==> clean_line(#[trigger] rs[i]),
    ensures
        lines(joined(rs)) == rs,
        trimmed_lines(joined(rs)) == rs,
        joined(rs).len() == 0 || joined(rs).last() == '\n',
    decreases rs.len(),
{
    if rs.len() == 0 {
        assert(lines(Seq::<char>::empty()) =~= Seq::<Seq<char>>::empty());
        assert(trim_all(Seq::<Seq<char>>::empty()) =~= Seq::<Seq<char>>::empty());
    } else {
        let prev = rs.drop_last();
        assert forall|i: int| 0 <= i < prev.len() implies clean_line(#[trigger] prev[i]) by {
            assert(prev[i] == rs[i]);
        }
        lemma_lines_joined(prev);
        let l = rs.last();
        assert(clean_line(rs[rs.len() - 1]));
        lemma_clean_no_cr(l);
        assert(joined(rs) =~= joined(prev) + (l + seq!['\n']));
        lemma_lines_concat(joined(prev), l + seq!['\n']);
        lemma_lines_single(l);
        assert(lines(joined(rs)) =~= rs);
        lemma_trim_all_concat(prev, seq![l]);
        assert(rs =~= prev + seq![l]);
        assert(trim_all(seq![l]) =~= seq![l]);
    }
}

/// The rules of two texts, the first empty or ending with a line feed.
pub proof fn lemma_rules_of_concat(a: Seq<char>, b: Seq<char>)
    requires
        a.len() == 0 || a.last() == '\n',
    ensures
        rules_of(a + b) == rules_of(a) + rules_of(b),
{
    lemma_lines_concat(a, b);
    lemma_trim_all_concat(lines(a), lines(b));
    lemma_rules_in_concat(trimmed_lines(a), trimmed_lines(b));
}

/// A list of rules holds only rules.
pub proof fn lemma_rules_in_rules(rs: Seq<Seq<char>>)
    requires
        forall|i: int| 0 <= i < rs.len() ==> is_rule(#[trigger] rs[i]),
    ensures
        rules_in(rs) == rs,
    decreases rs.len(),
{
    if rs.len() > 0 {
        let prev = rs.drop_last();
        assert forall|i: int| 0 <= i < prev.len() implies is_rule(#[trigger] prev[i]) by {
            assert(prev[i] == rs[i]);
        }
        lemma_rules_in_rules(prev);
        assert(is_rule(rs[rs.len() - 1]));
        assert(prev.push(rs.last()) =~= rs);
    }
}

/// A text that starts with a character other than whitespace keeps it when
/// trailing whitespace is trimmed.
pub proof fn lemma_trim_end_keeps_first(s: Seq<char>)
    requires
        s.len() > 0,
        !is_white_space(s[0]),
    ensures
        trim_end(s).len() > 0,
        trim_end(s)[0] == s[0],
    decreases s.len(),
{
    if is_white_space(s.last()) {
        if s.len() == 1 {
            assert(s.last() == s[0]);
        } else {
            assert(s.drop_last()[0] == s[0]);
            lemma_trim_end_keeps_first(s.drop_last());
        }
    }
}

/// A line that starts with `#` is never a rule, whatever trailing
/// whitespace it had.
pub proof fn lemma_comment_not_rule(s: Seq<char>)
    requires
        s.len() > 0,
        s[0] == '#',
    ensures
        !is_rule(trim_end(s)),
{
    assert(!is_white_space('#')) by {
        assert(('#' as u32) == 35);
    }
    lemma_trim_end_keeps_first(s);
    let t = trim_end(s);
    assert(trim_start(t) == t);
}

/// A section heading holds no rule.
pub proof fn lemma_heading_rules(name: Seq<char>)
    requires
        single_line(name),
    ensures
        rules_of(heading(name)) == Seq::<Seq<char>>::empty(),
        heading(name).last() == '\n',
{
    let h0 = seq!['#', ' '] + name;
    assert(heading(name) =~= h0 + seq!['\n']);
    assert(single_line(h0)) by {
        if h0.contains('\n') {
            let i = choose|i: int| 0 <= i < h0.len() && h0[i] == '\n';
            assert(i >= 2);
            assert(name[i - 2] == '\n');
        }
    }
    lemma_lines_single(h0);
    let s = strip_cr(h0);
    assert(s.len() > 0 && s[0] == '#');
    lemma_comment_not_rule(s);
    assert(trimmed_lines(heading(name)) =~= seq![trim_end(s)]);
    assert(seq![trim_end(s)].drop_last() =~= Seq::<Seq<char>>::empty());
    assert(seq![trim_end(s)].last() == trim_end(s));
    assert(rules_in(seq![trim_end(s)]) == rules_in(Seq::<Seq<char>>::empty()));
}

/// A blank line holds no rule.
pub proof fn lemma_newline_rules()
    ensures
        rules_of(seq!['\n']) == Seq::<Seq<char>>::empty(),
{
    let e = Seq::<char>::empty();
    assert(!e.contains('\n'));
    lemma_lines_single(e);
    assert(e + seq!['\n'] =~= seq!['\n']);
    assert(strip_cr(e) =~= e);
    assert(trimmed_lines(seq!['\n']) =~= seq![e]);
    assert(trim_start(e) =~= e);
    assert(trim_end(e) =~= e);
    assert(!is_rule(e));
    assert(seq![e].drop_last() =~= Seq::<Seq<char>>::empty());
    assert(seq![e].last() == e);
    assert(rules_in(seq![e]) == rules_in(Seq::<Seq<char>>::empty()));
}

/// The rules of a section: those listed under its heading.
pub proof fn lemma_section_rules(name: Seq<char>, rs: Seq<Seq<char>>)
    requires
        single_line(name),
        forall|i: int| 0 <= i < rs.len() ==> is_rule(#[trigger] rs[i]) && clean_line(rs[i]),
    ensures
        rules_of(heading(name) + joined(rs)) == rs,
        rules_of(heading(name) + joined(rs) + seq!['\n']) == rs,
        rs.len() > 0 ==> (heading(name) + joined(rs)).last() == '\n',
{
    lemma_heading_rules(name);
    lemma_lines_joined(rs);
    lemma_rules_in_rules(rs);
    lemma_rules_of_concat(heading(name), joined(rs));
    assert(Seq::<Seq<char>>::empty() + rs =~= rs);
    lemma_newline_rules();
    if rs.len() > 0 {
        assert((heading(name) + joined(rs)).last() == joined(rs).last());
    }
    lemma_rules_of_concat(heading(name) + joined(rs), seq!['\n']);
    assert(rs + Seq::<Seq<char>>::empty() =~= rs);
}

/// The rules found in a rendered file are the rules it wrote.
pub proof fn lemma_render_text(ts: Seq<GitignoreTemplate>)
    requires
        single_line_names(ts),
    ensures
        rules_of(rendered(ts)) == render_state(ts).1,
        rendered(ts).len() == 0 || rendered(ts).last() == '\n',
    decreases ts.len(),
{
    if ts.len() == 0 {
        assert(rules_of(Seq::<char>::empty()) =~= Seq::<Seq<char>>::empty()) by {
            assert(lines(Seq::<char>::empty()) =~= Seq::<Seq<char>>::empty());
            assert(trim_all(Seq::<Seq<char>>::empty()) =~= Seq::<Seq<char>>::empty());
        }
    } else {
        let prev = ts.drop_last();
        assert(single_line_names(prev)) by {
            assert forall|i: int| 0 <= i < prev.len() implies single_line(#[trigger] prev[i].name@) by {
                assert(prev[i] == ts[i]);
            }
        }
        lemma_render_text(prev);
        let (out, known) = render_state(prev);
        let t = ts.last();
        assert(single_line(ts[ts.len() - 1].name@));
        let adds = fresh_rules(trimmed_lines(t.source@), known);
        if adds.len() > 0 {
            lemma_fresh_clean(t.source@, known);
            lemma_section_rules(t.name@, adds);
            let sec = heading(t.name@) + joined(adds) + seq!['\n'];
            assert(rendered(ts) =~= out + sec);
            lemma_rules_of_concat(out, sec);
        }
    }
}

/// Law: the rules of a rendered `.gitignore` are the rules of the
/// templates, each exactly once, in the order they first appear.
pub proof fn law_render_rules(ts: Seq<GitignoreTemplate>)
    requires
        single_line_names(ts),
    ensures
        rules_of(rendered(ts)) == distinct(all_rules(ts)),
        rules_of(rendered(ts)).no_duplicates(),
        forall|r: Seq<char>| #[trigger]
            rules_of(rendered(ts)).contains(r) <==> all_rules(ts).contains(r),
{
    lemma_render_text(ts);
    lemma_render_known(ts);
    lemma_distinct_from_props(all_rules(ts), Seq::empty());
}

/// Whether `t` holds only whitespace.
pub open spec fn all_white_space(t: Seq<char>) -> bool {
    forall|i: int| 0 <= i < t.len() ==> is_white_space(#[trigger] t[i])
}

/// The rule, if any, that a pending line amounts to.
pub open spec fn pending_rules(q: Seq<char>) -> Seq<Seq<char>> {
    if is_rule(trim_end(q)) {
        seq![trim_end(q)]
    } else {
        seq![]
    }
}

/// Appending whitespace to a line does not change it once trimmed.
pub proof fn lemma_trim_end_push_white(q: Seq<char>, c: char)
    requires
        is_white_space(c),
    ensures
        trim_end(q.push(c)) == trim_end(q),
{
    assert(q.push(c).drop_last() =~= q);
}

/// The rules of one line.
pub proof fn lemma_rules_in_single(l: Seq<char>)
    ensures
        rules_in(seq![l]) == (if is_rule(l) {
            seq![l]
        } else {
            Seq::<Seq<char>>::empty()
        }),
{
    assert(seq![l].drop_last() =~= Seq::<Seq<char>>::empty());
    assert(seq![l].last() == l);
    assert(Seq::<Seq<char>>::empty().push(l) =~= seq![l]);
    assert(rules_in(Seq::<Seq<char>>::empty()) =~= Seq::<Seq<char>>::empty());
    if is_rule(l) {
        assert(rules_in(seq![l]) == rules_in(seq![l].drop_last()).push(l));
    } else {
        assert(rules_in(seq![l]) == rules_in(seq![l].drop_last()));
    }
}

/// Whitespace after a pending line adds no rule.
pub proof fn lemma_white_tail(q: Seq<char>, t: Seq<char>)
    requires
        all_white_space(t),
    ensures
        rules_in(trim_all(lines_from(q, t))) == pending_rules(q),
    decreases t.len(),
{
    if t.len() == 0 {
        if q.len() > 0 {
            assert(lines_from(q, t) =~= seq![q]);
            assert(trim_all(seq![q]) =~= seq![trim_end(q)]);
            lemma_rules_in_single(trim_end(q));
        } else {
            assert(trim_all(lines_from(q, t)) =~= Seq::<Seq<char>>::empty());
            assert(trim_end(q) =~= q);
        }
    } else {
        assert(all_white_space(t.drop_first())) by {
            assert forall|i: int| 0 <= i < t.drop_first().len() implies is_white_space(
                #[trigger] t.drop_first()[i],
            ) by {
                assert(t.drop_first()[i] == t[i + 1]);
            }
        }
        assert(is_white_space(t[0]));
        if t[0] == '\n' {
            lemma_white_tail(Seq::empty(), t.drop_first());
            let rest = lines_from(Seq::<char>::empty(), t.drop_first());
            assert(lines_from(q, t) == seq![strip_cr(q)] + rest);
            lemma_trim_all_concat(seq![strip_cr(q)], rest);
            assert(trim_all(seq![strip_cr(q)]) =~= seq![trim_end(strip_cr(q))]);
            assert(trim_end(strip_cr(q)) == trim_end(q)) by {
                if q.len() > 0 && q.last() == '\r' {
                    assert(is_white_space('\r'));
                }
            }
            lemma_rules_in_concat(seq![trim_end(q)], trim_all(rest));
            lemma_rules_in_single(trim_end(q));
            assert(trim_end(Seq::<char>::empty()) =~= Seq::<char>::empty());
            assert(pending_rules(Seq::<char>::empty()) =~= Seq::<Seq<char>>::empty()) by {
                assert(trim_start(Seq::<char>::empty()) =~= Seq::<char>::empty());
            }
            assert(pending_rules(q) + Seq::<Seq<char>>::empty() =~= pending_rules(q));
        } else {
            lemma_white_tail(q.push(t[0]), t.drop_first());
            lemma_trim_end_push_white(q, t[0]);
        }
    }
}

/// Whitespace at the end of a text adds no rule.
pub proof fn lemma_rules_of_white_suffix(s: Seq<char>, t: Seq<char>)
    requires
        all_white_space(t),
    ensures
        rules_of(s + t) == rules_of(s),
{
    let e = Seq::<char>::empty();
    lemma_lines_from_split(e, s, t);
    lemma_lines_from_split(e, s, e);
    assert(s + e =~= s);
    let (done, q) = scan(e, s);
    lemma_trim_all_concat(done, lines_from(q, t));
    lemma_trim_all_concat(done, lines_from(q, e));
    lemma_rules_in_concat(trim_all(done), trim_all(lines_from(q, t)));
    lemma_rules_in_concat(trim_all(done), trim_all(lines_from(q, e)));
    lemma_white_tail(q, t);
    assert(all_white_space(e));
    lemma_white_tail(q, e);
}

/// What `trim_end` removes is whitespace.
pub proof fn lemma_trim_end_removes_white(s: Seq<char>)
    ensures
        s == trim_end(s) + s.skip(trim_end(s).len() as int),
        all_white_space(s.skip(trim_end(s).len() as int)),
    decreases s.len(),
{
    lemma_trim_end_prefix(s);
    if s.len() > 0 && is_white_space(s.last()) {
        lemma_trim_end_removes_white(s.drop_last());
        let k = trim_end(s).len() as int;
        assert(s.skip(k) =~= s.drop_last().skip(k).push(s.last()));
        assert forall|i: int| 0 <= i < s.skip(k).len() implies is_white_space(
            #[trigger] s.skip(k)[i],
        ) by {
            if i < s.drop_last().skip(k).len() {
                assert(s.skip(k)[i] == s.drop_last().skip(k)[i]);
            }
        }
    } else {
        assert(s.skip(s.len() as int) =~= Seq::<char>::empty());
    }
    assert(s =~= trim_end(s) + s.skip(trim_end(s).len() as int));
}

/// Trimming the end of a text keeps its rules.
pub proof fn lemma_rules_of_trim_end(s: Seq<char>)
    ensures
        rules_of(trim_end(s)) == rules_of(s),
{
    lemma_trim_end_removes_white(s);
    lemma_rules_of_white_suffix(trim_end(s), s.skip(trim_end(s).len() as int));
}

/// Compaction keeps each rule of the file once, and every other line.
pub proof fn lemma_compact_props(ls: Seq<Seq<char>>)
    ensures
        rules_in(compact_state(ls).0) == compact_state(ls).1,
        compact_state(ls).1 == distinct(rules_in(ls)),
        forall|i: int|
            0 <= i < compact_state(ls).0.len() ==> ls.contains(#[trigger] compact_state(ls).0[i]),
    decreases ls.len(),
{
    if ls.len() > 0 {
        let prev = ls.drop_last();
        lemma_compact_props(prev);
        let (kept, known) = compact_state(prev);
        let l = ls.last();
        if is_rule(l) {
            assert(rules_in(ls) == rules_in(prev).push(l));
            assert(rules_in(ls).drop_last() =~= rules_in(prev));
        }
        if !(is_rule(l) && known.contains(l)) {
            assert(kept.push(l).drop_last() =~= kept);
        }
        let k2 = compact_state(ls).0;
        assert forall|i: int| 0 <= i < k2.len() implies ls.contains(#[trigger] k2[i]) by {
            if i < kept.len() {
                assert(k2[i] == kept[i]);
                let j = choose|j: int| 0 <= j < prev.len() && prev[j] == kept[i];
                assert(ls[j] == k2[i]);
            } else {
                assert(ls[ls.len() - 1] == k2[i]);
            }
        }
    }
}

/// The rules of the compacted file are the distinct rules of the file.
pub proof fn lemma_compacted_rules(existing: Seq<char>)
    ensures
        rules_of(compacted(existing).0) == compacted(existing).1,
        compacted(existing).1 == distinct(rules_of(existing)),
{
    let ls = trimmed_lines(trim_end(existing));
    lemma_compact_props(ls);
    lemma_trimmed_lines_clean(trim_end(existing));
    let kept = compact_state(ls).0;
    assert forall|i: int| 0 <= i < kept.len() implies clean_line(#[trigger] kept[i]) by {
        let j = choose|j: int| 0 <= j < ls.len() && ls[j] == kept[i];
        assert(clean_line(ls[j]));
    }
    lemma_lines_joined(kept);
    lemma_rules_of_trim_end(joined(kept));
    lemma_rules_of_trim_end(existing);
}

/// The rules held after a merge are the distinct rules of the file, then of
/// the templates.
pub proof fn lemma_merge_known(existing: Seq<char>, ts: Seq<GitignoreTemplate>)
    ensures
        merge_state(existing, ts).1 == distinct(rules_of(existing) + all_rules(ts)),
    decreases ts.len(),
{
    if ts.len() == 0 {
        lemma_compacted_rules(existing);
        assert(rules_of(existing) + all_rules(ts) =~= rules_of(existing));
    } else {
        lemma_merge_known(existing, ts.drop_last());
        let known = merge_state(existing, ts.drop_last()).1;
        let a = rules_of(existing) + all_rules(ts.drop_last());
        let r = rules_of(ts.last().source@);
        lemma_fresh_is_distinct(trimmed_lines(ts.last().source@), known);
        lemma_distinct_from_concat(a, r, Seq::empty());
        assert(Seq::<Seq<char>>::empty() + distinct(a) =~= distinct(a));
        assert(rules_of(existing) + all_rules(ts) =~= a + r);
        let adds = fresh_rules(trimmed_lines(ts.last().source@), known);
        if adds.len() == 0 {
            assert(known + adds =~= known);
        }
    }
}

/// A separator is whitespace, and after it a new line starts.
pub proof fn lemma_separator(out: Seq<char>)
    ensures
        all_white_space(separator(out)),
        (out + separator(out)).len() == 0 || (out + separator(out)).last() == '\n',
{
    assert(is_white_space('\n'));
    if out.len() > 0 && out.last() == '\n' {
        assert((out + separator(out)).last() == '\n');
    }
}

/// The rules found in merged text are the rules the merge holds.
pub proof fn lemma_merge_text(existing: Seq<char>, ts: Seq<GitignoreTemplate>)
    requires
        single_line_names(ts),
    ensures
        rules_of(merge_state(existing, ts).0) == merge_state(existing, ts).1,
    decreases ts.len(),
{
    if ts.len() == 0 {
        lemma_compacted_rules(existing);
    } else {
        let prev = ts.drop_last();
        assert(single_line_names(prev)) by {
            assert forall|i: int| 0 <= i < prev.len() implies single_line(#[trigger] prev[i].name@) by {
                assert(prev[i] == ts[i]);
            }
        }
        lemma_merge_text(existing, prev);
        let (out, known) = merge_state(existing, prev);
        let t = ts.last();
        assert(single_line(ts[ts.len() - 1].name@));
        let adds = fresh_rules(trimmed_lines(t.source@), known);
        if adds.len() > 0 {
            lemma_fresh_clean(t.source@, known);
            lemma_section_rules(t.name@, adds);
            lemma_separator(out);
            lemma_rules_of_white_suffix(out, separator(out));
            let sec = heading(t.name@) + joined(adds);
            assert(merge_state(existing, ts).0 =~= (out + separator(out)) + sec);
            lemma_rules_of_concat(out + separator(out), sec);
        }
    }
}

/// Law: merging templates into a `.gitignore` keeps each rule of the file,
/// in order, then adds the rules of the templates that the file lacks, in
/// the order they first appear; no rule is there twice.
pub proof fn law_merge_rules(existing: Seq<char>, ts: Seq<GitignoreTemplate>)
    requires
        single_line_names(ts),
    ensures
        rules_of(merged(existing, ts)) == distinct(rules_of(existing) + all_rules(ts)),
        rules_of(merged(existing, ts)).no_duplicates(),
        forall|r: Seq<char>| #[trigger]
            rules_of(merged(existing, ts)).contains(r) <==> rules_of(existing).contains(r)
                || all_rules(ts).contains(r),
{
    lemma_merge_text(existing, ts);
    lemma_merge_known(existing, ts);
    let out = merge_state(existing, ts).0;
    if out.len() > 0 && out.last() != '\n' {
        assert(all_white_space(seq!['\n'])) by {
            assert(is_white_space('\n'));
        }
        assert(out.push('\n') =~= out + seq!['\n']);
        lemma_rules_of_white_suffix(out, seq!['\n']);
    }
    let all = rules_of(existing) + all_rules(ts);
    lemma_distinct_from_props(all, Seq::empty());
    assert forall|r: Seq<char>| #[trigger] all.contains(r) <==> rules_of(existing).contains(r)
        || all_rules(ts).contains(r) by {
        lemma_contains_concat(rules_of(existing), all_rules(ts), r);
    }
}

/// A rule is not empty and does not end with whitespace.
pub proof fn lemma_clean_rule_end(r: Seq<char>)
    requires
        is_rule(r),
        clean_line(r),
    ensures
        r.len() > 0,
        !is_white_space(r.last()),
        r.last() != '\n',
{
    if r.len() == 0 {
        assert(trim_start(r) =~= r);
    }
    lemma_trim_end_last(r);
    assert(is_white_space('\n'));
}

/// How the text of a non-empty list of rules ends.
pub proof fn lemma_joined_end(rs: Seq<Seq<char>>)
    requires
        rs.len() > 0,
        forall|i: int| 0 <= i < rs.len() ==> is_rule(#[trigger] rs[i]) && clean_line(rs[i]),
    ensures
        joined(rs).len() >= 2,
        joined(rs).last() == '\n',
        joined(rs)[joined(rs).len() - 2] != '\n',
{
    let l = rs.last();
    assert(is_rule(rs[rs.len() - 1]) && clean_line(rs[rs.len() - 1]));
    lemma_clean_rule_end(l);
    let j = joined(rs);
    assert(j == joined(rs.drop_last()) + l + seq!['\n']);
    assert(j[j.len() - 2] == l.last());
}

/// Rendering and merging into an empty file write the same sections.
pub proof fn lemma_render_merge_empty(ts: Seq<GitignoreTemplate>)
    ensures
        render_state(ts).1 == merge_state(Seq::empty(), ts).1,
        merge_state(Seq::empty(), ts).0.len() == 0 ==> render_state(ts).0.len() == 0,
        merge_state(Seq::empty(), ts).0.len() > 0 ==> {
            let m = merge_state(Seq::empty(), ts).0;
            &&& render_state(ts).0 == m.push('\n')
            &&& m.len() >= 2
            &&& m.last() == '\n'
            &&& m[m.len() - 2] != '\n'
        },
    decreases ts.len(),
{
    let e = Seq::<char>::empty();
    if ts.len() == 0 {
        assert(trim_end(e) =~= e);
        assert(lines(e) =~= Seq::<Seq<char>>::empty());
        assert(trimmed_lines(e) =~= Seq::<Seq<char>>::empty());
        assert(joined(Seq::<Seq<char>>::empty()) =~= e);
        assert(compacted(e).0 =~= e);
    } else {
        lemma_render_merge_empty(ts.drop_last());
        let (r, known) = render_state(ts.drop_last());
        let m = merge_state(e, ts.drop_last()).0;
        let t = ts.last();
        let adds = fresh_rules(trimmed_lines(t.source@), known);
        if adds.len() > 0 {
            lemma_fresh_clean(t.source@, known);
            lemma_joined_end(adds);
            let h = heading(t.name@);
            let j = joined(adds);
            let m2 = merge_state(e, ts).0;
            assert(m2 == m + separator(m) + h + j);
            if m.len() == 0 {
                assert(separator(m) =~= e);
                assert(render_state(ts).0 =~= m2.push('\n'));
            } else {
                assert(separator(m) =~= seq!['\n']);
                assert(render_state(ts).0 =~= m2.push('\n'));
            }
            assert(m2.last() == j.last());
            assert(m2[m2.len() - 2] == j[j.len() - 2]);
        }
    }
}

/// Law: a new `.gitignore` holds what merging the same templates into an
/// empty file gives, followed by one more line feed when it is not empty.
pub proof fn law_render_is_merge_into_empty(ts: Seq<GitignoreTemplate>)
    ensures
        rendered(ts) == (if merged(Seq::empty(), ts).len() == 0 {
            Seq::<char>::empty()
        } else {
            merged(Seq::empty(), ts).push('\n')
        }),
        merged(Seq::empty(), ts).len() == 0 || merged(Seq::empty(), ts)[0] == '#',
{
    lemma_render_merge_empty(ts);
    lemma_merge_empty_starts_with_heading(ts);
}

/// A merge into an empty file begins with a heading.
pub proof fn lemma_merge_empty_starts_with_heading(ts: Seq<GitignoreTemplate>)
    ensures
        merge_state(Seq::empty(), ts).0.len() == 0 || merge_state(Seq::empty(), ts).0[0] == '#',
    decreases ts.len(),
{
    let e = Seq::<char>::empty();
    if ts.len() == 0 {
        lemma_render_merge_empty(ts);
    } else {
        lemma_merge_empty_starts_with_heading(ts.drop_last());
        let m = merge_state(e, ts.drop_last()).0;
        if m.len() == 0 {
            assert(separator(m) =~= e);
        }
    }
}

/// The text of a merge so far ends with a line that is not blank.
pub proof fn lemma_merge_state_end(existing: Seq<char>, ts: Seq<GitignoreTemplate>)
    ensures
        ({
            let m = merge_state(existing, ts).0;
            m.len() == 0 || !is_white_space(m.last()) || (m.len() >= 2 && m.last() == '\n'
                && !is_white_space(m[m.len() - 2]))
        }),
    decreases ts.len(),
{
    if ts.len() == 0 {
        let kept = compact_state(trimmed_lines(trim_end(existing))).0;
        lemma_trim_end_last(joined(kept));
    } else {
        lemma_merge_state_end(existing, ts.drop_last());
        let (m, known) = merge_state(existing, ts.drop_last());
        let t = ts.last();
        let adds = fresh_rules(trimmed_lines(t.source@), known);
        if adds.len() > 0 {
            lemma_fresh_clean(t.source@, known);
            lemma_joined_end(adds);
            let j = joined(adds);
            let l = adds.last();
            assert(is_rule(adds[adds.len() - 1]) && clean_line(adds[adds.len() - 1]));
            lemma_clean_rule_end(l);
            assert(j == joined(adds.drop_last()) + l + seq!['\n']);
            assert(j[j.len() - 2] == l.last());
            let m2 = merge_state(existing, ts).0;
            assert(m2 == m + separator(m) + heading(t.name@) + j);
            assert(m2.last() == j.last());
            assert(m2[m2.len() - 2] == j[j.len() - 2]);
        }
    }
}

/// Law: a merged `.gitignore` is empty or ends with exactly one line feed:
/// its last line is not blank.
pub proof fn law_merge_ends_with_one_line_feed(existing: Seq<char>, ts: Seq<GitignoreTemplate>)
    ensures
        ({
            let m = merged(existing, ts);
            m.len() == 0 || (m.len() >= 2 && m.last() == '\n' && !is_white_space(m[m.len() - 2]))
        }),
{
    lemma_merge_state_end(existing, ts);
    let m = merge_state(existing, ts).0;
    if m.len() > 0 && !is_white_space(m.last()) {
        assert(is_white_space('\n'));
        assert(m.push('\n')[m.len() - 1] == m.last());
    }
}

/// The line that heads a template's section: `# {name}`.
pub open spec fn heading_line(name: Seq<char>) -> Seq<char> {
    seq!['#', ' '] + name
}

/// Whether every template's heading line is clean: the name fits on one
/// line and does not end with whitespace, and is not empty.
pub open spec fn clean_headings(ts: Seq<GitignoreTemplate>) -> bool {
    forall|i: int| 0 <= i < ts.len() ==> clean_line(#[trigger] heading_line(ts[i].name@))
}

/// The text of two lists of lines is the text of each.
pub proof fn lemma_joined_concat(a: Seq<Seq<char>>, b: Seq<Seq<char>>)
    ensures
        joined(a + b) == joined(a) + joined(b),
    decreases b.len(),
{
    if b.len() == 0 {
        assert(a + b =~= a);
        assert(joined(b) =~= Seq::<char>::empty());
        assert(joined(a) + joined(b) =~= joined(a));
    } else {
        lemma_joined_concat(a, b.drop_last());
        assert((a + b).drop_last() =~= a + b.drop_last());
        assert((a + b).last() == b.last());
        assert(joined(a + b) =~= joined(a) + joined(b));
    }
}

/// `ls` without the blank lines at its end.
pub open spec fn drop_blank_tail(ls: Seq<Seq<char>>) -> Seq<Seq<char>>
    decreases ls.len(),
{
    if ls.len() > 0 && ls.last().len() == 0 {
        drop_blank_tail(ls.drop_last())
    } else {
        ls
    }
}

/// Whether `ls` is clean lines, the last of which is not blank.
pub open spec fn tidy(ls: Seq<Seq<char>>) -> bool {
    &&& forall|i: int| 0 <= i < ls.len() ==> clean_line(#[trigger] ls[i])
    &&& ls.len() == 0 || ls.last().len() > 0
}

/// Trimming the text of clean lines cuts its blank lines at the end and the
/// last line feed.
pub proof fn lemma_trim_joined(ls: Seq<Seq<char>>)
    requires
        forall|i: int| 0 <= i < ls.len() ==> clean_line(#[trigger] ls[i]),
    ensures
        tidy(drop_blank_tail(ls)),
        drop_blank_tail(ls).len() == 0 ==> trim_end(joined(ls)).len() == 0,
        drop_blank_tail(ls).len() > 0 ==> trim_end(joined(ls)).push('\n') == joined(
            drop_blank_tail(ls),
        ),
        forall|i: int|
            0 <= i < drop_blank_tail(ls).len() ==> ls.contains(#[trigger] drop_blank_tail(ls)[i]),
    decreases ls.len(),
{
    assert(is_white_space('\n'));
    if ls.len() > 0 && ls.last().len() == 0 {
        let prev = ls.drop_last();
        assert forall|i: int| 0 <= i < prev.len() implies clean_line(#[trigger] prev[i]) by {
            assert(prev[i] == ls[i]);
        }
        lemma_trim_joined(prev);
        assert(joined(ls) =~= joined(prev).push('\n'));
        assert(joined(prev).push('\n').drop_last() =~= joined(prev));
        let d = drop_blank_tail(prev);
        assert forall|i: int| 0 <= i < d.len() implies ls.contains(#[trigger] d[i]) by {
            let j = choose|j: int| 0 <= j < prev.len() && prev[j] == d[i];
            assert(ls[j] == d[i]);
        }
    } else if ls.len() > 0 {
        let prev = ls.drop_last();
        let l = ls.last();
        assert(clean_line(ls[ls.len() - 1]));
        lemma_trim_end_last(l);
        assert(!is_white_space(l.last()));
        assert(joined(ls) =~= (joined(prev) + l).push('\n'));
        assert((joined(prev) + l).push('\n').drop_last() =~= joined(prev) + l);
        assert((joined(prev) + l).last() == l.last());
        assert(trim_end(joined(prev) + l) == joined(prev) + l);
        assert forall|i: int| 0 <= i < ls.len() implies ls.contains(#[trigger] ls[i]) by {
        }
    } else {
        assert(joined(ls) =~= Seq::<char>::empty());
    }
}

/// The lines of a merged file.
pub open spec fn merge_lines(existing: Seq<char>, ts: Seq<GitignoreTemplate>) -> Seq<Seq<char>>
    decreases ts.len(),
{
    if ts.len() == 0 {
        drop_blank_tail(compact_state(trimmed_lines(trim_end(existing))).0)
    } else {
        let k = merge_lines(existing, ts.drop_last());
        let known = merge_state(existing, ts.drop_last()).1;
        let adds = fresh_rules(trimmed_lines(ts.last().source@), known);
        if adds.len() == 0 {
            k
        } else if k.len() == 0 {
            seq![heading_line(ts.last().name@)] + adds
        } else {
            k + seq![Seq::<char>::empty(), heading_line(ts.last().name@)] + adds
        }
    }
}

/// The merged text so far is made of the merged lines.
pub proof fn lemma_merge_lines(existing: Seq<char>, ts: Seq<GitignoreTemplate>)
    requires
        clean_headings(ts),
    ensures
        tidy(merge_lines(existing, ts)),
        merge_lines(existing, ts).len() == 0 ==> merge_state(existing, ts).0.len() == 0,
        merge_lines(existing, ts).len() > 0 ==> merge_state(existing, ts).0 == joined(
            merge_lines(existing, ts),
        ) || merge_state(existing, ts).0.push('\n') == joined(merge_lines(existing, ts)),
    decreases ts.len(),
{
    assert(is_white_space('\n'));
    if ts.len() == 0 {
        let ls = trimmed_lines(trim_end(existing));
        lemma_compact_props(ls);
        lemma_trimmed_lines_clean(trim_end(existing));
        let kept = compact_state(ls).0;
        assert forall|i: int| 0 <= i < kept.len() implies clean_line(#[trigger] kept[i]) by {
            let j = choose|j: int| 0 <= j < ls.len() && ls[j] == kept[i];
            assert(clean_line(ls[j]));
        }
        lemma_trim_joined(kept);
    } else {
        let prev = ts.drop_last();
        assert(clean_headings(prev)) by {
            assert forall|i: int| 0 <= i < prev.len() implies clean_line(
                #[trigger] heading_line(prev[i].name@),
            ) by {
                assert(prev[i] == ts[i]);
            }
        }
        lemma_merge_lines(existing, prev);
        let k = merge_lines(existing, prev);
        let (out, known) = merge_state(existing, prev);
        let t = ts.last();
        let adds = fresh_rules(trimmed_lines(t.source@), known);
        if adds.len() > 0 {
            lemma_fresh_clean(t.source@, known);
            let hl = heading_line(t.name@);
            assert(clean_line(heading_line(ts[ts.len() - 1].name@)));
            assert(heading(t.name@) =~= joined(seq![hl])) by {
                assert(seq![hl].drop_last() =~= Seq::<Seq<char>>::empty());
                assert(joined(Seq::<Seq<char>>::empty()) =~= Seq::<char>::empty());
                assert(seq![hl].last() == hl);
                assert(joined(seq![hl]) == joined(seq![hl].drop_last()) + hl + seq!['\n']);
            }
            let out2 = merge_state(existing, ts).0;
            assert(out2 == out + separator(out) + heading(t.name@) + joined(adds));
            let k2 = merge_lines(existing, ts);
            assert(is_rule(adds[adds.len() - 1]) && clean_line(adds[adds.len() - 1]));
            lemma_clean_rule_end(adds.last());
            if k.len() == 0 {
                assert(separator(out) =~= Seq::<char>::empty());
                lemma_joined_concat(seq![hl], adds);
                assert(out2 =~= joined(k2));
                assert forall|i: int| 0 <= i < k2.len() implies clean_line(#[trigger] k2[i]) by {
                    if i > 0 {
                        assert(k2[i] == adds[i - 1]);
                    }
                }
            } else {
                let e = Seq::<char>::empty();
                lemma_joined_concat(k, seq![e, hl]);
                lemma_joined_concat(k + seq![e, hl], adds);
                assert(joined(seq![e, hl]) =~= seq!['\n'] + heading(t.name@)) by {
                    assert(seq![e, hl].drop_last() =~= seq![e]);
                    assert(seq![e].drop_last() =~= Seq::<Seq<char>>::empty());
                    assert(joined(Seq::<Seq<char>>::empty()) =~= Seq::<char>::empty());
                    assert(seq![e].last() == e);
                    assert(seq![e, hl].last() == hl);
                    assert(joined(seq![e]) == joined(seq![e].drop_last()) + e + seq!['\n']);
                    assert(joined(seq![e, hl]) == joined(seq![e, hl].drop_last()) + hl + seq!['\n']);
                }
                let lk = k.last();
                lemma_trim_end_last(lk);
                assert(clean_line(k[k.len() - 1]));
                assert(joined(k) == joined(k.drop_last()) + lk + seq!['\n']);
                let jk = joined(k);
                assert(jk.last() == '\n');
                assert(jk[jk.len() - 2] == lk.last());
                if out == jk {
                    assert(separator(out) =~= seq!['\n']);
                } else {
                    assert(out.push('\n') == jk);
                    assert(out.last() == jk[jk.len() - 2]);
                    assert(separator(out) =~= seq!['\n', '\n']);
                    assert(out + seq!['\n', '\n'] =~= jk + seq!['\n']);
                }
                assert(out2 =~= joined(k2));
                assert forall|i: int| 0 <= i < k2.len() implies clean_line(#[trigger] k2[i]) by {
                    if i < k.len() {
                        assert(k2[i] == k[i]);
                    } else if i == k.len() {
                        assert(k2[i] =~= e);
                        assert(trim_end(e) =~= e);
                    } else if i == k.len() + 1 {
                        assert(k2[i] == hl);
                    } else {
                        assert(k2[i] == adds[i - k.len() - 2]);
                    }
                }
            }
            assert(k2.last() == adds.last());
        }
    }
}

/// A merged file is the text of its merged lines.
pub proof fn lemma_merged_is_joined(existing: Seq<char>, ts: Seq<GitignoreTemplate>)
    requires
        clean_headings(ts),
    ensures
        merged(existing, ts) == joined(merge_lines(existing, ts)),
{
    lemma_merge_lines(existing, ts);
    let k = merge_lines(existing, ts);
    let out = merge_state(existing, ts).0;
    if k.len() == 0 {
        assert(joined(k) =~= Seq::<char>::empty());
    } else {
        let lk = k.last();
        assert(clean_line(k[k.len() - 1]));
        lemma_trim_end_last(lk);
        assert(joined(k) == joined(k.drop_last()) + lk + seq!['\n']);
        let jk = joined(k);
        assert(jk[jk.len() - 2] == lk.last());
        assert(is_white_space('\n'));
        if out.push('\n') == jk && out != jk {
            assert(out.last() == jk[jk.len() - 2]);
        }
    }
}

/// A single non-empty line without a line feed.
pub proof fn lemma_lines_one(l: Seq<char>)
    requires
        l.len() > 0,
        single_line(l),
    ensures
        lines(l) == seq![l],
{
    let e = Seq::<char>::empty();
    lemma_lines_from_split(e, l, e);
    crate::text::lemma_scan_no_newline(e, l);
    assert(l + e =~= l);
    assert(e + l =~= l);
    assert(lines_from(l, e) =~= seq![l]);
    assert(Seq::<Seq<char>>::empty() + seq![l] =~= seq![l]);
}

/// The lines of tidy text, once its end is trimmed.
pub proof fn lemma_lines_of_tidy(k: Seq<Seq<char>>)
    requires
        tidy(k),
    ensures
        trimmed_lines(trim_end(joined(k))) == k,
        k.len() == 0 ==> trim_end(joined(k)).len() == 0,
        k.len() > 0 ==> trim_end(joined(k)).push('\n') == joined(k),
{
    lemma_trim_joined(k);
    assert(drop_blank_tail(k) == k);
    if k.len() == 0 {
        assert(trimmed_lines(Seq::<char>::empty()) =~= Seq::<Seq<char>>::empty()) by {
            assert(lines(Seq::<char>::empty()) =~= Seq::<Seq<char>>::empty());
        }
        assert(trim_end(joined(k)) =~= Seq::<char>::empty());
    } else {
        let prev = k.drop_last();
        let l = k.last();
        assert(clean_line(k[k.len() - 1]));
        assert forall|i: int| 0 <= i < prev.len() implies clean_line(#[trigger] prev[i]) by {
            assert(prev[i] == k[i]);
        }
        lemma_lines_joined(prev);
        assert(joined(k) == joined(prev) + l + seq!['\n']);
        assert(trim_end(joined(k)) =~= joined(prev) + l) by {
            let t = trim_end(joined(k));
            assert((joined(prev) + l).push('\n') =~= joined(k));
            assert(t.push('\n').drop_last() =~= t);
            assert((joined(prev) + l).push('\n').drop_last() =~= joined(prev) + l);
        }
        lemma_lines_concat(joined(prev), l);
        lemma_lines_one(l);
        lemma_trim_all_concat(prev, seq![l]);
        lemma_clean_no_cr(l);
        assert(trim_all(seq![l]) =~= seq![l]);
        assert(prev + seq![l] =~= k);
        assert(trim_all(prev) == prev);
    }
}

/// Compacting lines whose rules are distinct keeps them all.
pub proof fn lemma_compact_distinct(k: Seq<Seq<char>>)
    requires
        rules_in(k).no_duplicates(),
    ensures
        compact_state(k) == (k, rules_in(k)),
    decreases k.len(),
{
    if k.len() > 0 {
        let prev = k.drop_last();
        let l = k.last();
        if is_rule(l) {
            let r = rules_in(k);
            assert(r == rules_in(prev).push(l));
            assert(rules_in(prev).no_duplicates()) by {
                assert forall|i: int, j: int|
                    0 <= i < rules_in(prev).len() && 0 <= j < rules_in(prev).len() && i != j
                    implies rules_in(prev)[i] != rules_in(prev)[j] by {
                    assert(r[i] == rules_in(prev)[i]);
                    assert(r[j] == rules_in(prev)[j]);
                }
            }
            lemma_compact_distinct(prev);
            assert(!rules_in(prev).contains(l)) by {
                if rules_in(prev).contains(l) {
                    let i = choose|i: int| 0 <= i < rules_in(prev).len() && rules_in(prev)[i] == l;
                    assert(r[i] == r[r.len() - 1]);
                }
            }
        } else {
            lemma_compact_distinct(prev);
        }
        assert(prev.push(l) =~= k);
    }
}

/// Merging templates that bring no new rule changes nothing but the end.
pub proof fn lemma_merge_no_new(m: Seq<char>, us: Seq<GitignoreTemplate>)
    requires
        forall|r: Seq<char>| all_rules(us).contains(r) ==> #[trigger] compacted(m).1.contains(r),
    ensures
        merge_state(m, us) == compacted(m),
    decreases us.len(),
{
    if us.len() > 0 {
        let prev = us.drop_last();
        let src = rules_of(us.last().source@);
        assert forall|r: Seq<char>| all_rules(prev).contains(r) implies #[trigger] compacted(
            m,
        ).1.contains(r) by {
            lemma_contains_concat(all_rules(prev), src, r);
        }
        lemma_merge_no_new(m, prev);
        let known = compacted(m).1;
        let tl = trimmed_lines(us.last().source@);
        lemma_fresh_is_distinct(tl, known);
        lemma_distinct_from_props(src, known);
        let adds = fresh_rules(tl, known);
        if adds.len() > 0 {
            assert(adds.contains(adds[0]));
            lemma_contains_concat(all_rules(prev), src, adds[0]);
        }
    }
}

/// Law: merging the same templates again changes nothing, provided each
/// template name is a single non-blank line that does not end with
/// whitespace.
pub proof fn law_merge_idempotent(existing: Seq<char>, ts: Seq<GitignoreTemplate>)
    requires
        clean_headings(ts),
    ensures
        merged(merged(existing, ts), ts) == merged(existing, ts),
{
    let m = merged(existing, ts);
    let k = merge_lines(existing, ts);
    lemma_merged_is_joined(existing, ts);
    lemma_merge_lines(existing, ts);
    assert(single_line_names(ts)) by {
        assert forall|i: int| 0 <= i < ts.len() implies single_line(#[trigger] ts[i].name@) by {
            assert(clean_line(heading_line(ts[i].name@)));
            if ts[i].name@.contains('\n') {
                let j = choose|j: int| 0 <= j < ts[i].name@.len() && ts[i].name@[j] == '\n';
                assert(heading_line(ts[i].name@)[j + 2] == '\n');
            }
        }
    }
    law_merge_rules(existing, ts);
    lemma_lines_joined(k);
    lemma_lines_of_tidy(k);
    lemma_compact_distinct(k);
    assert(compacted(m) == (trim_end(m), rules_of(m)));
    assert forall|r: Seq<char>| all_rules(ts).contains(r) implies #[trigger] compacted(
        m,
    ).1.contains(r) by {
    }
    lemma_merge_no_new(m, ts);
    if k.len() > 0 {
        lemma_trim_end_last(m);
        assert(trim_end(m).last() == m[m.len() - 2]);
        assert(is_white_space('\n'));
    }
}

/// The lines of `ls` that are not rules: comments and blank lines.
pub open spec fn others_in(ls: Seq<Seq<char>>) -> Seq<Seq<char>>
    decreases ls.len(),
{
    if ls.len() == 0 {
        seq![]
    } else if is_rule(ls.last()) {
        others_in(ls.drop_last())
    } else {
        others_in(ls.drop_last()).push(ls.last())
    }
}

/// Compaction keeps every line that is not a rule.
pub proof fn lemma_compact_keeps_others(ls: Seq<Seq<char>>)
    ensures
        others_in(compact_state(ls).0) == others_in(ls),
    decreases ls.len(),
{
    if ls.len() > 0 {
        let prev = ls.drop_last();
        lemma_compact_keeps_others(prev);
        let (kept, known) = compact_state(prev);
        let l = ls.last();
        if !(is_rule(l) && known.contains(l)) {
            assert(kept.push(l).drop_last() =~= kept);
            assert(kept.push(l).last() == l);
        }
    }
}

/// The merged lines begin with the lines kept from the existing file.
pub proof fn lemma_merge_lines_prefix(existing: Seq<char>, ts: Seq<GitignoreTemplate>)
    ensures
        ({
            let k0 = merge_lines(existing, Seq::empty());
            &&& merge_lines(existing, ts).len() >= k0.len()
            &&& merge_lines(existing, ts).take(k0.len() as int) == k0
        }),
    decreases ts.len(),
{
    let k0 = merge_lines(existing, Seq::<GitignoreTemplate>::empty());
    if ts.len() == 0 {
        assert(ts =~= Seq::<GitignoreTemplate>::empty());
        assert(k0.take(k0.len() as int) =~= k0);
    } else {
        lemma_merge_lines_prefix(existing, ts.drop_last());
        let k = merge_lines(existing, ts.drop_last());
        let k2 = merge_lines(existing, ts);
        if k.len() == 0 {
            assert(k0.len() == 0);
            assert(k2.take(0) =~= k0);
        } else {
            assert(k2.take(k0.len() as int) =~= k.take(k0.len() as int));
        }
    }
}

/// Law: a merged `.gitignore` begins with the lines of the existing file,
/// trailing whitespace trimmed, in order, where only repeated rules and the
/// blank lines at the end are left out: every comment and blank line in
/// between stays, and each rule stays once. This holds when each template
/// name is a single non-blank line that does not end with whitespace.
pub proof fn law_merge_keeps_existing_lines(existing: Seq<char>, ts: Seq<GitignoreTemplate>)
    requires
        clean_headings(ts),
    ensures
        ({
            let ls = trimmed_lines(trim_end(existing));
            let kept = compact_state(ls).0;
            let head = drop_blank_tail(kept);
            &&& trimmed_lines(merged(existing, ts)).len() >= head.len()
            &&& trimmed_lines(merged(existing, ts)).take(head.len() as int) == head
            &&& others_in(kept) == others_in(ls)
            &&& rules_in(kept) == distinct(rules_of(existing))
        }),
{
    let ls = trimmed_lines(trim_end(existing));
    lemma_merged_is_joined(existing, ts);
    lemma_merge_lines(existing, ts);
    lemma_lines_joined(merge_lines(existing, ts));
    lemma_merge_lines_prefix(existing, ts);
    lemma_compact_keeps_others(ls);
    lemma_compact_props(ls);
    lemma_compacted_rules(existing);
}

/// The rules of a list of lines are its lines that are rules.
pub proof fn lemma_rules_in_contains(ls: Seq<Seq<char>>, x: Seq<char>)
    ensures
        rules_in(ls).contains(x) <==> ls.contains(x) && is_rule(x),
    decreases ls.len(),
{
    if ls.len() > 0 {
        lemma_rules_in_contains(ls.drop_last(), x);
        assert(ls =~= ls.drop_last() + seq![ls.last()]);
        lemma_contains_concat(ls.drop_last(), seq![ls.last()], x);
        if is_rule(ls.last()) {
            assert(rules_in(ls) =~= rules_in(ls.drop_last()) + seq![ls.last()]);
            lemma_contains_concat(rules_in(ls.drop_last()), seq![ls.last()], x);
        }
    }
}

/// A rule of one template is among the rules of all the templates.
pub proof fn lemma_all_rules_contains(ts: Seq<GitignoreTemplate>, k: int, x: Seq<char>)
    requires
        0 <= k < ts.len(),
        trimmed_lines(ts[k].source@).contains(x),
        is_rule(x),
    ensures
        all_rules(ts).contains(x),
    decreases ts.len(),
{
    lemma_rules_in_contains(trimmed_lines(ts[k].source@), x);
    if k == ts.len() - 1 {
        lemma_contains_concat(all_rules(ts.drop_last()), rules_of(ts.last().source@), x);
    } else {
        assert(ts.drop_last()[k] == ts[k]);
        lemma_all_rules_contains(ts.drop_last(), k, x);
        lemma_contains_concat(all_rules(ts.drop_last()), rules_of(ts.last().source@), x);
    }
}

/// Law: every line of a template that, without its trailing whitespace, is
/// not blank and whose first character other than whitespace is not `#` (a
/// negation such as `!keep` included) is a line of the rendered file and of
/// every merge of the templates.
pub proof fn law_template_rule_lines_written(
    ts: Seq<GitignoreTemplate>,
    existing: Seq<char>,
    k: int,
    line: Seq<char>,
)
    requires
        single_line_names(ts),
        0 <= k < ts.len(),
        trimmed_lines(ts[k].source@).contains(line),
        trim_start(line).len() > 0,
        trim_start(line)[0] != '#',
    ensures
        trimmed_lines(rendered(ts)).contains(line),
        trimmed_lines(merged(existing, ts)).contains(line),
{
    assert(is_rule(line));
    lemma_all_rules_contains(ts, k, line);
    law_render_rules(ts);
    law_merge_rules(existing, ts);
    lemma_rules_in_contains(trimmed_lines(rendered(ts)), line);
    lemma_rules_in_contains(trimmed_lines(merged(existing, ts)), line);
}

} // verus!
