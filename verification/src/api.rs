//! What the clients of the template and license services compute from the
//! replies they get.
use vstd::prelude::*;

use crate::model::GitignoreTemplate;
use crate::text::{append_str, chars_of, string_of};

verus! {

/// What `str::to_lowercase` gives for `s`: its Unicode lowercase mapping,
/// which for some characters depends on their neighbours (a final capital
/// sigma becomes `ς`).
pub uninterp spec fn lowercase(s: Seq<char>) -> Seq<char>;

/// Lowercases with `str::to_lowercase`, which depends on its argument alone.
#[verifier::external_body]
fn to_lowercase(s: &str) -> (r: String)
    ensures
        r@ == lowercase(s@),
{
    s.to_lowercase()
}

/// Whether `a` comes strictly before `b`, comparing characters by code point
/// and a prefix before the longer text, as `String`'s ordering does.
pub open spec fn lex_less(a: Seq<char>, b: Seq<char>) -> bool
    decreases a.len(),
{
    if a.len() == 0 {
        b.len() > 0
    } else if b.len() == 0 {
        false
    } else if a[0] != b[0] {
        (a[0] as u32) < (b[0] as u32)
    } else {
        lex_less(a.drop_first(), b.drop_first())
    }
}

/// `lex_less` is transitive.
pub proof fn lemma_lex_less_transitive(a: Seq<char>, b: Seq<char>, c: Seq<char>)
    requires
        lex_less(a, b),
        lex_less(b, c),
    ensures
        lex_less(a, c),
    decreases a.len(),
{
    if a.len() > 0 && b.len() > 0 && c.len() > 0 && a[0] == b[0] && b[0] == c[0] {
        lemma_lex_less_transitive(a.drop_first(), b.drop_first(), c.drop_first());
    }
}

/// Nothing comes strictly before itself.
pub proof fn lemma_lex_less_irreflexive(a: Seq<char>)
    ensures
        !lex_less(a, a),
    decreases a.len(),
{
    if a.len() > 0 {
        lemma_lex_less_irreflexive(a.drop_first());
    }
}

/// The key by which templates are ordered: the lowercased name.
pub open spec fn sort_key(t: GitignoreTemplate) -> Seq<char> {
    lowercase(t.name@)
}

/// Whether `ts` is ordered by lowercased name.
pub open spec fn sorted_by_name(ts: Seq<GitignoreTemplate>) -> bool {
    forall|i: int, j: int| 0 <= i < j < ts.len() ==> !lex_less(sort_key(ts[j]), sort_key(ts[i]))
}

fn lex_less_chars(a: &Vec<char>, b: &Vec<char>) -> (r: bool)
    ensures
        r == lex_less(a@, b@),
{
    let mut i: usize = 0;
    assert(a@.skip(0) =~= a@);
    assert(b@.skip(0) =~= b@);
    while i < a.len() && i < b.len() && a[i] == b[i]
        invariant
            i <= a.len(),
            i <= b.len(),
            lex_less(a@, b@) == lex_less(a@.skip(i as int), b@.skip(i as int)),
        decreases a.len() - i,
    {
        assert(a@.skip(i as int).drop_first() =~= a@.skip(i + 1));
        assert(b@.skip(i as int).drop_first() =~= b@.skip(i + 1));
        i = i + 1;
    }
    if i == a.len() {
        i < b.len()
    } else if i == b.len() {
        false
    } else {
        (a[i] as u32) < (b[i] as u32)
    }
}

/// The templates ordered by lowercased name. Templates whose keys are equal
/// keep no particular order in the contract.
pub fn sort_templates(templates: Vec<GitignoreTemplate>) -> (sorted: Vec<GitignoreTemplate>)
    ensures
        sorted@.to_multiset() == templates@.to_multiset(),
        sorted_by_name(sorted@),
{
    broadcast use vstd::seq_lib::to_multiset_insert;

    let mut sorted: Vec<GitignoreTemplate> = Vec::new();
    let mut keys: Vec<Vec<char>> = Vec::new();
    let mut i: usize = 0;
    assert(templates@.take(0) =~= Seq::<GitignoreTemplate>::empty());
    while i < templates.len()
        invariant
            i <= templates.len(),
            keys.len() == sorted.len(),
            forall|k: int| 0 <= k < keys.len() ==> #[trigger] keys@[k]@ == sort_key(sorted@[k]),
            sorted_by_name(sorted@),
            sorted@.to_multiset() == templates@.take(i as int).to_multiset(),
        decreases templates.len() - i,
    {
        let template = templates[i].duplicate();
        let key = chars_of(to_lowercase(template.name.as_str()).as_str());
        let mut p: usize = 0;
        let mut found = false;
        while p < keys.len() && !found
            invariant
                p <= keys.len(),
                keys.len() == sorted.len(),
                found ==> p < keys.len() && lex_less(key@, keys@[p as int]@),
                forall|k: int| 0 <= k < p ==> !lex_less(key@, #[trigger] keys@[k]@),
            decreases keys.len() - p, if found { 0int } else { 1int },
        {
            if lex_less_chars(&key, &keys[p]) {
                found = true;
            } else {
                p = p + 1;
            }
        }
        let ghost old_sorted = sorted@;
        proof {
            assert forall|j: int| p <= j < old_sorted.len() implies !lex_less(
                sort_key(old_sorted[j]),
                key@,
            ) by {
                assert(keys@[j]@ == sort_key(old_sorted[j]));
                assert(keys@[p as int]@ == sort_key(old_sorted[p as int]));
                assert(lex_less(key@, keys@[p as int]@));
                if lex_less(sort_key(old_sorted[j]), key@) {
                    lemma_lex_less_transitive(sort_key(old_sorted[j]), key@, keys@[p as int]@);
                    lemma_lex_less_irreflexive(keys@[p as int]@);
                }
            }
        }
        assert(template == templates@[i as int]);
        sorted.insert(p, template);
        keys.insert(p, key);
        proof {
            assert(sorted@ == old_sorted.insert(p as int, template));
            vstd::seq_lib::to_multiset_insert(old_sorted, p as int, template);
            assert(templates@.take(i + 1) =~= templates@.take(i as int).push(templates@[i as int]));
            vstd::seq_lib::to_multiset_build(templates@.take(i as int), templates@[i as int]);
            assert forall|a: int, b: int| 0 <= a < b < sorted@.len() implies !lex_less(
                sort_key(sorted@[b]),
                sort_key(sorted@[a]),
            ) by {
                if b < p {
                } else if b == p {
                    assert(keys@[a]@ == sort_key(sorted@[a]));
                } else if a < p {
                    assert(sorted@[b] == old_sorted[b - 1]);
                } else if a == p {
                    assert(sorted@[b] == old_sorted[b - 1]);
                } else {
                    assert(sorted@[b] == old_sorted[b - 1]);
                    assert(sorted@[a] == old_sorted[a - 1]);
                }
            }
        }
        i = i + 1;
    }
    assert(templates@.take(i as int) =~= templates@);
    sorted
}

/// The value of the `Authorization` header for an optional token.
pub open spec fn bearer(token: Option<String>) -> Option<Seq<char>> {
    match token {
        Some(t) => Some("Bearer "@ + t@),
        None => None,
    }
}

/// The `Authorization` header to send: `Bearer {token}` when there is a
/// token.
pub fn authorization(token: &Option<String>) -> (header: Option<String>)
    ensures
        match header {
            Some(h) => bearer(*token) == Some(h@),
            None => bearer(*token) is None,
        },
{
    match token {
        Some(t) => {
            let mut out = chars_of("Bearer ");
            append_str(&mut out, t.as_str());
            Some(string_of(&out))
        },
        None => None,
    }
}

} // verus!
