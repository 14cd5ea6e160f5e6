//! Text primitives over sequences of characters: whitespace, trimming,
//! line splitting, searching and replacing.
use vstd::prelude::*;

verus! {

/// The characters that carry the Unicode `White_Space` property, which is
/// what `char::is_whitespace` tests.
pub open spec fn is_white_space(c: char) -> bool {
    let n = c as u32;
    ||| 0x9 <= n <= 0xd
    ||| n == 0x20
    ||| n == 0x85
    ||| n == 0xa0
    ||| n == 0x1680
    ||| 0x2000 <= n <= 0x200a
    ||| n == 0x2028
    ||| n == 0x2029
    ||| n == 0x202f
    ||| n == 0x205f
    ||| n == 0x3000
}

/// `s` without its trailing whitespace.
pub open spec fn trim_end(s: Seq<char>) -> Seq<char>
    decreases s.len(),
{
    if s.len() > 0 && is_white_space(s.last()) {
        trim_end(s.drop_last())
    } else {
        s
    }
}

/// `s` without its leading whitespace.
pub open spec fn trim_start(s: Seq<char>) -> Seq<char>
    decreases s.len(),
{
    if s.len() > 0 && is_white_space(s[0]) {
        trim_start(s.drop_first())
    } else {
        s
    }
}

pub fn is_white_space_char(c: char) -> (r: bool)
    ensures
        r == is_white_space(c),
{
    let n = c as u32;
    (0x9 <= n && n <= 0xd) || n == 0x20 || n == 0x85 || n == 0xa0 || n == 0x1680 || (0x2000 <= n
        && n <= 0x200a) || n == 0x2028 || n == 0x2029 || n == 0x202f || n == 0x205f || n == 0x3000
}

/// The first `n` characters of `s`, copied.
pub fn prefix(s: &Vec<char>, n: usize) -> (r: Vec<char>)
    requires
        n <= s.len(),
    ensures
        r@ == s@.take(n as int),
{
    let mut r: Vec<char> = Vec::new();
    let mut i: usize = 0;
    while i < n
        invariant
            i <= n <= s.len(),
            r@ == s@.take(i as int),
        decreases n - i,
    {
        r.push(s[i]);
        i = i + 1;
        assert(r@ =~= s@.take(i as int));
    }
    r
}

/// The length of `s` once trailing whitespace is removed.
pub fn trimmed_end_len(s: &Vec<char>) -> (n: usize)
    ensures
        n <= s.len(),
        s@.take(n as int) == trim_end(s@),
{
    let mut e: usize = s.len();
    assert(s@.take(e as int) =~= s@);
    while e > 0 && is_white_space_char(s[e - 1])
        invariant
            e <= s.len(),
            trim_end(s@.take(e as int)) == trim_end(s@),
        decreases e,
    {
        assert(s@.take(e as int).drop_last() =~= s@.take(e - 1));
        e = e - 1;
    }
    e
}

/// `s` without its trailing whitespace.
pub fn trim_end_chars(s: &Vec<char>) -> (r: Vec<char>)
    ensures
        r@ == trim_end(s@),
{
    let n = trimmed_end_len(s);
    prefix(s, n)
}


/// The characters of `s`, in order.
pub fn chars_of(s: &str) -> (r: Vec<char>)
    ensures
        r@ == s@,
{
    broadcast use vstd::string::axiom_spec_iter;
    let mut r: Vec<char> = Vec::new();
    for c in it: s.chars()
        invariant
            it.seq() == s@,
            r@ == it.seq().take(it.index()),
    {
        r.push(c);
        assert(r@ =~= it.seq().take(it.index() + 1));
    }
    assert(r@ =~= s@);
    r
}


/// Builds a `String` with `String::from_iter`. The contract claims that the
/// string holds exactly the given characters, in order, which is what the
/// standard library documents for collecting characters into a `String`.
#[verifier::external_body]
pub fn string_of(chars: &Vec<char>) -> (s: String)
    ensures
        s@ == chars@,
{
    String::from_iter(chars.iter())
}

/// The character sequences held by a vector of character vectors.
pub open spec fn views(v: Seq<Vec<char>>) -> Seq<Seq<char>> {
    v.map_values(|l: Vec<char>| l@)
}

/// A line without the carriage return that may precede its line feed.
pub open spec fn strip_cr(l: Seq<char>) -> Seq<char> {
    if l.len() > 0 && l.last() == '\r' {
        l.drop_last()
    } else {
        l
    }
}

/// The lines of `pending + rest`, where `pending` holds the characters of a
/// line begun before `rest` and not yet ended. A line ends at `\n` (a `\r`
/// just before it is dropped); the final line needs no `\n`, and an empty
/// text has no lines. This is how `str::lines` splits.
pub open spec fn lines_from(pending: Seq<char>, rest: Seq<char>) -> Seq<Seq<char>>
    decreases rest.len(),
{
    if rest.len() == 0 {
        if pending.len() == 0 {
            seq![]
        } else {
            seq![pending]
        }
    } else if rest[0] == '\n' {
        seq![strip_cr(pending)] + lines_from(Seq::empty(), rest.drop_first())
    } else {
        lines_from(pending.push(rest[0]), rest.drop_first())
    }
}

/// The lines of `s`, as `str::lines` yields them.
pub open spec fn lines(s: Seq<char>) -> Seq<Seq<char>> {
    lines_from(Seq::empty(), s)
}

/// `l` without a final carriage return.
pub fn strip_cr_chars(l: Vec<char>) -> (r: Vec<char>)
    ensures
        r@ == strip_cr(l@),
{
    let ghost orig = l@;
    let mut l = l;
    if l.len() > 0 && l[l.len() - 1] == '\r' {
        l.pop();
        assert(l@ =~= orig.drop_last());
    }
    l
}

/// The lines of `s`, as `str::lines` yields them.
pub fn split_lines(s: &Vec<char>) -> (r: Vec<Vec<char>>)
    ensures
        views(r@) == lines(s@),
{
    let mut r: Vec<Vec<char>> = Vec::new();
    let mut pending: Vec<char> = Vec::new();
    let mut i: usize = 0;
    assert(s@.skip(0) =~= s@);
    while i < s.len()
        invariant
            i <= s.len(),
            views(r@) + lines_from(pending@, s@.skip(i as int)) == lines(s@),
        decreases s.len() - i,
    {
        let c = s[i];
        let ghost rest = s@.skip(i as int);
        assert(rest.drop_first() =~= s@.skip(i + 1));
        if c == '\n' {
            let ghost prev = views(r@);
            let ghost pv = pending@;
            let line = strip_cr_chars(pending);
            r.push(line);
            pending = Vec::new();
            assert(views(r@) =~= prev.push(strip_cr(pv)));
            assert(prev + lines_from(pv, rest) =~= views(r@) + lines_from(pending@, s@.skip(i + 1)));
        } else {
            pending.push(c);
        }
        i = i + 1;
    }
    if pending.len() > 0 {
        let ghost prev = views(r@);
        r.push(pending);
        assert(views(r@) =~= prev.push(pending@));
    } else {
        assert(views(r@) + lines_from(pending@, s@.skip(i as int)) =~= views(r@));
    }
    r
}

/// Whether two character sequences are equal.
pub fn chars_eq(a: &Vec<char>, b: &Vec<char>) -> (r: bool)
    ensures
        r == (a@ == b@),
{
    if a.len() != b.len() {
        return false;
    }
    let mut i: usize = 0;
    while i < a.len()
        invariant
            a.len() == b.len(),
            i <= a.len(),
            a@.take(i as int) == b@.take(i as int),
        decreases a.len() - i,
    {
        if a[i] != b[i] {
            assert(a@[i as int] != b@[i as int]);
            return false;
        }
        assert(a@.take(i + 1) =~= a@.take(i as int).push(a@[i as int]));
        assert(b@.take(i + 1) =~= b@.take(i as int).push(b@[i as int]));
        i = i + 1;
    }
    assert(a@ =~= a@.take(i as int));
    assert(b@ =~= b@.take(i as int));
    true
}

/// Whether `line` is one of the sequences held by `list`.
pub fn contains_line(list: &Vec<Vec<char>>, line: &Vec<char>) -> (r: bool)
    ensures
        r == views(list@).contains(line@),
{
    let mut i: usize = 0;
    while i < list.len()
        invariant
            i <= list.len(),
            forall|j: int| 0 <= j < i ==> views(list@)[j] != line@,
        decreases list.len() - i,
    {
        if chars_eq(&list[i], line) {
            assert(views(list@)[i as int] == line@);
            return true;
        }
        i = i + 1;
    }
    assert(!views(list@).contains(line@));
    false
}

/// A copy of `s`.
pub fn copy_chars(s: &Vec<char>) -> (r: Vec<char>)
    ensures
        r@ == s@,
{
    let r = prefix(s, s.len());
    assert(s@.take(s.len() as int) =~= s@);
    r
}

/// Appends the characters of `s` to `out`.
pub fn append_chars(out: &mut Vec<char>, s: &Vec<char>)
    ensures
        final(out)@ == old(out)@ + s@,
{
    let ghost start = out@;
    let mut i: usize = 0;
    while i < s.len()
        invariant
            i <= s.len(),
            out@ == start + s@.take(i as int),
        decreases s.len() - i,
    {
        out.push(s[i]);
        i = i + 1;
        assert(out@ =~= start + s@.take(i as int));
    }
    assert(s@.take(i as int) =~= s@);
}

/// Appends the characters of `s` to `out`.
pub fn append_str(out: &mut Vec<char>, s: &str)
    ensures
        final(out)@ == old(out)@ + s@,
{
    let cs = chars_of(s);
    append_chars(out, &cs);
}

/// The index of the first character of `s` that is not whitespace, or the
/// length of `s` if there is none.
pub fn leading_white_space_len(s: &Vec<char>) -> (n: usize)
    ensures
        n <= s.len(),
        s@.skip(n as int) == trim_start(s@),
{
    let mut i: usize = 0;
    assert(s@.skip(0) =~= s@);
    while i < s.len() && is_white_space_char(s[i])
        invariant
            i <= s.len(),
            trim_start(s@.skip(i as int)) == trim_start(s@),
        decreases s.len() - i,
    {
        assert(s@.skip(i as int).drop_first() =~= s@.skip(i + 1));
        i = i + 1;
    }
    i
}

/// A sequence made of two parts contains exactly what either part contains.
pub proof fn lemma_contains_concat<A>(a: Seq<A>, b: Seq<A>, x: A)
    ensures
        (a + b).contains(x) <==> a.contains(x) || b.contains(x),
{
    if (a + b).contains(x) {
        let i = choose|i: int| 0 <= i < (a + b).len() && (a + b)[i] == x;
        if i < a.len() {
            assert(a[i] == x);
        } else {
            assert(b[i - a.len()] == x);
        }
    }
    if a.contains(x) {
        let i = choose|i: int| 0 <= i < a.len() && a[i] == x;
        assert((a + b)[i] == x);
    }
    if b.contains(x) {
        let i = choose|i: int| 0 <= i < b.len() && b[i] == x;
        assert((a + b)[a.len() + i] == x);
    }
}

/// Whether `p` occurs in `s` starting at index `i`.
pub open spec fn occurs_at(s: Seq<char>, p: Seq<char>, i: int) -> bool {
    0 <= i && i + p.len() <= s.len() && s.subrange(i, i + p.len()) == p
}

/// Whether `p` occurs somewhere in `s`.
pub open spec fn contains_text(s: Seq<char>, p: Seq<char>) -> bool {
    exists|i: int| occurs_at(s, p, i)
}

/// `s` with every occurrence of `p` replaced by `r`, occurrences being
/// taken from left to right without overlap, as `str::replace` does.
pub open spec fn replace_all(s: Seq<char>, p: Seq<char>, r: Seq<char>) -> Seq<char>
    decreases s.len(),
{
    if p.len() == 0 || s.len() < p.len() {
        s
    } else if s.take(p.len() as int) == p {
        r + replace_all(s.skip(p.len() as int), p, r)
    } else {
        seq![s[0]] + replace_all(s.drop_first(), p, r)
    }
}

/// Whether `p` occurs in `s` starting at index `i`.
pub fn occurs_at_index(s: &Vec<char>, p: &Vec<char>, i: usize) -> (r: bool)
    ensures
        r == occurs_at(s@, p@, i as int),
{
    if i > s.len() || p.len() > s.len() - i {
        return false;
    }
    let mut j: usize = 0;
    while j < p.len()
        invariant
            i + p.len() <= s.len(),
            j <= p.len(),
            forall|k: int| 0 <= k < j ==> s@[i + k] == p@[k],
        decreases p.len() - j,
    {
        if s[i + j] != p[j] {
            assert(s@.subrange(i as int, i + p.len())[j as int] != p@[j as int]);
            return false;
        }
        j = j + 1;
    }
    assert(s@.subrange(i as int, i + p.len()) =~= p@);
    true
}

/// Whether `p` occurs somewhere in `s`.
pub fn contains_chars(s: &Vec<char>, p: &Vec<char>) -> (r: bool)
    ensures
        r == contains_text(s@, p@),
{
    if p.len() > s.len() {
        return false;
    }
    let last = s.len() - p.len();
    let mut i: usize = 0;
    while i < last
        invariant
            i <= last,
            last + p.len() == s.len(),
            forall|k: int| 0 <= k < i ==> !occurs_at(s@, p@, k),
        decreases last - i,
    {
        if occurs_at_index(s, p, i) {
            return true;
        }
        i = i + 1;
    }
    occurs_at_index(s, p, last)
}

/// `s` with every occurrence of the non-empty `p` replaced by `r`.
pub fn replace_chars(s: &Vec<char>, p: &Vec<char>, r: &Vec<char>) -> (out: Vec<char>)
    requires
        p.len() > 0,
    ensures
        out@ == replace_all(s@, p@, r@),
{
    let mut out: Vec<char> = Vec::new();
    let mut i: usize = 0;
    assert(s@.skip(0) =~= s@);
    while i < s.len()
        invariant
            p.len() > 0,
            i <= s.len(),
            out@ + replace_all(s@.skip(i as int), p@, r@) == replace_all(s@, p@, r@),
        decreases s.len() - i,
    {
        let ghost rest = s@.skip(i as int);
        let ghost before = out@;
        if occurs_at_index(s, p, i) {
            assert(rest.take(p.len() as int) =~= s@.subrange(i as int, i + p.len()));
            assert(rest.skip(p.len() as int) =~= s@.skip(i + p.len()));
            append_chars(&mut out, r);
            assert(out@ + replace_all(s@.skip(i + p.len()), p@, r@) =~= before + replace_all(
                rest,
                p@,
                r@,
            ));
            i = i + p.len();
        } else {
            proof {
                if rest.len() >= p@.len() {
                    assert(rest.take(p.len() as int) != p@) by {
                        if rest.take(p.len() as int) == p@ {
                            assert(s@.subrange(i as int, i + p.len()) =~= rest.take(
                                p.len() as int,
                            ));
                        }
                    }
                }
            }
            assert(rest.drop_first() =~= s@.skip(i + 1));
            out.push(s[i]);
            proof {
                if rest.len() < p@.len() {
                    assert(replace_all(rest.drop_first(), p@, r@) == rest.drop_first());
                    assert(rest =~= seq![s@[i as int]] + rest.drop_first());
                }
            }
            assert(out@ + replace_all(s@.skip(i + 1), p@, r@) =~= before + replace_all(
                rest,
                p@,
                r@,
            ));
            i = i + 1;
        }
    }
    assert(s@.skip(i as int) =~= Seq::<char>::empty());
    assert(out@ + replace_all(s@.skip(i as int), p@, r@) =~= out@);
    out
}

/// `parts` with `sep` between each two of them.
pub open spec fn join(parts: Seq<Seq<char>>, sep: Seq<char>) -> Seq<char>
    decreases parts.len(),
{
    if parts.len() == 0 {
        seq![]
    } else if parts.len() == 1 {
        parts[0]
    } else {
        join(parts.drop_last(), sep) + sep + parts.last()
    }
}

/// `parts` with `sep` between each two of them.
pub fn join_chars(parts: &Vec<Vec<char>>, sep: &str) -> (r: Vec<char>)
    ensures
        r@ == join(views(parts@), sep@),
{
    let mut out: Vec<char> = Vec::new();
    let mut i: usize = 0;
    assert(views(parts@).take(0) =~= Seq::<Seq<char>>::empty());
    while i < parts.len()
        invariant
            i <= parts.len(),
            out@ == join(views(parts@).take(i as int), sep@),
        decreases parts.len() - i,
    {
        assert(views(parts@).take(i + 1).drop_last() =~= views(parts@).take(i as int));
        if i > 0 {
            append_str(&mut out, sep);
        }
        append_chars(&mut out, &parts[i]);
        proof {
            if i == 0 {
                assert(views(parts@).take(1) =~= seq![parts@[0]@]);
                assert(out@ =~= parts@[0]@);
            }
        }
        i = i + 1;
    }
    assert(views(parts@).take(i as int) =~= views(parts@));
    out
}

/// The characters of `s` from index `n` on.
pub fn suffix(s: &Vec<char>, n: usize) -> (r: Vec<char>)
    requires
        n <= s.len(),
    ensures
        r@ == s@.skip(n as int),
{
    let mut r: Vec<char> = Vec::new();
    let mut i: usize = n;
    while i < s.len()
        invariant
            n <= i <= s.len(),
            r@ == s@.subrange(n as int, i as int),
        decreases s.len() - i,
    {
        r.push(s[i]);
        i = i + 1;
        assert(r@ =~= s@.subrange(n as int, i as int));
    }
    assert(r@ =~= s@.skip(n as int));
    r
}

/// `s` without leading or trailing whitespace, as `str::trim` gives it.
pub open spec fn trim(s: Seq<char>) -> Seq<char> {
    trim_start(trim_end(s))
}

/// `s` without leading or trailing whitespace.
pub fn trim_chars(s: &Vec<char>) -> (r: Vec<char>)
    ensures
        r@ == trim(s@),
{
    let t = trim_end_chars(s);
    let k = leading_white_space_len(&t);
    suffix(&t, k)
}

/// The lines completed, and the line left pending, once `a` is scanned
/// with `p` pending.
pub open spec fn scan(p: Seq<char>, a: Seq<char>) -> (Seq<Seq<char>>, Seq<char>)
    decreases a.len(),
{
    if a.len() == 0 {
        (seq![], p)
    } else if a[0] == '\n' {
        let (ls, q) = scan(Seq::empty(), a.drop_first());
        (seq![strip_cr(p)] + ls, q)
    } else {
        scan(p.push(a[0]), a.drop_first())
    }
}

/// Splitting `a + b` into lines: the lines completed within `a`, then the
/// lines of `b` continuing what `a` left pending.
pub proof fn lemma_lines_from_split(p: Seq<char>, a: Seq<char>, b: Seq<char>)
    ensures
        lines_from(p, a + b) == scan(p, a).0 + lines_from(scan(p, a).1, b),
    decreases a.len(),
{
    if a.len() == 0 {
        assert(a + b =~= b);
        assert(scan(p, a).0 + lines_from(scan(p, a).1, b) =~= lines_from(p, b));
    } else {
        assert((a + b)[0] == a[0]);
        assert((a + b).drop_first() =~= a.drop_first() + b);
        if a[0] == '\n' {
            lemma_lines_from_split(Seq::empty(), a.drop_first(), b);
            assert(lines_from(p, a + b) =~= scan(p, a).0 + lines_from(scan(p, a).1, b));
        } else {
            lemma_lines_from_split(p.push(a[0]), a.drop_first(), b);
        }
    }
}

/// Scanning text that ends with a line feed leaves nothing pending.
pub proof fn lemma_scan_ends_line(p: Seq<char>, a: Seq<char>)
    requires
        a.len() > 0,
        a.last() == '\n',
    ensures
        scan(p, a).1 == Seq::<char>::empty(),
    decreases a.len(),
{
    if a.len() == 1 {
        assert(a[0] == a.last());
        assert(a.drop_first() =~= Seq::<char>::empty());
        assert(scan(Seq::empty(), a.drop_first()) == (
            Seq::<Seq<char>>::empty(),
            Seq::<char>::empty(),
        ));
    } else {
        assert(a.drop_first().last() == a.last());
        if a[0] == '\n' {
            lemma_scan_ends_line(Seq::empty(), a.drop_first());
        } else {
            lemma_scan_ends_line(p.push(a[0]), a.drop_first());
        }
    }
}

/// Scanning text without a line feed only extends the pending line.
pub proof fn lemma_scan_no_newline(p: Seq<char>, x: Seq<char>)
    requires
        !x.contains('\n'),
    ensures
        scan(p, x) == (Seq::<Seq<char>>::empty(), p + x),
    decreases x.len(),
{
    if x.len() == 0 {
        assert(p + x =~= p);
    } else {
        assert(x[0] != '\n') by {
            assert(x[0] == x[0]);
        }
        assert(!x.drop_first().contains('\n')) by {
            if x.drop_first().contains('\n') {
                let i = choose|i: int| 0 <= i < x.drop_first().len() && x.drop_first()[i] == '\n';
                assert(x[i + 1] == '\n');
            }
        }
        lemma_scan_no_newline(p.push(x[0]), x.drop_first());
        assert(p.push(x[0]) + x.drop_first() =~= p + x);
    }
}

/// The lines of text that ends with a line feed, followed by more text, are
/// the lines of each part.
pub proof fn lemma_lines_concat(a: Seq<char>, b: Seq<char>)
    requires
        a.len() == 0 || a.last() == '\n',
    ensures
        lines(a + b) == lines(a) + lines(b),
{
    if a.len() == 0 {
        assert(a + b =~= b);
        assert(lines(a) + lines(b) =~= lines(b));
    } else {
        lemma_lines_from_split(Seq::empty(), a, b);
        lemma_lines_from_split(Seq::empty(), a, Seq::empty());
        assert(a + Seq::<char>::empty() =~= a);
        lemma_scan_ends_line(Seq::empty(), a);
        assert(lines_from(Seq::empty(), Seq::<char>::empty()) =~= Seq::<Seq<char>>::empty());
        assert(scan(Seq::empty(), a).0 + Seq::<Seq<char>>::empty() =~= scan(Seq::empty(), a).0);
    }
}

/// A single line followed by a line feed.
pub proof fn lemma_lines_single(x: Seq<char>)
    requires
        !x.contains('\n'),
    ensures
        lines(x + seq!['\n']) == seq![strip_cr(x)],
{
    lemma_lines_from_split(Seq::empty(), x, seq!['\n']);
    lemma_scan_no_newline(Seq::empty(), x);
    assert(Seq::<char>::empty() + x =~= x);
    assert(seq!['\n'].drop_first() =~= Seq::<char>::empty());
    assert(seq!['\n'][0] == '\n');
    assert(lines_from(Seq::<char>::empty(), Seq::<char>::empty()) =~= Seq::<Seq<char>>::empty());
    assert(lines_from(x, seq!['\n']) =~= seq![strip_cr(x)]);
    assert(Seq::<Seq<char>>::empty() + seq![strip_cr(x)] =~= seq![strip_cr(x)]);
}

/// Whether `s` holds no line feed.
pub open spec fn single_line(s: Seq<char>) -> bool {
    !s.contains('\n')
}

/// `trim_end(s)` is a prefix of `s`.
pub proof fn lemma_trim_end_prefix(s: Seq<char>)
    ensures
        trim_end(s).len() <= s.len(),
        trim_end(s) == s.take(trim_end(s).len() as int),
    decreases s.len(),
{
    if s.len() > 0 && is_white_space(s.last()) {
        lemma_trim_end_prefix(s.drop_last());
        assert(s.drop_last().take(trim_end(s).len() as int) =~= s.take(trim_end(s).len() as int));
    } else {
        assert(s.take(s.len() as int) =~= s);
    }
}

/// What `trim_end` leaves does not end with whitespace.
pub proof fn lemma_trim_end_last(s: Seq<char>)
    ensures
        trim_end(s).len() > 0 ==> !is_white_space(trim_end(s).last()),
        trim_end(trim_end(s)) == trim_end(s),
    decreases s.len(),
{
    if s.len() > 0 && is_white_space(s.last()) {
        lemma_trim_end_last(s.drop_last());
    }
}

/// A prefix of a single line is a single line.
pub proof fn lemma_take_single_line(s: Seq<char>, n: int)
    requires
        single_line(s),
        0 <= n <= s.len(),
    ensures
        single_line(s.take(n)),
{
    if s.take(n).contains('\n') {
        let i = choose|i: int| 0 <= i < s.take(n).len() && s.take(n)[i] == '\n';
        assert(s[i] == '\n');
    }
}

/// Trimming trailing whitespace keeps a line single.
pub proof fn lemma_trim_end_single_line(s: Seq<char>)
    requires
        single_line(s),
    ensures
        single_line(trim_end(s)),
{
    lemma_trim_end_prefix(s);
    lemma_take_single_line(s, trim_end(s).len() as int);
}

/// Every line of `lines_from(p, rest)` is single, given a single pending
/// line.
pub proof fn lemma_lines_from_single(p: Seq<char>, rest: Seq<char>)
    requires
        single_line(p),
    ensures
        forall|i: int|
            0 <= i < lines_from(p, rest).len() ==> single_line(#[trigger] lines_from(p, rest)[i]),
    decreases rest.len(),
{
    if rest.len() == 0 {
        if p.len() > 0 {
            assert(lines_from(p, rest) =~= seq![p]);
            assert(lines_from(p, rest)[0] == p);
        } else {
            assert(lines_from(p, rest).len() == 0);
        }
    } else if rest[0] == '\n' {
        lemma_lines_from_single(Seq::empty(), rest.drop_first());
        assert(single_line(strip_cr(p))) by {
            if p.len() > 0 && p.last() == '\r' {
                lemma_take_single_line(p, p.len() - 1);
                assert(p.drop_last() =~= p.take(p.len() - 1));
            }
        }
        let ls = lines_from(p, rest);
        assert forall|i: int| 0 <= i < ls.len() implies single_line(#[trigger] ls[i]) by {
            if i > 0 {
                assert(ls[i] == lines_from(Seq::empty(), rest.drop_first())[i - 1]);
            }
        }
    } else {
        assert(single_line(p.push(rest[0]))) by {
            if p.push(rest[0]).contains('\n') {
                let i = choose|i: int| 0 <= i < p.push(rest[0]).len() && p.push(rest[0])[i] == '\n';
                if i < p.len() {
                    assert(p[i] == '\n');
                }
            }
        }
        lemma_lines_from_single(p.push(rest[0]), rest.drop_first());
        assert(lines_from(p, rest) == lines_from(p.push(rest[0]), rest.drop_first()));
    }
}

/// Joining parts begins with the first part.
pub proof fn lemma_join_first(parts: Seq<Seq<char>>, sep: Seq<char>)
    requires
        parts.len() > 0,
    ensures
        join(parts, sep).len() >= parts[0].len(),
        join(parts, sep).take(parts[0].len() as int) == parts[0],
    decreases parts.len(),
{
    if parts.len() == 1 {
        assert(parts[0].take(parts[0].len() as int) =~= parts[0]);
    } else {
        lemma_join_first(parts.drop_last(), sep);
        let j = join(parts.drop_last(), sep);
        assert((j + sep + parts.last()).take(parts[0].len() as int) =~= j.take(
            parts[0].len() as int,
        ));
    }
}

/// Joining parts puts the separator before every part but the first.
pub proof fn lemma_join_contains(parts: Seq<Seq<char>>, sep: Seq<char>, i: int)
    requires
        0 < i < parts.len(),
    ensures
        contains_text(join(parts, sep), sep + parts[i]),
    decreases parts.len(),
{
    let prev = parts.drop_last();
    let j = join(prev, sep);
    let whole = join(parts, sep);
    assert(whole == j + sep + parts.last());
    if i == parts.len() - 1 {
        assert(whole.subrange(j.len() as int, (j.len() + (sep + parts[i]).len()) as int) =~= sep + parts[i]);
        assert(occurs_at(whole, sep + parts[i], j.len() as int));
    } else {
        assert(prev[i] == parts[i]);
        lemma_join_contains(prev, sep, i);
        let k = choose|k: int| occurs_at(j, sep + parts[i], k);
        assert(whole.subrange(k, k + (sep + parts[i]).len()) =~= j.subrange(
            k,
            k + (sep + parts[i]).len(),
        ));
        assert(occurs_at(whole, sep + parts[i], k));
    }
}

} // verus!
