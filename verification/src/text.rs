//! Character-level text handling: the whitespace class, trimming, splitting,
//! line breaking, substring replacement, joining and decimal rendering.
//!
//! Every operation is stated over `Seq<char>`, the view of `str` and `String`.
use vstd::prelude::*;

verus! {

broadcast use vstd::string::group_string_axioms;

// ---------------------------------------------------------------------------
// Specifications
// ---------------------------------------------------------------------------
/// The Unicode `White_Space` property, the class that `char::is_whitespace`,
/// `str::trim` and `str::split_whitespace` go by.
pub open spec fn is_ws(c: char) -> bool {
    ||| ('\u{9}' <= c && c <= '\u{d}')
    ||| c == ' '
    ||| c == '\u{85}'
    ||| c == '\u{a0}'
    ||| c == '\u{1680}'
    ||| ('\u{2000}' <= c && c <= '\u{200a}')
    ||| c == '\u{2028}'
    ||| c == '\u{2029}'
    ||| c == '\u{202f}'
    ||| c == '\u{205f}'
    ||| c == '\u{3000}'
}

/// `s` with its leading whitespace removed.
pub open spec fn trim_start_spec(s: Seq<char>) -> Seq<char>
    decreases s.len(),
{
    if s.len() > 0 && is_ws(s[0]) {
        trim_start_spec(s.drop_first())
    } else {
        s
    }
}

/// `s` with its trailing whitespace removed.
pub open spec fn trim_end_spec(s: Seq<char>) -> Seq<char>
    decreases s.len(),
{
    if s.len() > 0 && is_ws(s.last()) {
        trim_end_spec(s.drop_last())
    } else {
        s
    }
}

/// `s` with whitespace removed at both ends.
pub open spec fn trim_spec(s: Seq<char>) -> Seq<char> {
    trim_end_spec(trim_start_spec(s))
}

/// The pieces of `s` between occurrences of `sep`, as `str::split` yields
/// them: always at least one piece, empty pieces kept.
pub open spec fn split_spec(s: Seq<char>, sep: char) -> Seq<Seq<char>>
    decreases s.len(),
{
    if s.len() == 0 {
        seq![Seq::<char>::empty()]
    } else {
        let prev = split_spec(s.drop_last(), sep);
        if s.last() == sep {
            prev.push(Seq::<char>::empty())
        } else {
            prev.update(prev.len() - 1, prev.last().push(s.last()))
        }
    }
}

/// The maximal runs of non-whitespace characters of `s`, in order, as
/// `str::split_whitespace` yields them.
pub open spec fn words_spec(s: Seq<char>) -> Seq<Seq<char>>
    decreases s.len(),
{
    if s.len() == 0 {
        Seq::<Seq<char>>::empty()
    } else {
        let prev = words_spec(s.drop_last());
        let c = s.last();
        if is_ws(c) {
            prev
        } else if s.len() >= 2 && !is_ws(s[s.len() - 2]) {
            prev.update(prev.len() - 1, prev.last().push(c))
        } else {
            prev.push(seq![c])
        }
    }
}

/// `s` without one trailing carriage return.
pub open spec fn strip_cr(s: Seq<char>) -> Seq<char> {
    if s.len() > 0 && s.last() == '\r' {
        s.drop_last()
    } else {
        s
    }
}

/// The line of `pieces[i]`: a piece that a line feed ends loses a carriage
/// return before it; the last piece, which no line feed ends, keeps it.
pub open spec fn line_of(pieces: Seq<Seq<char>>, i: int) -> Seq<char> {
    if i < pieces.len() - 1 {
        strip_cr(pieces[i])
    } else {
        pieces[i]
    }
}

/// The lines of `s` as `str::lines` yields them: split at line feeds, a
/// final line feed ends the last line rather than opening an empty one, and
/// a carriage return before a line feed belongs to the line break (one that
/// ends the text without a line feed stays in the last line).
pub open spec fn lines_spec(s: Seq<char>) -> Seq<Seq<char>> {
    let pieces = split_spec(s, '\n');
    let n = if pieces.last().len() == 0 {
        pieces.len() - 1
    } else {
        pieces.len() as int
    };
    Seq::new(n as nat, |i: int| line_of(pieces, i))
}

/// Whether `pat` occurs in `s` at position `i`.
pub open spec fn occurs_at(s: Seq<char>, pat: Seq<char>, i: int) -> bool {
    0 <= i && i + pat.len() <= s.len() && s.subrange(i, i + pat.len()) == pat
}

/// Whether `pat` occurs anywhere in `s`.
pub open spec fn contains_spec(s: Seq<char>, pat: Seq<char>) -> bool {
    exists|i: int| occurs_at(s, pat, i)
}

/// `s` with every occurrence of the non-empty `pat` replaced by `rep`, the
/// occurrences taken from left to right without overlap, as `str::replace`
/// does.
pub open spec fn replace_spec(s: Seq<char>, pat: Seq<char>, rep: Seq<char>) -> Seq<char>
    recommends
        pat.len() > 0,
    decreases s.len(),
{
    if s.len() == 0 {
        Seq::<char>::empty()
    } else if pat.len() > 0 && occurs_at(s, pat, 0) {
        rep + replace_spec(s.skip(pat.len() as int), pat, rep)
    } else {
        seq![s[0]] + replace_spec(s.drop_first(), pat, rep)
    }
}

/// The pieces of `parts` with `sep` between each two neighbours.
pub open spec fn join_spec(parts: Seq<Seq<char>>, sep: Seq<char>) -> Seq<char>
    decreases parts.len(),
{
    if parts.len() == 0 {
        Seq::<char>::empty()
    } else if parts.len() == 1 {
        parts[0]
    } else {
        join_spec(parts.drop_last(), sep) + sep + parts.last()
    }
}

/// The decimal digit for `d`, where `d < 10`.
pub open spec fn digit_char(d: nat) -> char {
    if d == 0 { '0' }
    else if d == 1 { '1' }
    else if d == 2 { '2' }
    else if d == 3 { '3' }
    else if d == 4 { '4' }
    else if d == 5 { '5' }
    else if d == 6 { '6' }
    else if d == 7 { '7' }
    else if d == 8 { '8' }
    else { '9' }
}

/// The decimal rendering of `n`, without leading zeros.
pub open spec fn decimal_spec(n: nat) -> Seq<char>
    decreases n,
{
    if n < 10 {
        seq![digit_char(n)]
    } else {
        decimal_spec(n / 10).push(digit_char(n % 10))
    }
}

/// The views of a vector of strings.
pub open spec fn views(v: Seq<String>) -> Seq<Seq<char>> {
    v.map_values(|s: String| s@)
}

// ---------------------------------------------------------------------------
// Conversions
// ---------------------------------------------------------------------------
/// Appends one character to a string with `String::push`. The contract
/// claims what its documentation says: the string afterwards is the old one
/// with the character at its end.
#[verifier::external_body]
fn push_char(s: &mut String, c: char)
    ensures
        final(s)@ == old(s)@.push(c),
{
    s.push(c);
}

/// The characters of `s`.
pub fn chars_of(s: &str) -> (v: Vec<char>)
    ensures
        v@ == s@,
{
    let mut v: Vec<char> = Vec::new();
    for c in it: s.chars()
        invariant
            it.seq() == s@,
            v@ == it.seq().take(it.index() as int),
    {
        v.push(c);
    }
    v
}

/// The string made of the characters `v[from..to]`.
pub fn string_of_range(v: &Vec<char>, from: usize, to: usize) -> (s: String)
    requires
        from <= to <= v@.len(),
    ensures
        s@ == v@.subrange(from as int, to as int),
{
    let mut s = String::new();
    let mut i = from;
    while i < to
        invariant
            from <= i <= to <= v@.len(),
            s@ == v@.subrange(from as int, i as int),
        decreases to - i,
    {
        push_char(&mut s, v[i]);
        assert(v@.subrange(from as int, i + 1) == v@.subrange(from as int, i as int).push(v@[i as int]));
        i = i + 1;
    }
    s
}

/// The string made of the characters `v`.
pub fn string_of(v: &Vec<char>) -> (s: String)
    ensures
        s@ == v@,
{
    let s = string_of_range(v, 0, v.len());
    assert(v@.subrange(0, v@.len() as int) == v@);
    s
}

/// A copy of `s` as an owned string.
pub fn owned(s: &str) -> (r: String)
    ensures
        r@ == s@,
{
    let v = chars_of(s);
    string_of(&v)
}

/// Appends `t` to `s`.
pub fn push_str(s: &mut String, t: &str)
    ensures
        final(s)@ == old(s)@ + t@,
{
    let v = chars_of(t);
    let mut i: usize = 0;
    while i < v.len()
        invariant
            i <= v@.len(),
            v@ == t@,
            s@ == old(s)@ + v@.take(i as int),
        decreases v@.len() - i,
    {
        push_char(s, v[i]);
        assert(v@.take(i + 1) == v@.take(i as int).push(v@[i as int]));
        i = i + 1;
    }
    assert(v@.take(v@.len() as int) == v@);
}

/// Whether the two strings hold the same characters.
pub fn str_eq(a: &str, b: &str) -> (r: bool)
    ensures
        r == (a@ == b@),
{
    let va = chars_of(a);
    let vb = chars_of(b);
    if va.len() != vb.len() {
        return false;
    }
    let mut i: usize = 0;
    while i < va.len()
        invariant
            va@ == a@,
            vb@ == b@,
            va@.len() == vb@.len(),
            i <= va@.len(),
            forall|j: int| 0 <= j < i ==> va@[j] == vb@[j],
        decreases va@.len() - i,
    {
        if va[i] != vb[i] {
            return false;
        }
        i = i + 1;
    }
    assert(va@ =~= vb@);
    true
}

/// Whether `v` holds a string equal to `s`.
pub fn contains_string(v: &Vec<String>, s: &str) -> (r: bool)
    ensures
        r == views(v@).contains(s@),
{
    let mut i: usize = 0;
    while i < v.len()
        invariant
            i <= v@.len(),
            forall|j: int| 0 <= j < i ==> v@[j]@ != s@,
        decreases v@.len() - i,
    {
        if str_eq(v[i].as_str(), s) {
            assert(views(v@)[i as int] == s@);
            return true;
        }
        i = i + 1;
    }
    assert forall|j: int| 0 <= j < views(v@).len() implies views(v@)[j] != s@ by {
        assert(views(v@)[j] == v@[j]@);
    }
    false
}

// ---------------------------------------------------------------------------
// Whitespace and trimming
// ---------------------------------------------------------------------------
/// Whether `c` is whitespace (`char::is_whitespace`).
pub fn is_whitespace(c: char) -> (r: bool)
    ensures
        r == is_ws(c),
{
    ('\u{9}' <= c && c <= '\u{d}') || c == ' ' || c == '\u{85}' || c == '\u{a0}'
        || c == '\u{1680}' || ('\u{2000}' <= c && c <= '\u{200a}') || c == '\u{2028}'
        || c == '\u{2029}' || c == '\u{202f}' || c == '\u{205f}' || c == '\u{3000}'
}

/// Leading whitespace of `s[k..]` goes, then the rest is `s[k..]` trimmed at
/// the start.
proof fn lemma_trim_start_skip(s: Seq<char>, k: int)
    requires
        0 <= k <= s.len(),
        forall|j: int| 0 <= j < k ==> is_ws(s[j]),
    ensures
        trim_start_spec(s) == trim_start_spec(s.skip(k)),
    decreases k,
{
    if k > 0 {
        assert(s.skip(1) == s.drop_first());
        lemma_trim_start_skip(s.drop_first(), k - 1);
        assert(s.drop_first().skip(k - 1) == s.skip(k));
    } else {
        assert(s.skip(0) == s);
    }
}

/// Trailing whitespace of `s` beyond `k` goes.
proof fn lemma_trim_end_take(s: Seq<char>, k: int)
    requires
        0 <= k <= s.len(),
        forall|j: int| k <= j < s.len() ==> is_ws(s[j]),
    ensures
        trim_end_spec(s) == trim_end_spec(s.take(k)),
    decreases s.len() - k,
{
    if k < s.len() {
        assert(s.drop_last() == s.take(s.len() - 1));
        lemma_trim_end_take(s.drop_last(), k);
        assert(s.drop_last().take(k) == s.take(k));
    } else {
        assert(s.take(k) == s);
    }
}

/// The characters `s[from..to]` with whitespace removed at both ends.
pub fn trim_range(v: &Vec<char>, from: usize, to: usize) -> (r: String)
    requires
        from <= to <= v@.len(),
    ensures
        r@ == trim_spec(v@.subrange(from as int, to as int)),
{
    let ghost s = v@.subrange(from as int, to as int);
    let mut a = from;
    while a < to && is_whitespace(v[a])
        invariant
            from <= a <= to <= v@.len(),
            forall|j: int| from <= j < a ==> is_ws(v@[j]),
        decreases to - a,
    {
        a = a + 1;
    }
    proof {
        lemma_trim_start_skip(s, a - from);
        let t = s.skip(a - from);
        assert(t == v@.subrange(a as int, to as int));
        if t.len() > 0 {
            assert(t[0] == v@[a as int]);
        }
        assert(trim_start_spec(t) == t);
    }
    let mut b = to;
    while b > a && is_whitespace(v[b - 1])
        invariant
            from <= a <= b <= to <= v@.len(),
            forall|j: int| b <= j < to ==> is_ws(v@[j]),
        decreases b - a,
    {
        b = b - 1;
    }
    proof {
        let t = v@.subrange(a as int, to as int);
        lemma_trim_end_take(t, b - a);
        let u = t.take(b - a);
        assert(u == v@.subrange(a as int, b as int));
        if u.len() > 0 {
            assert(u.last() == v@[b - 1]);
        }
        assert(trim_end_spec(u) == u);
    }
    string_of_range(v, a, b)
}

/// `s` with whitespace removed at both ends (`str::trim`).
pub fn trim(s: &str) -> (r: String)
    ensures
        r@ == trim_spec(s@),
{
    let v = chars_of(s);
    let r = trim_range(&v, 0, v.len());
    assert(v@.subrange(0, v@.len() as int) == v@);
    r
}

// ---------------------------------------------------------------------------
// Splitting
// ---------------------------------------------------------------------------
/// A split yields at least one piece.
proof fn lemma_split_len(s: Seq<char>, sep: char)
    ensures
        split_spec(s, sep).len() >= 1,
    decreases s.len(),
{
    if s.len() > 0 {
        lemma_split_len(s.drop_last(), sep);
    }
}

/// The pieces of `s` between occurrences of `sep` (`str::split` with a
/// character).
pub fn split_char(s: &str, sep: char) -> (r: Vec<String>)
    ensures
        views(r@) == split_spec(s@, sep),
{
    let v = chars_of(s);
    let mut r: Vec<String> = Vec::new();
    let mut start: usize = 0;
    let mut i: usize = 0;
    assert(v@.take(0) =~= Seq::<char>::empty());
    assert(views(r@).push(v@.subrange(0, 0)) =~= seq![Seq::<char>::empty()]);
    while i < v.len()
        invariant
            v@ == s@,
            start <= i <= v@.len(),
            split_spec(v@.take(i as int), sep)
                == views(r@).push(v@.subrange(start as int, i as int)),
        decreases v@.len() - i,
    {
        proof {
            let t = v@.take(i + 1);
            assert(t.drop_last() == v@.take(i as int));
            assert(t.last() == v@[i as int]);
        }
        if v[i] == sep {
            let piece = string_of_range(&v, start, i);
            let ghost prev = r@;
            r.push(piece);
            assert(views(r@) =~= views(prev).push(piece@));
            start = i + 1;
            assert(v@.subrange(start as int, i + 1) =~= Seq::<char>::empty());
        } else {
            assert(v@.subrange(start as int, i + 1) =~= v@.subrange(start as int, i as int).push(v@[i as int]));
            assert(views(r@).push(v@.subrange(start as int, i as int)).update(views(r@).len() as int, v@.subrange(start as int, i + 1))
                =~= views(r@).push(v@.subrange(start as int, i + 1)));
        }
        i = i + 1;
    }
    let last = string_of_range(&v, start, v.len());
    let ghost prev = r@;
    r.push(last);
    assert(views(r@) =~= views(prev).push(last@));
    assert(v@.take(v@.len() as int) == v@);
    r
}

/// The maximal runs of non-whitespace characters of `s`
/// (`str::split_whitespace`).
pub fn split_whitespace(s: &str) -> (r: Vec<String>)
    ensures
        views(r@) == words_spec(s@),
{
    let v = chars_of(s);
    let mut r: Vec<String> = Vec::new();
    let mut i: usize = 0;
    assert(v@.take(0) =~= Seq::<char>::empty());
    while i < v.len()
        invariant
            v@ == s@,
            i <= v@.len(),
            views(r@) == words_spec(v@.take(i as int)),
            0 < i < v@.len() ==> is_ws(v@[i - 1]) || is_ws(v@[i as int]),
        decreases v@.len() - i,
    {
        if is_whitespace(v[i]) {
            assert(v@.take(i + 1).drop_last() == v@.take(i as int));
            i = i + 1;
        } else {
            let start = i;
            while i < v.len() && !is_whitespace(v[i])
                invariant
                    v@ == s@,
                    start < i || start == i,
                    i <= v@.len(),
                    start < v@.len(),
                    !is_ws(v@[start as int]),
                    forall|j: int| start <= j < i ==> !is_ws(v@[j]),
                    start == i ==> views(r@) == words_spec(v@.take(i as int)),
                    start < i ==> views(r@).push(v@.subrange(start as int, i as int))
                        == words_spec(v@.take(i as int)),
                    start == 0 || is_ws(v@[start - 1]),
                decreases v@.len() - i,
            {
                proof {
                    let t = v@.take(i + 1);
                    assert(t.drop_last() == v@.take(i as int));
                    assert(t.last() == v@[i as int]);
                    if i > 0 {
                        assert(t[t.len() - 2] == v@[i - 1]);
                    }
                    assert(v@.subrange(start as int, i + 1) =~= v@.subrange(start as int, i as int).push(v@[i as int]));
                    if start < i {
                        let w = views(r@).push(v@.subrange(start as int, i as int));
                        assert(w.update(w.len() - 1, w.last().push(v@[i as int]))
                            =~= views(r@).push(v@.subrange(start as int, i + 1)));
                    } else {
                        assert(seq![v@[i as int]] =~= v@.subrange(start as int, i + 1));
                    }
                }
                i = i + 1;
            }
            let w = string_of_range(&v, start, i);
            let ghost prev = r@;
            r.push(w);
            assert(views(r@) =~= views(prev).push(w@));
        }
    }
    assert(v@.take(v@.len() as int) == v@);
    r
}

/// The lines of `s` (`str::lines`).
pub fn lines(s: &str) -> (r: Vec<String>)
    ensures
        views(r@) == lines_spec(s@),
{
    let pieces = split_char(s, '\n');
    proof { lemma_split_len(s@, '\n'); }
    let n = pieces.len();
    let ghost ps = split_spec(s@, '\n');
    assert(views(pieces@)[n - 1] == pieces@[n - 1]@);
    let keep = if pieces[n - 1].as_str().unicode_len() == 0 { n - 1 } else { n };
    let mut r: Vec<String> = Vec::new();
    let mut i: usize = 0;
    while i < keep
        invariant
            keep <= n == pieces@.len(),
            views(pieces@) == ps,
            i <= keep,
            views(r@) =~= Seq::new(i as nat, |j: int| line_of(ps, j)),
        decreases keep - i,
    {
        assert(views(pieces@)[i as int] == pieces@[i as int]@);
        let v = chars_of(pieces[i].as_str());
        let line = if i < n - 1 && v.len() > 0 && v[v.len() - 1] == '\r' {
            string_of_range(&v, 0, v.len() - 1)
        } else {
            string_of(&v)
        };
        proof {
            if v@.len() > 0 && v@.last() == '\r' {
                assert(v@.subrange(0, v@.len() - 1) == v@.drop_last());
            }
            assert(line@ == line_of(ps, i as int));
        }
        let ghost prev = r@;
        r.push(line);
        assert(views(r@) =~= views(prev).push(line@));
        i = i + 1;
    }
    r
}

/// Replacing in `s` from position `i` on, once the replaced prefix is known.
proof fn lemma_replace_step(s: Seq<char>, pat: Seq<char>, rep: Seq<char>, i: int)
    requires
        pat.len() > 0,
        0 <= i < s.len(),
    ensures
        occurs_at(s.skip(i), pat, 0) ==> replace_spec(s.skip(i), pat, rep)
            == rep + replace_spec(s.skip(i + pat.len()), pat, rep),
        !occurs_at(s.skip(i), pat, 0) ==> replace_spec(s.skip(i), pat, rep)
            == seq![s[i]] + replace_spec(s.skip(i + 1), pat, rep),
{
    let t = s.skip(i);
    assert(t.len() > 0);
    if occurs_at(t, pat, 0) {
        assert(t.skip(pat.len() as int) == s.skip(i + pat.len()));
    } else {
        assert(t.drop_first() == s.skip(i + 1));
        assert(t[0] == s[i]);
    }
}

/// Whether `pat` occurs in `v` at position `i`.
fn occurs_at_exec(v: &Vec<char>, pat: &Vec<char>, i: usize) -> (r: bool)
    requires
        i <= v@.len(),
    ensures
        r == occurs_at(v@, pat@, i as int),
{
    if pat.len() > v.len() - i {
        return false;
    }
    let mut k: usize = 0;
    while k < pat.len()
        invariant
            i + pat@.len() <= v@.len() <= usize::MAX,
            k <= pat@.len(),
            forall|j: int| 0 <= j < k ==> v@[i + j] == pat@[j],
        decreases pat@.len() - k,
    {
        if v[i + k] != pat[k] {
            assert(v@.subrange(i as int, i + pat@.len())[k as int] != pat@[k as int]);
            return false;
        }
        k = k + 1;
    }
    assert(v@.subrange(i as int, i + pat@.len()) =~= pat@);
    true
}

/// Whether `pat` occurs in `s` (`str::contains`).
pub fn contains(s: &str, pat: &str) -> (r: bool)
    ensures
        r == contains_spec(s@, pat@),
{
    let v = chars_of(s);
    let p = chars_of(pat);
    let mut i: usize = 0;
    while i < v.len()
        invariant
            v@ == s@,
            p@ == pat@,
            i <= v@.len(),
            forall|j: int| 0 <= j < i ==> !occurs_at(v@, p@, j),
        decreases v@.len() - i,
    {
        if occurs_at_exec(&v, &p, i) {
            return true;
        }
        i = i + 1;
    }
    if occurs_at_exec(&v, &p, v.len()) {
        return true;
    }
    assert forall|j: int| !occurs_at(v@, p@, j) by {
        if 0 <= j <= v@.len() {
        }
    }
    false
}

/// `s` with every occurrence of `pat` replaced by `rep` (`str::replace`).
pub fn replace(s: &str, pat: &str, rep: &str) -> (r: String)
    requires
        pat@.len() > 0,
    ensures
        r@ == replace_spec(s@, pat@, rep@),
{
    let v = chars_of(s);
    let p = chars_of(pat);
    let mut r = String::new();
    let mut i: usize = 0;
    assert(v@.skip(0) == v@);
    while i < v.len()
        invariant
            v@ == s@,
            p@ == pat@,
            p@.len() > 0,
            i <= v@.len(),
            r@ + replace_spec(v@.skip(i as int), p@, rep@) == replace_spec(v@, p@, rep@),
        decreases v@.len() - i,
    {
        proof { lemma_replace_step(v@, p@, rep@, i as int); }
        assert(occurs_at(v@, p@, i as int) == occurs_at(v@.skip(i as int), p@, 0)) by {
            if i + p@.len() <= v@.len() {
                assert(v@.subrange(i as int, i + p@.len()) =~= v@.skip(i as int).subrange(0, p@.len() as int));
            }
        }
        if occurs_at_exec(&v, &p, i) {
            let ghost before = r@;
            push_str(&mut r, rep);
            assert(r@ + replace_spec(v@.skip(i + p@.len()), p@, rep@)
                =~= before + (rep@ + replace_spec(v@.skip(i + p@.len()), p@, rep@)));
            i = i + p.len();
        } else {
            let ghost before = r@;
            push_char(&mut r, v[i]);
            assert(r@ + replace_spec(v@.skip(i + 1), p@, rep@)
                =~= before + (seq![v@[i as int]] + replace_spec(v@.skip(i + 1), p@, rep@)));
            i = i + 1;
        }
    }
    assert(v@.skip(v@.len() as int) =~= Seq::<char>::empty());
    assert(r@ + Seq::<char>::empty() =~= r@);
    r
}

/// The strings of `parts` with `sep` between each two neighbours
/// (`[String]::join`).
pub fn join(parts: &Vec<String>, sep: &str) -> (r: String)
    ensures
        r@ == join_spec(views(parts@), sep@),
{
    let mut r = String::new();
    let mut i: usize = 0;
    while i < parts.len()
        invariant
            i <= parts@.len(),
            r@ == join_spec(views(parts@).take(i as int), sep@),
        decreases parts@.len() - i,
    {
        let ghost before = r@;
        if i > 0 {
            push_str(&mut r, sep);
        }
        push_str(&mut r, parts[i].as_str());
        proof {
            let t = views(parts@).take(i + 1);
            assert(t.drop_last() =~= views(parts@).take(i as int));
            assert(t.last() == parts@[i as int]@);
            if i == 0 {
                assert(before =~= Seq::<char>::empty());
                assert(r@ =~= t[0]);
            }
        }
        i = i + 1;
    }
    assert(views(parts@).take(parts@.len() as int) =~= views(parts@));
    r
}

/// The decimal digit for `d`.
fn digit(d: usize) -> (c: char)
    requires
        d < 10,
    ensures
        c == digit_char(d as nat),
{
    if d == 0 { '0' }
    else if d == 1 { '1' }
    else if d == 2 { '2' }
    else if d == 3 { '3' }
    else if d == 4 { '4' }
    else if d == 5 { '5' }
    else if d == 6 { '6' }
    else if d == 7 { '7' }
    else if d == 8 { '8' }
    else { '9' }
}

/// The decimal rendering of `n` (`u64::to_string`).
pub fn decimal(n: u64) -> (r: String)
    ensures
        r@ == decimal_spec(n as nat),
    decreases n,
{
    if n < 10 {
        let mut r = String::new();
        push_char(&mut r, digit(n as usize));
        assert(r@ =~= seq![digit_char(n as nat)]);
        r
    } else {
        let mut r = decimal(n / 10);
        push_char(&mut r, digit((n % 10) as usize));
        r
    }
}

/// The decimal rendering of a signed number, with a minus sign where it is
/// negative (`i32::to_string`).
pub open spec fn signed_decimal_spec(n: int) -> Seq<char> {
    if n < 0 {
        seq!['-'] + decimal_spec((-n) as nat)
    } else {
        decimal_spec(n as nat)
    }
}

/// The decimal rendering of a signed number (`i32::to_string`).
pub fn signed_decimal(n: i32) -> (r: String)
    ensures
        r@ == signed_decimal_spec(n as int),
{
    if n < 0 {
        let m: i64 = n as i64;
        let magnitude: u64 = (-m) as u64;
        let mut r = String::new();
        push_char(&mut r, '-');
        let d = decimal(magnitude);
        push_str(&mut r, d.as_str());
        assert(r@ =~= seq!['-'] + d@);
        r
    } else {
        decimal(n as u64)
    }
}

/// Appends a copy of `s` to the list `v`.
pub fn push_owned(v: &mut Vec<String>, s: &str)
    ensures
        views(final(v)@) == views(old(v)@).push(s@),
{
    let o = owned(s);
    let ghost prev = v@;
    v.push(o);
    assert(views(v@) =~= views(prev).push(s@));
}

/// Appends copies of the strings of `w` to the list `v`.
pub fn append_all(v: &mut Vec<String>, w: &Vec<String>)
    ensures
        views(final(v)@) == views(old(v)@) + views(w@),
{
    let ghost start = views(v@);
    let mut i: usize = 0;
    while i < w.len()
        invariant
            i <= w@.len(),
            views(v@) =~= start + views(w@).take(i as int),
        decreases w@.len() - i,
    {
        push_owned(v, w[i].as_str());
        assert(views(w@).take(i + 1) =~= views(w@).take(i as int).push(w@[i as int]@));
        i = i + 1;
    }
    assert(views(w@).take(w@.len() as int) =~= views(w@));
}

/// A replacement leaves a text without the pattern unchanged.
pub proof fn lemma_replace_absent(s: Seq<char>, pat: Seq<char>, rep: Seq<char>)
    requires
        pat.len() > 0,
        !contains_spec(s, pat),
    ensures
        replace_spec(s, pat, rep) == s,
    decreases s.len(),
{
    if s.len() > 0 {
        assert(!occurs_at(s, pat, 0));
        assert(!contains_spec(s.drop_first(), pat)) by {
            if contains_spec(s.drop_first(), pat) {
                let i = choose|i: int| occurs_at(s.drop_first(), pat, i);
                assert(s.subrange(i + 1, i + 1 + pat.len()) =~= s.drop_first().subrange(i, i + pat.len()));
                assert(occurs_at(s, pat, i + 1));
            }
        }
        lemma_replace_absent(s.drop_first(), pat, rep);
        assert(seq![s[0]] + s.drop_first() =~= s);
    }
}

} // verus!
