//! The order of strings (that of `String`'s `Ord`: character by character,
//! a proper prefix first) and sorted lists without repetition.
use vstd::prelude::*;
use crate::text::{chars_of, views};

verus! {

/// `a` comes strictly before `b`.
pub open spec fn lex_lt(a: Seq<char>, b: Seq<char>) -> bool
    decreases a.len(),
{
    if a.len() == 0 {
        b.len() > 0
    } else if b.len() == 0 {
        false
    } else if a[0] != b[0] {
        a[0] < b[0]
    } else {
        lex_lt(a.drop_first(), b.drop_first())
    }
}

/// Each element comes strictly before the next ones: sorted, and nothing
/// occurs twice.
pub open spec fn strictly_sorted(s: Seq<Seq<char>>) -> bool {
    forall|i: int, j: int| 0 <= i < j < s.len() ==> lex_lt(s[i], s[j])
}

/// No string comes before itself.
pub proof fn lemma_lex_irreflexive(a: Seq<char>)
    ensures
        !lex_lt(a, a),
    decreases a.len(),
{
    if a.len() > 0 {
        lemma_lex_irreflexive(a.drop_first());
    }
}

/// Of two different strings, one comes before the other.
pub proof fn lemma_lex_total(a: Seq<char>, b: Seq<char>)
    ensures
        a == b || lex_lt(a, b) || lex_lt(b, a),
    decreases a.len(),
{
    if a.len() > 0 && b.len() > 0 && a[0] == b[0] {
        lemma_lex_total(a.drop_first(), b.drop_first());
        if a.drop_first() == b.drop_first() {
            assert(a =~= seq![a[0]] + a.drop_first());
            assert(b =~= seq![b[0]] + b.drop_first());
        }
    } else if a.len() == 0 && b.len() == 0 {
        assert(a =~= b);
    }
}

/// The order is transitive.
pub proof fn lemma_lex_transitive(a: Seq<char>, b: Seq<char>, c: Seq<char>)
    requires
        lex_lt(a, b),
        lex_lt(b, c),
    ensures
        lex_lt(a, c),
    decreases a.len(),
{
    if a.len() > 0 && b.len() > 0 && c.len() > 0 && a[0] == b[0] && b[0] == c[0] {
        lemma_lex_transitive(a.drop_first(), b.drop_first(), c.drop_first());
    }
}

/// The order of two strings with the order of their characters.
pub open spec fn lex_lt_at(a: Seq<char>, b: Seq<char>, k: int) -> bool
    decreases a.len() - k,
{
    if k >= a.len() {
        b.len() > k
    } else if k >= b.len() {
        false
    } else if a[k] != b[k] {
        a[k] < b[k]
    } else {
        lex_lt_at(a, b, k + 1)
    }
}

/// Comparing from position `k` is comparing the suffixes.
proof fn lemma_lex_at(a: Seq<char>, b: Seq<char>, k: int)
    requires
        0 <= k <= a.len(),
        k <= b.len(),
    ensures
        lex_lt_at(a, b, k) == lex_lt(a.skip(k), b.skip(k)),
    decreases a.len() - k,
{
    if k < a.len() && k < b.len() {
        assert(a.skip(k)[0] == a[k]);
        assert(b.skip(k)[0] == b[k]);
        lemma_lex_at(a, b, k + 1);
        assert(a.skip(k).drop_first() == a.skip(k + 1));
        assert(b.skip(k).drop_first() == b.skip(k + 1));
    }
}

/// Whether `a` comes strictly before `b`.
pub fn less_than(a: &str, b: &str) -> (r: bool)
    ensures
        r == lex_lt(a@, b@),
{
    let va = chars_of(a);
    let vb = chars_of(b);
    let mut k: usize = 0;
    while k < va.len() && k < vb.len() && va[k] == vb[k]
        invariant
            va@ == a@,
            vb@ == b@,
            k <= va@.len(),
            k <= vb@.len(),
            forall|j: int| 0 <= j < k ==> va@[j] == vb@[j],
            lex_lt_at(va@, vb@, 0) == lex_lt_at(va@, vb@, k as int),
        decreases va@.len() - k,
    {
        k = k + 1;
    }
    proof {
        lemma_lex_at(va@, vb@, 0);
        assert(va@.skip(0) == va@);
        assert(vb@.skip(0) == vb@);
    }
    if k < va.len() && k < vb.len() {
        va[k] < vb[k]
    } else {
        k < vb.len()
    }
}

/// Inserts `s` into the strictly sorted `v` unless it is there already.
pub fn insert_sorted(v: &mut Vec<String>, s: String)
    requires
        strictly_sorted(views(old(v)@)),
    ensures
        strictly_sorted(views(final(v)@)),
        views(final(v)@).to_set() == views(old(v)@).to_set().insert(s@),
{
    let ghost old_v = views(v@);
    let mut j: usize = 0;
    while j < v.len() && less_than(v[j].as_str(), s.as_str())
        invariant
            views(v@) == old_v,
            strictly_sorted(old_v),
            j <= v@.len(),
            forall|i: int| 0 <= i < j ==> lex_lt(old_v[i], s@),
        decreases v@.len() - j,
    {
        assert(old_v[j as int] == v@[j as int]@);
        j = j + 1;
    }
    if j < v.len() {
        assert(old_v[j as int] == v@[j as int]@);
        proof { lemma_lex_total(old_v[j as int], s@); }
        if crate::text::str_eq(v[j].as_str(), s.as_str()) {
            assert(old_v.to_set().insert(s@) =~= old_v.to_set()) by {
                assert(old_v.contains(s@));
            }
            return;
        }
    }
    let ghost sv = s@;
    v.insert(j, s);
    proof {
        let nv = views(v@);
        assert(nv =~= old_v.insert(j as int, sv));
        assert forall|a: int, b: int| 0 <= a < b < nv.len() implies lex_lt(nv[a], nv[b]) by {
            if b < j {
            } else if b == j {
            } else if a < j {
                // nv[a] < s < old_v[j] <= old_v[b - 1]
                lemma_lex_transitive(nv[a], sv, old_v[j as int]);
                if b - 1 > j {
                    lemma_lex_transitive(nv[a], old_v[j as int], old_v[b - 1]);
                }
            } else if a == j {
                if b - 1 > j {
                    lemma_lex_transitive(sv, old_v[j as int], old_v[b - 1]);
                }
            } else {
            }
        }
        assert(nv.to_set() =~= old_v.to_set().insert(sv)) by {
            assert forall|x: Seq<char>| nv.to_set().contains(x) implies old_v.to_set().insert(sv).contains(x) by {
                let i = choose|i: int| 0 <= i < nv.len() && nv[i] == x;
                if i < j {
                    assert(old_v[i] == x);
                } else if i > j {
                    assert(old_v[i - 1] == x);
                }
            }
            assert forall|x: Seq<char>| old_v.to_set().insert(sv).contains(x) implies nv.to_set().contains(x) by {
                if x == sv {
                    assert(nv[j as int] == x);
                } else {
                    let i = choose|i: int| 0 <= i < old_v.len() && old_v[i] == x;
                    if i < j {
                        assert(nv[i] == x);
                    } else {
                        assert(nv[i + 1] == x);
                    }
                }
            }
        }
    }
}

/// The strings of `items`, sorted and each once (what `sort` and `dedup`
/// make of them).
pub fn sorted_unique(items: &Vec<String>) -> (r: Vec<String>)
    ensures
        strictly_sorted(views(r@)),
        views(r@).to_set() == views(items@).to_set(),
{
    let mut r: Vec<String> = Vec::new();
    let mut i: usize = 0;
    assert(views(r@).to_set() =~= views(items@).take(0).to_set());
    while i < items.len()
        invariant
            i <= items@.len(),
            strictly_sorted(views(r@)),
            views(r@).to_set() == views(items@).take(i as int).to_set(),
        decreases items@.len() - i,
    {
        let s = items[i].clone();
        insert_sorted(&mut r, s);
        assert(views(items@).take(i + 1) =~= views(items@).take(i as int).push(items@[i as int]@));
        proof {
            views(items@).take(i as int).lemma_push_to_set_commute(items@[i as int]@);
        }
        i = i + 1;
    }
    assert(views(items@).take(items@.len() as int) =~= views(items@));
    r
}

} // verus!
