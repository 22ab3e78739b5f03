//! Sorted, duplicate-free lists of texts, ordered as `String`'s `Ord` orders
//! them: lexicographically by character.
use vstd::prelude::*;
use crate::models::strings_view;
use crate::text::chars_of;

verus! {

/// Lexicographic order on characters, each compared by its code point.
pub open spec fn lex_lt(a: Seq<char>, b: Seq<char>) -> bool
    decreases a.len(),
{
    if a.len() == 0 {
        b.len() > 0
    } else if b.len() == 0 {
        false
    } else if a[0] != b[0] {
        (a[0] as int) < (b[0] as int)
    } else {
        lex_lt(a.drop_first(), b.drop_first())
    }
}

/// Each text strictly before the next: sorted, and no text twice.
pub open spec fn strictly_sorted(v: Seq<Seq<char>>) -> bool {
    forall|i: int, j: int| 0 <= i < j < v.len() ==> lex_lt(#[trigger] v[i], #[trigger] v[j])
}

pub proof fn lemma_lex_irreflexive(a: Seq<char>)
    ensures
        !lex_lt(a, a),
    decreases a.len(),
{
    if a.len() > 0 {
        lemma_lex_irreflexive(a.drop_first());
    }
}

pub proof fn lemma_lex_total(a: Seq<char>, b: Seq<char>)
    ensures
        a == b || lex_lt(a, b) || lex_lt(b, a),
    decreases a.len(),
{
    if a.len() > 0 && b.len() > 0 && a[0] == b[0] {
        lemma_lex_total(a.drop_first(), b.drop_first());
        if a.drop_first() == b.drop_first() {
            assert(a == seq![a[0]] + a.drop_first());
            assert(b == seq![b[0]] + b.drop_first());
        }
    } else if a.len() > 0 && b.len() > 0 {
    } else if a.len() == 0 && b.len() == 0 {
        assert(a == b);
    }
}

pub proof fn lemma_lex_transitive(a: Seq<char>, b: Seq<char>, c: Seq<char>)
    requires
        lex_lt(a, b),
        lex_lt(b, c),
    ensures
        lex_lt(a, c),
    decreases a.len(),
{
    if a.len() > 0 && b.len() > 0 && c.len() > 0 && a[0] == b[0] && b[0] == c[0] {
        lemma_lex_transitive(a.drop_first(), b.drop_first(), c.drop_first());
    }
}

/// Two strictly sorted lists that hold the same texts are the same list.
pub proof fn lemma_strictly_sorted_unique(a: Seq<Seq<char>>, b: Seq<Seq<char>>)
    requires
        strictly_sorted(a),
        strictly_sorted(b),
        forall|x: Seq<char>| a.contains(x) <==> b.contains(x),
    ensures
        a == b,
    decreases a.len(),
{
    if a.len() > 0 && b.len() > 0 {
        let ma = a.last();
        let mb = b.last();
        assert(a.contains(ma));
        assert(b.contains(mb));
        let ib = choose|i: int| 0 <= i < b.len() && b[i] == ma;
        let ia = choose|i: int| 0 <= i < a.len() && a[i] == mb;
        lemma_lex_irreflexive(ma);
        if ma != mb {
            if ib < b.len() - 1 && ia < a.len() - 1 {
                assert(lex_lt(ma, mb));
                assert(lex_lt(mb, ma));
                lemma_lex_transitive(ma, mb, ma);
            } else if ib == b.len() - 1 {
                assert(false);
            } else {
                assert(false);
            }
        }
        let a2 = a.drop_last();
        let b2 = b.drop_last();
        assert forall|x: Seq<char>| a2.contains(x) <==> b2.contains(x) by {
            if a2.contains(x) {
                let i = choose|i: int| 0 <= i < a2.len() && a2[i] == x;
                assert(lex_lt(a[i], ma));
                lemma_lex_irreflexive(x);
                assert(a.contains(x));
                let j = choose|j: int| 0 <= j < b.len() && b[j] == x;
                if j == b.len() - 1 {
                    assert(false);
                }
                assert(b2[j] == x);
            }
            if b2.contains(x) {
                let j = choose|j: int| 0 <= j < b2.len() && b2[j] == x;
                assert(lex_lt(b[j], mb));
                lemma_lex_irreflexive(x);
                assert(b.contains(x));
                let i = choose|i: int| 0 <= i < a.len() && a[i] == x;
                if i == a.len() - 1 {
                    assert(false);
                }
                assert(a2[i] == x);
            }
        }
        lemma_strictly_sorted_unique(a2, b2);
        assert(a == a2.push(ma));
        assert(b == b2.push(mb));
    } else if a.len() > 0 {
        assert(a.contains(a[0]));
    } else if b.len() > 0 {
        assert(b.contains(b[0]));
    }
}

fn char_lt(a: char, b: char) -> (r: bool)
    ensures
        r == ((a as int) < (b as int)),
{
    (a as u32) < (b as u32)
}

pub proof fn lemma_prefix_contains(s: Seq<Seq<char>>, j: int)
    requires
        0 <= j < s.len(),
    ensures
        forall|x: Seq<char>| s.subrange(0, j + 1).contains(x) <==> (s.subrange(0, j).contains(x) || x == s[j]),
{
    let t = s.subrange(0, j);
    let one = seq![s[j]];
    assert(s.subrange(0, j + 1) == t + one);
    lemma_concat_contains(t, one);
    assert forall|x: Seq<char>| one.contains(x) <==> x == s[j] by {
        if x == s[j] {
            assert(one[0] == x);
        }
    }
}

pub proof fn lemma_concat_contains(a: Seq<Seq<char>>, b: Seq<Seq<char>>)
    ensures
        forall|x: Seq<char>| (a + b).contains(x) <==> (a.contains(x) || b.contains(x)),
{
    assert forall|x: Seq<char>| (a + b).contains(x) <==> (a.contains(x) || b.contains(x)) by {
        if (a + b).contains(x) {
            let k = choose|k: int| 0 <= k < (a + b).len() && #[trigger] (a + b)[k] == x;
            if k < a.len() {
                assert(a[k] == x);
            } else {
                assert(b[k - a.len()] == x);
            }
        }
        if a.contains(x) {
            let k = choose|k: int| 0 <= k < a.len() && #[trigger] a[k] == x;
            assert((a + b)[k] == x);
        }
        if b.contains(x) {
            let k = choose|k: int| 0 <= k < b.len() && #[trigger] b[k] == x;
            assert((a + b)[k + a.len()] == x);
        }
    }
}

/// Whether `a` comes strictly before `b`.
pub fn lex_less(a: &String, b: &String) -> (r: bool)
    ensures
        r == lex_lt(a@, b@),
{
    let x = chars_of(a.as_str());
    let y = chars_of(b.as_str());
    let mut i: usize = 0;
    assert(x@.subrange(0, x@.len() as int) == x@);
    assert(y@.subrange(0, y@.len() as int) == y@);
    while i < x.len() && i < y.len() && x[i] == y[i]
        invariant
            i <= x@.len(),
            i <= y@.len(),
            lex_lt(x@, y@) == lex_lt(x@.subrange(i as int, x@.len() as int), y@.subrange(i as int, y@.len() as int)),
        decreases x@.len() - i,
    {
        let ghost xs = x@.subrange(i as int, x@.len() as int);
        let ghost ys = y@.subrange(i as int, y@.len() as int);
        assert(xs.drop_first() == x@.subrange(i + 1, x@.len() as int));
        assert(ys.drop_first() == y@.subrange(i + 1, y@.len() as int));
        i = i + 1;
    }
    assert(x@.subrange(0, x@.len() as int) == x@);
    assert(y@.subrange(0, y@.len() as int) == y@);
    let ghost xs = x@.subrange(i as int, x@.len() as int);
    let ghost ys = y@.subrange(i as int, y@.len() as int);
    if i == x.len() {
        assert(xs.len() == 0);
        i < y.len()
    } else if i == y.len() {
        assert(xs.len() > 0 && ys.len() == 0);
        false
    } else {
        assert(xs[0] == x@[i as int] && ys[0] == y@[i as int]);
        assert(xs[0] != ys[0]);
        let r = char_lt(x[i], y[i]);
        assert(r == ((xs[0] as int) < (ys[0] as int)));
        r
    }
}

/// Adds `s` to a strictly sorted list, at its place, unless it is there already.
pub fn insert_sorted(v: &mut Vec<String>, s: String)
    requires
        strictly_sorted(strings_view(old(v)@)),
    ensures
        strictly_sorted(strings_view(final(v)@)),
        forall|x: Seq<char>| strings_view(final(v)@).contains(x)
            <==> (strings_view(old(v)@).contains(x) || x == s@),
{
    let ghost w = strings_view(v@);
    let mut p: usize = 0;
    while p < v.len() && lex_less(&v[p], &s)
        invariant
            p <= v@.len(),
            w == strings_view(v@),
            forall|k: int| 0 <= k < p ==> lex_lt(#[trigger] w[k], s@),
        decreases v@.len() - p,
    {
        p = p + 1;
    }
    if p < v.len() && v[p] == s {
        assert(w[p as int] == s@);
        return;
    }
    proof {
        if p < w.len() {
            lemma_lex_total(w[p as int], s@);
            assert forall|j: int| p <= j < w.len() implies lex_lt(s@, #[trigger] w[j]) by {
                if j > p {
                    lemma_lex_transitive(s@, w[p as int], w[j]);
                }
            }
        }
    }
    v.insert(p, s);
    let ghost n = strings_view(v@);
    assert(n == w.insert(p as int, s@));
    assert forall|i: int, j: int| 0 <= i < j < n.len() implies lex_lt(#[trigger] n[i], #[trigger] n[j]) by {
        if j < p {
        } else if i < p && j == p {
        } else if i < p && j > p {
            assert(n[j] == w[j - 1]);
            assert(lex_lt(w[i], w[j - 1]));
        } else if i == p {
            assert(n[j] == w[j - 1]);
        } else {
            assert(n[i] == w[i - 1] && n[j] == w[j - 1]);
        }
    }
    assert forall|x: Seq<char>| n.contains(x) <==> (w.contains(x) || x == s@) by {
        if n.contains(x) {
            let i = choose|i: int| 0 <= i < n.len() && n[i] == x;
            if i < p {
                assert(w[i] == x);
            } else if i > p {
                assert(w[i - 1] == x);
            }
        }
        if w.contains(x) {
            let i = choose|i: int| 0 <= i < w.len() && w[i] == x;
            if i < p {
                assert(n[i] == x);
            } else {
                assert(n[i + 1] == x);
            }
        }
        if x == s@ {
            assert(n[p as int] == x);
        }
    }
}

} // verus!
