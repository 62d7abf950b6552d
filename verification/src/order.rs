use vstd::prelude::*;

verus! {

/// Lexicographic order on character sequences, comparing code points; this
/// is the order of `String`'s `Ord` (UTF-8 byte order agrees with code-point order).
pub open spec fn text_lt(a: Seq<char>, b: Seq<char>) -> bool
    decreases a.len(),
{
    if a.len() == 0 {
        b.len() > 0
    } else if b.len() == 0 {
        false
    } else if a[0] != b[0] {
        (a[0] as int) < (b[0] as int)
    } else {
        text_lt(a.drop_first(), b.drop_first())
    }
}

/// A sequence of texts in strictly increasing order (so without repeats).
pub open spec fn strictly_sorted(s: Seq<Seq<char>>) -> bool {
    forall|i: int, j: int| 0 <= i < j < s.len() ==> text_lt(s[i], s[j])
}

pub proof fn lemma_text_lt_irreflexive(a: Seq<char>)
    ensures
        !text_lt(a, a),
    decreases a.len(),
{
    if a.len() > 0 {
        lemma_text_lt_irreflexive(a.drop_first());
    }
}

pub proof fn lemma_text_lt_asymmetric(a: Seq<char>, b: Seq<char>)
    ensures
        text_lt(a, b) ==> !text_lt(b, a),
    decreases a.len(),
{
    if a.len() > 0 && b.len() > 0 && a[0] == b[0] {
        lemma_text_lt_asymmetric(a.drop_first(), b.drop_first());
    }
}

pub proof fn lemma_text_lt_total(a: Seq<char>, b: Seq<char>)
    ensures
        a != b ==> text_lt(a, b) || text_lt(b, a),
    decreases a.len(),
{
    if a.len() > 0 && b.len() > 0 && a[0] == b[0] {
        lemma_text_lt_total(a.drop_first(), b.drop_first());
        if a.drop_first() == b.drop_first() {
            assert(a =~= seq![a[0]] + a.drop_first());
            assert(b =~= seq![b[0]] + b.drop_first());
        }
    } else if a.len() == 0 && b.len() == 0 {
        assert(a =~= b);
    } else if a.len() > 0 && b.len() > 0 {
        assert((a[0] as int) != (b[0] as int));
    }
}

pub proof fn lemma_text_lt_transitive(a: Seq<char>, b: Seq<char>, c: Seq<char>)
    requires
        text_lt(a, b),
        text_lt(b, c),
    ensures
        text_lt(a, c),
    decreases a.len(),
{
    if a.len() > 0 && b.len() > 0 && c.len() > 0 && a[0] == b[0] && b[0] == c[0] {
        lemma_text_lt_transitive(a.drop_first(), b.drop_first(), c.drop_first());
    }
}

/// Two strictly sorted sequences with the same elements are the same sequence.
pub proof fn lemma_sorted_unique(a: Seq<Seq<char>>, b: Seq<Seq<char>>)
    requires
        strictly_sorted(a),
        strictly_sorted(b),
        a.to_set() == b.to_set(),
    ensures
        a == b,
    decreases a.len(),
{
    if a.len() == 0 {
        if b.len() > 0 {
            assert(b.to_set().contains(b[0]));
        }
        assert(a =~= b);
    } else {
        assert(a.to_set().contains(a[0]));
        assert(b.len() > 0);
        assert(b.to_set().contains(b[0]));
        let j = choose|j: int| 0 <= j < b.len() && b[j] == a[0];
        let i = choose|i: int| 0 <= i < a.len() && a[i] == b[0];
        if j > 0 {
            assert(text_lt(b[0], b[j]));
            if i > 0 {
                assert(text_lt(a[0], a[i]));
                lemma_text_lt_asymmetric(a[0], b[0]);
            } else {
                lemma_text_lt_irreflexive(a[0]);
            }
        }
        assert(a[0] == b[0]);
        let a1 = a.drop_first();
        let b1 = b.drop_first();
        assert forall|x: Seq<char>| a1.to_set().contains(x) implies b1.to_set().contains(x) by {
            let k = choose|k: int| 0 <= k < a1.len() && a1[k] == x;
            assert(a.to_set().contains(x)) by { assert(a[k + 1] == x); }
            let m = choose|m: int| 0 <= m < b.len() && b[m] == x;
            if m == 0 {
                assert(text_lt(a[0], a[k + 1]));
                lemma_text_lt_irreflexive(x);
            }
            assert(b1[m - 1] == x);
        }
        assert forall|x: Seq<char>| b1.to_set().contains(x) implies a1.to_set().contains(x) by {
            let k = choose|k: int| 0 <= k < b1.len() && b1[k] == x;
            assert(b.to_set().contains(x)) by { assert(b[k + 1] == x); }
            let m = choose|m: int| 0 <= m < a.len() && a[m] == x;
            if m == 0 {
                assert(text_lt(b[0], b[k + 1]));
                lemma_text_lt_irreflexive(x);
            }
            assert(a1[m - 1] == x);
        }
        assert(a1.to_set() =~= b1.to_set());
        lemma_sorted_unique(a1, b1);
        assert(a =~= seq![a[0]] + a1);
        assert(b =~= seq![b[0]] + b1);
    }
}

/// Whether `a` comes strictly before `b` in lexicographic order.
pub fn chars_lt(a: &Vec<char>, b: &Vec<char>) -> (r: bool)
    ensures
        r == text_lt(a@, b@),
{
    let mut i: usize = 0;
    assert(a@.skip(0) =~= a@);
    assert(b@.skip(0) =~= b@);
    while i < a.len() && i < b.len()
        invariant
            i <= a.len(),
            i <= b.len(),
            text_lt(a@, b@) == text_lt(a@.skip(i as int), b@.skip(i as int)),
        decreases a.len() - i,
    {
        if a[i] != b[i] {
            let r = a[i] < b[i];
            assert(a@.skip(i as int)[0] == a@[i as int]);
            assert(b@.skip(i as int)[0] == b@[i as int]);
            return r;
        }
        assert(a@.skip(i as int).drop_first() =~= a@.skip(i + 1));
        assert(b@.skip(i as int).drop_first() =~= b@.skip(i + 1));
        i = i + 1;
    }
    i == a.len() && i < b.len()
}

/// Whether `a` comes strictly before `b` in `String` order.
pub fn str_lt(a: &str, b: &str) -> (r: bool)
    ensures
        r == text_lt(a@, b@),
{
    chars_lt(&crate::text::chars_of(a), &crate::text::chars_of(b))
}

/// The views of a vector of strings.
pub open spec fn views(v: Seq<String>) -> Seq<Seq<char>> {
    v.map_values(|s: String| s@)
}

/// Inserts `s` into a strictly sorted vector of strings, unless it is there
/// already; returns the position at which `s` now stands.
pub fn insert_sorted(v: &mut Vec<String>, s: String) -> (pos: usize)
    requires
        strictly_sorted(views(old(v)@)),
    ensures
        strictly_sorted(views(final(v)@)),
        views(final(v)@).to_set() == views(old(v)@).to_set().insert(s@),
        pos < final(v)@.len(),
        final(v)@[pos as int]@ == s@,
        old(v)@.len() <= final(v)@.len() <= old(v)@.len() + 1,
        views(old(v)@).contains(s@) ==> final(v)@ == old(v)@,
{
    let mut i: usize = 0;
    while i < v.len()
        invariant
            strictly_sorted(views(v@)),
            i <= v.len(),
            forall|k: int| 0 <= k < i ==> text_lt(#[trigger] v@[k]@, s@),
        ensures
            i <= v.len(),
            strictly_sorted(views(v@)),
            forall|k: int| 0 <= k < i ==> text_lt(#[trigger] v@[k]@, s@),
            i < v.len() ==> !text_lt(v@[i as int]@, s@),
        decreases v.len() - i,
    {
        if !str_lt(v[i].as_str(), s.as_str()) {
            break;
        }
        i = i + 1;
    }
    let ghost old_v = v@;
    if i < v.len() && v[i] == s {
        assert(views(old_v).contains(s@)) by {
            assert(views(old_v)[i as int] == s@);
        }
        return i;
    }
    proof {
        if i < old_v.len() {
            lemma_text_lt_total(old_v[i as int]@, s@);
            assert(text_lt(s@, old_v[i as int]@));
        }
        assert forall|k: int| 0 <= k < old_v.len() implies old_v[k]@ != s@ by {
            lemma_text_lt_irreflexive(s@);
            if k > i {
                assert(text_lt(views(old_v)[i as int], views(old_v)[k]));
                lemma_text_lt_transitive(s@, old_v[i as int]@, old_v[k]@);
                lemma_text_lt_asymmetric(s@, old_v[k]@);
            }
        }
    }
    v.insert(i, s);
    proof {
        let nv = views(v@);
        assert(nv =~= views(old_v).subrange(0, i as int).push(s@) + views(old_v).subrange(i as int, old_v.len() as int));
        assert forall|a: int, b: int| 0 <= a < b < nv.len() implies text_lt(nv[a], nv[b]) by {
            if a < i && b == i {
            } else if a < i && b > i {
                assert(nv[b] == views(old_v)[b - 1]);
            } else if a == i && b > i {
                assert(nv[b] == views(old_v)[b - 1]);
                if b - 1 > i {
                    assert(text_lt(views(old_v)[i as int], views(old_v)[b - 1]));
                    lemma_text_lt_transitive(s@, old_v[i as int]@, old_v[b - 1]@);
                }
            } else if a > i {
                assert(nv[b] == views(old_v)[b - 1]);
                assert(nv[a] == views(old_v)[a - 1]);
            } else {
                assert(nv[b] == views(old_v)[b]);
                assert(nv[a] == views(old_v)[a]);
            }
        }
        assert(nv.to_set() =~= views(old_v).to_set().insert(s@)) by {
            assert forall|x: Seq<char>| nv.to_set().contains(x) implies views(old_v).to_set().insert(s@).contains(x) by {
                let k = choose|k: int| 0 <= k < nv.len() && nv[k] == x;
                if k < i {
                    assert(views(old_v)[k] == x);
                } else if k > i {
                    assert(views(old_v)[k - 1] == x);
                }
            }
            assert forall|x: Seq<char>| views(old_v).to_set().insert(s@).contains(x) implies nv.to_set().contains(x) by {
                if x == s@ {
                    assert(nv[i as int] == x);
                } else {
                    let k = choose|k: int| 0 <= k < old_v.len() && views(old_v)[k] == x;
                    if k < i {
                        assert(nv[k] == x);
                    } else {
                        assert(nv[k + 1] == x);
                    }
                }
            }
        }
    }
    i
}

/// Lexicographic order on pairs of texts (the order of a tuple of strings).
pub open spec fn pair_lt(a: (Seq<char>, Seq<char>), b: (Seq<char>, Seq<char>)) -> bool {
    text_lt(a.0, b.0) || (a.0 == b.0 && text_lt(a.1, b.1))
}

/// Strictly before, then not after, is strictly before.
pub proof fn lemma_pair_lt_le(a: (Seq<char>, Seq<char>), b: (Seq<char>, Seq<char>), c: (Seq<char>, Seq<char>))
    requires
        pair_lt(a, b),
        !pair_lt(c, b),
    ensures
        pair_lt(a, c),
{
    lemma_text_lt_total(a.0, c.0);
    lemma_text_lt_total(b.0, c.0);
    lemma_text_lt_total(b.1, c.1);
    lemma_text_lt_total(a.1, c.1);
    lemma_text_lt_asymmetric(a.0, b.0);
    lemma_text_lt_asymmetric(b.0, c.0);
    lemma_text_lt_irreflexive(a.0);
    lemma_text_lt_irreflexive(a.1);
    if text_lt(a.0, b.0) {
        if text_lt(b.0, c.0) {
            lemma_text_lt_transitive(a.0, b.0, c.0);
        } else if b.0 != c.0 {
            assert(text_lt(c.0, b.0));
            assert(pair_lt(c, b));
        }
    } else {
        assert(a.0 == b.0 && text_lt(a.1, b.1));
        if b.0 == c.0 {
            if text_lt(b.1, c.1) {
                lemma_text_lt_transitive(a.1, b.1, c.1);
            } else if b.1 != c.1 {
                assert(text_lt(c.1, b.1));
                assert(pair_lt(c, b));
            }
        } else if text_lt(c.0, b.0) {
            assert(pair_lt(c, b));
        }
    }
}

/// Strict pair order is asymmetric.
pub proof fn lemma_pair_lt_asymmetric(a: (Seq<char>, Seq<char>), b: (Seq<char>, Seq<char>))
    ensures
        pair_lt(a, b) ==> !pair_lt(b, a),
{
    lemma_text_lt_asymmetric(a.0, b.0);
    lemma_text_lt_asymmetric(a.1, b.1);
    lemma_text_lt_irreflexive(a.0);
}

} // verus!
