//! Lexical order on character sequences (the order of `String`'s `Ord`, as
//! UTF-8 keeps the order of code points) and sorting into descending order.
use vstd::prelude::*;
use crate::text::views;

verus! {

broadcast use vstd::seq_lib::group_to_multiset_ensures;

/// `a` comes no later than `b` in lexical order.
pub open spec fn lex_le(a: Seq<char>, b: Seq<char>) -> bool
    decreases a.len(),
{
    if a.len() == 0 {
        true
    } else if b.len() == 0 {
        false
    } else if a[0] != b[0] {
        a[0] < b[0]
    } else {
        lex_le(a.drop_first(), b.drop_first())
    }
}

/// Every element is no earlier in lexical order than any element after it.
pub open spec fn sorted_desc(s: Seq<Seq<char>>) -> bool {
    forall|i: int, j: int| 0 <= i < j < s.len() ==> lex_le(s[j], s[i])
}

pub proof fn lemma_lex_refl(a: Seq<char>)
    ensures
        lex_le(a, a),
    decreases a.len(),
{
    if a.len() > 0 {
        lemma_lex_refl(a.drop_first());
    }
}

pub proof fn lemma_lex_total(a: Seq<char>, b: Seq<char>)
    ensures
        lex_le(a, b) || lex_le(b, a),
    decreases a.len(),
{
    if a.len() > 0 && b.len() > 0 && a[0] == b[0] {
        lemma_lex_total(a.drop_first(), b.drop_first());
    }
}

pub proof fn lemma_lex_antisym(a: Seq<char>, b: Seq<char>)
    requires
        lex_le(a, b),
        lex_le(b, a),
    ensures
        a == b,
    decreases a.len(),
{
    if a.len() > 0 {
        lemma_lex_antisym(a.drop_first(), b.drop_first());
        assert(a =~= seq![a[0]] + a.drop_first());
        assert(b =~= seq![b[0]] + b.drop_first());
    } else {
        assert(a =~= b);
    }
}

pub proof fn lemma_lex_trans(a: Seq<char>, b: Seq<char>, c: Seq<char>)
    requires
        lex_le(a, b),
        lex_le(b, c),
    ensures
        lex_le(a, c),
    decreases a.len(),
{
    if a.len() > 0 && a[0] == b[0] && b[0] == c[0] {
        lemma_lex_trans(a.drop_first(), b.drop_first(), c.drop_first());
    }
}

/// Two sequences sorted into descending order that hold the same elements,
/// with the same multiplicities, are equal.
pub proof fn lemma_sorted_desc_unique(s1: Seq<Seq<char>>, s2: Seq<Seq<char>>)
    requires
        sorted_desc(s1),
        sorted_desc(s2),
        s1.to_multiset() == s2.to_multiset(),
    ensures
        s1 == s2,
    decreases s1.len(),
{
    assert(s1.len() == s1.to_multiset().len());
    assert(s2.len() == s2.to_multiset().len());
    if s1.len() == 0 {
        assert(s2.len() == 0);
        assert(s1 =~= s2);
    } else {
        let x = s1[0];
        let y = s2[0];
        assert(s1.to_multiset().count(x) > 0);
        assert(s2.contains(x));
        let k = choose|k: int| 0 <= k < s2.len() && s2[k] == x;
        if k == 0 {
            lemma_lex_refl(x);
        }
        assert(lex_le(x, y));
        assert(s2.to_multiset().count(y) > 0);
        assert(s1.contains(y));
        let m = choose|m: int| 0 <= m < s1.len() && s1[m] == y;
        if m == 0 {
            lemma_lex_refl(y);
        }
        assert(lex_le(y, x));
        lemma_lex_antisym(x, y);
        assert(s1.remove(0) =~= s1.drop_first());
        assert(s2.remove(0) =~= s2.drop_first());
        lemma_sorted_desc_unique(s1.drop_first(), s2.drop_first());
        assert forall|i: int| 0 <= i < s1.len() implies s1[i] == s2[i] by {
            if i > 0 {
                assert(s1[i] == s1.drop_first()[i - 1]);
                assert(s2[i] == s2.drop_first()[i - 1]);
            }
        }
        assert(s1 =~= s2);
    }
}

pub fn lex_le_chars(a: &Vec<char>, b: &Vec<char>) -> (r: bool)
    ensures
        r == lex_le(a@, b@),
{
    let mut i: usize = 0;
    assert(a@.subrange(0, a@.len() as int) =~= a@);
    assert(b@.subrange(0, b@.len() as int) =~= b@);
    while i < a.len() && i < b.len() && a[i] == b[i]
        invariant
            i <= a@.len(),
            i <= b@.len(),
            lex_le(a@, b@) == lex_le(
                a@.subrange(i as int, a@.len() as int),
                b@.subrange(i as int, b@.len() as int),
            ),
        decreases a@.len() - i,
    {
        assert(a@.subrange(i + 1, a@.len() as int) =~= a@.subrange(i as int, a@.len() as int).drop_first());
        assert(b@.subrange(i + 1, b@.len() as int) =~= b@.subrange(i as int, b@.len() as int).drop_first());
        i = i + 1;
    }
    if i == a.len() {
        true
    } else if i == b.len() {
        false
    } else {
        assert(a@.subrange(i as int, a@.len() as int)[0] == a@[i as int]);
        assert(b@.subrange(i as int, b@.len() as int)[0] == b@[i as int]);
        a[i] < b[i]
    }
}

/// Inserts `x` into `v`, which is sorted into descending order, keeping it so.
fn insert_desc(v: &mut Vec<Vec<char>>, x: Vec<char>)
    requires
        sorted_desc(views(old(v)@)),
    ensures
        sorted_desc(views(final(v)@)),
        views(final(v)@).to_multiset() == views(old(v)@).to_multiset().insert(x@),
{
    let ghost s = views(v@);
    let mut p: usize = 0;
    while p < v.len() && !lex_le_chars(&v[p], &x)
        invariant
            p <= v@.len(),
            s == views(v@),
            forall|j: int| 0 <= j < p ==> !lex_le(s[j], x@),
        decreases v@.len() - p,
    {
        p = p + 1;
    }
    v.insert(p, x);
    let ghost t = s.insert(p as int, x@);
    assert(views(v@) =~= t);
    assert forall|i: int, j: int| 0 <= i < j < t.len() implies lex_le(t[j], t[i]) by {
        if j < p {
        } else if j == p {
            lemma_lex_total(s[i], x@);
        } else if i < p {
            lemma_lex_total(s[i], x@);
            if j - 1 > p {
                lemma_lex_trans(s[j - 1], s[p as int], x@);
            }
            lemma_lex_trans(s[j - 1], x@, s[i]);
        } else if i == p {
            if j - 1 > p {
                lemma_lex_trans(s[j - 1], s[p as int], x@);
            }
        } else {
        }
    }
}

/// The elements of `v` in descending lexical order.
pub fn sort_desc(v: Vec<Vec<char>>) -> (r: Vec<Vec<char>>)
    ensures
        sorted_desc(views(r@)),
        views(r@).to_multiset() == views(v@).to_multiset(),
{
    let mut r: Vec<Vec<char>> = Vec::new();
    let mut i: usize = 0;
    assert(views(r@) =~= views(v@).subrange(0, 0));
    while i < v.len()
        invariant
            i <= v@.len(),
            sorted_desc(views(r@)),
            views(r@).to_multiset() == views(v@).subrange(0, i as int).to_multiset(),
        decreases v@.len() - i,
    {
        assert(views(v@).subrange(0, i + 1) =~= views(v@).subrange(0, i as int).push(v@[i as int]@));
        insert_desc(&mut r, v[i].clone());
        i = i + 1;
    }
    assert(views(v@).subrange(0, v@.len() as int) =~= views(v@));
    r
}

} // verus!
