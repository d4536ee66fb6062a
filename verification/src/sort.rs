//! Stable sorting by a total preorder.
//!
//! `sorted` is insertion sort written as a spec function: each element, in
//! the input order, is placed before the first element that it strictly
//! precedes. For a total preorder this is the stable sort.

use vstd::prelude::*;

verus! {

/// An order on values of a type, tested in code and stated in specs.
pub trait Ranked: Sized {
    /// `self` may stand before `other`.
    spec fn ranks_le(&self, other: &Self) -> bool;

    /// Tests `ranks_le`.
    fn le(&self, other: &Self) -> (r: bool)
        ensures
            r == self.ranks_le(other),
    ;
}

/// `s` with `x` inserted before the first element that `x` strictly precedes.
pub open spec fn insert_ranked<T: Ranked>(s: Seq<T>, x: T) -> Seq<T>
    decreases s.len(),
{
    if s.len() == 0 {
        seq![x]
    } else if s[0].ranks_le(&x) {
        seq![s[0]] + insert_ranked(s.drop_first(), x)
    } else {
        seq![x] + s
    }
}

/// Stable insertion sort of `s`.
pub open spec fn sorted<T: Ranked>(s: Seq<T>) -> Seq<T>
    decreases s.len(),
{
    if s.len() == 0 {
        seq![]
    } else {
        insert_ranked(sorted(s.drop_last()), s.last())
    }
}

/// Position at which `insert_ranked` places `x`.
pub open spec fn insert_pos<T: Ranked>(s: Seq<T>, x: T) -> nat
    decreases s.len(),
{
    if s.len() == 0 {
        0
    } else if s[0].ranks_le(&x) {
        1 + insert_pos(s.drop_first(), x)
    } else {
        0
    }
}

proof fn lemma_insert_pos<T: Ranked>(s: Seq<T>, x: T)
    ensures
        insert_pos(s, x) <= s.len(),
        insert_ranked(s, x) == s.insert(insert_pos(s, x) as int, x),
        forall|k: int| 0 <= k < insert_pos(s, x) ==> s[k].ranks_le(&x),
        insert_pos(s, x) < s.len() ==> !s[insert_pos(s, x) as int].ranks_le(&x),
    decreases s.len(),
{
    if s.len() > 0 {
        if s[0].ranks_le(&x) {
            lemma_insert_pos(s.drop_first(), x);
            let p = insert_pos(s.drop_first(), x);
            assert(seq![s[0]] + s.drop_first().insert(p as int, x) =~= s.insert(p as int + 1, x));
            assert forall|k: int| 0 <= k < insert_pos(s, x) implies s[k].ranks_le(&x) by {
                if k > 0 {
                    assert(s[k] == s.drop_first()[k - 1]);
                }
            }
        } else {
            assert(seq![x] + s =~= s.insert(0, x));
        }
    } else {
        assert(seq![x] =~= s.insert(0, x));
    }
}

/// Sorts `v` stably.
pub fn sort_ranked<T: Ranked>(v: Vec<T>) -> (r: Vec<T>)
    ensures
        r@ == sorted(v@),
{
    let mut v = v;
    let ghost orig = v@;
    let mut out: Vec<T> = Vec::new();
    let mut rest: Vec<T> = Vec::new();
    // Reverse `v` into `rest` so that elements can be popped in input order.
    while v.len() > 0
        invariant
            orig == v@ + rest@.reverse(),
        decreases v.len(),
    {
        let x = v.pop().unwrap();
        proof {
            assert(v@.push(x) + rest@.reverse() =~= v@ + rest@.push(x).reverse());
        }
        rest.push(x);
    }
    assert(orig =~= rest@.reverse());
    assert(orig.take(0) =~= Seq::<T>::empty());
    while rest.len() > 0
        invariant
            orig.take(orig.len() - rest@.len()) + rest@.reverse() == orig,
            rest@.len() <= orig.len(),
            out@ == sorted(orig.take(orig.len() - rest@.len())),
        decreases rest.len(),
    {
        let ghost old_rest = rest@;
        let x = rest.pop().unwrap();
        proof {
            let n = orig.len() - old_rest.len();
            assert(old_rest == rest@.push(x));
            assert(old_rest.reverse() =~= seq![x] + rest@.reverse());
            assert(orig.take(n) + (seq![x] + rest@.reverse()) == orig);
            assert(orig[n] == x) by {
                assert((orig.take(n) + (seq![x] + rest@.reverse()))[n] == x);
            }
            assert(orig.take(n + 1) =~= orig.take(n).push(x));
            assert(orig.take(n + 1) + rest@.reverse() =~= orig.take(n) + (seq![x] + rest@.reverse()));
            assert(orig.take(n + 1).drop_last() =~= orig.take(n));
            assert(orig.take(n + 1).last() == x);
            lemma_insert_pos(out@, x);
        }
        let mut p: usize = 0;
        while p < out.len() && out[p].le(&x)
            invariant
                p <= out.len(),
                forall|k: int| 0 <= k < p ==> out@[k].ranks_le(&x),
            decreases out.len() - p,
        {
            p += 1;
        }
        proof {
            lemma_insert_pos_unique(out@, x, p as int);
        }
        out.insert(p, x);
    }
    assert(orig.take(orig.len() as int) =~= orig);
    out
}

proof fn lemma_insert_pos_unique<T: Ranked>(s: Seq<T>, x: T, p: int)
    requires
        0 <= p <= s.len(),
        forall|k: int| 0 <= k < p ==> s[k].ranks_le(&x),
        p < s.len() ==> !s[p].ranks_le(&x),
    ensures
        insert_pos(s, x) == p,
    decreases s.len(),
{
    if s.len() > 0 && p > 0 {
        assert(s[0].ranks_le(&x));
        assert forall|k: int| 0 <= k < p - 1 implies s.drop_first()[k].ranks_le(&x) by {
            assert(s.drop_first()[k] == s[k + 1]);
        }
        lemma_insert_pos_unique(s.drop_first(), x, p - 1);
    }
}


/// Inserting keeps the elements and adds one.
pub proof fn lemma_insert_all<T: Ranked>(s: Seq<T>, x: T, p: spec_fn(T) -> bool)
    requires
        forall|i: int| 0 <= i < s.len() ==> p(#[trigger] s[i]),
        p(x),
    ensures
        insert_ranked(s, x).len() == s.len() + 1,
        forall|i: int| 0 <= i < insert_ranked(s, x).len() ==> p(#[trigger] insert_ranked(s, x)[i]),
{
    lemma_insert_pos(s, x);
}

/// Sorting keeps the length and every property that all elements have.
pub proof fn lemma_sorted_all<T: Ranked>(s: Seq<T>, p: spec_fn(T) -> bool)
    requires
        forall|i: int| 0 <= i < s.len() ==> p(#[trigger] s[i]),
    ensures
        sorted(s).len() == s.len(),
        forall|i: int| 0 <= i < sorted(s).len() ==> p(#[trigger] sorted(s)[i]),
    decreases s.len(),
{
    if s.len() > 0 {
        assert forall|i: int| 0 <= i < s.drop_last().len() implies p(#[trigger] s.drop_last()[i]) by {
            assert(s.drop_last()[i] == s[i]);
        }
        lemma_sorted_all(s.drop_last(), p);
        lemma_insert_all(sorted(s.drop_last()), s.last(), p);
    }
}


/// `ranks_le` is total and transitive on all values of the type.
pub open spec fn total_preorder<T: Ranked>() -> bool {
    &&& forall|a: T, b: T| #[trigger] a.ranks_le(&b) || b.ranks_le(&a)
    &&& forall|a: T, b: T, c: T| #[trigger] a.ranks_le(&b) && #[trigger] b.ranks_le(&c) ==> a.ranks_le(&c)
}

/// Every element may stand before every later one.
pub open spec fn ordered<T: Ranked>(s: Seq<T>) -> bool {
    forall|i: int, j: int| #![trigger s[i], s[j]] 0 <= i < j < s.len() ==> s[i].ranks_le(&s[j])
}

proof fn lemma_insert_ordered<T: Ranked>(s: Seq<T>, x: T)
    requires
        total_preorder::<T>(),
        ordered(s),
    ensures
        ordered(insert_ranked(s, x)),
{
    lemma_insert_pos(s, x);
    let p = insert_pos(s, x) as int;
    let r = insert_ranked(s, x);
    assert(r == s.insert(p, x));
    if p < s.len() {
        assert(!s[p].ranks_le(&x));
        assert(x.ranks_le(&s[p]));
    }
    assert forall|i: int, j: int| #![trigger r[i], r[j]] 0 <= i < j < r.len() implies r[i].ranks_le(&r[j]) by {
        if j < p {
            assert(r[i] == s[i] && r[j] == s[j]);
        } else if j == p {
            assert(r[i] == s[i] && r[j] == x);
        } else if i < p {
            assert(r[i] == s[i] && r[j] == s[j - 1]);
            assert(s[i].ranks_le(&x));
            assert(x.ranks_le(&s[p]));
            if p < j - 1 {
                assert(s[p].ranks_le(&s[j - 1]));
                assert(x.ranks_le(&s[j - 1]));
            }
        } else if i == p {
            assert(r[i] == x && r[j] == s[j - 1]);
            if p < j - 1 {
                assert(s[p].ranks_le(&s[j - 1]));
            }
        } else {
            assert(r[i] == s[i - 1] && r[j] == s[j - 1]);
        }
    }
}

/// For a total preorder, `sorted` orders its elements.
pub proof fn lemma_sorted_ordered<T: Ranked>(s: Seq<T>)
    requires
        total_preorder::<T>(),
    ensures
        ordered(sorted(s)),
    decreases s.len(),
{
    if s.len() > 0 {
        lemma_sorted_ordered(s.drop_last());
        lemma_insert_ordered(sorted(s.drop_last()), s.last());
    }
}

/// A prefix of an ordered sequence is ordered.
pub proof fn lemma_ordered_take<T: Ranked>(s: Seq<T>, n: int)
    requires
        ordered(s),
        0 <= n <= s.len(),
    ensures
        ordered(s.take(n)),
{
    assert forall|i: int, j: int| #![trigger s.take(n)[i], s.take(n)[j]] 0 <= i < j < s.take(n).len() implies s.take(n)[i].ranks_le(
        &s.take(n)[j],
    ) by {
        assert(s.take(n)[i] == s[i] && s.take(n)[j] == s[j]);
    }
}

/// Sorting keeps every element.
pub proof fn lemma_sorted_contains<T: Ranked>(s: Seq<T>, i: int)
    requires
        0 <= i < s.len(),
    ensures
        exists|j: int| 0 <= j < sorted(s).len() && sorted(s)[j] == s[i],
    decreases s.len(),
{
    let p = sorted(s.drop_last());
    lemma_insert_pos(p, s.last());
    let k = insert_pos(p, s.last()) as int;
    let r = sorted(s);
    assert(r == p.insert(k, s.last()));
    if i == s.len() - 1 {
        assert(r[k] == s[i]);
    } else {
        assert(s.drop_last()[i] == s[i]);
        lemma_sorted_contains(s.drop_last(), i);
        let j = choose|j: int| 0 <= j < p.len() && p[j] == s.drop_last()[i];
        if j < k {
            assert(r[j] == s[i]);
        } else {
            assert(r[j + 1] == s[i]);
        }
    }
}

/// For a total preorder, `sorted` is stable: where `key` increases along `s`,
/// of two equally ranked elements of `sorted(s)` the earlier has the smaller
/// key.
pub proof fn lemma_sorted_stable<T: Ranked>(s: Seq<T>, key: spec_fn(T) -> int)
    requires
        total_preorder::<T>(),
        forall|i: int, j: int| #![trigger s[i], s[j]] 0 <= i < j < s.len() ==> key(s[i]) < key(s[j]),
    ensures
        forall|i: int, j: int|
            #![trigger sorted(s)[i], sorted(s)[j]]
            0 <= i < j < sorted(s).len() && sorted(s)[j].ranks_le(&sorted(s)[i]) ==> key(sorted(s)[i]) < key(
                sorted(s)[j],
            ),
    decreases s.len(),
{
    if s.len() > 0 {
        let s0 = s.drop_last();
        let x = s.last();
        assert forall|i: int, j: int| #![trigger s0[i], s0[j]] 0 <= i < j < s0.len() implies key(s0[i]) < key(s0[j]) by {
            assert(s0[i] == s[i] && s0[j] == s[j]);
        }
        lemma_sorted_stable(s0, key);
        lemma_sorted_ordered(s0);
        assert forall|i: int| 0 <= i < s0.len() implies key(#[trigger] s0[i]) < key(x) by {
            assert(s0[i] == s[i]);
            assert(x == s[s.len() - 1]);
        }
        lemma_sorted_all(s0, |e: T| key(e) < key(x));
        let p = sorted(s0);
        lemma_insert_pos(p, x);
        let k = insert_pos(p, x) as int;
        let r = sorted(s);
        assert(r == p.insert(k, x));
        assert forall|i: int, j: int| #![trigger r[i], r[j]] 0 <= i < j < r.len() && r[j].ranks_le(&r[i]) implies key(r[i]) < key(
            r[j],
        ) by {
            if j < k {
                assert(r[i] == p[i] && r[j] == p[j]);
            } else if j == k {
                assert(r[i] == p[i] && r[j] == x);
            } else if i < k {
                assert(r[i] == p[i] && r[j] == p[j - 1]);
            } else if i == k {
                assert(r[i] == x && r[j] == p[j - 1]);
                assert(!p[k].ranks_le(&x));
                if k < j - 1 {
                    assert(p[k].ranks_le(&p[j - 1]));
                }
                assert(false);
            } else {
                assert(r[i] == p[i - 1] && r[j] == p[j - 1]);
            }
        }
    }
}

/// Cutting `sorted(c)` to its first `limit` places keeps every element of
/// `c` or fills all those places with elements that may stand before it.
pub proof fn lemma_sorted_prefix_complete<T: Ranked>(c: Seq<T>, limit: nat, k0: int)
    requires
        total_preorder::<T>(),
        0 <= k0 < c.len(),
    ensures
        (exists|j: int| 0 <= j < sorted(c).len() && j < limit && sorted(c)[j] == c[k0]) || (limit <= sorted(c).len()
            && forall|j: int| 0 <= j < limit ==> (#[trigger] sorted(c)[j]).ranks_le(&c[k0])),
{
    lemma_sorted_contains(c, k0);
    lemma_sorted_ordered(c);
    let s = sorted(c);
    let j = choose|j: int| 0 <= j < s.len() && s[j] == c[k0];
    if j >= limit {
        assert forall|i: int| 0 <= i < limit implies (#[trigger] s[i]).ranks_le(&c[k0]) by {
            assert(s[i].ranks_le(&s[j]));
        }
    }
}

/// The elements of `v` in reverse order.
pub fn reverse_vec<T>(v: Vec<T>) -> (r: Vec<T>)
    ensures
        r@ == v@.reverse(),
{
    let mut v = v;
    let ghost orig = v@;
    let mut rest: Vec<T> = Vec::new();
    while v.len() > 0
        invariant
            orig == v@ + rest@.reverse(),
        decreases v.len(),
    {
        let x = v.pop().unwrap();
        proof {
            assert(v@.push(x) + rest@.reverse() =~= v@ + rest@.push(x).reverse());
        }
        rest.push(x);
    }
    assert(orig =~= rest@.reverse());
    assert(rest@ =~= orig.reverse());
    rest
}

} // verus!
