use vstd::multiset::Multiset;
use vstd::prelude::*;

verus! {

/// Three-way comparison of two texts by code point, the order in which
/// the store lists its rows: -1 when `a` comes first, 0 when equal, 1 otherwise.
pub open spec fn text_cmp(a: Seq<char>, b: Seq<char>) -> int
    decreases a.len(),
{
    if a.len() == 0 {
        if b.len() == 0 {
            0
        } else {
            -1
        }
    } else if b.len() == 0 {
        1
    } else if a[0] == b[0] {
        text_cmp(a.drop_first(), b.drop_first())
    } else if a[0] < b[0] {
        -1
    } else {
        1
    }
}

pub proof fn lemma_text_cmp_facts(a: Seq<char>, b: Seq<char>)
    ensures
        text_cmp(a, b) == -text_cmp(b, a),
        -1 <= text_cmp(a, b) <= 1,
        text_cmp(a, b) == 0 <==> a == b,
    decreases a.len(),
{
    if a.len() > 0 && b.len() > 0 && a[0] == b[0] {
        lemma_text_cmp_facts(a.drop_first(), b.drop_first());
        if a.drop_first() == b.drop_first() {
            assert(a =~= seq![a[0]] + a.drop_first());
            assert(b =~= seq![b[0]] + b.drop_first());
        }
    }
    if a.len() == 0 && b.len() == 0 {
        assert(a =~= b);
    }
    if a == b {
        lemma_text_cmp_refl(a);
    }
}

proof fn lemma_text_cmp_refl(a: Seq<char>)
    ensures
        text_cmp(a, a) == 0,
    decreases a.len(),
{
    if a.len() > 0 {
        lemma_text_cmp_refl(a.drop_first());
    }
}

pub proof fn lemma_text_cmp_trans(a: Seq<char>, b: Seq<char>, c: Seq<char>)
    requires
        text_cmp(a, b) <= 0,
        text_cmp(b, c) <= 0,
    ensures
        text_cmp(a, c) <= 0,
        text_cmp(a, b) < 0 || text_cmp(b, c) < 0 ==> text_cmp(a, c) < 0,
    decreases a.len(),
{
    if a.len() > 0 && b.len() > 0 && c.len() > 0 && a[0] == b[0] && b[0] == c[0] {
        lemma_text_cmp_trans(a.drop_first(), b.drop_first(), c.drop_first());
    }
}

/// Compares two texts by code point.
pub fn compare_text(a: &str, b: &str) -> (r: i8)
    ensures
        r as int == text_cmp(a@, b@),
{
    let la = a.unicode_len();
    let lb = b.unicode_len();
    let mut i: usize = 0;
    assert(a@.skip(0) =~= a@);
    assert(b@.skip(0) =~= b@);
    while i < la && i < lb
        invariant
            la == a@.len(),
            lb == b@.len(),
            i <= la,
            i <= lb,
            text_cmp(a@, b@) == text_cmp(a@.skip(i as int), b@.skip(i as int)),
        decreases la - i,
    {
        let ca = a.get_char(i);
        let cb = b.get_char(i);
        assert(a@.skip(i as int)[0] == ca);
        assert(b@.skip(i as int)[0] == cb);
        if ca != cb {
            if ca < cb {
                return -1;
            }
            return 1;
        }
        assert(a@.skip(i as int).drop_first() =~= a@.skip(i + 1));
        assert(b@.skip(i as int).drop_first() =~= b@.skip(i + 1));
        i = i + 1;
    }
    if i < la {
        1
    } else if i < lb {
        -1
    } else {
        0
    }
}

/// Tells whether two texts are equal.
pub fn text_eq(a: &str, b: &str) -> (r: bool)
    ensures
        r == (a@ == b@),
{
    let c = compare_text(a, b);
    proof {
        lemma_text_cmp_facts(a@, b@);
    }
    c == 0
}

/// Order on pairs of texts: by the first, then by the second.
pub open spec fn text_pair_le(a1: Seq<char>, a2: Seq<char>, b1: Seq<char>, b2: Seq<char>) -> bool {
    text_cmp(a1, b1) < 0 || (text_cmp(a1, b1) == 0 && text_cmp(a2, b2) <= 0)
}

pub proof fn lemma_text_pair_total(a1: Seq<char>, a2: Seq<char>, b1: Seq<char>, b2: Seq<char>)
    ensures
        text_pair_le(a1, a2, b1, b2) || text_pair_le(b1, b2, a1, a2),
{
    lemma_text_cmp_facts(a1, b1);
    lemma_text_cmp_facts(a2, b2);
}

pub proof fn lemma_text_pair_trans(
    a1: Seq<char>,
    a2: Seq<char>,
    b1: Seq<char>,
    b2: Seq<char>,
    c1: Seq<char>,
    c2: Seq<char>,
)
    requires
        text_pair_le(a1, a2, b1, b2),
        text_pair_le(b1, b2, c1, c2),
    ensures
        text_pair_le(a1, a2, c1, c2),
{
    lemma_text_cmp_facts(a1, b1);
    lemma_text_cmp_facts(b1, c1);
    lemma_text_cmp_facts(a1, c1);
    lemma_text_cmp_trans(a1, b1, c1);
    if text_cmp(a1, b1) == 0 && text_cmp(b1, c1) == 0 {
        lemma_text_cmp_trans(a2, b2, c2);
    }
}

/// Compares two pairs of texts by `text_pair_le`.
pub fn text_pair_before(a1: &str, a2: &str, b1: &str, b2: &str) -> (r: bool)
    ensures
        r == text_pair_le(a1@, a2@, b1@, b2@),
{
    let c = compare_text(a1, b1);
    if c < 0 {
        true
    } else if c > 0 {
        false
    } else {
        compare_text(a2, b2) <= 0
    }
}

/// A total preorder used to list rows deterministically.
pub trait Ranked: Sized {
    spec fn rank_le(&self, other: &Self) -> bool;

    proof fn lemma_rank_total(a: &Self, b: &Self)
        ensures
            a.rank_le(b) || b.rank_le(a),
    ;

    proof fn lemma_rank_trans(a: &Self, b: &Self, c: &Self)
        requires
            a.rank_le(b),
            b.rank_le(c),
        ensures
            a.rank_le(c),
    ;

    fn ranks_before(&self, other: &Self) -> (r: bool)
        ensures
            r == self.rank_le(other),
    ;
}

/// Every earlier element ranks at or before every later one.
pub open spec fn sorted_by_rank<T: Ranked>(s: Seq<T>) -> bool {
    forall|i: int, j: int| 0 <= i < j < s.len() ==> #[trigger] s[i].rank_le(&#[trigger] s[j])
}

proof fn lemma_insert_multiset<T>(s: Seq<T>, p: int, x: T)
    requires
        0 <= p <= s.len(),
    ensures
        s.insert(p, x).to_multiset() =~= s.to_multiset().insert(x),
{
    broadcast use vstd::seq_lib::group_to_multiset_ensures;

    let t = s.insert(p, x);
    assert(t.remove(p) =~= s);
    assert(t[p] == x);
    assert(t.contains(x));
    assert(t.remove(p).to_multiset() =~= t.to_multiset().remove(x));
}

/// Orders `v` by rank, keeping every element.
pub fn sort_by_rank<T: Ranked>(v: Vec<T>) -> (r: Vec<T>)
    ensures
        r@.to_multiset() == v@.to_multiset(),
        sorted_by_rank(r@),
{
    broadcast use vstd::seq_lib::group_to_multiset_ensures;

    let mut rest = v;
    let mut r: Vec<T> = Vec::new();
    while rest.len() > 0
        invariant
            r@.to_multiset().add(rest@.to_multiset()) == v@.to_multiset(),
            sorted_by_rank(r@),
        decreases rest.len(),
    {
        let ghost before = rest@;
        let x = rest.pop().unwrap();
        proof {
            assert(before =~= rest@.push(x));
        }
        let mut p: usize = 0;
        while p < r.len() && r[p].ranks_before(&x)
            invariant
                p <= r.len(),
                forall|i: int| 0 <= i < p ==> #[trigger] r@[i].rank_le(&x),
            decreases r.len() - p,
        {
            p = p + 1;
        }
        let ghost old_r = r@;
        proof {
            if p < r.len() {
                T::lemma_rank_total(&r@[p as int], &x);
                assert forall|j: int| p <= j < old_r.len() implies x.rank_le(&#[trigger] old_r[j]) by {
                    if j > p {
                        T::lemma_rank_trans(&x, &old_r[p as int], &old_r[j]);
                    }
                }
            }
            lemma_insert_multiset(old_r, p as int, x);
        }
        r.insert(p, x);
        proof {
            assert(r@ == old_r.insert(p as int, x));
            rest@.to_multiset_ensures();
            assert(rest@.push(x).to_multiset() =~= rest@.to_multiset().insert(x));
            assert(r@.to_multiset().add(rest@.to_multiset()) =~= old_r.to_multiset().add(
                before.to_multiset(),
            ));
            assert forall|i: int, j: int| 0 <= i < j < r@.len() implies #[trigger] r@[i].rank_le(
                &#[trigger] r@[j],
            ) by {
                if j < p {
                    assert(r@[i] == old_r[i] && r@[j] == old_r[j]);
                } else if j == p {
                    assert(r@[i] == old_r[i]);
                } else if i < p {
                    assert(r@[i] == old_r[i] && r@[j] == old_r[j - 1]);
                    T::lemma_rank_trans(&old_r[i], &x, &old_r[j - 1]);
                } else if i == p {
                    assert(r@[j] == old_r[j - 1]);
                } else {
                    assert(r@[i] == old_r[i - 1] && r@[j] == old_r[j - 1]);
                }
            }
        }
    }
    proof {
        assert(rest@ =~= Seq::<T>::empty());
        assert(rest@.to_multiset() =~= Multiset::empty());
        assert(r@.to_multiset().add(Multiset::empty()) =~= r@.to_multiset());
    }
    r
}

/// The order of rows by natural key, in which snapshots list them.
pub trait KeyOrder: Sized {
    spec fn key_le(&self, other: &Self) -> bool;

    proof fn lemma_key_total(a: &Self, b: &Self)
        ensures
            a.key_le(b) || b.key_le(a),
    ;

    proof fn lemma_key_trans(a: &Self, b: &Self, c: &Self)
        requires
            a.key_le(b),
            b.key_le(c),
        ensures
            a.key_le(c),
    ;

    fn key_before(&self, other: &Self) -> (r: bool)
        ensures
            r == self.key_le(other),
    ;
}

/// Every earlier element comes at or before every later one by key.
pub open spec fn sorted_by_key<T: KeyOrder>(s: Seq<T>) -> bool {
    forall|i: int, j: int| 0 <= i < j < s.len() ==> #[trigger] s[i].key_le(&#[trigger] s[j])
}

/// Orders `v` by natural key, keeping every element.
pub fn sort_by_key_order<T: KeyOrder>(v: Vec<T>) -> (r: Vec<T>)
    ensures
        r@.to_multiset() == v@.to_multiset(),
        sorted_by_key(r@),
{
    broadcast use vstd::seq_lib::group_to_multiset_ensures;

    let mut rest = v;
    let mut r: Vec<T> = Vec::new();
    while rest.len() > 0
        invariant
            r@.to_multiset().add(rest@.to_multiset()) == v@.to_multiset(),
            sorted_by_key(r@),
        decreases rest.len(),
    {
        let ghost before = rest@;
        let x = rest.pop().unwrap();
        proof {
            assert(before =~= rest@.push(x));
        }
        let mut p: usize = 0;
        while p < r.len() && r[p].key_before(&x)
            invariant
                p <= r.len(),
                forall|i: int| 0 <= i < p ==> #[trigger] r@[i].key_le(&x),
            decreases r.len() - p,
        {
            p = p + 1;
        }
        let ghost old_r = r@;
        proof {
            if p < r.len() {
                T::lemma_key_total(&r@[p as int], &x);
                assert forall|j: int| p <= j < old_r.len() implies x.key_le(&#[trigger] old_r[j]) by {
                    if j > p {
                        T::lemma_key_trans(&x, &old_r[p as int], &old_r[j]);
                    }
                }
            }
            lemma_insert_multiset(old_r, p as int, x);
        }
        r.insert(p, x);
        proof {
            assert(r@ == old_r.insert(p as int, x));
            rest@.to_multiset_ensures();
            assert(rest@.push(x).to_multiset() =~= rest@.to_multiset().insert(x));
            assert(r@.to_multiset().add(rest@.to_multiset()) =~= old_r.to_multiset().add(
                before.to_multiset(),
            ));
            assert forall|i: int, j: int| 0 <= i < j < r@.len() implies #[trigger] r@[i].key_le(
                &#[trigger] r@[j],
            ) by {
                if j < p {
                    assert(r@[i] == old_r[i] && r@[j] == old_r[j]);
                } else if j == p {
                    assert(r@[i] == old_r[i]);
                } else if i < p {
                    assert(r@[i] == old_r[i] && r@[j] == old_r[j - 1]);
                    T::lemma_key_trans(&old_r[i], &x, &old_r[j - 1]);
                } else if i == p {
                    assert(r@[j] == old_r[j - 1]);
                } else {
                    assert(r@[i] == old_r[i - 1] && r@[j] == old_r[j - 1]);
                }
            }
        }
    }
    proof {
        assert(rest@ =~= Seq::<T>::empty());
        assert(rest@.to_multiset() =~= Multiset::empty());
        assert(r@.to_multiset().add(Multiset::empty()) =~= r@.to_multiset());
    }
    r
}

/// Mapping two sequences that hold the same elements gives sequences that hold the same elements.
pub proof fn lemma_map_multiset<A, B>(a: Seq<A>, b: Seq<A>, f: spec_fn(A) -> B)
    requires
        a.to_multiset() == b.to_multiset(),
    ensures
        a.map_values(f).to_multiset() == b.map_values(f).to_multiset(),
    decreases a.len(),
{
    broadcast use vstd::seq_lib::group_to_multiset_ensures;

    a.to_multiset_ensures();
    b.to_multiset_ensures();
    if a.len() == 0 {
        assert(b.to_multiset().len() == 0);
        assert(b.len() == 0);
        assert(a.map_values(f) =~= b.map_values(f));
    } else {
        let x = a.last();
        let a2 = a.drop_last();
        assert(a =~= a2.push(x));
        a2.to_multiset_ensures();
        assert(a.to_multiset() =~= a2.to_multiset().insert(x));
        assert(a.to_multiset().count(x) > 0);
        assert(b.contains(x));
        let k = choose|k: int| 0 <= k < b.len() && b[k] == x;
        let b2 = b.remove(k);
        assert(b2.to_multiset() =~= b.to_multiset().remove(x));
        assert(a2.to_multiset() =~= b2.to_multiset());
        lemma_map_multiset(a2, b2, f);
        let ma = a.map_values(f);
        let mb = b.map_values(f);
        assert(ma =~= a2.map_values(f).push(f(x)));
        assert(mb.remove(k) =~= b2.map_values(f));
        a2.map_values(f).to_multiset_ensures();
        mb.to_multiset_ensures();
        assert(mb[k] == f(x));
        assert(mb.remove(k).to_multiset() =~= mb.to_multiset().remove(f(x)));
        assert(mb.contains(f(x)));
        assert(ma.to_multiset() =~= a2.map_values(f).to_multiset().insert(f(x)));
        assert(mb.to_multiset() =~= mb.to_multiset().remove(f(x)).insert(f(x)));
    }
}

} // verus!
