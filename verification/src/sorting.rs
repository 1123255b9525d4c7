//! Stable sorting by a key, removal of consecutive duplicates, and the first `k` of a
//! stable sort without sorting the whole list.
use vstd::prelude::*;
use crate::text::{lex_le, lex_le_exec, lemma_lex_total, lemma_lex_trans};

verus! {

/// A total preorder on the views of sort keys, with its executable test.
pub trait SortKey: Sized + View {
    spec fn key_le(a: Self::V, b: Self::V) -> bool;

    fn key_le_exec(&self, other: &Self) -> (r: bool)
        ensures
            r == Self::key_le(self@, other@),
    ;

    proof fn lemma_total(a: Self::V, b: Self::V)
        ensures
            Self::key_le(a, b) || Self::key_le(b, a),
    ;

    proof fn lemma_trans(a: Self::V, b: Self::V, c: Self::V)
        requires
            Self::key_le(a, b),
            Self::key_le(b, c),
        ensures
            Self::key_le(a, c),
    ;
}

/// Text keys in code-point lexicographic order.
impl SortKey for Vec<char> {
    open spec fn key_le(a: Seq<char>, b: Seq<char>) -> bool {
        lex_le(a, b)
    }

    fn key_le_exec(&self, other: &Self) -> (r: bool) {
        lex_le_exec(self.as_slice(), other.as_slice())
    }

    proof fn lemma_total(a: Seq<char>, b: Seq<char>) {
        lemma_lex_total(a, b);
    }

    proof fn lemma_trans(a: Seq<char>, b: Seq<char>, c: Seq<char>) {
        lemma_lex_trans(a, b, c);
    }
}

/// Numbers, largest first.
pub struct Descending(pub u64);

impl View for Descending {
    type V = u64;

    open spec fn view(&self) -> u64 {
        self.0
    }
}

impl SortKey for Descending {
    open spec fn key_le(a: u64, b: u64) -> bool {
        a >= b
    }

    fn key_le_exec(&self, other: &Self) -> (r: bool) {
        self.0 >= other.0
    }

    proof fn lemma_total(a: u64, b: u64) {
    }

    proof fn lemma_trans(a: u64, b: u64, c: u64) {
    }
}

/// Pairs of numbers: the first descending, then the second ascending.
pub struct RankThenLen(pub u64, pub u64);

impl View for RankThenLen {
    type V = (u64, u64);

    open spec fn view(&self) -> (u64, u64) {
        (self.0, self.1)
    }
}

impl SortKey for RankThenLen {
    open spec fn key_le(a: (u64, u64), b: (u64, u64)) -> bool {
        a.0 > b.0 || (a.0 == b.0 && a.1 <= b.1)
    }

    fn key_le_exec(&self, other: &Self) -> (r: bool) {
        self.0 > other.0 || (self.0 == other.0 && self.1 <= other.1)
    }

    proof fn lemma_total(a: (u64, u64), b: (u64, u64)) {
    }

    proof fn lemma_trans(a: (u64, u64), b: (u64, u64), c: (u64, u64)) {
    }
}

/// Pairs with the key taken by its view.
pub open spec fn kview<K: View, T: View>(s: Seq<(K, T)>) -> Seq<(K::V, T::V)> {
    s.map_values(|p: (K, T)| p@)
}

/// The views of the elements.
pub open spec fn views<T: View>(s: Seq<T>) -> Seq<T::V> {
    s.map_values(|t: T| t@)
}

/// `x` inserted into `s` right after the last element whose key is at most `x`'s
/// (at the front if there is none).
pub open spec fn ins<K: SortKey, T>(s: Seq<(K::V, T)>, x: (K::V, T)) -> Seq<(K::V, T)>
    decreases s.len(),
{
    if s.len() == 0 {
        seq![x]
    } else if K::key_le(s.last().0, x.0) {
        s.push(x)
    } else {
        ins::<K, T>(s.drop_last(), x).push(s.last())
    }
}

/// The stable sort of `s` by key: insertion sort, each element placed after every
/// earlier element with an equal or smaller key.
pub open spec fn isort<K: SortKey, T>(s: Seq<(K::V, T)>) -> Seq<(K::V, T)>
    decreases s.len(),
{
    if s.len() == 0 {
        s
    } else {
        ins::<K, T>(isort::<K, T>(s.drop_last()), s.last())
    }
}

/// Keys never decrease along `s`.
pub open spec fn sorted<K: SortKey, T>(s: Seq<(K::V, T)>) -> bool {
    forall|i: int, j: int| 0 <= i < j < s.len() ==> K::key_le((#[trigger] s[i]).0, (#[trigger] s[j]).0)
}

/// `s` with every element whose key equals the last kept one's removed (`Vec::dedup_by`
/// on the key).
pub open spec fn dedup<T>(s: Seq<(Seq<char>, T)>) -> Seq<(Seq<char>, T)>
    decreases s.len(),
{
    if s.len() == 0 {
        s
    } else {
        let d = dedup(s.drop_last());
        if d.len() > 0 && d.last().0 == s.last().0 {
            d
        } else {
            d.push(s.last())
        }
    }
}

/// After a dedup, no two neighbours share a key.
pub proof fn lemma_dedup_neighbours_differ<T>(s: Seq<(Seq<char>, T)>)
    ensures
        forall|i: int| 0 <= i < dedup(s).len() - 1 ==> (#[trigger] dedup(s)[i]).0 != dedup(s)[i + 1].0,
    decreases s.len(),
{
    if s.len() > 0 {
        lemma_dedup_neighbours_differ(s.drop_last());
        let d = dedup(s.drop_last());
        if !(d.len() > 0 && d.last().0 == s.last().0) {
            let r = d.push(s.last());
            assert forall|i: int| 0 <= i < r.len() - 1 implies (#[trigger] r[i]).0 != r[i + 1].0 by {
                if i < d.len() - 1 {
                    assert(r[i] == d[i]);
                    assert(r[i + 1] == d[i + 1]);
                } else {
                    assert(r[i] == d.last());
                }
            }
        }
    }
}

/// A dedup keeps elements of its input in the input's order: a relation that holds
/// from every earlier input element to every later one holds between the kept ones.
pub proof fn lemma_dedup_keeps_order<T>(
    s: Seq<(Seq<char>, T)>,
    r: spec_fn((Seq<char>, T), (Seq<char>, T)) -> bool,
)
    requires
        forall|i: int, j: int| 0 <= i < j < s.len() ==> r(#[trigger] s[i], #[trigger] s[j]),
    ensures
        forall|i: int, j: int| 0 <= i < j < dedup(s).len() ==> r(#[trigger] dedup(s)[i], #[trigger] dedup(s)[j]),
        forall|i: int| 0 <= i < dedup(s).len() ==> s.contains(#[trigger] dedup(s)[i]),
    decreases s.len(),
{
    if s.len() > 0 {
        let p = s.drop_last();
        assert forall|i: int, j: int| 0 <= i < j < p.len() implies r(#[trigger] p[i], #[trigger] p[j]) by {
            assert(p[i] == s[i]);
            assert(p[j] == s[j]);
        }
        lemma_dedup_keeps_order(p, r);
        let d = dedup(p);
        assert forall|i: int| 0 <= i < d.len() implies s.contains(#[trigger] d[i]) by {
            let k = choose|k: int| 0 <= k < p.len() && p[k] == d[i];
            assert(s[k] == p[k]);
        }
        if !(d.len() > 0 && d.last().0 == s.last().0) {
            let e = d.push(s.last());
            assert forall|i: int, j: int| 0 <= i < j < e.len() implies r(#[trigger] e[i], #[trigger] e[j]) by {
                assert(e[i] == d[i]);
                if j == e.len() - 1 {
                    let k = choose|k: int| 0 <= k < p.len() && p[k] == d[i];
                    assert(s[k] == d[i]);
                    assert(e[j] == s[s.len() - 1]);
                } else {
                    assert(e[j] == d[j]);
                }
            }
            assert forall|i: int| 0 <= i < e.len() implies s.contains(#[trigger] e[i]) by {
                if i < d.len() {
                    assert(e[i] == d[i]);
                } else {
                    assert(e[i] == s[s.len() - 1]);
                }
            }
        }
    }
}

/// The elements without their keys.
pub open spec fn strip<K, T>(s: Seq<(K, T)>) -> Seq<T> {
    s.map_values(|p: (K, T)| p.1)
}

proof fn lemma_ins_shape<K: SortKey, T>(s: Seq<(K::V, T)>, x: (K::V, T), p: int)
    requires
        0 <= p <= s.len(),
        p == 0 || K::key_le(s[p - 1].0, x.0),
        forall|q: int| p <= q < s.len() ==> !K::key_le((#[trigger] s[q]).0, x.0),
    ensures
        ins::<K, T>(s, x) == s.take(p).push(x) + s.skip(p),
    decreases s.len(),
{
    if s.len() == 0 {
        assert(s.take(p).push(x) + s.skip(p) =~= seq![x]);
    } else if p == s.len() {
        assert(s.take(p).push(x) + s.skip(p) =~= s.push(x));
    } else {
        lemma_ins_shape::<K, T>(s.drop_last(), x, p);
        assert(s.drop_last().take(p) =~= s.take(p));
        assert(s.drop_last().skip(p).push(s.last()) =~= s.skip(p));
        assert((s.take(p).push(x) + s.drop_last().skip(p)).push(s.last()) =~= s.take(p).push(x)
            + s.skip(p));
    }
}

/// Inserts `x` into `v` at the place [`ins`] gives.
pub fn insert_sorted<K: SortKey, T: View>(v: &mut Vec<(K, T)>, x: (K, T))
    ensures
        kview(final(v)@) == ins::<K, T::V>(kview(old(v)@), x@),
{
    let ghost xv = x@;
    let mut p = v.len();
    loop
        invariant
            p <= v@.len(),
            forall|q: int| p <= q < v@.len() ==> !K::key_le((#[trigger] v@[q]).0@, x.0@),
        ensures
            p <= v@.len(),
            forall|q: int| p <= q < v@.len() ==> !K::key_le((#[trigger] v@[q]).0@, x.0@),
            p == 0 || K::key_le(v@[p - 1].0@, x.0@),
        decreases p,
    {
        if p == 0 {
            break;
        }
        if v[p - 1].0.key_le_exec(&x.0) {
            break;
        }
        p = p - 1;
    }
    let ghost before = v@;
    proof {
        let kv = kview(before);
        assert forall|q: int| p <= q < kv.len() implies !K::key_le((#[trigger] kv[q]).0, xv.0) by {
            assert(kv[q].0 == before[q].0@);
        }
        if p > 0 {
            assert(kv[p - 1].0 == before[p - 1].0@);
        }
        lemma_ins_shape::<K, T::V>(kv, xv, p as int);
    }
    v.insert(p, x);
    proof {
        assert(kview(v@) =~= kview(before).take(p as int).push(xv) + kview(before).skip(p as int));
    }
}

/// The elements of `v` in reverse order.
pub fn reversed<T>(v: Vec<T>) -> (r: Vec<T>)
    ensures
        r@ == v@.reverse(),
{
    let ghost all = v@;
    let mut rest = v;
    let mut out: Vec<T> = Vec::new();
    while rest.len() > 0
        invariant
            all =~= rest@ + out@.reverse(),
        decreases rest.len(),
    {
        let ghost before = rest@;
        let x = rest.pop().unwrap();
        let ghost o = out@;
        out.push(x);
        proof {
            assert(before =~= rest@.push(x));
            assert(out@.reverse() =~= seq![x] + o.reverse());
            assert(all =~= rest@ + out@.reverse());
        }
    }
    proof {
        assert(all =~= out@.reverse());
        assert(out@ =~= all.reverse());
    }
    out
}

/// Sorts by key, stably.
pub fn stable_sort<K: SortKey, T: View>(v: Vec<(K, T)>) -> (r: Vec<(K, T)>)
    ensures
        kview(r@) == isort::<K, T::V>(kview(v@)),
{
    let ghost all = v@;
    let ghost kall = kview(all);
    let mut rev = reversed(v);
    let mut out: Vec<(K, T)> = Vec::new();
    proof {
        assert(rev@.reverse() =~= all.skip(0));
        assert(kview(out@) =~= isort::<K, T::V>(kall.take(0)));
    }
    while rev.len() > 0
        invariant
            rev@.len() <= all.len(),
            kall == kview(all),
            rev@.reverse() =~= all.skip(all.len() - rev@.len()),
            kview(out@) == isort::<K, T::V>(kall.take(all.len() - rev@.len())),
        decreases rev.len(),
    {
        let ghost k = all.len() - rev@.len();
        let ghost r0 = rev@;
        let x = rev.pop().unwrap();
        proof {
            assert(r0.reverse()[0] == x);
            assert(all.skip(k)[0] == all[k]);
            assert(kall.take(k + 1).drop_last() =~= kall.take(k));
            assert(kall.take(k + 1).last() == x@);
            assert(rev@.reverse() =~= r0.reverse().drop_first());
            assert(all.skip(k).drop_first() =~= all.skip(k + 1));
        }
        insert_sorted(&mut out, x);
    }
    proof {
        assert(kall.take(all.len() as int) =~= kall);
    }
    out
}

/// Removes each element whose key equals the key of the last element kept.
pub fn dedup_by_key<T: View>(v: Vec<(Vec<char>, T)>) -> (r: Vec<(Vec<char>, T)>)
    ensures
        kview(r@) == dedup(kview(v@)),
{
    let ghost all = v@;
    let ghost kall = kview(all);
    let mut rev = reversed(v);
    let mut out: Vec<(Vec<char>, T)> = Vec::new();
    proof {
        assert(rev@.reverse() =~= all.skip(0));
        assert(kview(out@) =~= dedup(kall.take(0)));
    }
    while rev.len() > 0
        invariant
            rev@.len() <= all.len(),
            kall == kview(all),
            rev@.reverse() =~= all.skip(all.len() - rev@.len()),
            kview(out@) == dedup(kall.take(all.len() - rev@.len())),
        decreases rev.len(),
    {
        let ghost k = all.len() - rev@.len();
        let ghost r0 = rev@;
        let x = rev.pop().unwrap();
        proof {
            assert(r0.reverse()[0] == x);
            assert(all.skip(k)[0] == all[k]);
            assert(kall.take(k + 1).drop_last() =~= kall.take(k));
            assert(kall.take(k + 1).last() == x@);
            assert(rev@.reverse() =~= r0.reverse().drop_first());
            assert(all.skip(k).drop_first() =~= all.skip(k + 1));
        }
        let ghost o = out@;
        let keep = if out.len() == 0 {
            true
        } else {
            let last = out.len() - 1;
            !crate::text::chars_eq(out[last].0.as_slice(), x.0.as_slice())
        };
        if keep {
            out.push(x);
            proof {
                assert(kview(out@) =~= kview(o).push(x@));
            }
        }
    }
    proof {
        assert(kall.take(all.len() as int) =~= kall);
    }
    out
}

/// Drops the keys.
pub fn strip_keys<K: View, T: View>(v: Vec<(K, T)>) -> (r: Vec<T>)
    ensures
        r@ == strip(v@),
        views(r@) == strip(kview(v@)),
{
    let ghost all = v@;
    let mut rev = reversed(v);
    let mut out: Vec<T> = Vec::new();
    proof {
        assert(rev@.reverse() =~= all.skip(0));
        assert(out@ =~= strip(all.take(0)));
    }
    while rev.len() > 0
        invariant
            rev@.len() <= all.len(),
            rev@.reverse() =~= all.skip(all.len() - rev@.len()),
            out@ == strip(all.take(all.len() - rev@.len())),
        decreases rev.len(),
    {
        let ghost k = all.len() - rev@.len();
        let ghost r0 = rev@;
        let x = rev.pop().unwrap();
        proof {
            assert(r0.reverse()[0] == x);
            assert(all.skip(k)[0] == all[k]);
            assert(rev@.reverse() =~= r0.reverse().drop_first());
            assert(all.skip(k).drop_first() =~= all.skip(k + 1));
        }
        let ghost o = out@;
        out.push(x.1);
        proof {
            assert(strip(all.take(k + 1)) =~= strip(all.take(k)).push(x.1));
        }
    }
    proof {
        assert(all.take(all.len() as int) =~= all);
        assert(views(out@) =~= strip(kview(all)));
    }
    out
}

/// Every key of `s` is at most `b`.
pub open spec fn all_le<K: SortKey, T>(s: Seq<(K::V, T)>, b: K::V) -> bool {
    forall|i: int| 0 <= i < s.len() ==> K::key_le((#[trigger] s[i]).0, b)
}

proof fn lemma_ins_all_le<K: SortKey, T>(s: Seq<(K::V, T)>, x: (K::V, T), b: K::V)
    requires
        all_le::<K, T>(s, b),
        K::key_le(x.0, b),
    ensures
        all_le::<K, T>(ins::<K, T>(s, x), b),
    decreases s.len(),
{
    if s.len() > 0 && !K::key_le(s.last().0, x.0) {
        lemma_ins_all_le::<K, T>(s.drop_last(), x, b);
        let r = ins::<K, T>(s.drop_last(), x).push(s.last());
        assert forall|i: int| 0 <= i < r.len() implies K::key_le((#[trigger] r[i]).0, b) by {
            if i < r.len() - 1 {
                assert(r[i] == ins::<K, T>(s.drop_last(), x)[i]);
            }
        }
    } else if s.len() > 0 {
        let r = s.push(x);
        assert forall|i: int| 0 <= i < r.len() implies K::key_le((#[trigger] r[i]).0, b) by {
            if i < s.len() {
                assert(r[i] == s[i]);
            }
        }
    }
}

proof fn lemma_ins_sorted<K: SortKey, T>(s: Seq<(K::V, T)>, x: (K::V, T))
    requires
        sorted::<K, T>(s),
    ensures
        sorted::<K, T>(ins::<K, T>(s, x)),
        ins::<K, T>(s, x).len() == s.len() + 1,
    decreases s.len(),
{
    if s.len() == 0 {
    } else if K::key_le(s.last().0, x.0) {
        let r = s.push(x);
        assert forall|i: int, j: int| 0 <= i < j < r.len() implies K::key_le(
            (#[trigger] r[i]).0,
            (#[trigger] r[j]).0,
        ) by {
            if j == s.len() {
                if i < s.len() - 1 {
                    K::lemma_trans(s[i].0, s.last().0, x.0);
                }
            }
        }
    } else {
        let d = s.drop_last();
        lemma_ins_sorted::<K, T>(d, x);
        K::lemma_total(s.last().0, x.0);
        assert forall|i: int| 0 <= i < d.len() implies K::key_le((#[trigger] d[i]).0, s.last().0) by {
            assert(s[i] == d[i]);
        }
        lemma_ins_all_le::<K, T>(d, x, s.last().0);
        let r = ins::<K, T>(d, x).push(s.last());
        assert forall|i: int, j: int| 0 <= i < j < r.len() implies K::key_le(
            (#[trigger] r[i]).0,
            (#[trigger] r[j]).0,
        ) by {
            if j == r.len() - 1 {
                assert(r[i] == ins::<K, T>(d, x)[i]);
            } else {
                assert(r[i] == ins::<K, T>(d, x)[i]);
                assert(r[j] == ins::<K, T>(d, x)[j]);
            }
        }
    }
}

/// The stable sort puts keys in order and keeps the length.
pub proof fn lemma_isort_sorted<K: SortKey, T>(s: Seq<(K::V, T)>)
    ensures
        sorted::<K, T>(isort::<K, T>(s)),
        isort::<K, T>(s).len() == s.len(),
    decreases s.len(),
{
    if s.len() > 0 {
        lemma_isort_sorted::<K, T>(s.drop_last());
        lemma_ins_sorted::<K, T>(isort::<K, T>(s.drop_last()), s.last());
    }
}

proof fn lemma_ins_multiset<K: SortKey, T>(s: Seq<(K::V, T)>, x: (K::V, T))
    ensures
        ins::<K, T>(s, x).to_multiset() == s.to_multiset().insert(x),
    decreases s.len(),
{
    broadcast use vstd::seq_lib::group_to_multiset_ensures;
    if s.len() == 0 {
        assert(seq![x] =~= Seq::<(K::V, T)>::empty().push(x));
    } else if K::key_le(s.last().0, x.0) {
    } else {
        lemma_ins_multiset::<K, T>(s.drop_last(), x);
        assert(s =~= s.drop_last().push(s.last()));
    }
}

/// The stable sort keeps exactly the elements it was given.
pub proof fn lemma_isort_permutes<K: SortKey, T>(s: Seq<(K::V, T)>)
    ensures
        isort::<K, T>(s).to_multiset() == s.to_multiset(),
    decreases s.len(),
{
    broadcast use vstd::seq_lib::group_to_multiset_ensures;
    if s.len() > 0 {
        lemma_isort_permutes::<K, T>(s.drop_last());
        lemma_ins_multiset::<K, T>(isort::<K, T>(s.drop_last()), s.last());
        assert(s =~= s.drop_last().push(s.last()));
    }
}

proof fn lemma_ins_member<K: SortKey, T>(s: Seq<(K::V, T)>, x: (K::V, T), i: int)
    requires
        0 <= i < ins::<K, T>(s, x).len(),
    ensures
        ins::<K, T>(s, x)[i] == x || s.contains(ins::<K, T>(s, x)[i]),
    decreases s.len(),
{
    if s.len() == 0 {
    } else if K::key_le(s.last().0, x.0) {
        if i < s.len() {
            assert(s.push(x)[i] == s[i]);
        }
    } else {
        let d = s.drop_last();
        let r = ins::<K, T>(d, x);
        if i < r.len() {
            lemma_ins_member::<K, T>(d, x, i);
            assert(r.push(s.last())[i] == r[i]);
            if d.contains(r[i]) {
                let j = choose|j: int| 0 <= j < d.len() && d[j] == r[i];
                assert(s[j] == d[j]);
            }
        } else {
            assert(s[s.len() - 1] == s.last());
        }
    }
}

/// The stable sort brings in nothing new: each element comes from the input.
pub proof fn lemma_isort_member<K: SortKey, T>(s: Seq<(K::V, T)>, i: int)
    requires
        0 <= i < isort::<K, T>(s).len(),
    ensures
        s.contains(isort::<K, T>(s)[i]),
    decreases s.len(),
{
    let d = s.drop_last();
    let y = isort::<K, T>(s)[i];
    lemma_ins_member::<K, T>(isort::<K, T>(d), s.last(), i);
    if y == s.last() {
        assert(s[s.len() - 1] == y);
    } else {
        let j = choose|j: int| 0 <= j < isort::<K, T>(d).len() && isort::<K, T>(d)[j] == y;
        lemma_isort_member::<K, T>(d, j);
        let m = choose|m: int| 0 <= m < d.len() && d[m] == y;
        assert(s[m] == d[m]);
    }
}

/// The first `k` of a stable sort are in key order, and each comes from the input.
pub proof fn lemma_first_isort<K: SortKey, T>(s: Seq<(K::V, T)>, k: int)
    requires
        0 <= k,
    ensures
        sorted::<K, T>(first(isort::<K, T>(s), k)),
        forall|i: int| 0 <= i < first(isort::<K, T>(s), k).len() ==> s.contains(
            #[trigger] first(isort::<K, T>(s), k)[i],
        ),
{
    let r = isort::<K, T>(s);
    lemma_isort_sorted::<K, T>(s);
    let f = first(r, k);
    assert forall|i: int, j: int| 0 <= i < j < f.len() implies K::key_le((#[trigger] f[i]).0, (#[trigger] f[j]).0) by {
        assert(f[i] == r[i]);
        assert(f[j] == r[j]);
    }
    assert forall|i: int| 0 <= i < f.len() implies s.contains(#[trigger] f[i]) by {
        assert(f[i] == r[i]);
        lemma_isort_member::<K, T>(s, i);
    }
}

/// The first `k` elements of `s` (all of it when it is shorter), as `Vec::truncate` leaves it.
pub open spec fn first<A>(s: Seq<A>, k: int) -> Seq<A> {
    if k < s.len() {
        s.take(k)
    } else {
        s
    }
}

proof fn lemma_ins_take<K: SortKey, T>(s: Seq<(K::V, T)>, x: (K::V, T), k: nat)
    requires
        sorted::<K, T>(s),
    ensures
        first(ins::<K, T>(s, x), k as int) == first(ins::<K, T>(first(s, k as int), x), k as int),
    decreases s.len(),
{
    lemma_ins_sorted::<K, T>(s, x);
    if k >= s.len() {
    } else if K::key_le(s.last().0, x.0) {
        if k > 0 {
            let t = s.take(k as int);
            K::lemma_trans(t.last().0, s.last().0, x.0);
            assert(t.last() == s[k - 1]);
            assert(ins::<K, T>(t, x) == t.push(x));
            assert(s.push(x).take(k as int) =~= t);
            assert(t.push(x).take(k as int) =~= t);
        } else {
            assert(s.push(x).take(0) =~= Seq::<(K::V, T)>::empty());
            assert(ins::<K, T>(s.take(0), x).take(0) =~= Seq::<(K::V, T)>::empty());
        }
    } else {
        let d = s.drop_last();
        assert forall|i: int, j: int| 0 <= i < j < d.len() implies K::key_le(
            (#[trigger] d[i]).0,
            (#[trigger] d[j]).0,
        ) by {
            assert(d[i] == s[i]);
            assert(d[j] == s[j]);
        }
        lemma_ins_take::<K, T>(d, x, k);
        lemma_ins_sorted::<K, T>(d, x);
        assert(first(d, k as int) =~= s.take(k as int));
        assert(ins::<K, T>(d, x).push(s.last()).take(k as int) =~= first(ins::<K, T>(d, x), k as int));
    }
}

/// Taking the first `k` after each insertion gives the first `k` of the whole stable
/// sort, so the list never needs to grow past `k + 1`.
pub proof fn lemma_isort_first_push<K: SortKey, T>(s: Seq<(K::V, T)>, x: (K::V, T), k: nat)
    ensures
        first(isort::<K, T>(s.push(x)), k as int) == first(ins::<K, T>(first(isort::<K, T>(s), k as int), x), k as int),
{
    assert(s.push(x).drop_last() =~= s);
    lemma_isort_sorted::<K, T>(s);
    lemma_ins_take::<K, T>(isort::<K, T>(s), x, k);
}

/// The first `k` elements of the stable sort of `v`, found without sorting all of it.
pub fn stable_sort_take<K: SortKey, T: View>(v: Vec<(K, T)>, k: usize) -> (r: Vec<(K, T)>)
    ensures
        kview(r@) == first(isort::<K, T::V>(kview(v@)), k as int),
{
    let ghost all = v@;
    let ghost kall = kview(all);
    let mut rev = reversed(v);
    let mut out: Vec<(K, T)> = Vec::new();
    proof {
        assert(rev@.reverse() =~= all.skip(0));
        assert(kall.take(0) =~= Seq::<(K::V, T::V)>::empty());
        assert(kview(out@) =~= first(isort::<K, T::V>(kall.take(0)), k as int));
    }
    while rev.len() > 0
        invariant
            rev@.len() <= all.len(),
            kall == kview(all),
            rev@.reverse() =~= all.skip(all.len() - rev@.len()),
            kview(out@) == first(isort::<K, T::V>(kall.take(all.len() - rev@.len())), k as int),
        decreases rev.len(),
    {
        let ghost j = all.len() - rev@.len();
        let ghost r0 = rev@;
        let x = rev.pop().unwrap();
        proof {
            assert(r0.reverse()[0] == x);
            assert(all.skip(j)[0] == all[j]);
            assert(kall.take(j + 1) =~= kall.take(j).push(x@));
            assert(rev@.reverse() =~= r0.reverse().drop_first());
            assert(all.skip(j).drop_first() =~= all.skip(j + 1));
            lemma_isort_first_push::<K, T::V>(kall.take(j), x@, k as nat);
        }
        insert_sorted(&mut out, x);
        if out.len() > k {
            let ghost o = out@;
            out.truncate(k);
            proof {
                assert(kview(out@) =~= kview(o).take(k as int));
            }
        }
    }
    proof {
        assert(kall.take(all.len() as int) =~= kall);
    }
    out
}

} // verus!
