//! Lexicographic order and sorting by an integer key.

use crate::text::{str_eq, views};
use vstd::multiset::Multiset;
use vstd::prelude::*;
use vstd::relations::total_ordering;

verus! {

/// Lexicographic order on integer sequences: a proper prefix comes first.
pub open spec fn lex_le(a: Seq<int>, b: Seq<int>) -> bool
    decreases a.len(),
{
    if a.len() == 0 {
        true
    } else if b.len() == 0 {
        false
    } else if a[0] == b[0] {
        lex_le(a.drop_first(), b.drop_first())
    } else {
        a[0] < b[0]
    }
}

/// The code points of `s`.
pub open spec fn codes(s: Seq<char>) -> Seq<int> {
    s.map_values(|c: char| c as int)
}

/// The bytes of `s` as integers.
pub open spec fn octets(s: Seq<u8>) -> Seq<int> {
    s.map_values(|b: u8| b as int)
}

/// The elements of an executable key as integers.
pub open spec fn key_ints(k: Seq<i64>) -> Seq<int> {
    k.map_values(|x: i64| x as int)
}

/// Every sequence is at most itself.
pub proof fn lemma_lex_reflexive(a: Seq<int>)
    ensures
        lex_le(a, a),
    decreases a.len(),
{
    if a.len() > 0 {
        lemma_lex_reflexive(a.drop_first());
    }
}

/// Of two sequences, one is at most the other.
pub proof fn lemma_lex_total(a: Seq<int>, b: Seq<int>)
    ensures
        lex_le(a, b) || lex_le(b, a),
    decreases a.len(),
{
    if a.len() > 0 && b.len() > 0 && a[0] == b[0] {
        lemma_lex_total(a.drop_first(), b.drop_first());
    }
}

/// Two sequences that are each at most the other are equal.
pub proof fn lemma_lex_antisymmetric(a: Seq<int>, b: Seq<int>)
    requires
        lex_le(a, b),
        lex_le(b, a),
    ensures
        a == b,
    decreases a.len(),
{
    if a.len() > 0 && b.len() > 0 {
        lemma_lex_antisymmetric(a.drop_first(), b.drop_first());
        assert(a == seq![a[0]] + a.drop_first());
        assert(b == seq![b[0]] + b.drop_first());
    } else {
        assert(a == b);
    }
}

/// The order is transitive.
pub proof fn lemma_lex_transitive(a: Seq<int>, b: Seq<int>, c: Seq<int>)
    requires
        lex_le(a, b),
        lex_le(b, c),
    ensures
        lex_le(a, c),
    decreases a.len(),
{
    if a.len() > 0 && b.len() > 0 && c.len() > 0 && a[0] == b[0] && b[0] == c[0] {
        lemma_lex_transitive(a.drop_first(), b.drop_first(), c.drop_first());
    }
}

/// A common prefix does not change how two sequences compare.
pub proof fn lemma_lex_skip(a: Seq<int>, b: Seq<int>, n: int)
    requires
        0 <= n <= a.len(),
        n <= b.len(),
        a.take(n) == b.take(n),
    ensures
        lex_le(a, b) == lex_le(a.skip(n), b.skip(n)),
    decreases n,
{
    if n > 0 {
        assert(a.take(n)[0] == a[0]);
        assert(b.take(n)[0] == b[0]);
        assert(a.drop_first().take(n - 1) == a.take(n).drop_first());
        assert(b.drop_first().take(n - 1) == b.take(n).drop_first());
        lemma_lex_skip(a.drop_first(), b.drop_first(), n - 1);
        assert(a.drop_first().skip(n - 1) == a.skip(n));
        assert(b.drop_first().skip(n - 1) == b.skip(n));
    } else {
        assert(a.skip(0) == a);
        assert(b.skip(0) == b);
    }
}

/// Whether `a` is at most `b`.
pub fn key_le(a: &Vec<i64>, b: &Vec<i64>) -> (r: bool)
    ensures
        r == lex_le(key_ints(a@), key_ints(b@)),
{
    let ghost ka = key_ints(a@);
    let ghost kb = key_ints(b@);
    let mut i: usize = 0;
    while i < a.len()
        invariant
            i <= a@.len(),
            i <= b@.len(),
            ka == key_ints(a@),
            kb == key_ints(b@),
            ka.take(i as int) == kb.take(i as int),
        decreases a.len() - i,
    {
        proof {
            lemma_lex_skip(ka, kb, i as int);
        }
        if i >= b.len() {
            return false;
        }
        if a[i] != b[i] {
            assert(ka.skip(i as int)[0] == a@[i as int]);
            assert(kb.skip(i as int)[0] == b@[i as int]);
            return a[i] < b[i];
        }
        assert(ka.take(i + 1) == ka.take(i as int).push(ka[i as int]));
        assert(kb.take(i + 1) == kb.take(i as int).push(kb[i as int]));
        i += 1;
    }
    proof {
        lemma_lex_skip(ka, kb, i as int);
    }
    true
}

/// Appends the code points of `s` to `key`.
pub fn push_codes(key: &mut Vec<i64>, s: &str)
    ensures
        key_ints(final(key)@) == key_ints(old(key)@) + codes(s@),
{
    let cs = crate::text::chars_of(s);
    let ghost start = key_ints(key@);
    let mut i: usize = 0;
    assert(start + codes(s@.take(0)) == start);
    while i < cs.len()
        invariant
            i <= cs@.len(),
            cs@ == s@,
            key_ints(key@) == start + codes(s@.take(i as int)),
        decreases cs.len() - i,
    {
        let c: i64 = (cs[i] as u32) as i64;
        proof {
            assert(s@.take(i + 1) == s@.take(i as int).push(cs@[i as int]));
            vstd::utf8::char_u32_cast(cs@[i as int], cs@[i as int] as u32);
            assert(codes(s@.take(i + 1)) == codes(s@.take(i as int)).push(c as int));
            assert(key_ints(key@.push(c)) == key_ints(key@).push(c as int));
        }
        key.push(c);
        i += 1;
    }
    assert(s@.take(i as int) == s@);
}

/// Appends one number to `key`.
pub fn push_number(key: &mut Vec<i64>, n: i64)
    ensures
        key_ints(final(key)@) == key_ints(old(key)@).push(n as int),
{
    assert(key_ints(key@.push(n)) == key_ints(key@).push(n as int));
    key.push(n);
}

/// A value that is ordered by an integer sequence.
pub trait Ranked: Sized {
    /// The sequence by which the value is ordered.
    spec fn rank(&self) -> Seq<int>;

    /// The sequence by which the value is ordered.
    fn key(&self) -> (r: Vec<i64>)
        ensures
            key_ints(r@) == self.rank(),
    ;
}

/// Whether `s` is ordered by rank.
pub open spec fn ranked<T: Ranked>(s: Seq<T>) -> bool {
    forall|i: int, j: int| 0 <= i <= j < s.len() ==> #[trigger] lex_le(s[i].rank(), s[j].rank())
}

/// How many elements of the ordered `v` rank at most `k`.
fn insertion_point<T: Ranked>(v: &Vec<T>, k: &Vec<i64>) -> (p: usize)
    requires
        ranked(v@),
    ensures
        p <= v@.len(),
        forall|i: int| 0 <= i < p ==> lex_le(#[trigger] v@[i].rank(), key_ints(k@)),
        forall|i: int| p <= i < v@.len() ==> !lex_le(#[trigger] v@[i].rank(), key_ints(k@)),
{
    let mut lo: usize = 0;
    let mut hi: usize = v.len();
    while lo < hi
        invariant
            lo <= hi <= v@.len(),
            ranked(v@),
            forall|i: int| 0 <= i < lo ==> lex_le(#[trigger] v@[i].rank(), key_ints(k@)),
            forall|i: int| hi <= i < v@.len() ==> !lex_le(#[trigger] v@[i].rank(), key_ints(k@)),
        decreases hi - lo,
    {
        let mid: usize = lo + (hi - lo) / 2;
        let mk = v[mid].key();
        if key_le(&mk, k) {
            proof {
                assert forall|i: int| 0 <= i < mid + 1 implies lex_le(
                    #[trigger] v@[i].rank(),
                    key_ints(k@),
                ) by {
                    assert(lex_le(v@[i].rank(), v@[mid as int].rank()));
                    lemma_lex_transitive(v@[i].rank(), v@[mid as int].rank(), key_ints(k@));
                }
            }
            lo = mid + 1;
        } else {
            proof {
                assert forall|i: int| mid <= i < v@.len() implies !lex_le(
                    #[trigger] v@[i].rank(),
                    key_ints(k@),
                ) by {
                    assert(lex_le(v@[mid as int].rank(), v@[i].rank()));
                    if lex_le(v@[i].rank(), key_ints(k@)) {
                        lemma_lex_transitive(v@[mid as int].rank(), v@[i].rank(), key_ints(k@));
                    }
                }
            }
            hi = mid;
        }
    }
    lo
}

/// The elements of `items`, ordered by rank.
pub fn sort<T: Ranked>(items: Vec<T>) -> (r: Vec<T>)
    ensures
        ranked(r@),
        r@.to_multiset() == items@.to_multiset(),
{
    let ghost all = items@;
    let mut rest = items;
    let mut out: Vec<T> = Vec::new();
    proof {
        all.to_multiset_ensures();
        assert(out@.to_multiset() == Multiset::<T>::empty()) by {
            broadcast use vstd::multiset::group_multiset_axioms;
            out@.to_multiset_ensures();
            assert(out@.to_multiset() =~= Multiset::<T>::empty());
        }
        assert(rest@.to_multiset().add(out@.to_multiset()) == all.to_multiset());
    }
    while rest.len() > 0
        invariant
            ranked(out@),
            rest@.to_multiset().add(out@.to_multiset()) == all.to_multiset(),
        decreases rest@.len(),
    {
        let ghost before_rest = rest@;
        let ghost before_out = out@;
        let item = rest.pop().unwrap();
        let k = item.key();
        let p = insertion_point(&out, &k);
        out.insert(p, item);
        proof {
            broadcast use vstd::multiset::group_multiset_axioms;
            before_rest.to_multiset_ensures();
            rest@.to_multiset_ensures();
            before_out.to_multiset_ensures();
            assert(before_rest == rest@.push(item));
            assert(before_rest.to_multiset() =~= rest@.to_multiset().insert(item));
            vstd::seq_lib::to_multiset_insert(before_out, p as int, item);
            assert(out@ == before_out.insert(p as int, item));
            assert(out@.to_multiset() =~= before_out.to_multiset().insert(item));
            assert(rest@.to_multiset().add(out@.to_multiset()) =~= before_rest.to_multiset().add(
                before_out.to_multiset(),
            ));
            assert forall|i: int, j: int| 0 <= i <= j < out@.len() implies #[trigger] lex_le(
                out@[i].rank(),
                out@[j].rank(),
            ) by {
                let a = if i < p { i } else { i - 1 };
                let b = if j < p { j } else { j - 1 };
                if i == p && j == p {
                    lemma_lex_reflexive(item.rank());
                } else if i == p {
                    assert(!lex_le(before_out[b].rank(), item.rank()));
                    lemma_lex_total(before_out[b].rank(), item.rank());
                } else if j == p {
                    assert(lex_le(before_out[a].rank(), item.rank()));
                } else {
                    assert(lex_le(before_out[a].rank(), before_out[b].rank()));
                }
            }
        }
    }
    proof {
        broadcast use vstd::multiset::group_multiset_axioms;
        rest@.to_multiset_ensures();
        assert(rest@ =~= Seq::<T>::empty());
        assert(rest@.to_multiset() =~= Multiset::<T>::empty());
        assert(rest@.to_multiset().add(out@.to_multiset()) =~= out@.to_multiset());
    }
    out
}

/// The order that a rank induces.
pub open spec fn rank_order<V>(rank: spec_fn(V) -> Seq<int>) -> spec_fn(V, V) -> bool {
    |a: V, b: V| lex_le(rank(a), rank(b))
}

/// Whether different values have different ranks.
pub open spec fn separates<V>(rank: spec_fn(V) -> Seq<int>) -> bool {
    forall|a: V, b: V| #[trigger] rank(a) == #[trigger] rank(b) ==> a == b
}

/// A rank that separates values orders them totally.
pub proof fn lemma_rank_order_total<V>(rank: spec_fn(V) -> Seq<int>)
    requires
        separates(rank),
    ensures
        total_ordering(rank_order(rank)),
{
    let r = rank_order(rank);
    assert forall|x: V| #[trigger] r(x, x) by {
        lemma_lex_reflexive(rank(x));
    }
    assert forall|x: V, y: V| #[trigger] r(x, y) && #[trigger] r(y, x) implies x == y by {
        lemma_lex_antisymmetric(rank(x), rank(y));
    }
    assert forall|x: V, y: V, z: V| #[trigger] r(x, y) && #[trigger] r(y, z) implies r(x, z) by {
        lemma_lex_transitive(rank(x), rank(y), rank(z));
    }
    assert forall|x: V, y: V| #[trigger] r(x, y) || #[trigger] r(y, x) by {
        lemma_lex_total(rank(x), rank(y));
    }
}

/// Mapping the elements of two rearrangements of each other gives
/// rearrangements of each other.
pub proof fn lemma_map_keeps_rearrangement<T, V>(a: Seq<T>, b: Seq<T>, f: spec_fn(T) -> V)
    requires
        a.to_multiset() == b.to_multiset(),
    ensures
        a.map_values(f).to_multiset() == b.map_values(f).to_multiset(),
    decreases a.len(),
{
    broadcast use vstd::multiset::group_multiset_axioms;
    broadcast use vstd::seq_lib::group_to_multiset_ensures;

    a.to_multiset_ensures();
    b.to_multiset_ensures();
    if a.len() == 0 {
        assert(b.len() == 0);
        assert(a.map_values(f) =~= b.map_values(f));
    } else {
        let x = a.last();
        assert(a.to_multiset().count(x) > 0);
        assert(b.contains(x));
        let k = choose|k: int| 0 <= k < b.len() && b[k] == x;
        let shorter = a.drop_last();
        assert(a == shorter.push(x));
        assert(a.to_multiset() =~= shorter.to_multiset().insert(x));
        vstd::seq_lib::to_multiset_remove(b, k);
        assert(shorter.to_multiset() =~= b.remove(k).to_multiset());
        lemma_map_keeps_rearrangement(shorter, b.remove(k), f);
        assert(a.map_values(f) =~= shorter.map_values(f).push(f(x)));
        assert(b.map_values(f).remove(k) =~= b.remove(k).map_values(f));
        vstd::seq_lib::to_multiset_remove(b.map_values(f), k);
        let mb = b.map_values(f);
        mb.to_multiset_ensures();
        assert(mb.contains(mb[k]));
        assert(mb.to_multiset().count(f(x)) > 0);
        assert(mb.to_multiset() =~= mb.remove(k).to_multiset().insert(f(x)));
        assert(a.map_values(f).to_multiset() =~= shorter.map_values(f).to_multiset().insert(f(x)));
    }
}

/// What was sorted is the sorted sequence of what the items stand for.
pub proof fn lemma_sorted_contents<T: Ranked, V>(
    sorted: Seq<T>,
    items: Seq<T>,
    content: spec_fn(T) -> V,
    rank: spec_fn(V) -> Seq<int>,
)
    requires
        ranked(sorted),
        sorted.to_multiset() == items.to_multiset(),
        separates(rank),
        forall|t: T| #[trigger] t.rank() == rank(content(t)),
    ensures
        sorted.map_values(content) == items.map_values(content).sort_by(rank_order(rank)),
{
    let leq = rank_order(rank);
    let got = sorted.map_values(content);
    let want = items.map_values(content).sort_by(leq);
    lemma_rank_order_total(rank);
    lemma_map_keeps_rearrangement(sorted, items, content);
    items.map_values(content).lemma_sort_by_ensures(leq);
    assert forall|i: int, j: int| 0 <= i < j < got.len() implies #[trigger] leq(got[i], got[j]) by {
        assert(lex_le(sorted[i].rank(), sorted[j].rank()));
    }
    vstd::seq_lib::lemma_sorted_unique(got, want, leq);
}

/// Code points are not negative.
proof fn lemma_code_not_negative(c: char)
    ensures
        c as int >= 0,
{
}

/// A rank that starts with a text and a separator tells the text and the
/// remainder apart.
pub proof fn lemma_text_rank_splits(a: Seq<char>, x: Seq<int>, b: Seq<char>, y: Seq<int>)
    requires
        codes(a) + seq![-1int] + x == codes(b) + seq![-1int] + y,
    ensures
        a == b,
        x == y,
{
    let l = codes(a) + seq![-1int] + x;
    let r = codes(b) + seq![-1int] + y;
    if a.len() < b.len() {
        assert(l[a.len() as int] == -1);
        assert(r[a.len() as int] == b[a.len() as int] as int);
        lemma_code_not_negative(b[a.len() as int]);
    }
    if b.len() < a.len() {
        assert(r[b.len() as int] == -1);
        assert(l[b.len() as int] == a[b.len() as int] as int);
        lemma_code_not_negative(a[b.len() as int]);
    }
    assert(a.len() == b.len());
    assert forall|i: int| 0 <= i < a.len() implies a[i] == b[i] by {
        assert(l[i] == a[i] as int);
        assert(r[i] == b[i] as int);
    }
    assert(a =~= b);
    assert(l.len() == a.len() + 1 + x.len());
    assert(r.len() == b.len() + 1 + y.len());
    assert forall|i: int| 0 <= i < x.len() implies x[i] == y[i] by {
        assert(l[a.len() + 1 + i] == x[i]);
        assert(r[a.len() + 1 + i] == y[i]);
    }
    assert(x =~= y);
}

/// The items of `v`, last first.
pub fn reversed<T>(v: Vec<T>) -> (r: Vec<T>)
    ensures
        r@ == v@.reverse(),
{
    let ghost all = v@;
    let mut rest = v;
    let mut out: Vec<T> = Vec::new();
    while rest.len() > 0
        invariant
            rest@.len() <= all.len(),
            rest@ == all.take(rest@.len() as int),
            out@ == all.skip(rest@.len() as int).reverse(),
        decreases rest@.len(),
    {
        let ghost n = rest@.len() as int;
        match rest.pop() {
            Some(x) => {
                assert(all.skip(n - 1).reverse() =~= all.skip(n).reverse().push(x));
                assert(rest@ =~= all.take(n - 1));
                out.push(x);
            },
            None => {},
        }
    }
    assert(all.skip(0) =~= all);
    out
}

// ---- Names -----------------------------------------------------------------

impl Ranked for String {
    open spec fn rank(&self) -> Seq<int> {
        codes(self@)
    }

    fn key(&self) -> (r: Vec<i64>) {
        let mut k: Vec<i64> = Vec::new();
        assert(key_ints(k@) =~= Seq::<int>::empty());
        push_codes(&mut k, self.as_str());
        assert(key_ints(k@) =~= codes(self@));
        k
    }
}

/// Texts in the order of their characters' codes.
pub open spec fn names_in_order(v: Seq<Seq<char>>) -> Seq<Seq<char>> {
    v.sort_by(rank_order(|s: Seq<char>| codes(s)))
}

/// The items of `v` without those that repeat their left neighbour.
pub open spec fn without_repeats(v: Seq<Seq<char>>) -> Seq<Seq<char>>
    decreases v.len(),
{
    if v.len() < 2 {
        v
    } else if v[v.len() - 2] == v.last() {
        without_repeats(v.drop_last())
    } else {
        without_repeats(v.drop_last()).push(v.last())
    }
}

/// Different texts have different codes.
proof fn lemma_codes_separate()
    ensures
        separates(|s: Seq<char>| codes(s)),
{
    let rank = |s: Seq<char>| codes(s);
    assert forall|a: Seq<char>, b: Seq<char>| #[trigger] rank(a) == #[trigger] rank(b) implies a == b by {
        assert(codes(a).len() == codes(b).len());
        assert forall|i: int| 0 <= i < a.len() implies a[i] == b[i] by {
            assert(codes(a)[i] == codes(b)[i]);
        }
        assert(a =~= b);
    }
}

/// Texts in the order of their characters' codes.
pub fn sort_names(v: Vec<String>) -> (r: Vec<String>)
    ensures
        views(r@) == names_in_order(views(v@)),
{
    let ghost before = v@;
    let out = sort(v);
    proof {
        lemma_codes_separate();
        lemma_sorted_contents(out@, before, |s: String| s@, |s: Seq<char>| codes(s));
        assert(out@.map_values(|s: String| s@) =~= views(out@));
        assert(before.map_values(|s: String| s@) =~= views(before));
    }
    out
}

/// Leaving out repetitions loses no text.
proof fn lemma_without_repeats_contents(v: Seq<Seq<char>>, x: Seq<char>)
    ensures
        without_repeats(v).contains(x) <==> v.contains(x),
    decreases v.len(),
{
    if v.len() >= 2 {
        let before = v.drop_last();
        let kept = without_repeats(before);
        lemma_without_repeats_contents(before, x);
        if v.contains(x) {
            let i = choose|i: int| 0 <= i < v.len() && v[i] == x;
            if i < v.len() - 1 {
                assert(before[i] == x);
            } else if v[v.len() - 2] == v.last() {
                assert(before[v.len() - 2] == x);
            } else {
                assert(kept.push(x)[kept.len() as int] == x);
            }
        }
        if before.contains(x) {
            let i = choose|i: int| 0 <= i < before.len() && before[i] == x;
            assert(v[i] == x);
            let k = choose|k: int| 0 <= k < kept.len() && kept[k] == x;
            assert(kept.push(v.last())[k] == x);
        }
        if without_repeats(v).contains(x) && !before.contains(x) {
            let k = choose|k: int| 0 <= k < without_repeats(v).len() && without_repeats(v)[k] == x;
            if k < kept.len() {
                assert(kept[k] == x);
            }
            assert(v[v.len() - 1] == x);
        }
    }
}

/// Each text in order, and each once, are the same texts.
pub proof fn lemma_name_set_contents(v: Seq<Seq<char>>, x: Seq<char>)
    ensures
        without_repeats(names_in_order(v)).contains(x) <==> v.contains(x),
{
    let rank = |s: Seq<char>| codes(s);
    let sorted = names_in_order(v);
    lemma_codes_separate();
    lemma_rank_order_total(rank);
    v.lemma_sort_by_ensures(rank_order(rank));
    lemma_without_repeats_contents(sorted, x);
    vstd::seq_lib::to_multiset_contains(v, x);
    vstd::seq_lib::to_multiset_contains(sorted, x);
}

/// The texts, each once, in the order of their characters' codes.
pub fn name_set(v: Vec<String>) -> (r: Vec<String>)
    ensures
        views(r@) == without_repeats(names_in_order(views(v@))),
{
    let sorted = sort_names(v);
    let ghost all = views(sorted@);
    let mut out: Vec<String> = Vec::new();
    let mut i: usize = 0;
    assert(views(out@) =~= without_repeats(all.take(0)));
    while i < sorted.len()
        invariant
            i <= sorted@.len(),
            all == views(sorted@),
            views(out@) == without_repeats(all.take(i as int)),
        decreases sorted.len() - i,
    {
        proof {
            let upto = all.take(i + 1);
            assert(upto.drop_last() =~= all.take(i as int));
            assert(upto.last() == sorted@[i as int]@);
            if i > 0 {
                assert(upto[upto.len() - 2] == sorted@[i - 1]@);
            } else {
                assert(without_repeats(upto) =~= seq![upto.last()]);
            }
        }
        if i == 0 || !str_eq(sorted[i - 1].as_str(), sorted[i].as_str()) {
            let name = sorted[i].clone();
            assert(views(out@.push(name)) =~= views(out@).push(name@));
            out.push(name);
        }
        i += 1;
    }
    assert(all.take(i as int) =~= all);
    out
}

/// Of two texts the one that comes first is decided by the first character in
/// which they differ, and a text comes before those that go on behind it.
pub proof fn the_first_difference_decides(p: Seq<char>, x: char, s: Seq<char>, y: char, t: Seq<char>)
    requires
        x < y,
    ensures
        lex_le(codes(p + seq![x] + s), codes(p + seq![y] + t)),
        !lex_le(codes(p + seq![y] + t), codes(p + seq![x] + s)),
        lex_le(codes(p), codes(p + s)),
        s.len() > 0 ==> !lex_le(codes(p + s), codes(p)),
{
    let n = p.len() as int;
    let a = codes(p + seq![x] + s);
    let b = codes(p + seq![y] + t);
    assert(a.take(n) =~= codes(p));
    assert(b.take(n) =~= codes(p));
    lemma_lex_skip(a, b, n);
    lemma_lex_skip(b, a, n);
    assert(a.skip(n)[0] == x as int && b.skip(n)[0] == y as int);
    let c = codes(p);
    let d = codes(p + s);
    assert(c.take(n) =~= c);
    assert(d.take(n) =~= c);
    lemma_lex_skip(c, d, n);
    lemma_lex_skip(d, c, n);
    assert(c.skip(n).len() == 0);
}

/// Sorted names rise from first to last, and are the names that were given.
pub proof fn sorted_names_rise(v: Seq<Seq<char>>, i: int, j: int)
    requires
        0 <= i < j < names_in_order(v).len(),
    ensures
        lex_le(codes(names_in_order(v)[i]), codes(names_in_order(v)[j])),
        names_in_order(v).to_multiset() == v.to_multiset(),
{
    let rank = |s: Seq<char>| codes(s);
    let leq = rank_order(rank);
    lemma_codes_separate();
    lemma_rank_order_total(rank);
    v.lemma_sort_by_ensures(leq);
    let r = names_in_order(v);
    assert(leq(r[i], r[j]));
}

} // verus!
