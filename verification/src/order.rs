//! Orders used by the library's sorts: the order of `String` (character by
//! character), the order of `Vec<String>` (string by string), and a stable
//! insertion sort by key.
use vstd::prelude::*;
use vstd::relations::sorted_by;
use crate::text::chars_of;

verus! {

/// Lexicographic comparison of two sequences, given a strict order `lt` on the items:
/// `a <= b`.
pub open spec fn lex_le<A>(a: Seq<A>, b: Seq<A>, lt: spec_fn(A, A) -> bool) -> bool
    decreases a.len(),
{
    if a.len() == 0 {
        true
    } else if b.len() == 0 {
        false
    } else if a[0] == b[0] {
        lex_le(a.drop_first(), b.drop_first(), lt)
    } else {
        lt(a[0], b[0])
    }
}

/// `lt` is a strict total order.
pub open spec fn strict_order<A>(lt: spec_fn(A, A) -> bool) -> bool {
    &&& forall|x: A| !#[trigger] lt(x, x)
    &&& forall|x: A, y: A, z: A| #[trigger] lt(x, y) && #[trigger] lt(y, z) ==> lt(x, z)
    &&& forall|x: A, y: A| x != y ==> #[trigger] lt(x, y) || #[trigger] lt(y, x)
}

/// The lexicographic order is reflexive.
pub proof fn lemma_lex_refl<A>(a: Seq<A>, lt: spec_fn(A, A) -> bool)
    ensures
        lex_le(a, a, lt),
    decreases a.len(),
{
    if a.len() > 0 {
        lemma_lex_refl(a.drop_first(), lt);
    }
}

/// The lexicographic order of a strict order is antisymmetric.
pub proof fn lemma_lex_antisym<A>(a: Seq<A>, b: Seq<A>, lt: spec_fn(A, A) -> bool)
    requires
        strict_order(lt),
        lex_le(a, b, lt),
        lex_le(b, a, lt),
    ensures
        a == b,
    decreases a.len(),
{
    if a.len() == 0 {
        assert(a =~= b);
    } else if a[0] == b[0] {
        lemma_lex_antisym(a.drop_first(), b.drop_first(), lt);
        assert(a =~= seq![a[0]] + a.drop_first());
        assert(b =~= seq![b[0]] + b.drop_first());
    } else {
        assert(lt(a[0], b[0]) && lt(b[0], a[0]));
        assert(lt(a[0], a[0]));
    }
}

/// The lexicographic order of a strict order is transitive.
pub proof fn lemma_lex_trans<A>(a: Seq<A>, b: Seq<A>, c: Seq<A>, lt: spec_fn(A, A) -> bool)
    requires
        strict_order(lt),
        lex_le(a, b, lt),
        lex_le(b, c, lt),
    ensures
        lex_le(a, c, lt),
    decreases a.len(),
{
    if a.len() > 0 {
        if a[0] == b[0] && b[0] == c[0] {
            lemma_lex_trans(a.drop_first(), b.drop_first(), c.drop_first(), lt);
        } else if a[0] != b[0] && b[0] != c[0] {
            assert(lt(a[0], b[0]) && lt(b[0], c[0]));
            assert(lt(a[0], c[0]));
            if a[0] == c[0] {
                assert(lt(a[0], a[0]));
            }
        }
    }
}

/// The lexicographic order of a strict total order is total.
pub proof fn lemma_lex_total<A>(a: Seq<A>, b: Seq<A>, lt: spec_fn(A, A) -> bool)
    requires
        strict_order(lt),
    ensures
        lex_le(a, b, lt) || lex_le(b, a, lt),
    decreases a.len(),
{
    if a.len() > 0 && b.len() > 0 {
        if a[0] == b[0] {
            lemma_lex_total(a.drop_first(), b.drop_first(), lt);
        } else {
            assert(lt(a[0], b[0]) || lt(b[0], a[0]));
        }
    }
}

/// When `a` and `b` agree on their first `i` items, comparing them is comparing what follows.
pub proof fn lemma_lex_skip<A>(a: Seq<A>, b: Seq<A>, i: int, lt: spec_fn(A, A) -> bool)
    requires
        0 <= i <= a.len(),
        i <= b.len(),
        a.take(i) == b.take(i),
    ensures
        lex_le(a, b, lt) == lex_le(a.skip(i), b.skip(i), lt),
    decreases i,
{
    if i > 0 {
        assert(a[0] == a.take(i)[0] && b[0] == b.take(i)[0]);
        assert(a.drop_first().take(i - 1) =~= a.take(i).drop_first());
        assert(b.drop_first().take(i - 1) =~= b.take(i).drop_first());
        lemma_lex_skip(a.drop_first(), b.drop_first(), i - 1, lt);
        assert(a.drop_first().skip(i - 1) =~= a.skip(i));
        assert(b.drop_first().skip(i - 1) =~= b.skip(i));
    } else {
        assert(a.skip(0) =~= a);
        assert(b.skip(0) =~= b);
    }
}

/// The order of characters (by code point, which is also the order of their UTF-8 bytes).
pub open spec fn char_lt(x: char, y: char) -> bool {
    (x as int) < (y as int)
}

/// The strict order of characters, as a function.
pub open spec fn char_order() -> spec_fn(char, char) -> bool {
    |x: char, y: char| char_lt(x, y)
}

/// The strict order of strings, as a function.
pub open spec fn str_order() -> spec_fn(Seq<char>, Seq<char>) -> bool {
    |x: Seq<char>, y: Seq<char>| str_lt(x, y)
}

/// The order of `String`: `a <= b`.
pub open spec fn str_le(a: Seq<char>, b: Seq<char>) -> bool {
    lex_le(a, b, char_order())
}

/// Strictly smaller string.
pub open spec fn str_lt(a: Seq<char>, b: Seq<char>) -> bool {
    str_le(a, b) && a != b
}

/// The order of `Vec<String>`: `a <= b`.
pub open spec fn strs_le(a: Seq<Seq<char>>, b: Seq<Seq<char>>) -> bool {
    lex_le(a, b, str_order())
}

/// Characters are strictly and totally ordered by code point.
pub proof fn lemma_char_strict_order()
    ensures
        strict_order(char_order()),
{
    assert forall|x: char, y: char| x != y implies #[trigger] char_lt(x, y) || #[trigger] char_lt(y, x) by {
        if (x as int) == (y as int) {
            assert(x == y);
        }
    }
}

/// The order of strings is a total order.
pub proof fn lemma_str_le_total_order(a: Seq<char>, b: Seq<char>, c: Seq<char>)
    ensures
        str_le(a, a),
        str_le(a, b) || str_le(b, a),
        str_le(a, b) && str_le(b, a) ==> a == b,
        str_le(a, b) && str_le(b, c) ==> str_le(a, c),
{
    let lt = char_order();
    lemma_char_strict_order();
    lemma_lex_refl(a, lt);
    lemma_lex_total(a, b, lt);
    if str_le(a, b) && str_le(b, a) {
        lemma_lex_antisym(a, b, lt);
    }
    if str_le(a, b) && str_le(b, c) {
        lemma_lex_trans(a, b, c, lt);
    }
}

/// The strict order of strings is a strict total order.
pub proof fn lemma_str_strict_order()
    ensures
        strict_order(str_order()),
{
    assert forall|x: Seq<char>, y: Seq<char>, z: Seq<char>|
        #[trigger] str_lt(x, y) && #[trigger] str_lt(y, z) implies str_lt(x, z) by {
        lemma_str_le_total_order(x, y, z);
        lemma_str_le_total_order(x, z, y);
    }
    assert forall|x: Seq<char>, y: Seq<char>|
        x != y implies #[trigger] str_lt(x, y) || #[trigger] str_lt(y, x) by {
        lemma_str_le_total_order(x, y, x);
    }
}

/// The order of lists of strings is a total order.
pub proof fn lemma_strs_le_total_order(a: Seq<Seq<char>>, b: Seq<Seq<char>>, c: Seq<Seq<char>>)
    ensures
        strs_le(a, a),
        strs_le(a, b) || strs_le(b, a),
        strs_le(a, b) && strs_le(b, a) ==> a == b,
        strs_le(a, b) && strs_le(b, c) ==> strs_le(a, c),
{
    let lt = str_order();
    lemma_str_strict_order();
    lemma_lex_refl(a, lt);
    lemma_lex_total(a, b, lt);
    if strs_le(a, b) && strs_le(b, a) {
        lemma_lex_antisym(a, b, lt);
    }
    if strs_le(a, b) && strs_le(b, c) {
        lemma_lex_trans(a, b, c, lt);
    }
}

/// `a <= b` in the order of `String`.
pub fn chars_le(a: &Vec<char>, b: &Vec<char>) -> (r: bool)
    ensures
        r == str_le(a@, b@),
{
    let mut i: usize = 0;
    while i < a.len() && i < b.len()
        invariant
            i <= a.len(),
            i <= b.len(),
            a@.take(i as int) == b@.take(i as int),
        decreases a.len() - i,
    {
        if a[i] != b[i] {
            proof {
                lemma_lex_skip(a@, b@, i as int, char_order());
                assert(a@.skip(i as int)[0] == a@[i as int]);
                assert(b@.skip(i as int)[0] == b@[i as int]);
                assert(a@.skip(i as int).len() > 0 && b@.skip(i as int).len() > 0);
                assert(lex_le(a@.skip(i as int), b@.skip(i as int), char_order()) == char_lt(a@[i as int], b@[i as int]));
            }
            let r = a[i] < b[i];
            assert(r == char_lt(a@[i as int], b@[i as int]));
            return r;
        }
        assert(a@.take(i + 1) =~= a@.take(i as int).push(a@[i as int]));
        assert(b@.take(i + 1) =~= b@.take(i as int).push(b@[i as int]));
        i += 1;
    }
    proof {
        lemma_lex_skip(a@, b@, i as int, char_order());
    }
    i == a.len()
}

/// `a <= b` in the order of `String`.
pub fn string_le(a: &String, b: &String) -> (r: bool)
    ensures
        r == str_le(a@, b@),
{
    chars_le(&chars_of(a.as_str()), &chars_of(b.as_str()))
}

/// `a <= b` in the order of `Vec<String>`.
pub fn strings_le(a: &Vec<String>, b: &Vec<String>) -> (r: bool)
    ensures
        r == strs_le(a.deep_view(), b.deep_view()),
{
    let ghost av = a.deep_view();
    let ghost bv = b.deep_view();
    let mut i: usize = 0;
    while i < a.len() && i < b.len()
        invariant
            i <= a.len(),
            i <= b.len(),
            av == a.deep_view(),
            bv == b.deep_view(),
            av.take(i as int) == bv.take(i as int),
        decreases a.len() - i,
    {
        if a[i] != b[i] {
            proof {
                lemma_lex_skip(av, bv, i as int, str_order());
                assert(av.skip(i as int)[0] == av[i as int]);
                assert(bv.skip(i as int)[0] == bv[i as int]);
                assert(av[i as int] == a@[i as int]@);
                assert(bv[i as int] == b@[i as int]@);
            }
            return string_le(&a[i], &b[i]);
        }
        assert(av.take(i + 1) =~= av.take(i as int).push(av[i as int]));
        assert(bv.take(i + 1) =~= bv.take(i as int).push(bv[i as int]));
        i += 1;
    }
    proof {
        lemma_lex_skip(av, bv, i as int, str_order());
    }
    i == a.len()
}

} // verus!

verus! {

/// A type whose values are keys of a total order (reflexive, total, transitive).
pub trait SortKey: Sized {
    spec fn key_le(self, other: Self) -> bool;

    proof fn lemma_key_order(a: Self, b: Self, c: Self)
        ensures
            a.key_le(a),
            a.key_le(b) || b.key_le(a),
            a.key_le(b) && b.key_le(c) ==> a.key_le(c),
    ;

    fn key_le_exec(&self, other: &Self) -> (r: bool)
        ensures
            r == self.key_le(*other),
    ;
}

impl SortKey for usize {
    open spec fn key_le(self, other: Self) -> bool {
        self <= other
    }

    proof fn lemma_key_order(a: Self, b: Self, c: Self) {
    }

    fn key_le_exec(&self, other: &Self) -> (r: bool) {
        *self <= *other
    }
}

impl SortKey for String {
    open spec fn key_le(self, other: Self) -> bool {
        str_le(self@, other@)
    }

    proof fn lemma_key_order(a: Self, b: Self, c: Self) {
        lemma_str_le_total_order(a@, b@, c@);
    }

    fn key_le_exec(&self, other: &Self) -> (r: bool) {
        string_le(self, other)
    }
}

impl SortKey for Vec<String> {
    open spec fn key_le(self, other: Self) -> bool {
        strs_le(self.deep_view(), other.deep_view())
    }

    proof fn lemma_key_order(a: Self, b: Self, c: Self) {
        lemma_strs_le_total_order(a.deep_view(), b.deep_view(), c.deep_view());
    }

    fn key_le_exec(&self, other: &Self) -> (r: bool) {
        strings_le(self, other)
    }
}

impl<K: SortKey, T> SortKey for (K, T) {
    open spec fn key_le(self, other: Self) -> bool {
        self.0.key_le(other.0)
    }

    proof fn lemma_key_order(a: Self, b: Self, c: Self) {
        K::lemma_key_order(a.0, b.0, c.0);
    }

    fn key_le_exec(&self, other: &Self) -> (r: bool) {
        self.0.key_le_exec(&other.0)
    }
}

/// The items of `s` are in ascending order of their keys.
pub open spec fn keys_sorted<K: SortKey>(s: Seq<K>) -> bool {
    forall|i: int, j: int| 0 <= i < j < s.len() ==> (#[trigger] s[i]).key_le(#[trigger] s[j])
}

/// The order of `Vec<String>` (on their views), as a relation.
pub open spec fn strs_leq() -> spec_fn(Seq<Seq<char>>, Seq<Seq<char>>) -> bool {
    |a: Seq<Seq<char>>, b: Seq<Seq<char>>| strs_le(a, b)
}

/// The order of lists of strings, as a relation, is a total ordering.
pub proof fn lemma_strs_leq_total_ordering()
    ensures
        vstd::relations::total_ordering(strs_leq()),
{
    assert forall|a: Seq<Seq<char>>, b: Seq<Seq<char>>, c: Seq<Seq<char>>|
        #[trigger] strs_leq()(a, b) && #[trigger] strs_leq()(b, c) implies strs_leq()(a, c) by {
        lemma_strs_le_total_order(a, b, c);
    }
    assert forall|a: Seq<Seq<char>>, b: Seq<Seq<char>>|
        #[trigger] strs_leq()(a, b) && #[trigger] strs_leq()(b, a) implies a == b by {
        lemma_strs_le_total_order(a, b, a);
    }
    assert forall|a: Seq<Seq<char>>, b: Seq<Seq<char>>|
        #[trigger] strs_leq()(a, b) || #[trigger] strs_leq()(b, a) by {
        lemma_strs_le_total_order(a, b, a);
    }
    assert forall|a: Seq<Seq<char>>| #[trigger] strs_leq()(a, a) by {
        lemma_strs_le_total_order(a, a, a);
    }
}

/// Two sequences that are sorted by the same total order and hold the same
/// items are equal.
pub proof fn lemma_sorted_unique<A>(a: Seq<A>, b: Seq<A>, leq: spec_fn(A, A) -> bool)
    requires
        vstd::relations::total_ordering(leq),
        sorted_by(a, leq),
        sorted_by(b, leq),
        a.to_multiset() == b.to_multiset(),
    ensures
        a == b,
    decreases a.len(),
{
    broadcast use vstd::seq_lib::group_to_multiset_ensures;
    broadcast use vstd::multiset::group_multiset_axioms;

    a.to_multiset_ensures();
    b.to_multiset_ensures();
    if a.len() == 0 {
        assert(b.len() == 0);
        assert(a =~= b);
    } else {
        assert(b.len() == a.len());
        assert(a.contains(a[0]));
        assert(b.to_multiset().count(a[0]) > 0);
        assert(b.contains(a[0]));
        let k = choose|k: int| 0 <= k < b.len() && b[k] == a[0];
        assert(b.contains(b[0]));
        assert(a.to_multiset().count(b[0]) > 0);
        assert(a.contains(b[0]));
        let m = choose|m: int| 0 <= m < a.len() && a[m] == b[0];
        if m > 0 {
            assert(leq(a[0], a[m]));
        }
        if k > 0 {
            assert(leq(b[0], b[k]));
        }
        assert(a[0] == b[0]);
        assert(a.drop_first() =~= a.remove(0));
        assert(b.drop_first() =~= b.remove(0));
        assert(a.drop_first().to_multiset() =~= b.drop_first().to_multiset());
        lemma_sorted_unique(a.drop_first(), b.drop_first(), leq);
        assert(a =~= seq![a[0]] + a.drop_first());
        assert(b =~= seq![b[0]] + b.drop_first());
    }
}

/// Mapping two sequences with the same items gives sequences with the same items.
pub proof fn lemma_map_multiset<A, B>(s: Seq<A>, t: Seq<A>, f: spec_fn(A) -> B)
    requires
        s.to_multiset() == t.to_multiset(),
    ensures
        s.map_values(f).to_multiset() == t.map_values(f).to_multiset(),
    decreases s.len(),
{
    broadcast use vstd::seq_lib::group_to_multiset_ensures;
    broadcast use vstd::multiset::group_multiset_axioms;

    s.to_multiset_ensures();
    t.to_multiset_ensures();
    if s.len() == 0 {
        assert(t.len() == 0);
        assert(s.map_values(f) =~= t.map_values(f));
    } else {
        assert(s.contains(s[0]));
        assert(t.to_multiset().count(s[0]) > 0);
        assert(t.contains(s[0]));
        let k = choose|k: int| 0 <= k < t.len() && t[k] == s[0];
        let t2 = t.remove(k);
        assert(s.drop_first() =~= s.remove(0));
        assert(t2.to_multiset() =~= t.to_multiset().remove(s[0]));
        assert(s.drop_first().to_multiset() =~= s.to_multiset().remove(s[0]));
        lemma_map_multiset(s.drop_first(), t2, f);
        let ms = s.map_values(f);
        let mt = t.map_values(f);
        ms.to_multiset_ensures();
        mt.to_multiset_ensures();
        assert(ms.remove(0) =~= s.drop_first().map_values(f));
        assert(mt.remove(k) =~= t2.map_values(f));
        assert(ms[0] == mt[k]);
        assert(ms.to_multiset() =~= ms.remove(0).to_multiset().insert(ms[0]));
        assert(mt.to_multiset() =~= mt.remove(k).to_multiset().insert(mt[k]));
    }
}

proof fn lemma_insert_multiset<A>(s: Seq<A>, pos: int, x: A)
    requires
        0 <= pos <= s.len(),
    ensures
        s.insert(pos, x).to_multiset() =~= s.to_multiset().insert(x),
{
    broadcast use vstd::seq_lib::group_to_multiset_ensures;

    let a = s.subrange(0, pos);
    let b = s.subrange(pos, s.len() as int);
    assert(s =~= a + b);
    assert(s.insert(pos, x) =~= a.push(x) + b);
    vstd::seq_lib::lemma_multiset_commutative(a, b);
    vstd::seq_lib::lemma_multiset_commutative(a.push(x), b);
    broadcast use vstd::multiset::group_multiset_axioms;

}

/// The items whose key is equivalent to the key of `y`.
pub open spec fn same_key<K: SortKey>(y: K) -> spec_fn(K) -> bool {
    |x: K| x.key_le(y) && y.key_le(x)
}

/// Inserting `x` behind every item whose key is at most its own, in a sorted
/// sequence, adds `x` at the end of the items with its key and leaves the
/// items of every other key as they were.
proof fn lemma_insert_same_key<K: SortKey>(out: Seq<K>, pos: int, x: K, y: K)
    requires
        keys_sorted(out),
        0 <= pos <= out.len(),
        pos < out.len() ==> !out[pos].key_le(x),
    ensures
        out.insert(pos, x).filter(same_key(y)) == if same_key(y)(x) {
            out.filter(same_key(y)).push(x)
        } else {
            out.filter(same_key(y))
        },
{
    broadcast use vstd::seq_lib::group_seq_properties;

    let a = out.subrange(0, pos);
    let b = out.subrange(pos, out.len() as int);
    let p = same_key(y);
    assert(out =~= a + b);
    assert(out.insert(pos, x) =~= (a + seq![x]) + b);
    Seq::filter_distributes_over_add(a, b, p);
    Seq::filter_distributes_over_add(a + seq![x], b, p);
    Seq::filter_distributes_over_add(a, seq![x], p);
    assert(seq![x].filter(p) == if p(x) { seq![x] } else { Seq::<K>::empty() }) by {
        reveal(Seq::filter);
        assert(seq![x].drop_last() =~= Seq::<K>::empty());
    }
    if p(x) {
        assert forall|j: int| 0 <= j < b.len() implies !p(#[trigger] b[j]) by {
            let z = b[j];
            assert(z == out[pos + j]);
            if j > 0 {
                assert(out[pos].key_le(out[pos + j]));
            } else {
                K::lemma_key_order(out[pos], out[pos], out[pos]);
            }
            K::lemma_key_order(z, y, x);
            K::lemma_key_order(out[pos], z, x);
        }
        assert(b.all(|z: K| !p(z)));
        b.lemma_all_neg_filter_empty(p);
        assert(b.filter(p) =~= Seq::<K>::empty());
        assert(a.filter(p) + seq![x] =~= a.filter(p).push(x));
        assert(out.filter(p) =~= a.filter(p));
    } else {
        assert(a.filter(p) + Seq::<K>::empty() =~= a.filter(p));
    }
}

/// Stable insertion sort by key (what `sort` and `sort_by_key` do): the items
/// in ascending order of their keys, and the items of one key in the order
/// they came in.
pub fn sort_by_key<K: SortKey>(v: Vec<K>) -> (r: Vec<K>)
    ensures
        keys_sorted(r@),
        r@.to_multiset() =~= v@.to_multiset(),
        r@.len() == v@.len(),
        forall|y: K| #[trigger] r@.filter(same_key(y)) == v@.filter(same_key(y)),
{
    broadcast use vstd::seq_lib::group_to_multiset_ensures;
    broadcast use vstd::multiset::group_multiset_axioms;

    let mut rest = v;
    let mut out: Vec<K> = Vec::new();
    assert(out@.to_multiset() =~= vstd::multiset::Multiset::empty());
    assert forall|y: K| #[trigger] v@.filter(same_key(y)) == out@.filter(same_key(y)) + rest@.filter(same_key(y)) by {
        assert(out@.filter(same_key(y)) =~= Seq::<K>::empty()) by {
            reveal(Seq::filter);
        }
        assert(Seq::<K>::empty() + rest@.filter(same_key(y)) =~= rest@.filter(same_key(y)));
    }
    while rest.len() > 0
        invariant
            keys_sorted(out@),
            out@.to_multiset().add(rest@.to_multiset()) =~= v@.to_multiset(),
            forall|y: K| #[trigger] v@.filter(same_key(y)) == out@.filter(same_key(y)) + rest@.filter(same_key(y)),
        decreases rest.len(),
    {
        let ghost old_rest = rest@;
        let x = rest.remove(0);
        assert(old_rest.to_multiset() =~= rest@.to_multiset().insert(x)) by {
            assert(old_rest.remove(0) =~= rest@);
            assert(old_rest[0] == x);
            assert(old_rest.contains(x));
            old_rest.to_multiset_ensures();
            assert(old_rest.to_multiset().count(x) > 0);
            assert(rest@.to_multiset() =~= old_rest.to_multiset().remove(x));
        }
        let mut pos: usize = 0;
        while pos < out.len() && out[pos].key_le_exec(&x)
            invariant
                pos <= out.len(),
                forall|i: int| 0 <= i < pos ==> (#[trigger] out@[i]).key_le(x),
            decreases out.len() - pos,
        {
            pos += 1;
        }
        let ghost old_out = out@;
        proof {
            lemma_insert_multiset(old_out, pos as int, x);
            old_out.insert_ensures(pos as int, x);
            assert forall|y: K| #[trigger] v@.filter(same_key(y)) == old_out.insert(pos as int, x).filter(
                same_key(y),
            ) + rest@.filter(same_key(y)) by {
                lemma_insert_same_key(old_out, pos as int, x, y);
                assert(old_rest =~= seq![x] + rest@);
                rest@.lemma_filter_prepend(x, same_key(y));
                if same_key(y)(x) {
                    assert(old_out.filter(same_key(y)) + (seq![x] + rest@.filter(same_key(y)))
                        =~= old_out.filter(same_key(y)).push(x) + rest@.filter(same_key(y)));
                } else {
                    assert(Seq::<K>::empty() + rest@.filter(same_key(y)) =~= rest@.filter(same_key(y)));
                }
            }
        }
        out.insert(pos, x);
        proof {
            assert forall|i: int, j: int| 0 <= i < j < out@.len() implies (#[trigger] out@[i]).key_le(
                #[trigger] out@[j],
            ) by {
                if j < pos {
                    assert(out@[i] == old_out[i] && out@[j] == old_out[j]);
                } else if i < pos && j == pos {
                    assert(out@[i] == old_out[i]);
                } else if i < pos {
                    assert(out@[i] == old_out[i] && out@[j] == old_out[j - 1]);
                } else if i == pos {
                    assert(out@[j] == old_out[j - 1]);
                    K::lemma_key_order(old_out[pos as int], x, old_out[j - 1]);
                    K::lemma_key_order(x, old_out[pos as int], old_out[j - 1]);
                } else {
                    assert(out@[i] == old_out[i - 1] && out@[j] == old_out[j - 1]);
                }
            }
        }
    }
    assert(rest@.to_multiset() =~= vstd::multiset::Multiset::empty());
    assert(out@.to_multiset().len() == v@.to_multiset().len());
    assert forall|y: K| #[trigger] out@.filter(same_key(y)) == v@.filter(same_key(y)) by {
        assert(rest@ =~= Seq::<K>::empty());
        assert(rest@.filter(same_key(y)) =~= Seq::<K>::empty()) by {
            reveal(Seq::filter);
        }
        assert(out@.filter(same_key(y)) + rest@.filter(same_key(y)) =~= out@.filter(same_key(y)));
    }
    out
}

/// Mapping by `f` and then keeping what satisfies `p` is keeping what
/// satisfies `p` after `f` (that is, `q`) and then mapping.
pub proof fn lemma_map_filter_commute<A, B>(s: Seq<A>, f: spec_fn(A) -> B, p: spec_fn(B) -> bool, q: spec_fn(A) -> bool)
    requires
        forall|a: A| #[trigger] q(a) == p(f(a)),
    ensures
        s.map_values(f).filter(p) == s.filter(q).map_values(f),
    decreases s.len(),
{
    reveal(Seq::filter);
    if s.len() == 0 {
        assert(s.map_values(f).filter(p) =~= s.filter(q).map_values(f));
    } else {
        lemma_map_filter_commute(s.drop_last(), f, p, q);
        assert(s.map_values(f).drop_last() =~= s.drop_last().map_values(f));
        if q(s.last()) {
            assert(s.filter(q).map_values(f) =~= s.drop_last().filter(q).map_values(f).push(f(s.last())));
        }
    }
}

/// Keeping the items of `s` that satisfy `p` or those that satisfy `q` gives
/// the same where `p` and `q` agree on every item of `s`.
pub proof fn lemma_filter_agree<A>(s: Seq<A>, p: spec_fn(A) -> bool, q: spec_fn(A) -> bool)
    requires
        forall|i: int| 0 <= i < s.len() ==> p(#[trigger] s[i]) == q(s[i]),
    ensures
        s.filter(p) == s.filter(q),
    decreases s.len(),
{
    reveal(Seq::filter);
    if s.len() > 0 {
        assert forall|i: int| 0 <= i < s.drop_last().len() implies p(#[trigger] s.drop_last()[i]) == q(
            s.drop_last()[i],
        ) by {
            assert(s.drop_last()[i] == s[i]);
        }
        lemma_filter_agree(s.drop_last(), p, q);
    }
}

/// The results whose name, as `name` gives it, is `y`.
pub open spec fn name_is<B>(name: spec_fn(B) -> Seq<char>, y: Seq<char>) -> spec_fn(B) -> bool {
    |b: B| name(b) == y
}

/// Pairs sorted stably by a name (their first part), then turned into
/// results by `f` whose name `name` gives back: the results with one name come
/// in the order they came in.
pub proof fn lemma_stable_by_name<T, B>(
    kd: Seq<(String, T)>,
    sk: Seq<(String, T)>,
    f: spec_fn((String, T)) -> B,
    name: spec_fn(B) -> Seq<char>,
    y: Seq<char>,
)
    requires
        sk.to_multiset() == kd.to_multiset(),
        forall|z: (String, T)| #[trigger] sk.filter(same_key(z)) == kd.filter(same_key(z)),
        forall|k: int| 0 <= k < kd.len() ==> name(f(#[trigger] kd[k])) == kd[k].0@,
    ensures
        sk.map_values(f).filter(name_is(name, y)) == kd.map_values(f).filter(name_is(name, y)),
{
    broadcast use vstd::seq_lib::group_to_multiset_ensures;

    let p = name_is(name, y);
    let q = |pr: (String, T)| name(f(pr)) == y;
    lemma_map_filter_commute(sk, f, p, q);
    lemma_map_filter_commute(kd, f, p, q);
    assert forall|i: int| 0 <= i < sk.len() implies name(f(#[trigger] sk[i])) == sk[i].0@ by {
        assert(sk.contains(sk[i]));
        assert(sk.to_multiset().count(sk[i]) > 0);
        assert(kd.contains(sk[i]));
        let k = choose|k: int| 0 <= k < kd.len() && kd[k] == sk[i];
        assert(name(f(kd[k])) == kd[k].0@);
    }
    if exists|k: int| 0 <= k < kd.len() && (#[trigger] kd[k]).0@ == y {
        let k = choose|k: int| 0 <= k < kd.len() && (#[trigger] kd[k]).0@ == y;
        let z = kd[k];
        assert forall|i: int| 0 <= i < sk.len() implies q(#[trigger] sk[i]) == same_key(z)(sk[i]) by {
            lemma_str_le_total_order(sk[i].0@, y, y);
        }
        assert forall|i: int| 0 <= i < kd.len() implies q(#[trigger] kd[i]) == same_key(z)(kd[i]) by {
            lemma_str_le_total_order(kd[i].0@, y, y);
        }
        lemma_filter_agree(sk, q, same_key(z));
        lemma_filter_agree(kd, q, same_key(z));
    } else {
        assert forall|i: int| 0 <= i < kd.len() implies !q(#[trigger] kd[i]) by {
            assert(name(f(kd[i])) == kd[i].0@);
        }
        assert forall|i: int| 0 <= i < sk.len() implies !q(#[trigger] sk[i]) by {
            assert(sk.contains(sk[i]));
            assert(sk.to_multiset().count(sk[i]) > 0);
            assert(kd.contains(sk[i]));
            let k = choose|k: int| 0 <= k < kd.len() && kd[k] == sk[i];
            assert(!q(kd[k]));
        }
        assert(kd.all(|pr: (String, T)| !q(pr)));
        assert(sk.all(|pr: (String, T)| !q(pr)));
        kd.lemma_all_neg_filter_empty(q);
        sk.lemma_all_neg_filter_empty(q);
        assert(kd.filter(q) =~= sk.filter(q));
    }
}

} // verus!
