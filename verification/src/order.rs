//! Stable ordering by a key made of a flag and a text: used to sort the
//! installed applications by name and the running dock items by
//! (inactive, lowercase label).
use vstd::prelude::*;

use crate::text::{lex_lt, str_lt};

verus! {

/// Lexicographic order on character sequences is irreflexive.
pub proof fn lemma_lex_lt_irreflexive(a: Seq<char>)
    ensures
        !lex_lt(a, a),
    decreases a.len(),
{
    if a.len() > 0 {
        lemma_lex_lt_irreflexive(a.drop_first());
    }
}

/// Lexicographic order on character sequences is transitive.
pub proof fn lemma_lex_lt_transitive(a: Seq<char>, b: Seq<char>, c: Seq<char>)
    requires
        lex_lt(a, b),
        lex_lt(b, c),
    ensures
        lex_lt(a, c),
    decreases a.len(),
{
    if a.len() > 0 && b.len() > 0 && c.len() > 0 {
        if a[0] == b[0] && b[0] == c[0] {
            lemma_lex_lt_transitive(a.drop_first(), b.drop_first(), c.drop_first());
        }
    }
}

/// Lexicographic order on character sequences is total.
pub proof fn lemma_lex_lt_total(a: Seq<char>, b: Seq<char>)
    ensures
        a == b || lex_lt(a, b) || lex_lt(b, a),
    decreases a.len(),
{
    if a.len() > 0 && b.len() > 0 {
        if a[0] == b[0] {
            lemma_lex_lt_total(a.drop_first(), b.drop_first());
            if a.drop_first() == b.drop_first() {
                assert(a =~= seq![a[0]] + a.drop_first());
                assert(b =~= seq![b[0]] + b.drop_first());
            }
        }
    } else if a.len() == 0 && b.len() == 0 {
        assert(a =~= b);
    }
}

/// A sort key: a flag (false sorts first) and a text.
pub struct SortKey {
    pub late: bool,
    pub text: Vec<char>,
}

/// The view of a sort key.
pub open spec fn key_view(k: SortKey) -> (bool, Seq<char>) {
    (k.late, k.text@)
}

/// The views of a list of sort keys.
pub open spec fn keys_view(ks: Seq<SortKey>) -> Seq<(bool, Seq<char>)> {
    ks.map_values(|k: SortKey| key_view(k))
}

/// Strict order on keys: by flag, then by text.
pub open spec fn key_lt(a: (bool, Seq<char>), b: (bool, Seq<char>)) -> bool {
    (!a.0 && b.0) || (a.0 == b.0 && lex_lt(a.1, b.1))
}

/// Whether position `i` comes before position `j` in the stable order of
/// `keys`: a smaller key first, equal keys in their original order.
pub open spec fn stable_before(keys: Seq<(bool, Seq<char>)>, i: int, j: int) -> bool {
    key_lt(keys[i], keys[j]) || (keys[i] == keys[j] && i < j)
}

/// `order` lists every position of `keys` once, in the stable sorted order.
pub open spec fn is_stable_order(keys: Seq<(bool, Seq<char>)>, order: Seq<usize>) -> bool {
    &&& order.len() == keys.len()
    &&& forall|i: int| 0 <= i < order.len() ==> (#[trigger] order[i]) < keys.len()
    &&& forall|i: int, j: int|
        0 <= i < j < order.len() ==> stable_before(keys, #[trigger] order[i] as int, #[trigger] order[j] as int)
}

proof fn lemma_key_facts(a: (bool, Seq<char>), b: (bool, Seq<char>), c: (bool, Seq<char>))
    ensures
        !key_lt(a, a),
        key_lt(a, b) && key_lt(b, c) ==> key_lt(a, c),
        a == b || key_lt(a, b) || key_lt(b, a),
        key_lt(a, b) ==> !key_lt(b, a),
{
    lemma_lex_lt_irreflexive(a.1);
    lemma_lex_lt_total(a.1, b.1);
    if lex_lt(a.1, b.1) && lex_lt(b.1, c.1) {
        lemma_lex_lt_transitive(a.1, b.1, c.1);
    }
    if lex_lt(a.1, b.1) && lex_lt(b.1, a.1) {
        lemma_lex_lt_transitive(a.1, b.1, a.1);
        lemma_lex_lt_irreflexive(a.1);
    }
    if a.0 == b.0 && a.1 == b.1 {
        assert(a == b);
    }
}

/// Whether key `a` sorts strictly before key `b`.
pub fn key_less(a: &SortKey, b: &SortKey) -> (r: bool)
    ensures
        r == key_lt(key_view(*a), key_view(*b)),
{
    if a.late != b.late {
        !a.late
    } else {
        str_lt(&a.text, &b.text)
    }
}

/// Where position `m` goes into the partial order `o`: before the first
/// position whose key is strictly greater, else at the end.
pub open spec fn insert_pos(kv: Seq<(bool, Seq<char>)>, o: Seq<usize>, m: int) -> int
    decreases o.len(),
{
    if o.len() == 0 {
        0
    } else if key_lt(kv[m], kv[o[0] as int]) {
        0
    } else {
        1 + insert_pos(kv, o.drop_first(), m)
    }
}

/// The stable sorted order of the first `n` positions of `kv`.
pub open spec fn sorted_order(kv: Seq<(bool, Seq<char>)>, n: nat) -> Seq<usize>
    decreases n,
{
    if n == 0 {
        Seq::empty()
    } else {
        let o = sorted_order(kv, (n - 1) as nat);
        o.insert(insert_pos(kv, o, n - 1), (n - 1) as usize)
    }
}

proof fn lemma_insert_pos(kv: Seq<(bool, Seq<char>)>, o: Seq<usize>, m: int)
    requires
        0 <= m < kv.len(),
        forall|i: int| 0 <= i < o.len() ==> (#[trigger] o[i]) < kv.len(),
    ensures
        0 <= insert_pos(kv, o, m) <= o.len(),
        forall|i: int| 0 <= i < insert_pos(kv, o, m) ==> !key_lt(kv[m], kv[#[trigger] o[i] as int]),
        insert_pos(kv, o, m) < o.len() ==> key_lt(kv[m], kv[o[insert_pos(kv, o, m)] as int]),
    decreases o.len(),
{
    if o.len() > 0 && !key_lt(kv[m], kv[o[0] as int]) {
        lemma_insert_pos(kv, o.drop_first(), m);
        assert forall|i: int| 0 <= i < insert_pos(kv, o, m) implies !key_lt(kv[m], kv[#[trigger] o[i] as int]) by {
            if i > 0 {
                assert(o[i] == o.drop_first()[i - 1]);
            }
        }
    }
}

/// `sorted_order` lists every position once, in stable sorted order.
pub proof fn lemma_sorted_order(kv: Seq<(bool, Seq<char>)>, n: nat)
    requires
        n <= kv.len(),
        n <= usize::MAX,
    ensures
        sorted_order(kv, n).len() == n,
        forall|i: int| 0 <= i < n ==> (#[trigger] sorted_order(kv, n)[i]) < n,
        forall|i: int, j: int|
            0 <= i < j < n ==> stable_before(kv, #[trigger] sorted_order(kv, n)[i] as int, #[trigger] sorted_order(kv, n)[j] as int),
    decreases n,
{
    if n > 0 {
        let m = (n - 1) as int;
        lemma_sorted_order(kv, (n - 1) as nat);
        let before = sorted_order(kv, (n - 1) as nat);
        lemma_insert_pos(kv, before, m);
        let p = insert_pos(kv, before, m);
        let order = sorted_order(kv, n);
        assert(order == before.insert(p, m as usize));
        assert forall|i: int| 0 <= i < p implies stable_before(kv, #[trigger] before[i] as int, m) by {
            lemma_key_facts(kv[before[i] as int], kv[m], kv[m]);
        }
        assert forall|i: int| p <= i < before.len() implies key_lt(kv[m], kv[#[trigger] before[i] as int]) by {
            if i > p {
                assert(stable_before(kv, before[p] as int, before[i] as int));
                lemma_key_facts(kv[m], kv[before[p] as int], kv[before[i] as int]);
            }
        }
        assert forall|i: int| 0 <= i < n implies (#[trigger] order[i]) < n by {
            if i < p {
                assert(order[i] == before[i]);
            } else if i > p {
                assert(order[i] == before[i - 1]);
            }
        }
        assert forall|i: int, j: int|
            0 <= i < j < n implies stable_before(kv, #[trigger] order[i] as int, #[trigger] order[j] as int) by {
            if j < p {
                assert(order[i] == before[i] && order[j] == before[j]);
                assert(stable_before(kv, before[i] as int, before[j] as int));
            } else if j == p {
                assert(order[i] == before[i]);
                assert(order[j] == m as usize);
            } else if i == p {
                assert(order[i] == m as usize);
                assert(order[j] == before[j - 1]);
                assert(key_lt(kv[m], kv[before[j - 1] as int]));
            } else if i < p {
                assert(order[i] == before[i] && order[j] == before[j - 1]);
                assert(stable_before(kv, before[i] as int, before[j - 1] as int));
            } else {
                assert(order[i] == before[i - 1] && order[j] == before[j - 1]);
                assert(stable_before(kv, before[i - 1] as int, before[j - 1] as int));
            }
        }
    }
}

/// The positions of `keys` in stable sorted order (what a stable sort by
/// these keys does to the list they were taken from).
pub fn stable_order(keys: &Vec<SortKey>) -> (order: Vec<usize>)
    ensures
        order@ == sorted_order(keys_view(keys@), keys.len() as nat),
        is_stable_order(keys_view(keys@), order@),
{
    let ghost kv = keys_view(keys@);
    let mut order: Vec<usize> = Vec::new();
    let mut m: usize = 0;
    while m < keys.len()
        invariant
            m <= keys.len(),
            kv == keys_view(keys@),
            order@ == sorted_order(kv, m as nat),
        decreases keys.len() - m,
    {
        proof {
            lemma_sorted_order(kv, m as nat);
        }
        let mut p: usize = 0;
        assert(order@.skip(0) == order@);
        while p < order.len() && !key_less(&keys[m], &keys[order[p]])
            invariant
                m < keys.len(),
                p <= order.len(),
                kv == keys_view(keys@),
                forall|i: int| 0 <= i < order.len() ==> (#[trigger] order@[i]) < m,
                insert_pos(kv, order@, m as int) == p + insert_pos(kv, order@.skip(p as int), m as int),
            decreases order.len() - p,
        {
            assert(order@.skip(p as int).drop_first() == order@.skip(p + 1));
            p = p + 1;
        }
        order.insert(p, m);
        m = m + 1;
    }
    proof {
        lemma_sorted_order(kv, keys.len() as nat);
    }
    order
}

} // verus!
