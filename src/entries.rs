//! Sequences of (reference, node) entries kept in the canonical order of their keys.
use vstd::prelude::*;
use vstd::set_lib::{lemma_int_range, lemma_len_subset, set_int_range};
use crate::node_ref::{
    key_lt, lemma_key_lt_irreflexive, lemma_key_lt_total, lemma_key_lt_transitive, random_token,
    NodeRef, RefKey,
};
use crate::ref_set::sorted_keys;

verus! {

/// The keys of the entries, in order.
pub open spec fn keys_of<R: NodeRef, V>(entries: Seq<(R, V)>) -> Seq<RefKey> {
    entries.map_values(|e: (R, V)| e.0.key())
}

/// The position of `k` in `s` (meaningful when `s` contains it).
pub open spec fn index_of(s: Seq<RefKey>, k: RefKey) -> int {
    choose|i: int| 0 <= i < s.len() && s[i] == k
}

/// In a sorted sequence a key stands at one position only.
pub proof fn lemma_sorted_index(s: Seq<RefKey>, i: int)
    requires
        sorted_keys(s),
        0 <= i < s.len(),
    ensures
        index_of(s, s[i]) == i,
{
    let j = index_of(s, s[i]);
    assert(0 <= j < s.len() && s[j] == s[i]);
    if j < i {
        assert(key_lt(s[j], s[i]));
        lemma_key_lt_irreflexive(s[i]);
    } else if j > i {
        assert(key_lt(s[i], s[j]));
        lemma_key_lt_irreflexive(s[i]);
    }
}

/// Inserting a key between its smaller and its larger neighbours keeps the order.
pub proof fn lemma_sorted_insert(s: Seq<RefKey>, i: int, k: RefKey)
    requires
        sorted_keys(s),
        0 <= i <= s.len(),
        forall|j: int| 0 <= j < i ==> key_lt(#[trigger] s[j], k),
        forall|j: int| i <= j < s.len() ==> key_lt(k, #[trigger] s[j]),
    ensures
        sorted_keys(s.insert(i, k)),
{
    let t = s.insert(i, k);
    assert forall|a: int, b: int| 0 <= a < b < t.len() implies key_lt(#[trigger] t[a], #[trigger] t[b]) by {
        if b < i {
        } else if b == i {
        } else if a < i {
            assert(t[b] == s[b - 1]);
        } else if a == i {
            assert(t[b] == s[b - 1]);
        } else {
            assert(t[a] == s[a - 1] && t[b] == s[b - 1]);
        }
    }
}

/// The position of the entry whose key is `(label, token)`, if any.
pub fn find_entry<R: NodeRef, V>(entries: &Vec<(R, V)>, label: &String, token: u128) -> (r: Option<usize>)
    ensures
        match r {
            Some(i) => i < entries@.len() && keys_of(entries@)[i as int] == (label@, token),
            None => !keys_of(entries@).contains((label@, token)),
        },
{
    let mut i: usize = 0;
    while i < entries.len()
        invariant
            i <= entries@.len(),
            forall|j: int| 0 <= j < i ==> keys_of(entries@)[j] != (label@, token),
        decreases entries@.len() - i,
    {
        let entry = &entries[i];
        assert(keys_of(entries@)[i as int] == entry.0.key());
        if entry.0.token() == token && *entry.0.label_ref() == *label {
            return Some(i);
        }
        i = i + 1;
    }
    assert(!keys_of(entries@).contains((label@, token))) by {
        if keys_of(entries@).contains((label@, token)) {
            let j = choose|j: int|
                0 <= j < keys_of(entries@).len() && keys_of(entries@)[j] == (label@, token);
        }
    }
    None
}

/// Where a key that is not yet present goes to keep the entries in order.
pub fn insert_position<R: NodeRef, V>(entries: &Vec<(R, V)>, reference: &R) -> (i: usize)
    requires
        sorted_keys(keys_of(entries@)),
        !keys_of(entries@).contains(reference.key()),
    ensures
        i <= entries@.len(),
        forall|j: int| 0 <= j < i ==> key_lt(#[trigger] keys_of(entries@)[j], reference.key()),
        forall|j: int|
            i <= j < entries@.len() ==> key_lt(reference.key(), #[trigger] keys_of(entries@)[j]),
{
    let ghost s = keys_of(entries@);
    let ghost k = reference.key();
    let mut i: usize = 0;
    while i < entries.len() && !reference.less_than(&entries[i].0)
        invariant
            s == keys_of(entries@),
            k == reference.key(),
            sorted_keys(s),
            !s.contains(k),
            i <= s.len(),
            forall|j: int| 0 <= j < i ==> key_lt(#[trigger] s[j], k),
        decreases s.len() - i,
    {
        proof {
            assert(s[i as int] == entries@[i as int].0.key());
            lemma_key_lt_total(s[i as int], k);
        }
        i = i + 1;
    }
    proof {
        if i < s.len() {
            assert(s[i as int] == entries@[i as int].0.key());
            assert forall|j: int| i <= j < s.len() implies key_lt(k, #[trigger] s[j]) by {
                if j > i {
                    lemma_key_lt_transitive(k, s[i as int], s[j]);
                }
            }
        }
    }
    i
}

/// The tokens of the entries, as integers.
pub open spec fn token_set<R: NodeRef, V>(entries: Seq<(R, V)>) -> Set<int> {
    keys_of(entries).map_values(|k: RefKey| k.1 as int).to_set()
}

/// A token that, with `label`, makes a key that no entry has. A random token is
/// tried first; should it be taken, the smallest free one among 0..=len is used.
pub fn fresh_token<R: NodeRef, V>(entries: &Vec<(R, V)>, label: &String) -> (t: u128)
    ensures
        !keys_of(entries@).contains((label@, t)),
{
    let t = random_token();
    if find_entry(entries, label, t).is_none() {
        return t;
    }
    let n = entries.len();
    let ghost ts = token_set(entries@);
    let mut c: u128 = 0;
    while c <= n as u128
        invariant
            n == entries@.len(),
            ts == token_set(entries@),
            forall|x: int| 0 <= x < c ==> #[trigger] ts.contains(x),
        decreases n as u128 + 1 - c,
    {
        match find_entry(entries, label, c) {
            None => {
                return c;
            },
            Some(i) => {
                proof {
                    let toks = keys_of(entries@).map_values(|k: RefKey| k.1 as int);
                    assert(toks[i as int] == c as int);
                    assert(toks.contains(c as int));
                    assert forall|x: int| 0 <= x < c + 1 implies #[trigger] ts.contains(x) by {
                        if x == c as int {
                            assert(toks.to_set().contains(x));
                        }
                    }
                }
            },
        }
        c = c + 1;
    }
    proof {
        let toks = keys_of(entries@).map_values(|k: RefKey| k.1 as int);
        lemma_int_range(0, n as int + 1);
        toks.lemma_cardinality_of_set();
        vstd::seq_lib::seq_to_set_is_finite(toks);
        assert(set_int_range(0, n as int + 1).subset_of(ts)) by {
            assert forall|x: int| #[trigger] set_int_range(0, n as int + 1).contains(x) implies ts.contains(x) by {
                assert(0 <= x < c);
            }
        }
        lemma_len_subset(set_int_range(0, n as int + 1), ts);
    }
    0
}

/// Distinct positions of a sorted sequence hold distinct keys.
pub proof fn lemma_sorted_distinct(s: Seq<RefKey>, i: int, j: int)
    requires
        sorted_keys(s),
        0 <= i < s.len(),
        0 <= j < s.len(),
        i != j,
    ensures
        s[i] != s[j],
{
    lemma_key_lt_irreflexive(s[i]);
}

} // verus!
