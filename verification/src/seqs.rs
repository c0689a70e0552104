//! Facts about filtered sequences that the history laws rest on.

use vstd::prelude::*;

verus! {

/// Filtering with a predicate that holds everywhere changes nothing.
pub proof fn lemma_filter_all<A>(s: Seq<A>, p: spec_fn(A) -> bool)
    requires
        forall|i: int| 0 <= i < s.len() ==> p(#[trigger] s[i]),
    ensures
        s.filter(p) == s,
    decreases s.len(),
{
    if s.len() == 0 {
        reveal(Seq::filter);
    } else {
        let init = s.drop_last();
        assert forall|i: int| 0 <= i < init.len() implies p(#[trigger] init[i]) by {
            assert(init[i] == s[i]);
        }
        lemma_filter_all(init, p);
        init.lemma_filter_push(s.last(), p);
        assert(init.push(s.last()) =~= s);
    }
}

/// Filtering with a predicate that holds nowhere leaves nothing.
pub proof fn lemma_filter_none<A>(s: Seq<A>, p: spec_fn(A) -> bool)
    requires
        forall|i: int| 0 <= i < s.len() ==> !p(#[trigger] s[i]),
    ensures
        s.filter(p).len() == 0,
    decreases s.len(),
{
    if s.len() == 0 {
        reveal(Seq::filter);
    } else {
        let init = s.drop_last();
        assert forall|i: int| 0 <= i < init.len() implies !p(#[trigger] init[i]) by {
            assert(init[i] == s[i]);
        }
        lemma_filter_none(init, p);
        init.lemma_filter_push(s.last(), p);
        assert(init.push(s.last()) =~= s);
    }
}

/// Filtering keeps a sequence free of duplicates.
pub proof fn lemma_filter_no_duplicates<A>(s: Seq<A>, p: spec_fn(A) -> bool)
    requires
        s.no_duplicates(),
    ensures
        s.filter(p).no_duplicates(),
    decreases s.len(),
{
    if s.len() == 0 {
        reveal(Seq::filter);
    } else {
        let init = s.drop_last();
        let x = s.last();
        assert(init.no_duplicates());
        lemma_filter_no_duplicates(init, p);
        init.lemma_filter_push(x, p);
        assert(init.push(x) =~= s);
        if p(x) {
            let f = init.filter(p);
            assert(!f.contains(x)) by {
                if f.contains(x) {
                    init.lemma_filter_contains_rev(p, x);
                    let j = choose|j: int| 0 <= j < init.len() && init[j] == x;
                    assert(s[j] == s[s.len() - 1]);
                }
            }
            assert forall|i: int, j: int|
                0 <= i < f.push(x).len() && 0 <= j < f.push(x).len() && i != j
                implies f.push(x)[i] != f.push(x)[j] by {
                if i < f.len() && j < f.len() {
                } else if i < f.len() {
                    assert(f.contains(f[i]));
                } else {
                    assert(f.contains(f[j]));
                }
            }
        }
    }
}

/// Removing every occurrence of the element at `k` from a sequence without
/// duplicates removes position `k`.
pub proof fn lemma_filter_out_index<A>(s: Seq<A>, k: int, p: spec_fn(A) -> bool)
    requires
        s.no_duplicates(),
        0 <= k < s.len(),
        forall|x: A| #[trigger] p(x) == (x != s[k]),
    ensures
        s.filter(p) == s.remove(k),
    decreases s.len(),
{
    let init = s.drop_last();
    init.lemma_filter_push(s.last(), p);
    assert(init.push(s.last()) =~= s);
    if k == s.len() - 1 {
        assert forall|i: int| 0 <= i < init.len() implies p(#[trigger] init[i]) by {
            assert(init[i] == s[i]);
        }
        lemma_filter_all(init, p);
        assert(s.remove(k) =~= init);
    } else {
        assert(init.no_duplicates());
        assert(init[k] == s[k]);
        lemma_filter_out_index(init, k, p);
        assert(s.remove(k) =~= init.remove(k).push(s.last()));
    }
}

/// A duplicate-free sequence whose entries all occur in `s` is no longer than `s`.
pub proof fn lemma_distinct_subset_len<A>(a: Seq<A>, s: Seq<A>)
    requires
        a.no_duplicates(),
        forall|x: A| #[trigger] a.contains(x) ==> s.contains(x),
    ensures
        a.len() <= s.len(),
{
    a.unique_seq_to_set();
    s.lemma_cardinality_of_set();
    vstd::seq_lib::seq_to_set_is_finite(s);
    assert(a.to_set().subset_of(s.to_set())) by {
        assert forall|x: A| a.to_set().contains(x) implies s.to_set().contains(x) by {
            assert(a.contains(x));
        }
    }
    vstd::set_lib::lemma_len_subset(a.to_set(), s.to_set());
}

/// A filter that keeps as many entries as the sequence has keeps every one:
/// the predicate holds of each entry.
pub proof fn lemma_filter_keeps_all<A>(s: Seq<A>, p: spec_fn(A) -> bool)
    requires
        s.filter(p).len() == s.len(),
    ensures
        forall|i: int| 0 <= i < s.len() ==> p(#[trigger] s[i]),
    decreases s.len(),
{
    if s.len() > 0 {
        let init = s.drop_last();
        assert(init.push(s.last()) =~= s);
        init.lemma_filter_push(s.last(), p);
        init.lemma_filter_len(p);
        assert(p(s.last()));
        lemma_filter_keeps_all(init, p);
        assert forall|i: int| 0 <= i < s.len() implies p(#[trigger] s[i]) by {
            if i < s.len() - 1 {
                assert(s[i] == init[i]);
            }
        }
    }
}

} // verus!
