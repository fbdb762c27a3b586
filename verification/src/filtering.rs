//! Facts about filtering sequences, shared by the tables that drop entries.
use vstd::prelude::*;

verus! {

/// Everything a filter keeps was in the sequence it filtered.
pub proof fn lemma_filter_subset<A>(s: Seq<A>, p: spec_fn(A) -> bool)
    ensures
        forall|i: int| 0 <= i < s.filter(p).len() ==> s.contains(#[trigger] s.filter(p)[i]),
    decreases s.len(),
{
    reveal_with_fuel(Seq::filter, 1);
    if s.len() > 0 {
        let t = s.drop_last();
        lemma_filter_subset(t, p);
        assert forall|i: int| 0 <= i < s.filter(p).len() implies s.contains(
            #[trigger] s.filter(p)[i],
        ) by {
            if i < t.filter(p).len() {
                assert(t.contains(t.filter(p)[i]));
                let j = choose|j: int| 0 <= j < t.len() && t[j] == t.filter(p)[i];
                assert(s[j] == t[j]);
            } else {
                assert(s.filter(p)[i] == s[s.len() - 1]);
            }
        }
    }
}

/// Filtering a sequence without duplicates leaves none.
pub proof fn lemma_filter_no_duplicates<A>(s: Seq<A>, p: spec_fn(A) -> bool)
    requires
        s.no_duplicates(),
    ensures
        s.filter(p).no_duplicates(),
    decreases s.len(),
{
    reveal_with_fuel(Seq::filter, 1);
    if s.len() > 0 {
        let t = s.drop_last();
        assert(t.no_duplicates());
        lemma_filter_no_duplicates(t, p);
        lemma_filter_subset(t, p);
        if p(s.last()) {
            let f = t.filter(p);
            assert forall|i: int| 0 <= i < f.len() implies f[i] != s.last() by {
                assert(t.contains(f[i]));
                let j = choose|j: int| 0 <= j < t.len() && t[j] == f[i];
                assert(s[j] == t[j]);
                assert(j != s.len() - 1);
            }
        }
    }
}

/// A relation that holds between every earlier and later element of `s`
/// holds between every earlier and later element of a filter of it.
pub proof fn lemma_filter_ordered<A>(s: Seq<A>, p: spec_fn(A) -> bool, rel: spec_fn(A, A) -> bool)
    requires
        forall|i: int, j: int| 0 <= i < j < s.len() ==> #[trigger] rel(s[i], s[j]),
    ensures
        forall|i: int, j: int|
            0 <= i < j < s.filter(p).len() ==> #[trigger] rel(s.filter(p)[i], s.filter(p)[j]),
    decreases s.len(),
{
    reveal_with_fuel(Seq::filter, 1);
    if s.len() > 0 {
        let t = s.drop_last();
        assert forall|i: int, j: int| 0 <= i < j < t.len() implies #[trigger] rel(t[i], t[j]) by {
            assert(rel(s[i], s[j]));
        }
        lemma_filter_ordered(t, p, rel);
        lemma_filter_subset(t, p);
        let f = s.filter(p);
        let ft = t.filter(p);
        if p(s.last()) {
            assert forall|i: int, j: int| 0 <= i < j < f.len() implies #[trigger] rel(f[i], f[j]) by {
                assert(f[i] == ft[i]);
                if j < ft.len() {
                    assert(f[j] == ft[j]);
                } else {
                    assert(f[j] == s[s.len() - 1]);
                    assert(t.contains(ft[i]));
                    let k = choose|k: int| 0 <= k < t.len() && t[k] == ft[i];
                    assert(rel(s[k], s[s.len() - 1]));
                }
            }
        }
    }
}

/// What a filter keeps is exactly what the filtered sequence holds and the
/// predicate accepts.
pub proof fn lemma_filter_contains_iff<A>(s: Seq<A>, p: spec_fn(A) -> bool, x: A)
    ensures
        s.filter(p).contains(x) <==> s.contains(x) && p(x),
{
    broadcast use Seq::lemma_filter_contains, Seq::lemma_filter_pred;
    lemma_filter_subset(s, p);
    if s.filter(p).contains(x) {
        let i = choose|i: int| 0 <= i < s.filter(p).len() && s.filter(p)[i] == x;
        assert(s.contains(s.filter(p)[i]));
        assert(p(s.filter(p)[i]));
    }
    if s.contains(x) && p(x) {
        let i = choose|i: int| 0 <= i < s.len() && s[i] == x;
        assert(s.filter(p).contains(s[i]));
    }
}

/// An element the predicate refuses makes the filter shorter.
pub proof fn lemma_filter_drops<A>(s: Seq<A>, p: spec_fn(A) -> bool, i: int)
    requires
        0 <= i < s.len(),
        !p(s[i]),
    ensures
        s.filter(p).len() < s.len(),
    decreases s.len(),
{
    reveal_with_fuel(Seq::filter, 1);
    let t = s.drop_last();
    t.lemma_filter_len(p);
    if i < s.len() - 1 {
        assert(t[i] == s[i]);
        lemma_filter_drops(t, p, i);
    } else {
        assert(!p(s.last()));
        assert(s.filter(p) == t.filter(p));
    }
}

/// A filter whose predicate accepts everything keeps everything.
pub proof fn lemma_filter_all<A>(s: Seq<A>, p: spec_fn(A) -> bool)
    requires
        forall|i: int| 0 <= i < s.len() ==> p(#[trigger] s[i]),
    ensures
        s.filter(p) == s,
    decreases s.len(),
{
    reveal_with_fuel(Seq::filter, 1);
    if s.len() > 0 {
        let t = s.drop_last();
        assert forall|i: int| 0 <= i < t.len() implies p(#[trigger] t[i]) by {
            assert(t[i] == s[i]);
        }
        lemma_filter_all(t, p);
        assert(p(s[s.len() - 1]));
        assert(t.push(s.last()) =~= s);
    }
}

} // verus!
