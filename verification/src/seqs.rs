use vstd::prelude::*;

verus! {

broadcast use vstd::seq_lib::group_seq_properties;

/// The position of the first element that satisfies `p`, if there is one.
pub open spec fn first_match<A>(s: Seq<A>, p: spec_fn(A) -> bool) -> Option<int> {
    if exists|i: int| 0 <= i < s.len() && #[trigger] p(s[i]) {
        Some(
            choose|i: int|
                0 <= i < s.len() && #[trigger] p(s[i]) && forall|j: int| 0 <= j < i ==> !p(s[j]),
        )
    } else {
        None
    }
}

/// `s` without its first element that satisfies `p`, and that element.
pub open spec fn without_first<A>(s: Seq<A>, p: spec_fn(A) -> bool) -> (Seq<A>, Option<A>) {
    match first_match(s, p) {
        Some(i) => (s.remove(i), Some(s[i])),
        None => (s, None),
    }
}

/// The first match is the least index that satisfies `p`.
pub proof fn lemma_first_match_at<A>(s: Seq<A>, p: spec_fn(A) -> bool, i: int)
    requires
        0 <= i < s.len(),
        p(s[i]),
        forall|j: int| 0 <= j < i ==> !p(s[j]),
    ensures
        first_match(s, p) == Some(i),
{
    assert(p(s[i]));
    let k = choose|k: int|
        0 <= k < s.len() && #[trigger] p(s[k]) && forall|j: int| 0 <= j < k ==> !p(s[j]);
    assert(0 <= k < s.len() && p(s[k]) && forall|j: int| 0 <= j < k ==> !p(s[j]));
    if k < i {
        assert(!p(s[k]));
    }
    if i < k {
        assert(!p(s[i]));
    }
}

/// There is no first match where nothing satisfies `p`.
pub proof fn lemma_first_match_none<A>(s: Seq<A>, p: spec_fn(A) -> bool)
    requires
        forall|j: int| 0 <= j < s.len() ==> !p(s[j]),
    ensures
        first_match(s, p) is None,
{
}

/// A first match satisfies `p` and nothing before it does.
pub proof fn lemma_first_match_facts<A>(s: Seq<A>, p: spec_fn(A) -> bool)
    ensures
        first_match(s, p) matches Some(i) ==> 0 <= i < s.len() && p(s[i]) && forall|j: int|
            0 <= j < i ==> !p(s[j]),
        first_match(s, p) is None ==> forall|j: int| 0 <= j < s.len() ==> !p(s[j]),
{
    if exists|i: int| 0 <= i < s.len() && #[trigger] p(s[i]) {
        let w = choose|i: int| 0 <= i < s.len() && #[trigger] p(s[i]);
        lemma_least_exists(s, p, w);
    } else {
        assert forall|j: int| 0 <= j < s.len() implies !p(s[j]) by {
            if p(s[j]) {
                assert(0 <= j < s.len() && p(s[j]));
            }
        }
    }
}

/// Below a witness there is a least index that satisfies `p`.
proof fn lemma_least_exists<A>(s: Seq<A>, p: spec_fn(A) -> bool, w: int)
    requires
        0 <= w < s.len(),
        p(s[w]),
    ensures
        exists|i: int|
            0 <= i < s.len() && #[trigger] p(s[i]) && forall|j: int| 0 <= j < i ==> !p(s[j]),
    decreases w,
{
    if exists|j: int| 0 <= j < w && #[trigger] p(s[j]) {
        let v = choose|j: int| 0 <= j < w && #[trigger] p(s[j]);
        lemma_least_exists(s, p, v);
    } else {
        assert(forall|j: int| 0 <= j < w ==> !p(s[j]));
    }
}

/// Nothing is kept of a sequence none of whose elements satisfies `p`.
pub proof fn lemma_filter_none<A>(s: Seq<A>, p: spec_fn(A) -> bool)
    requires
        forall|j: int| 0 <= j < s.len() ==> !p(s[j]),
    ensures
        s.filter(p) == Seq::<A>::empty(),
    decreases s.len(),
{
    reveal(Seq::filter);
    if s.len() > 0 {
        lemma_filter_none(s.drop_last(), p);
    }
}

/// Everything is kept of a sequence all of whose elements satisfy `p`.
pub proof fn lemma_filter_all<A>(s: Seq<A>, p: spec_fn(A) -> bool)
    requires
        forall|j: int| 0 <= j < s.len() ==> p(s[j]),
    ensures
        s.filter(p) == s,
    decreases s.len(),
{
    reveal(Seq::filter);
    if s.len() > 0 {
        lemma_filter_all(s.drop_last(), p);
        assert(s.drop_last().push(s.last()) =~= s);
    }
}

/// Removing the first element that satisfies `p` takes the head off the
/// elements that satisfy `p`, and leaves the elements that satisfy any `q`
/// that the removed one does not satisfy.
pub proof fn lemma_remove_first_match<A>(
    s: Seq<A>,
    p: spec_fn(A) -> bool,
    q: spec_fn(A) -> bool,
    i: int,
)
    requires
        first_match(s, p) == Some(i),
    ensures
        0 <= i < s.len(),
        s.filter(p) == seq![s[i]] + s.remove(i).filter(p),
        !q(s[i]) ==> s.remove(i).filter(q) == s.filter(q),
{
    lemma_first_match_facts(s, p);
    let pre = s.subrange(0, i);
    let post = s.subrange(i + 1, s.len() as int);
    assert(s =~= pre + seq![s[i]] + post);
    assert(s.remove(i) =~= pre + post);
    lemma_filter_none(pre, p);
    assert(seq![s[i]].filter(p) == seq![s[i]]) by {
        lemma_filter_all(seq![s[i]], p);
    }
    Seq::filter_distributes_over_add(pre + seq![s[i]], post, p);
    Seq::filter_distributes_over_add(pre, seq![s[i]], p);
    Seq::filter_distributes_over_add(pre, post, p);
    assert(s.filter(p) =~= seq![s[i]] + s.remove(i).filter(p));
    if !q(s[i]) {
        Seq::filter_distributes_over_add(pre + seq![s[i]], post, q);
        Seq::filter_distributes_over_add(pre, seq![s[i]], q);
        Seq::filter_distributes_over_add(pre, post, q);
        lemma_filter_none(seq![s[i]], q);
        assert(s.remove(i).filter(q) =~= s.filter(q));
    }
}

} // verus!
