use vstd::prelude::*;

verus! {

/// `r` consists of the results `f` gives on the elements of `s` on which it gives one, in the
/// order of `s`: there are increasing positions `idx` of `s`, one per element of `r`, such that
/// `f(s[idx[k]]) == Some(r[k])`, and every position of `s` on which `f` gives a result is one
/// of them.
pub open spec fn picks<A, B>(r: Seq<B>, s: Seq<A>, f: spec_fn(A) -> Option<B>) -> bool {
    exists|idx: Seq<int>| picked_at(r, s, f, idx)
}

/// The positions `idx` witness `picks(r, s, f)`.
pub open spec fn picked_at<A, B>(r: Seq<B>, s: Seq<A>, f: spec_fn(A) -> Option<B>, idx: Seq<int>) -> bool {
    &&& idx.len() == r.len()
    &&& forall|k: int| 0 <= k < idx.len() ==> 0 <= #[trigger] idx[k] < s.len() && f(s[idx[k]]) == Some(r[k])
    &&& forall|a: int, b: int| 0 <= a < b < idx.len() ==> idx[a] < idx[b]
    &&& forall|i: int| 0 <= i < s.len() && (#[trigger] f(s[i])) is Some ==> idx.contains(i)
}

/// `r` consists of the elements of `s` on which `p` holds, in the order of `s`.
pub open spec fn selects<A>(r: Seq<A>, s: Seq<A>, p: spec_fn(A) -> bool) -> bool {
    picks(r, s, |a: A| if p(a) { Some(a) } else { None })
}

/// `filter_map` gives what `picks` describes.
pub proof fn lemma_filter_map_picks<A, B>(s: Seq<A>, f: spec_fn(A) -> Option<B>)
    ensures
        picks(s.filter_map(f), s, f),
    decreases s.len(),
{
    if s.len() == 0 {
        let idx: Seq<int> = seq![];
        assert(picked_at(s.filter_map(f), s, f, idx));
    } else {
        let rest = s.drop_last();
        lemma_filter_map_picks(rest, f);
        let idx0 = choose|idx: Seq<int>| picked_at(rest.filter_map(f), rest, f, idx);
        let last = s.len() - 1;
        assert forall|k: int| 0 <= k < idx0.len() implies f(s[#[trigger] idx0[k]]) == f(rest[idx0[k]]) by {}
        match f(s.last()) {
            Some(b) => {
                let idx = idx0.push(last);
                let r = s.filter_map(f);
                assert(r == rest.filter_map(f) + seq![b]);
                assert forall|k: int| 0 <= k < idx.len() implies 0 <= #[trigger] idx[k] < s.len() && f(
                    s[idx[k]],
                ) == Some(r[k]) by {
                    if k < idx0.len() {
                        assert(idx[k] == idx0[k]);
                        assert(r[k] == rest.filter_map(f)[k]);
                    }
                }
                assert forall|i: int| 0 <= i < s.len() && (#[trigger] f(s[i])) is Some implies idx.contains(i) by {
                    if i < last {
                        assert(rest[i] == s[i]);
                        assert(idx0.contains(i));
                        let k = choose|k: int| 0 <= k < idx0.len() && idx0[k] == i;
                        assert(idx[k] == i);
                    } else {
                        assert(idx[idx0.len() as int] == i);
                    }
                }
                assert(picked_at(r, s, f, idx));
            },
            None => {
                let r = s.filter_map(f);
                assert(r == rest.filter_map(f));
                assert forall|i: int| 0 <= i < s.len() && (#[trigger] f(s[i])) is Some implies idx0.contains(i) by {
                    assert(i < last);
                    assert(rest[i] == s[i]);
                }
                assert(picked_at(r, s, f, idx0));
            },
        }
    }
}

/// `filter` gives what `selects` describes.
pub proof fn lemma_filter_selects<A>(s: Seq<A>, p: spec_fn(A) -> bool)
    ensures
        selects(s.filter(p), s, p),
    decreases s.len(),
{
    let f = |a: A| if p(a) { Some(a) } else { None };
    reveal(Seq::filter);
    if s.len() == 0 {
        let idx: Seq<int> = seq![];
        assert(picked_at(s.filter(p), s, f, idx));
    } else {
        let rest = s.drop_last();
        lemma_filter_selects(rest, p);
        let idx0 = choose|idx: Seq<int>| picked_at(rest.filter(p), rest, f, idx);
        let last = s.len() - 1;
        let r = s.filter(p);
        if p(s.last()) {
            let idx = idx0.push(last);
            assert(r == rest.filter(p).push(s.last()));
            assert forall|k: int| 0 <= k < idx.len() implies 0 <= #[trigger] idx[k] < s.len() && f(s[idx[k]])
                == Some(r[k]) by {
                if k < idx0.len() {
                    assert(idx[k] == idx0[k]);
                    assert(s[idx0[k]] == rest[idx0[k]]);
                    assert(r[k] == rest.filter(p)[k]);
                }
            }
            assert forall|i: int| 0 <= i < s.len() && (#[trigger] f(s[i])) is Some implies idx.contains(i) by {
                if i < last {
                    assert(rest[i] == s[i]);
                    assert(idx0.contains(i));
                    let k = choose|k: int| 0 <= k < idx0.len() && idx0[k] == i;
                    assert(idx[k] == i);
                } else {
                    assert(idx[idx0.len() as int] == i);
                }
            }
            assert(picked_at(r, s, f, idx));
        } else {
            assert(r == rest.filter(p));
            assert forall|k: int| 0 <= k < idx0.len() implies 0 <= #[trigger] idx0[k] < s.len() && f(s[idx0[k]])
                == Some(r[k]) by {
                assert(s[idx0[k]] == rest[idx0[k]]);
            }
            assert forall|i: int| 0 <= i < s.len() && (#[trigger] f(s[i])) is Some implies idx0.contains(i) by {
                assert(i < last);
                assert(rest[i] == s[i]);
            }
            assert(picked_at(r, s, f, idx0));
        }
    }
}

/// Where `picks(r, s, f)`, `r` has an element exactly when `f` gives a result on some element
/// of `s`.
pub proof fn lemma_picks_nonempty<A, B>(r: Seq<B>, s: Seq<A>, f: spec_fn(A) -> Option<B>)
    requires
        picks(r, s, f),
    ensures
        r.len() > 0 <==> exists|i: int| 0 <= i < s.len() && (#[trigger] f(s[i])) is Some,
{
    let idx = choose|idx: Seq<int>| picked_at(r, s, f, idx);
    if r.len() > 0 {
        assert(f(s[idx[0]]) is Some);
    } else {
        assert forall|i: int| 0 <= i < s.len() implies !((#[trigger] f(s[i])) is Some) by {
            if f(s[i]) is Some {
                assert(idx.contains(i));
            }
        }
    }
}

/// `filter_map` gives one result per element of `s` on which `f` gives one: `p` tells those
/// elements.
pub proof fn lemma_filter_map_len<A, B>(s: Seq<A>, f: spec_fn(A) -> Option<B>, p: spec_fn(A) -> bool)
    requires
        forall|a: A| #[trigger] p(a) == f(a) is Some,
    ensures
        s.filter_map(f).len() == s.filter(p).len(),
    decreases s.len(),
{
    reveal(Seq::filter);
    if s.len() > 0 {
        lemma_filter_map_len(s.drop_last(), f, p);
        assert(p(s.last()) == f(s.last()) is Some);
    }
}

} // verus!
