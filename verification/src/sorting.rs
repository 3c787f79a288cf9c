//! Stable sorting of strings: as paths (`Path`'s order, component by
//! component) and as strings.
use vstd::prelude::*;
use crate::paths::{
    comps_less, lemma_comps_less_strict, lemma_comps_less_trans, lemma_seq_less_strict,
    lemma_seq_less_trans, path_components, path_less, path_less_exec, seq_less, str_less,
};

verus! {

/// No later path sorts before an earlier one.
pub open spec fn path_sorted(xs: Seq<Seq<char>>) -> bool {
    forall|i: int, j: int| 0 <= i < j < xs.len() ==> !path_less(#[trigger] xs[j], #[trigger] xs[i])
}

/// No later string sorts before an earlier one.
pub open spec fn string_sorted(xs: Seq<Seq<char>>) -> bool {
    forall|i: int, j: int| 0 <= i < j < xs.len() ==> !seq_less(#[trigger] xs[j], #[trigger] xs[i])
}

/// The paths in `Path`'s order, those that sort alike in the order given.
pub fn sort_paths(v: &Vec<String>) -> (r: Vec<String>)
    ensures
        r.deep_view().to_multiset() == v.deep_view().to_multiset(),
        path_sorted(r.deep_view()),
{
    let ghost vv = v.deep_view();
    let mut out: Vec<String> = Vec::new();
    let mut i: usize = 0;
    assert(vv.take(0) =~= Seq::<Seq<char>>::empty());
    assert(out.deep_view() =~= Seq::<Seq<char>>::empty());
    while i < v.len()
        invariant
            vv == v.deep_view(),
            i <= v.len(),
            out.deep_view().to_multiset() == vv.take(i as int).to_multiset(),
            path_sorted(out.deep_view()),
        decreases v.len() - i,
    {
        let ghost o = out.deep_view();
        let x = &v[i];
        let ghost xv = x@;
        let mut pos: usize = 0;
        while pos < out.len() && !path_less_exec(x.as_str(), out[pos].as_str())
            invariant
                o == out.deep_view(),
                xv == x@,
                pos <= out.len(),
                forall|k: int| 0 <= k < pos ==> !path_less(xv, #[trigger] o[k]),
            decreases out.len() - pos,
        {
            assert(o[pos as int] == out[pos as int]@);
            pos += 1;
        }
        proof {
            if pos < o.len() {
                assert(o[pos as int] == out[pos as int]@);
                assert(path_less(xv, o[pos as int]));
            }
        }
        out.insert(pos, x.clone());
        let ghost n = out.deep_view();
        assert(n =~= o.insert(pos as int, xv));
        assert(vv.take(i + 1) =~= vv.take(i as int).push(xv));
        proof {
            vstd::seq_lib::to_multiset_build(vv.take(i as int), xv);
            vstd::seq_lib::to_multiset_insert(o, pos as int, xv);
        }
        assert forall|a: int, b: int| 0 <= a < b < n.len() implies !path_less(#[trigger] n[b], #[trigger] n[a]) by {
            let pa = path_components(n[a]);
            let pb = path_components(n[b]);
            if b < pos {
                assert(n[a] == o[a] && n[b] == o[b]);
            } else if b == pos {
                assert(n[a] == o[a]);
            } else if a == pos {
                assert(n[b] == o[b - 1]);
                let pp = path_components(o[pos as int]);
                lemma_comps_less_strict(path_components(xv), pp);
                if b - 1 > pos {
                    assert(!path_less(o[b - 1], o[pos as int]));
                    if comps_less(pb, path_components(xv)) {
                        lemma_comps_less_trans(pb, path_components(xv), pp);
                    }
                } else {
                    lemma_comps_less_strict(path_components(xv), pb);
                }
            } else if a < pos {
                assert(n[a] == o[a] && n[b] == o[b - 1]);
            } else {
                assert(n[a] == o[a - 1] && n[b] == o[b - 1]);
            }
        }
        i += 1;
    }
    assert(vv.take(i as int) =~= vv);
    out
}

/// The strings in the order of strings, those that are equal in the order
/// given.
pub fn sort_strings(v: &Vec<String>) -> (r: Vec<String>)
    ensures
        r.deep_view().to_multiset() == v.deep_view().to_multiset(),
        string_sorted(r.deep_view()),
{
    let ghost vv = v.deep_view();
    let mut out: Vec<String> = Vec::new();
    let mut i: usize = 0;
    assert(vv.take(0) =~= Seq::<Seq<char>>::empty());
    assert(out.deep_view() =~= Seq::<Seq<char>>::empty());
    while i < v.len()
        invariant
            vv == v.deep_view(),
            i <= v.len(),
            out.deep_view().to_multiset() == vv.take(i as int).to_multiset(),
            string_sorted(out.deep_view()),
        decreases v.len() - i,
    {
        let ghost o = out.deep_view();
        let x = &v[i];
        let ghost xv = x@;
        let mut pos: usize = 0;
        while pos < out.len() && !str_less(x.as_str(), out[pos].as_str())
            invariant
                o == out.deep_view(),
                xv == x@,
                pos <= out.len(),
                forall|k: int| 0 <= k < pos ==> !seq_less(xv, #[trigger] o[k]),
            decreases out.len() - pos,
        {
            assert(o[pos as int] == out[pos as int]@);
            pos += 1;
        }
        proof {
            if pos < o.len() {
                assert(o[pos as int] == out[pos as int]@);
                assert(seq_less(xv, o[pos as int]));
            }
        }
        out.insert(pos, x.clone());
        let ghost n = out.deep_view();
        assert(n =~= o.insert(pos as int, xv));
        assert(vv.take(i + 1) =~= vv.take(i as int).push(xv));
        proof {
            vstd::seq_lib::to_multiset_build(vv.take(i as int), xv);
            vstd::seq_lib::to_multiset_insert(o, pos as int, xv);
        }
        assert forall|a: int, b: int| 0 <= a < b < n.len() implies !seq_less(#[trigger] n[b], #[trigger] n[a]) by {
            if b < pos {
                assert(n[a] == o[a] && n[b] == o[b]);
            } else if b == pos {
                assert(n[a] == o[a]);
            } else if a == pos {
                assert(n[b] == o[b - 1]);
                lemma_seq_less_strict(xv, o[pos as int]);
                if b - 1 > pos {
                    assert(!seq_less(o[b - 1], o[pos as int]));
                    if seq_less(n[b], xv) {
                        lemma_seq_less_trans(n[b], xv, o[pos as int]);
                    }
                } else {
                    lemma_seq_less_strict(xv, n[b]);
                }
            } else if a < pos {
                assert(n[a] == o[a] && n[b] == o[b - 1]);
            } else {
                assert(n[a] == o[a - 1] && n[b] == o[b - 1]);
            }
        }
        i += 1;
    }
    assert(vv.take(i as int) =~= vv);
    out
}

} // verus!
