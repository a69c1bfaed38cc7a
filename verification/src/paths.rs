//! Normalization of a path: `.` components are dropped and `..` removes the
//! component before it.
use vstd::prelude::*;

verus! {

/// The kind of a path component: a prefix or root (which `..` cannot
/// remove), `.`, `..`, or a name.
#[derive(Clone, Copy, Debug, PartialEq, Eq, Structural)]
pub enum PartKind {
    Anchor,
    Current,
    Parent,
    Name,
}

/// The positions of the components kept by normalization.
pub open spec fn spec_kept(kinds: Seq<PartKind>) -> Seq<int>
    decreases kinds.len(),
{
    if kinds.len() == 0 {
        Seq::empty()
    } else {
        let r = spec_kept(kinds.drop_last());
        let i = kinds.len() - 1;
        match kinds[i] {
            PartKind::Current => r,
            PartKind::Parent => if r.len() > 0 && kinds[r.last()] == PartKind::Name {
                r.drop_last()
            } else {
                r
            },
            _ => r.push(i),
        }
    }
}

/// Removes the redundant components of a path: skips `.`, and lets `..`
/// remove the name before it (a prefix or root stays). Returns the
/// positions of the components that remain, in order.
pub fn remove_redundant_components(kinds: &Vec<PartKind>) -> (res: Vec<usize>)
    ensures
        res@.map_values(|i: usize| i as int) == spec_kept(kinds@),
{
    let mut res: Vec<usize> = Vec::new();
    let mut i: usize = 0;
    while i < kinds.len()
        invariant
            i <= kinds.len(),
            res@.map_values(|k: usize| k as int) == spec_kept(kinds@.take(i as int)),
            forall|j: int| 0 <= j < res.len() ==> res@[j] < i,
        decreases kinds.len() - i,
    {
        let ghost old_res = res@;
        proof {
            assert(kinds@.take(i + 1).drop_last() == kinds@.take(i as int));
            assert(kinds@.take(i + 1)[i as int] == kinds@[i as int]);
        }
        match kinds[i] {
            PartKind::Current => {},
            PartKind::Parent => {
                if res.len() > 0 && kinds[res[res.len() - 1]] == PartKind::Name {
                    proof {
                        let r = spec_kept(kinds@.take(i as int));
                        assert(r.last() == res@[res.len() - 1] as int);
                        assert(kinds@.take(i + 1)[r.last()] == kinds@[r.last()]);
                    }
                    res.pop();
                    proof {
                        assert(res@.map_values(|k: usize| k as int) == old_res.map_values(
                            |k: usize| k as int,
                        ).drop_last());
                    }
                } else {
                    proof {
                        let r = spec_kept(kinds@.take(i as int));
                        if r.len() > 0 {
                            assert(r.last() == res@[res.len() - 1] as int);
                            assert(kinds@.take(i + 1)[r.last()] == kinds@[r.last()]);
                        }
                    }
                }
            },
            _ => {
                res.push(i);
                proof {
                    assert(res@.map_values(|k: usize| k as int) == old_res.map_values(
                        |k: usize| k as int,
                    ).push(i as int));
                }
            },
        }
        i += 1;
    }
    proof {
        assert(kinds@.take(kinds.len() as int) == kinds@);
    }
    res
}

/// The kept positions are increasing positions of prefixes, roots and names.
proof fn lemma_kept_shape(kinds: Seq<PartKind>)
    ensures
        forall|j: int|
            0 <= j < spec_kept(kinds).len() ==> 0 <= #[trigger] spec_kept(kinds)[j] < kinds.len(),
        forall|j: int|
            0 <= j < spec_kept(kinds).len() ==> kinds[#[trigger] spec_kept(kinds)[j]]
                == PartKind::Anchor || kinds[spec_kept(kinds)[j]] == PartKind::Name,
        forall|a: int, b: int|
            0 <= a < b < spec_kept(kinds).len() ==> #[trigger] spec_kept(kinds)[a]
                < #[trigger] spec_kept(kinds)[b],
    decreases kinds.len(),
{
    if kinds.len() > 0 {
        let p = kinds.drop_last();
        lemma_kept_shape(p);
        let r = spec_kept(p);
        assert forall|j: int| 0 <= j < r.len() implies kinds[r[j]] == p[r[j]] by {}
    }
}

/// Normalized paths hold no `.` or `..`, and normalizing again changes
/// nothing: the components kept from the kept components are all of them.
pub proof fn lemma_normalize_idempotent(kinds: Seq<PartKind>)
    ensures
        forall|j: int|
            0 <= j < spec_kept(kinds).len() ==> kinds[#[trigger] spec_kept(kinds)[j]]
                != PartKind::Current && kinds[spec_kept(kinds)[j]] != PartKind::Parent,
        spec_kept(spec_kept(kinds).map_values(|i: int| kinds[i])) == Seq::new(
            spec_kept(kinds).len(),
            |j: int| j,
        ),
{
    lemma_kept_shape(kinds);
    let k = spec_kept(kinds);
    let ks = k.map_values(|i: int| kinds[i]);
    lemma_kept_of_clean(ks);
}

/// A path with no `.` or `..` keeps every component.
proof fn lemma_kept_of_clean(ks: Seq<PartKind>)
    requires
        forall|j: int| 0 <= j < ks.len() ==> #[trigger] ks[j] != PartKind::Current && ks[j] != PartKind::Parent,
    ensures
        spec_kept(ks) == Seq::new(ks.len(), |j: int| j),
    decreases ks.len(),
{
    if ks.len() > 0 {
        let p = ks.drop_last();
        assert forall|j: int| 0 <= j < p.len() implies #[trigger] p[j] != PartKind::Current && p[j]
            != PartKind::Parent by {
            assert(p[j] == ks[j]);
        }
        lemma_kept_of_clean(p);
        assert(ks[ks.len() - 1] != PartKind::Current && ks[ks.len() - 1] != PartKind::Parent);
        assert(Seq::new(p.len(), |j: int| j).push(p.len() as int) == Seq::new(ks.len(), |j: int| j));
    }
}

/// Normalization never removes a prefix or root: every anchor component of
/// the path is kept.
pub proof fn lemma_anchors_kept(kinds: Seq<PartKind>)
    ensures
        forall|i: int|
            0 <= i < kinds.len() && #[trigger] kinds[i] == PartKind::Anchor ==> spec_kept(
                kinds,
            ).contains(i),
    decreases kinds.len(),
{
    if kinds.len() > 0 {
        let p = kinds.drop_last();
        lemma_anchors_kept(p);
        lemma_kept_shape(p);
        let r = spec_kept(p);
        let n = kinds.len() - 1;
        assert forall|i: int| 0 <= i < kinds.len() && #[trigger] kinds[i] == PartKind::Anchor implies spec_kept(
            kinds,
        ).contains(i) by {
            if i == n {
                assert(spec_kept(kinds) == r.push(n));
                assert(spec_kept(kinds)[r.len() as int] == n);
            } else {
                assert(p[i] == kinds[i]);
                assert(r.contains(i));
                let j = choose|j: int| 0 <= j < r.len() && r[j] == i;
                if kinds[n] == PartKind::Parent && r.len() > 0 && kinds[r.last()] == PartKind::Name {
                    assert(j != r.len() - 1);
                    assert(spec_kept(kinds) == r.drop_last());
                    assert(spec_kept(kinds)[j] == i);
                } else if kinds[n] == PartKind::Current || kinds[n] == PartKind::Parent {
                    assert(spec_kept(kinds) == r);
                } else {
                    assert(spec_kept(kinds) == r.push(n));
                    assert(spec_kept(kinds)[j] == i);
                }
            }
        }
    }
}

} // verus!
