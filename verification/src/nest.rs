use vstd::prelude::*;

use vstd::multiset::{lemma_multiset_empty_len, Multiset};
use vstd::seq_lib::{lemma_flatten_concat, lemma_multiset_commutative, to_multiset_build};

use crate::point::Point;
use crate::poly::Poly;
use crate::ring::{is_cw, ring_contains, Ring};

verus! {

/// The polygons of a sequence, each as its sequence of ring point sequences.
pub open spec fn poly_views(polys: Seq<Poly>) -> Seq<Seq<Seq<Point>>> {
    polys.map_values(|p: Poly| p@)
}

/// The rings of a sequence, each as its point sequence.
pub open spec fn ring_views(rings: Seq<Ring>) -> Seq<Seq<Point>> {
    rings.map_values(|r: Ring| r@)
}

/// All polygons of the sequence are well formed.
pub open spec fn polys_wf(polys: Seq<Poly>) -> bool {
    forall|i: int| 0 <= i < polys.len() ==> (#[trigger] polys[i]).wf()
}

/// All rings of the sequence are well formed.
pub open spec fn rings_wf(rings: Seq<Ring>) -> bool {
    forall|i: int| 0 <= i < rings.len() ==> (#[trigger] rings[i]).wf()
}

/// The index of the first polygon whose exterior ring contains `pt`, or -1
/// when no polygon's exterior contains it.
pub open spec fn first_container(polys: Seq<Seq<Seq<Point>>>, pt: Point) -> int
    decreases polys.len(),
{
    if polys.len() == 0 {
        -1
    } else if ring_contains(polys[0][0], pt) {
        0
    } else {
        let r = first_container(polys.drop_first(), pt);
        if r == -1 {
            -1
        } else {
            r + 1
        }
    }
}

/// Where one hole ring goes, given the polygons accumulated so far:
/// with no polygon, the hole is wrapped as a polygon of its own (an orphan
/// hole is treated as its own exterior rather than dropped); with exactly one
/// polygon, the hole is attached to it unconditionally; otherwise the hole is
/// attached to the first polygon whose exterior contains the hole's first
/// point, and to the last polygon when none does (a hole is never dropped).
pub open spec fn assign_one(polys: Seq<Seq<Seq<Point>>>, hole: Seq<Point>) -> Seq<Seq<Seq<Point>>> {
    if polys.len() == 0 {
        seq![seq![hole]]
    } else if polys.len() == 1 {
        polys.update(0, polys[0].push(hole))
    } else {
        let f = first_container(polys, hole[0]);
        let idx = if f == -1 {
            polys.len() - 1
        } else {
            f
        };
        polys.update(idx, polys[idx].push(hole))
    }
}

/// The polygon list after assigning every hole in order.
pub open spec fn nest_all(polys: Seq<Seq<Seq<Point>>>, holes: Seq<Seq<Point>>) -> Seq<
    Seq<Seq<Point>>,
>
    decreases holes.len(),
{
    if holes.len() == 0 {
        polys
    } else {
        assign_one(nest_all(polys, holes.drop_last()), holes.last())
    }
}

/// The clockwise rings of the input, in order, each wrapped as a polygon.
pub open spec fn exterior_polys(rings: Seq<Seq<Point>>) -> Seq<Seq<Seq<Point>>>
    decreases rings.len(),
{
    if rings.len() == 0 {
        Seq::empty()
    } else {
        let rest = exterior_polys(rings.drop_last());
        if is_cw(rings.last()) {
            rest.push(seq![rings.last()])
        } else {
            rest
        }
    }
}

/// The counter-clockwise rings of the input, in order: the holes.
pub open spec fn hole_rings(rings: Seq<Seq<Point>>) -> Seq<Seq<Point>>
    decreases rings.len(),
{
    if rings.len() == 0 {
        Seq::empty()
    } else {
        let rest = hole_rings(rings.drop_last());
        if is_cw(rings.last()) {
            rest
        } else {
            rest.push(rings.last())
        }
    }
}

/// What `first_container` returns: -1 exactly when no exterior contains the
/// point; otherwise the least index whose exterior does.
pub proof fn lemma_first_container(polys: Seq<Seq<Seq<Point>>>, pt: Point)
    ensures
        -1 <= first_container(polys, pt) < polys.len(),
        first_container(polys, pt) == -1 ==> forall|i: int|
            0 <= i < polys.len() ==> !ring_contains(#[trigger] polys[i][0], pt),
        first_container(polys, pt) >= 0 ==> ring_contains(polys[first_container(polys, pt)][0], pt)
            && forall|i: int|
            0 <= i < first_container(polys, pt) ==> !ring_contains(#[trigger] polys[i][0], pt),
    decreases polys.len(),
{
    if polys.len() > 0 && !ring_contains(polys[0][0], pt) {
        lemma_first_container(polys.drop_first(), pt);
        assert forall|i: int| 1 <= i < polys.len() implies polys.drop_first()[i - 1]
            == polys[i] by {}
    }
}

/// `first_container` is determined by a witness index with none before it.
pub proof fn lemma_first_container_is(polys: Seq<Seq<Seq<Point>>>, pt: Point, i: int)
    requires
        0 <= i < polys.len(),
        ring_contains(polys[i][0], pt),
        forall|j: int| 0 <= j < i ==> !ring_contains(#[trigger] polys[j][0], pt),
    ensures
        first_container(polys, pt) == i,
    decreases polys.len(),
{
    if i > 0 {
        lemma_first_container_is(polys.drop_first(), pt, i - 1);
        assert forall|j: int| 1 <= j < polys.len() implies polys.drop_first()[j - 1]
            == polys[j] by {}
    }
}

/// When no exterior contains the point, `first_container` reports so.
pub proof fn lemma_first_container_none(polys: Seq<Seq<Seq<Point>>>, pt: Point)
    requires
        forall|j: int| 0 <= j < polys.len() ==> !ring_contains(#[trigger] polys[j][0], pt),
    ensures
        first_container(polys, pt) == -1,
    decreases polys.len(),
{
    if polys.len() > 0 {
        lemma_first_container_none(polys.drop_first(), pt);
    }
}

/// The containment test a nesting pass uses: the banded test when several
/// holes will be placed (the index build is amortized over the queries), the
/// unbanded test when only one will ever be made.
#[derive(Clone, Copy, Debug, PartialEq, Eq, Structural)]
pub enum ContainMode {
    Banded,
    Unbanded,
}

/// Attaches one hole ring to the polygon list, as `assign_one` says: wrap an
/// orphan hole as its own polygon, attach to a lone polygon unconditionally,
/// otherwise scan for the first polygon whose exterior contains the hole's
/// first point and fall back to the last polygon when none does.
pub fn process(polys: &mut Vec<Poly>, hole: Ring, mode: ContainMode)
    requires
        polys_wf(old(polys)@),
        hole.wf(),
    ensures
        polys_wf(final(polys)@),
        poly_views(final(polys)@) == assign_one(poly_views(old(polys)@), hole@),
{
    let n = polys.len();
    if n == 0 {
        polys.push(Poly::from_ring(hole));
        proof {
            assert(poly_views(polys@) =~= assign_one(poly_views(old(polys)@), hole@));
        }
    } else if n == 1 {
        let mut p = polys.remove(0);
        p.push(hole);
        polys.insert(0, p);
        proof {
            assert(polys@ =~= old(polys)@.update(0, p));
            assert(poly_views(polys@) =~= assign_one(poly_views(old(polys)@), hole@));
        }
    } else {
        let pt = *hole.first_point();
        let ghost pv = poly_views(polys@);
        let mut idx: usize = n - 1;
        let mut found = false;
        let mut i: usize = 0;
        while i < n
            invariant
                n == polys@.len(),
                n >= 2,
                polys_wf(polys@),
                pv == poly_views(polys@),
                hole.wf(),
                pt == hole@[0],
                0 <= i <= n,
                !found ==> idx == n - 1 && forall|j: int|
                    0 <= j < i ==> !ring_contains(#[trigger] pv[j][0], pt),
                found ==> 0 <= idx < i && ring_contains(pv[idx as int][0], pt) && forall|j: int|
                    0 <= j < idx ==> !ring_contains(#[trigger] pv[j][0], pt),
            decreases n - i,
        {
            if !found {
                let exterior = polys[i].first_ring();
                let c = match mode {
                    ContainMode::Banded => exterior.contains(&pt),
                    ContainMode::Unbanded => exterior.contains_unsliced(&pt),
                };
                if c {
                    idx = i;
                    found = true;
                }
            }
            i = i + 1;
        }
        proof {
            if found {
                lemma_first_container_is(pv, pt, idx as int);
            } else {
                lemma_first_container_none(pv, pt);
            }
        }
        let mut p = polys.remove(idx);
        p.push(hole);
        polys.insert(idx, p);
        proof {
            assert(polys@ =~= old(polys)@.update(idx as int, p));
            assert(poly_views(polys@) =~= assign_one(poly_views(old(polys)@), hole@));
        }
    }
}

/// Places every hole in order, as `nest_all` says. With a single hole the
/// unbanded test is used: building a spatial index that will only ever answer
/// one query would be wasted work. With several holes the banded test is
/// used, its build cost amortized over the queries. Both tests equal
/// `ring_contains`, so the choice never changes the result.
pub fn nest_holes(polys: &mut Vec<Poly>, holes: Vec<Ring>)
    requires
        polys_wf(old(polys)@),
        rings_wf(holes@),
    ensures
        polys_wf(final(polys)@),
        poly_views(final(polys)@) == nest_all(poly_views(old(polys)@), ring_views(holes@)),
{
    let ghost hv = ring_views(holes@);
    let ghost pv0 = poly_views(old(polys)@);
    if holes.len() == 1 {
        let mut holes = holes;
        let ghost pre = holes@;
        let hole = holes.remove(0);
        process(polys, hole, ContainMode::Unbanded);
        proof {
            assert(hv.drop_last() =~= Seq::<Seq<Point>>::empty());
            assert(hole@ == ring_views(pre)[0]);
            assert(hole@ == hv.last());
            assert(nest_all(pv0, hv.drop_last()) == pv0);
            assert(nest_all(pv0, hv) == assign_one(pv0, hv.last()));
        }
    } else {
        let mut holes = holes;
        while holes.len() > 0
            invariant
                polys_wf(polys@),
                rings_wf(holes@),
                holes@.len() <= hv.len(),
                ring_views(holes@) =~= hv.skip(hv.len() - holes@.len()),
                poly_views(polys@) == nest_all(pv0, hv.take(hv.len() - holes@.len())),
            decreases holes@.len(),
        {
            let ghost i = hv.len() - holes@.len();
            let ghost pre = holes@;
            let hole = holes.remove(0);
            proof {
                assert(ring_views(pre) =~= hv.skip(i));
                assert(hole@ == ring_views(pre)[0]);
                assert(hole@ == hv[i]);
                assert forall|q: int| 0 <= q < holes@.len() implies (#[trigger] holes@[q]).wf() by {
                    assert(holes@[q] == pre[q + 1]);
                }
            }
            process(polys, hole, ContainMode::Banded);
            proof {
                assert forall|q: int| 0 <= q < holes@.len() implies ring_views(holes@)[q]
                    == hv.skip(i + 1)[q] by {
                    assert(holes@[q] == pre[q + 1]);
                    assert(ring_views(pre)[q + 1] == hv.skip(i)[q + 1]);
                }
                assert(ring_views(holes@) =~= hv.skip(hv.len() - holes@.len()));
                assert(hv.take(i + 1).drop_last() =~= hv.take(i as int));
                assert(hv.take(i + 1).last() == hv[i]);
            }
        }
        proof {
            assert(hv.take(hv.len() as int) =~= hv);
        }
    }
}

/// Top-level entry for one shape record: classifies its rings by winding
/// direction — each clockwise ring becomes a polygon, in the order the
/// exteriors are encountered; the rest are holes, in their order — then
/// assigns every hole to its polygon.
pub fn nest_polygon(rings: Vec<Ring>) -> (r: Vec<Poly>)
    requires
        rings_wf(rings@),
    ensures
        polys_wf(r@),
        poly_views(r@) == nest_all(
            exterior_polys(ring_views(rings@)),
            hole_rings(ring_views(rings@)),
        ),
{
    let ghost rv = ring_views(rings@);
    let mut polys: Vec<Poly> = Vec::new();
    let mut holes: Vec<Ring> = Vec::new();
    let mut rings = rings;
    while rings.len() > 0
        invariant
            rings_wf(rings@),
            polys_wf(polys@),
            rings_wf(holes@),
            rings@.len() <= rv.len(),
            ring_views(rings@) =~= rv.skip(rv.len() - rings@.len()),
            poly_views(polys@) == exterior_polys(rv.take(rv.len() - rings@.len())),
            ring_views(holes@) == hole_rings(rv.take(rv.len() - rings@.len())),
        decreases rings@.len(),
    {
        let ghost i = rv.len() - rings@.len();
        let ghost pre = rings@;
        let ring = rings.remove(0);
        proof {
            assert(ring_views(pre) =~= rv.skip(i));
            assert(ring@ == ring_views(pre)[0]);
            assert(ring@ == rv[i]);
            assert(rv.take(i + 1).drop_last() =~= rv.take(i));
            assert(rv.take(i + 1).last() == rv[i]);
            assert forall|q: int| 0 <= q < rings@.len() implies (#[trigger] rings@[q]).wf() by {
                assert(rings@[q] == pre[q + 1]);
            }
            assert forall|q: int| 0 <= q < rings@.len() implies ring_views(rings@)[q]
                == rv.skip(i + 1)[q] by {
                assert(rings@[q] == pre[q + 1]);
                assert(ring_views(pre)[q + 1] == rv.skip(i)[q + 1]);
            }
            assert(ring_views(rings@) =~= rv.skip(rv.len() - rings@.len()));
        }
        if ring.is_clockwise() {
            polys.push(Poly::from_ring(ring));
            proof {
                assert(poly_views(polys@) =~= exterior_polys(rv.take(i + 1)));
            }
        } else {
            holes.push(ring);
            proof {
                assert(ring_views(holes@) =~= hole_rings(rv.take(i + 1)));
            }
        }
    }
    proof {
        assert(rv.take(rv.len() as int) =~= rv);
    }
    nest_holes(&mut polys, holes);
    polys
}


/// With exactly one polygon, the single-polygon fast path attaches every
/// hole to it, whatever the holes' positions: the result is that polygon
/// with all the holes appended, in order. The fast path never rejects.
pub proof fn lemma_single_polygon_takes_all(poly: Seq<Seq<Point>>, holes: Seq<Seq<Point>>)
    ensures
        nest_all(seq![poly], holes) == seq![poly + holes],
    decreases holes.len(),
{
    if holes.len() == 0 {
        assert(poly + holes =~= poly);
        assert(seq![poly + holes] =~= seq![poly]);
    } else {
        lemma_single_polygon_takes_all(poly, holes.drop_last());
        let front = holes.drop_last();
        let prev = seq![poly + front];
        assert(nest_all(seq![poly], holes) == assign_one(prev, holes.last()));
        assert(assign_one(prev, holes.last()) == prev.update(0, prev[0].push(holes.last())));
        assert(prev[0].push(holes.last()) =~= poly + holes);
        assert(prev.update(0, poly + holes) =~= seq![poly + holes]);
    }
}

/// With no polygons at all, a lone hole ring becomes a polygon of its own:
/// the resulting polygon's sole "exterior" ring is the hole itself.
pub proof fn lemma_orphan_hole_becomes_polygon(hole: Seq<Point>)
    ensures
        nest_all(Seq::empty(), seq![hole]) == seq![seq![hole]],
{
    let hs = seq![hole];
    assert(hs.drop_last() =~= Seq::<Seq<Point>>::empty());
    assert(nest_all(Seq::empty(), hs.drop_last()) == Seq::<Seq<Seq<Point>>>::empty());
    assert(nest_all(Seq::empty(), hs) == assign_one(Seq::empty(), hole));
}

/// With several polygons, only the hole's first point is consulted: a hole
/// whose first point lies in the second of two polygons is attached to the
/// second, never to the first — wherever the hole's other points lie.
pub proof fn lemma_hole_follows_first_point(polys: Seq<Seq<Seq<Point>>>, hole: Seq<Point>)
    requires
        polys.len() == 2,
        hole.len() >= 1,
        !ring_contains(polys[0][0], hole[0]),
        ring_contains(polys[1][0], hole[0]),
    ensures
        assign_one(polys, hole) == polys.update(1, polys[1].push(hole)),
{
    lemma_first_container_is(polys, hole[0], 1);
}

/// Appending one ring to one polygon of the list adds exactly that ring to
/// the list's rings.
proof fn lemma_flatten_update_push(s: Seq<Seq<Seq<Point>>>, i: int, x: Seq<Point>)
    requires
        0 <= i < s.len(),
    ensures
        s.update(i, s[i].push(x)).flatten().to_multiset() == s.flatten().to_multiset().insert(x),
{
    broadcast use vstd::multiset::group_multiset_axioms;

    let u = s.update(i, s[i].push(x));
    let a = s.take(i);
    let c = s.skip(i + 1);
    assert(s =~= (a + seq![s[i]]) + c);
    assert(u =~= (a + seq![s[i].push(x)]) + c);
    lemma_flatten_concat(a + seq![s[i]], c);
    lemma_flatten_concat(a, seq![s[i]]);
    lemma_flatten_concat(a + seq![s[i].push(x)], c);
    lemma_flatten_concat(a, seq![s[i].push(x)]);
    seq![s[i]].lemma_flatten_one_element();
    seq![s[i].push(x)].lemma_flatten_one_element();
    assert(s.flatten() == (a.flatten() + s[i]) + c.flatten());
    assert(u.flatten() == (a.flatten() + s[i].push(x)) + c.flatten());
    lemma_multiset_commutative(a.flatten() + s[i], c.flatten());
    lemma_multiset_commutative(a.flatten(), s[i]);
    lemma_multiset_commutative(a.flatten() + s[i].push(x), c.flatten());
    lemma_multiset_commutative(a.flatten(), s[i].push(x));
    to_multiset_build(s[i], x);
    assert(u.flatten().to_multiset() =~= s.flatten().to_multiset().insert(x));
}

/// One assignment adds exactly the assigned hole to the rings of the
/// polygon list, whichever branch of the policy fires.
proof fn lemma_assign_one_rings(polys: Seq<Seq<Seq<Point>>>, hole: Seq<Point>)
    ensures
        assign_one(polys, hole).flatten().to_multiset() == polys.flatten().to_multiset().insert(
            hole,
        ),
{
    broadcast use vstd::multiset::group_multiset_axioms;

    if polys.len() == 0 {
        let r = seq![seq![hole]];
        r.lemma_flatten_one_element();
        assert(r.flatten() == seq![hole]);
        let e = Seq::<Seq<Point>>::empty();
        e.to_multiset_ensures();
        lemma_multiset_empty_len(e.to_multiset());
        assert(e.to_multiset() =~= Multiset::<Seq<Point>>::empty());
        assert(seq![hole] =~= e.push(hole));
        to_multiset_build(e, hole);
        assert(seq![hole].to_multiset() =~= Multiset::<Seq<Point>>::empty().insert(hole));
        assert(polys.flatten() =~= e);
        assert(polys.flatten().to_multiset() =~= Multiset::<Seq<Point>>::empty());
        assert(r.flatten().to_multiset() =~= polys.flatten().to_multiset().insert(hole));
    } else if polys.len() == 1 {
        lemma_flatten_update_push(polys, 0, hole);
    } else {
        lemma_first_container(polys, hole[0]);
        let f = first_container(polys, hole[0]);
        let idx = if f == -1 {
            polys.len() - 1
        } else {
            f
        };
        lemma_flatten_update_push(polys, idx as int, hole);
    }
}

/// Nesting only regroups rings, it never alters or drops one: the rings of
/// the nested result are exactly the rings of the starting polygons together
/// with the holes, each passed through untouched. Re-encoding a nested
/// polygon therefore reproduces the very point sequences that were decoded.
pub proof fn lemma_nest_preserves_rings(polys: Seq<Seq<Seq<Point>>>, holes: Seq<Seq<Point>>)
    ensures
        nest_all(polys, holes).flatten().to_multiset() == polys.flatten().to_multiset().add(
            holes.to_multiset(),
        ),
    decreases holes.len(),
{
    broadcast use vstd::multiset::group_multiset_axioms;

    if holes.len() == 0 {
        holes.to_multiset_ensures();
        lemma_multiset_empty_len(holes.to_multiset());
        assert(holes.to_multiset() =~= Multiset::<Seq<Point>>::empty());
        assert(polys.flatten().to_multiset().add(holes.to_multiset()) =~= polys.flatten().to_multiset());
    } else {
        let front = holes.drop_last();
        lemma_nest_preserves_rings(polys, front);
        lemma_assign_one_rings(nest_all(polys, front), holes.last());
        assert(holes =~= front.push(holes.last()));
        to_multiset_build(front, holes.last());
        assert(nest_all(polys, holes).flatten().to_multiset() =~= polys.flatten().to_multiset().add(holes.to_multiset()));
    }
}

} // verus!
