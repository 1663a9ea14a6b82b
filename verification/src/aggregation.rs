use vstd::prelude::*;
use crate::collection::{
    boxes, cleared, colors, fits, in_box, lemma_boxes_unique, lists, merges, no_cells, occupied, one_height,
    points_of, put, put_all, same_column, shifted_box, translated, union_of, Bounds, Entry, VoxelCollection,
};
use crate::element::{averaged, fitting_weight, merged, on_axis, Point3D, Voxel};

verus! {

/// How many entries of a list lie at a cell, and the sums of their colors,
/// channel by channel.
pub open spec fn tally(list: Seq<Entry>, point: Point3D) -> (nat, nat, nat, nat)
    decreases list.len(),
{
    if list.len() == 0 {
        (0, 0, 0, 0)
    } else {
        add_entry(tally(list.drop_last(), point), list.last(), point)
    }
}

/// A tally with one more entry counted, if the entry lies at the cell.
pub open spec fn add_entry(sums: (nat, nat, nat, nat), entry: Entry, point: Point3D) -> (nat, nat, nat, nat) {
    if entry.0 == point {
        (
            sums.0 + 1,
            sums.1 + entry.1.color.0 as nat,
            sums.2 + entry.1.color.1 as nat,
            sums.3 + entry.1.color.2 as nat,
        )
    } else {
        sums
    }
}

/// Every entry is a single point: a voxel of weight one.
pub open spec fn single_weighted(list: Seq<Entry>) -> bool {
    forall|i: int| 0 <= i < list.len() ==> (#[trigger] list[i]).1.weight == 1
}

/// No cell gets more entries than a weight can count, and no sum passes what
/// the pool can hold.
pub open spec fn unsaturated(list: Seq<Entry>) -> bool {
    forall|point: Point3D|
        (#[trigger] tally(list, point)).0 <= u8::MAX && tally(list, point).1 <= u16::MAX && tally(list, point).2
            <= u16::MAX && tally(list, point).3 <= u16::MAX
}

/// Entries in one column lie at one height.
pub open spec fn level(list: Seq<Entry>) -> bool {
    forall|i: int, j: int|
        0 <= i < list.len() && 0 <= j < list.len() && same_column(
            (#[trigger] list[i]).0,
            (#[trigger] list[j]).0,
        ) ==> list[i].0 == list[j].0
}

/// The cells that hold exactly what was tallied: every admitted cell with an
/// entry, with the count of its entries as weight and the sums of their colors.
pub open spec fn tallied(list: Seq<Entry>, admitted: Set<Point3D>) -> Map<Point3D, Voxel> {
    Map::new(
        |point: Point3D| admitted.contains(point) && tally(list, point).0 > 0,
        |point: Point3D|
            Voxel {
                color: (tally(list, point).1 as u16, tally(list, point).2 as u16, tally(list, point).3 as u16),
                weight: tally(list, point).0 as u8,
            },
    )
}

proof fn lemma_tally_facts(list: Seq<Entry>, point: Point3D)
    ensures
        tally(list, point).0 == 0 ==> tally(list, point) == (0nat, 0nat, 0nat, 0nat),
        tally(list, point).0 > 0 ==> exists|j: int| 0 <= j < list.len() && (#[trigger] list[j]).0 == point,
        list.len() > 0 ==> tally(list.drop_last(), point).0 <= tally(list, point).0 && tally(
            list.drop_last(),
            point,
        ).1 <= tally(list, point).1 && tally(list.drop_last(), point).2 <= tally(list, point).2 && tally(
            list.drop_last(),
            point,
        ).3 <= tally(list, point).3,
    decreases list.len(),
{
    if list.len() > 0 {
        lemma_tally_facts(list.drop_last(), point);
        if tally(list, point).0 > 0 {
            if list.last().0 == point {
                assert(list[list.len() - 1].0 == point);
            } else {
                let j = choose|j: int| 0 <= j < list.drop_last().len() && (#[trigger] list.drop_last()[j]).0 == point;
                assert(list[j].0 == point);
            }
        }
    }
}

proof fn lemma_tally_remove(list: Seq<Entry>, i: int, point: Point3D)
    requires
        0 <= i < list.len(),
    ensures
        tally(list, point) == add_entry(tally(list.remove(i), point), list[i], point),
    decreases list.len(),
{
    if i == list.len() - 1 {
        assert(list.remove(i) == list.drop_last());
    } else {
        lemma_tally_remove(list.drop_last(), i, point);
        assert(list.remove(i).drop_last() == list.drop_last().remove(i));
        assert(list.remove(i).last() == list.last());
    }
}

/// Two lists with the same entries, in whatever order, tally alike.
pub proof fn lemma_tally_reordered(first: Seq<Entry>, second: Seq<Entry>, point: Point3D)
    requires
        first.to_multiset() == second.to_multiset(),
    ensures
        tally(first, point) == tally(second, point),
    decreases first.len(),
{
    broadcast use vstd::seq_lib::group_to_multiset_ensures;
    broadcast use vstd::multiset::group_multiset_axioms;

    first.to_multiset_ensures();
    second.to_multiset_ensures();
    assert(first.len() == first.to_multiset().len());
    assert(second.len() == second.to_multiset().len());
    if first.len() > 0 {
        let x = first.last();
        let rest = first.drop_last();
        assert(first == rest.push(x));
        assert(first.to_multiset() =~= rest.to_multiset().insert(x));
        assert(second.to_multiset().count(x) > 0);
        assert(second.contains(x));
        let i = choose|i: int| 0 <= i < second.len() && second[i] == x;
        let others = second.remove(i);
        assert(others.to_multiset() =~= second.to_multiset().remove(x));
        assert(rest.to_multiset() =~= first.to_multiset().remove(x));
        lemma_tally_reordered(rest, others, point);
        lemma_tally_remove(second, i, point);
    }
}

/// While nothing saturates, offering single points one after the other gives
/// every cell the count of its points as weight and the sums of their colors.
pub proof fn lemma_put_all_tallies(list: Seq<Entry>, admitted: Set<Point3D>, planar: bool)
    requires
        single_weighted(list),
        unsaturated(list),
        planar ==> level(list),
    ensures
        put_all(no_cells(), admitted, planar, list) == tallied(list, admitted),
    decreases list.len(),
{
    if list.len() == 0 {
        assert(put_all(no_cells(), admitted, planar, list) =~= tallied(list, admitted));
    } else {
        let rest = list.drop_last();
        let entry = list.last();
        assert forall|point: Point3D|
            (#[trigger] tally(rest, point)).0 <= u8::MAX && tally(rest, point).1 <= u16::MAX && tally(rest, point).2
                <= u16::MAX && tally(rest, point).3 <= u16::MAX by {
            lemma_tally_facts(list, point);
            assert(tally(list, point).0 <= u8::MAX);
        }
        assert forall|i: int| 0 <= i < rest.len() implies (#[trigger] rest[i]).1.weight == 1 by {
            assert(list[i].1.weight == 1);
        }
        if planar {
            assert forall|i: int, j: int|
                0 <= i < rest.len() && 0 <= j < rest.len() && same_column(
                    (#[trigger] rest[i]).0,
                    (#[trigger] rest[j]).0,
                ) implies rest[i].0 == rest[j].0 by {
                assert(list[i].0 == rest[i].0 && list[j].0 == rest[j].0);
            }
        }
        lemma_put_all_tallies(rest, admitted, planar);
        let before = tallied(rest, admitted);
        let after = put(before, admitted, planar, entry.0, entry.1);
        let point = entry.0;
        assert(list[list.len() - 1].1.weight == 1);
        lemma_tally_facts(rest, point);
        assert(tally(list, point).0 <= u8::MAX);
        if admitted.contains(point) && !before.dom().contains(point) && planar {
            assert forall|q: Point3D| before.dom().contains(q) && same_column(point, q) implies false by {
                lemma_tally_facts(rest, q);
                let j = choose|j: int| 0 <= j < rest.len() && (#[trigger] rest[j]).0 == q;
                assert(list[j].0 == q);
                assert(list[list.len() - 1].0 == point);
            }
            assert(cleared(before, point) =~= before);
        }
        let goal = tallied(list, admitted);
        assert(tally(list, point) == add_entry(tally(rest, point), entry, point));
        assert forall|q: Point3D| after.dom().contains(q) == goal.dom().contains(q) && (after.dom().contains(q)
            ==> after[q] == goal[q]) by {
            if q != point {
                assert(tally(list, q) == tally(rest, q));
            } else if admitted.contains(point) {
                if before.dom().contains(point) {
                    let current = before[point];
                    assert(current.weight == tally(rest, point).0);
                    assert(current.weight < u8::MAX);
                    assert(after[point] == merged(current, entry.1));
                    let w = fitting_weight(current.weight, entry.1.weight);
                    assert(w == 1);
                    let c = entry.1.color;
                    assert(c.0 * w == c.0 && c.1 * w == c.1 && c.2 * w == c.2) by (nonlinear_arith)
                        requires
                            w == 1,
                    ;
                } else {
                    assert(tally(rest, point).0 == 0);
                    assert(after[point] == entry.1);

                }
            }
        }
        assert(after =~= goal);
    }
}

/// Insertion order does not matter while nothing saturates: two lists of
/// single points that hold the same entries, in whatever order, leave the same
/// voxel in every cell, and so the same averaged color. For a store that keeps
/// one height per column this holds of entries that lie at one height in each
/// column.
pub proof fn lemma_order_independent(first: Seq<Entry>, second: Seq<Entry>, admitted: Set<Point3D>, planar: bool)
    requires
        first.to_multiset() == second.to_multiset(),
        single_weighted(first),
        unsaturated(first),
        planar ==> level(first),
    ensures
        put_all(no_cells(), admitted, planar, first) == put_all(no_cells(), admitted, planar, second),
        forall|point: Point3D|
            put_all(no_cells(), admitted, planar, first).dom().contains(point) ==> averaged(
                #[trigger] put_all(no_cells(), admitted, planar, first)[point],
            ) == averaged(put_all(no_cells(), admitted, planar, second)[point]),
{
    broadcast use vstd::seq_lib::group_to_multiset_ensures;
    broadcast use vstd::multiset::group_multiset_axioms;

    assert forall|i: int| 0 <= i < second.len() implies (#[trigger] second[i]).1.weight == 1 by {
        assert(second.contains(second[i]));
        assert(first.to_multiset().count(second[i]) > 0);
        assert(first.contains(second[i]));
        let j = choose|j: int| 0 <= j < first.len() && first[j] == second[i];
        assert(first[j].1.weight == 1);
    }
    assert forall|point: Point3D|
        (#[trigger] tally(second, point)).0 <= u8::MAX && tally(second, point).1 <= u16::MAX && tally(
            second,
            point,
        ).2 <= u16::MAX && tally(second, point).3 <= u16::MAX by {
        lemma_tally_reordered(first, second, point);
        assert(tally(first, point).0 <= u8::MAX);
    }
    if planar {
        assert forall|i: int, j: int|
            0 <= i < second.len() && 0 <= j < second.len() && same_column(
                (#[trigger] second[i]).0,
                (#[trigger] second[j]).0,
            ) implies second[i].0 == second[j].0 by {
            assert(second.contains(second[i]));
            assert(first.to_multiset().count(second[i]) > 0);
            assert(first.contains(second[i]));
            let a = choose|a: int| 0 <= a < first.len() && first[a] == second[i];
            assert(second.contains(second[j]));
            assert(first.to_multiset().count(second[j]) > 0);
            assert(first.contains(second[j]));
            let b = choose|b: int| 0 <= b < first.len() && first[b] == second[j];
            assert(same_column(first[a].0, first[b].0));
        }
    }
    lemma_put_all_tallies(first, admitted, planar);
    lemma_put_all_tallies(second, admitted, planar);
    assert forall|point: Point3D| tally(first, point) == tally(second, point) by {
        lemma_tally_reordered(first, second, point);
    }
    assert(tallied(first, admitted) =~= tallied(second, admitted));
}

/// Offering a voxel leaves every cell with a weight of one or more.
pub proof fn lemma_put_occupied(
    cells: Map<Point3D, Voxel>,
    admitted: Set<Point3D>,
    planar: bool,
    point: Point3D,
    voxel: Voxel,
)
    requires
        occupied(cells),
    ensures
        occupied(put(cells, admitted, planar, point, voxel)),
{
    let after = put(cells, admitted, planar, point, voxel);
    assert forall|p: Point3D| #[trigger] after.dom().contains(p) implies after[p].weight >= 1 by {
        if p != point {
            assert(cells.dom().contains(p));
        } else if cells.dom().contains(point) {
            assert(merged(cells[point], voxel).weight >= cells[point].weight);
        }
    }
}

/// The weight cap: after any sequence of offers every cell has a weight from
/// one to the largest value a weight can have.
pub proof fn lemma_weights_capped(cells: Map<Point3D, Voxel>, admitted: Set<Point3D>, planar: bool, list: Seq<Entry>)
    requires
        occupied(cells),
    ensures
        occupied(put_all(cells, admitted, planar, list)),
        forall|point: Point3D| #[trigger]
            put_all(cells, admitted, planar, list).dom().contains(point) ==> 1 <= put_all(
                cells,
                admitted,
                planar,
                list,
            )[point].weight <= u8::MAX,
    decreases list.len(),
{
    if list.len() > 0 {
        lemma_weights_capped(cells, admitted, planar, list.drop_last());
        lemma_put_occupied(
            put_all(cells, admitted, planar, list.drop_last()),
            admitted,
            planar,
            list.last().0,
            list.last().1,
        );
    }
}

/// The cells that the first `upto` entries of a listing name.
pub open spec fn listed(cells: Map<Point3D, Voxel>, list: Seq<Entry>, upto: int) -> Map<Point3D, Voxel> {
    Map::new(|p: Point3D| exists|i: int| 0 <= i < upto && (#[trigger] list[i]).0 == p, |p: Point3D| cells[p])
}

proof fn lemma_listed(cells: Map<Point3D, Voxel>, admitted: Set<Point3D>, planar: bool, list: Seq<Entry>, upto: int)
    requires
        0 <= upto <= list.len(),
        lists(cells, list),
        occupied(cells),
        cells.dom().subset_of(admitted),
        planar ==> one_height(cells),
    ensures
        put_all(no_cells(), admitted, planar, list.take(upto)) == listed(cells, list, upto),
    decreases upto,
{
    if upto == 0 {
        assert(put_all(no_cells(), admitted, planar, list.take(upto)) =~= listed(cells, list, upto));
    } else {
        lemma_listed(cells, admitted, planar, list, upto - 1);
        assert(list.take(upto).drop_last() == list.take(upto - 1));
        let before = listed(cells, list, upto - 1);
        let entry = list[upto - 1];
        let point = entry.0;
        assert(cells.contains_pair(point, entry.1));
        assert(cells.dom().contains(point));
        assert(!before.dom().contains(point)) by {
            if before.dom().contains(point) {
                let i = choose|i: int| 0 <= i < upto - 1 && (#[trigger] list[i]).0 == point;
                assert(list[i].0 != list[upto - 1].0);
            }
        }
        if planar {
            assert forall|q: Point3D| before.dom().contains(q) && same_column(point, q) implies false by {
                let i = choose|i: int| 0 <= i < upto - 1 && (#[trigger] list[i]).0 == q;
                assert(cells.contains_pair(list[i].0, list[i].1));
                assert(cells.dom().contains(q));
            }
            assert(cleared(before, point) =~= before);
        }
        let after = put(before, admitted, planar, point, entry.1);
        assert forall|q: Point3D| after.dom().contains(q) == listed(cells, list, upto).dom().contains(q) by {
            if q == point {
                assert(list[upto - 1].0 == q);
            } else {
                if before.dom().contains(q) {
                    let i = choose|i: int| 0 <= i < upto - 1 && (#[trigger] list[i]).0 == q;
                    assert(list[i].0 == q);
                }
                if listed(cells, list, upto).dom().contains(q) {
                    let i = choose|i: int| 0 <= i < upto && (#[trigger] list[i]).0 == q;
                    assert(i < upto - 1);
                }
            }
        }
        assert(after =~= listed(cells, list, upto));
    }
}

/// A store built from a listing of cells holds those cells again, as they
/// were: offering every cell of a listing once to an empty store that admits
/// them gives back each voxel, with its sums and its weight.
pub proof fn lemma_rebuilt(cells: Map<Point3D, Voxel>, admitted: Set<Point3D>, planar: bool, list: Seq<Entry>)
    requires
        lists(cells, list),
        occupied(cells),
        cells.dom().subset_of(admitted),
        planar ==> one_height(cells),
    ensures
        put_all(no_cells(), admitted, planar, list) == cells,
{
    lemma_listed(cells, admitted, planar, list, list.len() as int);
    assert(list.take(list.len() as int) == list);
    assert(listed(cells, list, list.len() as int) =~= cells);
}

/// Offering entries to cells that were themselves offered: the entries of two
/// lists offered one list after the other are the entries of the joined list.
pub proof fn lemma_put_all_joined(
    cells: Map<Point3D, Voxel>,
    admitted: Set<Point3D>,
    planar: bool,
    first: Seq<Entry>,
    second: Seq<Entry>,
)
    ensures
        put_all(cells, admitted, planar, first + second) == put_all(
            put_all(cells, admitted, planar, first),
            admitted,
            planar,
            second,
        ),
    decreases second.len(),
{
    if second.len() == 0 {
        assert(first + second == first);
    } else {
        lemma_put_all_joined(cells, admitted, planar, first, second.drop_last());
        assert((first + second).drop_last() == first + second.drop_last());
    }
}

/// Building a store anew from a listing of its cells followed by further
/// entries gives what offering the further entries to the store gives.
pub proof fn lemma_absorbed(
    cells: Map<Point3D, Voxel>,
    admitted: Set<Point3D>,
    planar: bool,
    first: Seq<Entry>,
    further: Seq<Entry>,
)
    requires
        lists(cells, first),
        occupied(cells),
        cells.dom().subset_of(admitted),
        planar ==> one_height(cells),
    ensures
        put_all(no_cells(), admitted, planar, first + further) == put_all(cells, admitted, planar, further),
{
    lemma_put_all_joined(no_cells(), admitted, planar, first, further);
    lemma_rebuilt(cells, admitted, planar, first);
}

/// A store built from a listing of cells that it admits holds exactly those
/// cells, each with the sums and the weight it had, and shows the colors they
/// showed. This is what handing the cells of one store on to another keeps.
pub proof fn lemma_built_keeps<S: VoxelCollection>(
    store: S,
    cells: Map<Point3D, Voxel>,
    list: Seq<Entry>,
    bounds: Option<Bounds>,
)
    requires
        merges(store, list, bounds),
        lists(cells, list),
        occupied(cells),
        cells.dom().subset_of(store.admitted()),
        S::planar() ==> one_height(cells),
    ensures
        store.cells() == cells,
        colors(store.cells()) == colors(cells),
{
    lemma_rebuilt(cells, store.admitted(), S::planar(), list);
}

/// A store built from a listing of cells followed by further entries holds what
/// offering the further entries to the cells gives. This is what adding a
/// cloud to a voxelizer does to its store.
pub proof fn lemma_built_offers<S: VoxelCollection>(
    store: S,
    cells: Map<Point3D, Voxel>,
    first: Seq<Entry>,
    further: Seq<Entry>,
    bounds: Option<Bounds>,
)
    requires
        merges(store, first + further, bounds),
        lists(cells, first),
        occupied(cells),
        cells.dom().subset_of(store.admitted()),
        S::planar() ==> one_height(cells),
    ensures
        store.cells() == put_all(cells, store.admitted(), S::planar(), further),
{
    lemma_absorbed(cells, store.admitted(), S::planar(), first, further);
}

/// In a store that keeps every height, nothing that was offered is lost: every
/// entry of a list that is admitted and not vacant has its cell among the
/// cells after the list was offered.
pub proof fn lemma_offered_stays(cells: Map<Point3D, Voxel>, admitted: Set<Point3D>, list: Seq<Entry>, at: int)
    requires
        0 <= at < list.len(),
        admitted.contains(list[at].0),
        list[at].1.weight >= 1,
    ensures
        put_all(cells, admitted, false, list).dom().contains(list[at].0),
    decreases list.len(),
{
    if at < list.len() - 1 {
        lemma_offered_stays(cells, admitted, list.drop_last(), at);
    }
}

/// A cell that stays a cell when moved lies, once moved, in the box around its
/// moved box and any other box. This is why the grid of a merged store holds
/// the cells of both stores.
pub proof fn lemma_merged_box_holds(bounds: Bounds, offset: Point3D, other: Bounds, point: Point3D)
    requires
        in_box(bounds, point),
        fits(point, offset),
    ensures
        in_box(union_of(shifted_box(bounds, offset), other), translated(point, offset)),
        in_box(union_of(other, shifted_box(bounds, offset)), translated(point, offset)),
{
}

/// A store built from one entry without a box holds that entry and nothing
/// else: its one cell, with the voxel that was offered.
pub proof fn lemma_built_from_one<S: VoxelCollection>(store: S, entry: Entry)
    requires
        store.admitted() == S::frame(seq![entry], None),
        store.cells() == put_all(no_cells(), store.admitted(), S::planar(), seq![entry]),
        entry.1.weight >= 1,
    ensures
        store.cells() == no_cells().insert(entry.0, entry.1),
{
    let list = seq![entry];
    assert(boxes(list, (entry.0, entry.0))) by {
        let points = points_of(list);
        assert(points[0] == entry.0);
        assert(on_axis(points[0], 0) == entry.0.0);
        assert(on_axis(points[0], 1) == entry.0.1);
        assert(on_axis(points[0], 2) == entry.0.2);
    }
    lemma_boxes_unique(list, (entry.0, entry.0), (entry.0, entry.0));
    S::lemma_frame_admits(list, 0);
    assert(list.drop_last() =~= Seq::<Entry>::empty());
    assert(put_all(no_cells(), store.admitted(), S::planar(), list.drop_last()) == no_cells());
    assert(cleared(no_cells(), entry.0) =~= no_cells());
}

} // verus!
