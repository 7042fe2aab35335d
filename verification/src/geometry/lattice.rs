//! The combinatorial part of a lattice: which polygons it holds, by their number of
//! sides, and which of them share an edge. Where the tiles lie in the plane is not
//! held here; what depends on positions is handed in as plain values.

use crate::geometry::antwerp::{lists, Configuration};
use vstd::prelude::*;

verus! {

/// Why a polygon could not be built.
#[derive(Debug, PartialEq, Eq, Clone, Copy)]
pub enum GeometryError {
    /// The number of sides is none of 3, 4, 6, 8 and 12.
    UnsupportedPolygonOrder,
    /// Fewer than three distinct vertices.
    DegeneratePolygon,
    /// The side length is zero or negative.
    NonPositiveSideLength,
    /// The number of vertices is zero or negative.
    NonPositiveVertexCount,
}

/// Whether a regular polygon of `sides` sides can be a tile.
pub open spec fn is_supported_order(sides: nat) -> bool {
    sides == 3 || sides == 4 || sides == 6 || sides == 8 || sides == 12
}

/// The edge of a regular polygon of `sides` sides onto which the next tile is glued.
pub open spec fn attachment_edge(sides: nat) -> nat {
    if sides == 8 {
        1
    } else if sides == 12 {
        2
    } else {
        0
    }
}

/// Whether a polygon of `sides` sides can be a tile; the error says that it cannot.
pub fn create_tile(sides: usize) -> (result: Result<(), GeometryError>)
    ensures
        result is Ok <==> is_supported_order(sides as nat),
        result is Err ==> result == Err::<(), GeometryError>(GeometryError::UnsupportedPolygonOrder),
{
    match sides {
        3 | 4 | 6 | 8 | 12 => Ok(()),
        _ => Err(GeometryError::UnsupportedPolygonOrder),
    }
}

/// The index of the edge of a tile of `sides` sides onto which new tiles are glued.
pub fn starting_index(sides: usize) -> (result: Result<usize, GeometryError>)
    ensures
        match result {
            Ok(edge) => is_supported_order(sides as nat) && edge == attachment_edge(sides as nat),
            Err(error) => !is_supported_order(sides as nat) && error
                == GeometryError::UnsupportedPolygonOrder,
        },
{
    match sides {
        3 | 4 | 6 => Ok(0),
        8 => Ok(1),
        12 => Ok(2),
        _ => Err(GeometryError::UnsupportedPolygonOrder),
    }
}

/// The edge of a tile on which the next tile is placed: the attachment edge for the
/// seed, and for a tile that was itself placed on another, whose attachment edge is
/// taken, the edge after it.
pub open spec fn frontier_edge(sides: nat, placed: bool) -> nat {
    if placed {
        (attachment_edge(sides) + 1) % sides
    } else {
        attachment_edge(sides)
    }
}

/// The index of the edge of a tile of `sides` sides on which the next tile is placed,
/// given whether the tile was itself placed on another.
pub fn frontier_index(sides: usize, placed: bool) -> (result: Result<usize, GeometryError>)
    ensures
        match result {
            Ok(edge) => is_supported_order(sides as nat) && edge == frontier_edge(
                sides as nat,
                placed,
            ) && edge < sides,
            Err(error) => !is_supported_order(sides as nat) && error
                == GeometryError::UnsupportedPolygonOrder,
        },
{
    match starting_index(sides) {
        Err(error) => Err(error),
        Ok(edge) => if placed {
            Ok((edge + 1) % sides)
        } else {
            Ok(edge)
        },
    }
}

/// A lattice as mathematics: the number of sides of each tile, in the order of
/// placement, and for each tile the tiles that share an edge with it.
pub struct LatticeModel {
    pub tiles: Seq<usize>,
    pub connectivity: Seq<Seq<usize>>,
}

impl LatticeModel {
    /// Whether tile `j` is listed as a neighbour of tile `i`.
    pub open spec fn has_edge(self, i: usize, j: usize) -> bool {
        i < self.connectivity.len() && self.connectivity[i as int].contains(j)
    }

    /// Whether every tile has a supported number of sides and a list of neighbours,
    /// every neighbour is a tile of the lattice, and connectivity is symmetric.
    pub open spec fn well_formed(self) -> bool {
        &&& self.connectivity.len() == self.tiles.len()
        &&& forall|i: int|
            0 <= i < self.tiles.len() ==> is_supported_order(#[trigger] self.tiles[i] as nat)
        &&& forall|i: int, k: int|
            0 <= i < self.connectivity.len() && 0 <= k < self.connectivity[i].len() ==> (
            #[trigger] self.connectivity[i][k]) < self.tiles.len()
        &&& forall|i: usize, j: usize| #[trigger] self.has_edge(i, j) ==> self.has_edge(j, i)
    }
}

/// The tiles of a lattice and their adjacency.
#[derive(Debug, PartialEq)]
pub struct Lattice {
    tiles: Vec<usize>,
    connectivity: Vec<Vec<usize>>,
}

impl View for Lattice {
    type V = LatticeModel;

    closed spec fn view(&self) -> LatticeModel {
        LatticeModel { tiles: self.tiles@, connectivity: lists(self.connectivity@) }
    }
}

/// Whether `row` holds `value`.
fn row_contains(row: &Vec<usize>, value: usize) -> (found: bool)
    ensures
        found == row@.contains(value),
{
    let mut k: usize = 0;
    while k < row.len()
        invariant
            k <= row.len(),
            forall|m: int| 0 <= m < k ==> row@[m] != value,
        decreases row.len() - k,
    {
        if row[k] == value {
            return true;
        }
        k += 1;
    }
    false
}

/// A copy of `row`.
fn copy_row(row: &Vec<usize>) -> (copy: Vec<usize>)
    ensures
        copy@ == row@,
{
    let mut copy: Vec<usize> = Vec::new();
    let mut k: usize = 0;
    while k < row.len()
        invariant
            k <= row.len(),
            copy@ == row@.take(k as int),
        decreases row.len() - k,
    {
        copy.push(row[k]);
        assert(copy@ =~= row@.take(k + 1));
        k += 1;
    }
    assert(row@.take(k as int) =~= row@);
    copy
}

impl Lattice {
    /// The lattice of one tile of `sides` sides, which has no neighbour.
    pub fn seed(sides: usize) -> (result: Result<Lattice, GeometryError>)
        ensures
            match result {
                Ok(lattice) => {
                    &&& is_supported_order(sides as nat)
                    &&& lattice@.well_formed()
                    &&& lattice@.tiles == seq![sides]
                    &&& lattice@.connectivity == seq![Seq::<usize>::empty()]
                },
                Err(error) => !is_supported_order(sides as nat) && error
                    == GeometryError::UnsupportedPolygonOrder,
            },
    {
        match create_tile(sides) {
            Err(error) => Err(error),
            Ok(()) => {
                let mut tiles: Vec<usize> = Vec::new();
                tiles.push(sides);
                let mut connectivity: Vec<Vec<usize>> = Vec::new();
                connectivity.push(Vec::new());
                let lattice = Lattice { tiles, connectivity };
                assert(lattice@.tiles =~= seq![sides]);
                assert(lattice@.connectivity =~= seq![Seq::<usize>::empty()]);
                Ok(lattice)
            },
        }
    }

    /// The number of tiles.
    pub fn tile_count(&self) -> (count: usize)
        ensures
            count == self@.tiles.len(),
    {
        self.tiles.len()
    }

    /// The number of sides of tile `i`.
    pub fn tile(&self, i: usize) -> (sides: usize)
        requires
            i < self@.tiles.len(),
        ensures
            sides == self@.tiles[i as int],
    {
        self.tiles[i]
    }

    /// The neighbours of tile `i`.
    pub fn neighbours(&self, i: usize) -> (neighbours: &Vec<usize>)
        requires
            i < self@.connectivity.len(),
        ensures
            neighbours@ == self@.connectivity[i as int],
    {
        &self.connectivity[i]
    }

    /// Whether tile `j` is listed as a neighbour of tile `i`.
    pub fn is_neighbour(&self, i: usize, j: usize) -> (listed: bool)
        ensures
            listed == self@.has_edge(i, j),
    {
        if i < self.connectivity.len() {
            row_contains(&self.connectivity[i], j)
        } else {
            false
        }
    }
}

/// A list with one more item holds what it held and the new item.
proof fn lemma_push_contains(row: Seq<usize>, added: usize, value: usize)
    ensures
        row.push(added).contains(value) <==> row.contains(value) || value == added,
{
    let longer = row.push(added);
    if row.contains(value) {
        let k = choose|k: int| 0 <= k < row.len() && row[k] == value;
        assert(longer[k] == value);
    }
    if value == added {
        assert(longer[row.len() as int] == value);
    }
    if longer.contains(value) {
        let k = choose|k: int| 0 <= k < longer.len() && longer[k] == value;
        if k < row.len() {
            assert(row[k] == value);
        }
    }
}

/// Lists `b` in row `a`, unless it is listed there.
fn list_neighbour(connectivity: &mut Vec<Vec<usize>>, a: usize, b: usize)
    requires
        a < old(connectivity)@.len(),
    ensures
        final(connectivity)@.len() == old(connectivity)@.len(),
        forall|i: int|
            0 <= i < old(connectivity)@.len() && i != a ==> final(connectivity)@[i]@ == old(
                connectivity,
            )@[i]@,
        final(connectivity)@[a as int]@ == (if old(connectivity)@[a as int]@.contains(b) {
            old(connectivity)@[a as int]@
        } else {
            old(connectivity)@[a as int]@.push(b)
        }),
{
    if !row_contains(&connectivity[a], b) {
        let mut row = copy_row(&connectivity[a]);
        row.push(b);
        connectivity.set(a, row);
    }
}

impl Lattice {
    /// Lists the tiles `a` and `b` as neighbours of each other, unless they are.
    pub fn connect(&mut self, a: usize, b: usize)
        requires
            old(self)@.well_formed(),
            a < old(self)@.tiles.len(),
            b < old(self)@.tiles.len(),
        ensures
            final(self)@.well_formed(),
            final(self)@.tiles == old(self)@.tiles,
            forall|i: usize, j: usize| #[trigger]
                final(self)@.has_edge(i, j) <==> old(self)@.has_edge(i, j) || (i == a && j == b)
                    || (i == b && j == a),
    {
        let ghost before = self@;
        list_neighbour(&mut self.connectivity, a, b);
        let ghost middle = self@;
        assert forall|i: usize, j: usize| #[trigger]
            middle.has_edge(i, j) <==> before.has_edge(i, j) || (i == a && j == b) by {
            lemma_push_contains(before.connectivity[a as int], b, j);
        }
        list_neighbour(&mut self.connectivity, b, a);
        let ghost after = self@;
        let count = self.connectivity.len();
        assert(after.connectivity.len() == count);
        assert forall|i: usize, j: usize| #[trigger]
            after.has_edge(i, j) <==> before.has_edge(i, j) || (i == a && j == b) || (i == b && j
                == a) by {
            lemma_push_contains(middle.connectivity[b as int], a, j);
            assert(middle.has_edge(i, j) <==> before.has_edge(i, j) || (i == a && j == b));
        }
        assert forall|i: int, k: int|
            0 <= i < after.connectivity.len() && 0 <= k < after.connectivity[i].len() implies (
        #[trigger] after.connectivity[i][k]) < after.tiles.len() by {
            let value = after.connectivity[i][k];
            assert(after.connectivity[i].contains(value));
            assert(after.has_edge(i as usize, value));
            if before.has_edge(i as usize, value) {
                let m = choose|m: int|
                    0 <= m < before.connectivity[i].len() && before.connectivity[i][m] == value;
                assert(before.connectivity[i][m] < before.tiles.len());
            }
        }
        assert forall|i: usize, j: usize| #[trigger] after.has_edge(i, j) implies after.has_edge(
            j,
            i,
        ) by {
            if before.has_edge(i, j) {
                assert(before.has_edge(j, i));
            }
        }
    }

    /// Places a tile of `sides` sides that has no neighbour yet. The result is its
    /// index; a tile with an unsupported number of sides is not placed.
    pub fn add_tile(&mut self, sides: usize) -> (result: Result<usize, GeometryError>)
        requires
            old(self)@.well_formed(),
        ensures
            final(self)@.well_formed(),
            match result {
                Ok(index) => {
                    &&& is_supported_order(sides as nat)
                    &&& index == old(self)@.tiles.len()
                    &&& final(self)@.tiles == old(self)@.tiles.push(sides)
                    &&& final(self)@.connectivity == old(self)@.connectivity.push(
                        Seq::<usize>::empty(),
                    )
                },
                Err(error) => {
                    &&& !is_supported_order(sides as nat)
                    &&& error == GeometryError::UnsupportedPolygonOrder
                    &&& final(self)@ == old(self)@
                },
            },
    {
        match create_tile(sides) {
            Err(error) => Err(error),
            Ok(()) => {
                let ghost before = self@;
                let index = self.tiles.len();
                self.tiles.push(sides);
                self.connectivity.push(Vec::new());
                let ghost after = self@;
                assert(after.connectivity =~= before.connectivity.push(Seq::<usize>::empty()));
                assert forall|i: usize, j: usize| #[trigger] after.has_edge(i, j) implies
                    after.has_edge(j, i) by {
                    assert(before.has_edge(i, j));
                    assert(before.has_edge(j, i));
                }
                assert forall|i: int, k: int|
                    0 <= i < after.connectivity.len() && 0 <= k < after.connectivity[i].len() implies (
                #[trigger] after.connectivity[i][k]) < after.tiles.len() by {
                    assert(before.connectivity[i][k] < before.tiles.len());
                }
                Ok(index)
            },
        }
    }

    /// Places a tile of `sides` sides on an edge of tile `onto`: the two become
    /// neighbours of each other. The result is the index of the new tile; a tile with
    /// an unsupported number of sides is not placed.
    pub fn attach(&mut self, sides: usize, onto: usize) -> (result: Result<usize, GeometryError>)
        requires
            old(self)@.well_formed(),
            onto < old(self)@.tiles.len(),
        ensures
            final(self)@.well_formed(),
            match result {
                Ok(index) => {
                    &&& is_supported_order(sides as nat)
                    &&& index == old(self)@.tiles.len()
                    &&& final(self)@.tiles == old(self)@.tiles.push(sides)
                    &&& forall|i: usize, j: usize| #[trigger]
                        final(self)@.has_edge(i, j) <==> old(self)@.has_edge(i, j) || (i == index
                            && j == onto) || (i == onto && j == index)
                },
                Err(error) => {
                    &&& !is_supported_order(sides as nat)
                    &&& error == GeometryError::UnsupportedPolygonOrder
                    &&& final(self)@ == old(self)@
                },
            },
    {
        let ghost before = self@;
        match self.add_tile(sides) {
            Err(error) => Err(error),
            Ok(index) => {
                let ghost middle = self@;
                assert forall|i: usize, j: usize| #[trigger]
                    middle.has_edge(i, j) <==> before.has_edge(i, j) by {
                    if i < before.connectivity.len() {
                        assert(middle.connectivity[i as int] == before.connectivity[i as int]);
                    }
                }
                self.connect(index, onto);
                Ok(index)
            },
        }
    }
}

/// Connectivity is symmetric: in a well-formed lattice, a tile that lists another as
/// its neighbour is listed by it, and both are tiles of the lattice.
pub proof fn lemma_connectivity_symmetric(lattice: LatticeModel, i: usize, j: usize)
    requires
        lattice.well_formed(),
    ensures
        lattice.has_edge(i, j) <==> lattice.has_edge(j, i),
        lattice.has_edge(i, j) ==> i < lattice.tiles.len() && j < lattice.tiles.len(),
{
    if lattice.has_edge(i, j) {
        assert(lattice.has_edge(j, i));
    }
    if lattice.has_edge(j, i) {
        assert(lattice.has_edge(i, j));
    }
}

/// The polygon orders of all phases, in the order in which their tiles are placed.
pub open spec fn flatten(phases: Seq<Seq<usize>>) -> Seq<usize>
    decreases phases.len(),
{
    if phases.len() == 0 {
        Seq::<usize>::empty()
    } else {
        flatten(phases.drop_last()) + phases.last()
    }
}

/// Whether every number of sides in the list is supported.
pub open spec fn all_supported(orders: Seq<usize>) -> bool {
    forall|k: int| 0 <= k < orders.len() ==> is_supported_order(#[trigger] orders[k] as nat)
}

/// Whether `i` and `j` are a tile placed at a position from `from` up to, not
/// including, `to`, and the tile placed just before it.
pub open spec fn chained(from: int, to: int, i: usize, j: usize) -> bool {
    (from <= i < to && j + 1 == i) || (from <= j < to && i + 1 == j)
}

/// The polygon orders of all phases, one after the other.
pub fn flatten_phases(phases: &Vec<Vec<usize>>) -> (orders: Vec<usize>)
    ensures
        orders@ == flatten(lists(phases@)),
{
    let mut orders: Vec<usize> = Vec::new();
    let mut p: usize = 0;
    assert(lists(phases@).take(0) =~= Seq::<Seq<usize>>::empty());
    while p < phases.len()
        invariant
            p <= phases.len(),
            orders@ == flatten(lists(phases@).take(p as int)),
        decreases phases.len() - p,
    {
        let ghost done = orders@;
        let ghost next = lists(phases@).take(p + 1);
        assert(next.drop_last() =~= lists(phases@).take(p as int));
        assert(next.last() == phases@[p as int]@);
        let phase = &phases[p];
        let mut k: usize = 0;
        while k < phase.len()
            invariant
                k <= phase.len(),
                orders@ == done + phase@.take(k as int),
            decreases phase.len() - k,
        {
            orders.push(phase[k]);
            assert(orders@ =~= done + phase@.take(k + 1));
            k += 1;
        }
        assert(phase@.take(k as int) =~= phase@);
        p += 1;
    }
    assert(lists(phases@).take(p as int) =~= lists(phases@));
    orders
}

impl Lattice {
    /// Places one tile for each number of sides in `orders`, each on an edge of the
    /// tile placed before it. Nothing is placed where one of them is not supported.
    pub fn grow(&mut self, orders: &Vec<usize>) -> (result: Result<(), GeometryError>)
        requires
            old(self)@.well_formed(),
            old(self)@.tiles.len() >= 1,
        ensures
            final(self)@.well_formed(),
            match result {
                Ok(()) => {
                    &&& all_supported(orders@)
                    &&& final(self)@.tiles == old(self)@.tiles + orders@
                    &&& forall|i: usize, j: usize| #[trigger]
                        final(self)@.has_edge(i, j) <==> old(self)@.has_edge(i, j) || chained(
                            old(self)@.tiles.len() as int,
                            (old(self)@.tiles.len() + orders@.len()) as int,
                            i,
                            j,
                        )
                },
                Err(error) => {
                    &&& !all_supported(orders@)
                    &&& error == GeometryError::UnsupportedPolygonOrder
                    &&& final(self)@ == old(self)@
                },
            },
    {
        let mut k: usize = 0;
        while k < orders.len()
            invariant
                k <= orders.len(),
                all_supported(orders@.take(k as int)),
                self@ == old(self)@,
                self@.well_formed(),
                self@.tiles.len() >= 1,
            decreases orders.len() - k,
        {
            match create_tile(orders[k]) {
                Ok(()) => {},
                Err(error) => {
                    assert(!is_supported_order(orders@[k as int] as nat));
                    return Err(error);
                },
            }
            assert forall|m: int| 0 <= m < k + 1 implies is_supported_order(
                #[trigger] orders@.take(k + 1)[m] as nat,
            ) by {
                if m < k {
                    assert(orders@.take(k as int)[m] == orders@[m]);
                }
            }
            k += 1;
        }
        assert(orders@.take(k as int) =~= orders@);
        let ghost before = self@;
        let ghost first = before.tiles.len() as int;
        let mut k: usize = 0;
        assert(self@.tiles =~= before.tiles + orders@.take(0));
        while k < orders.len()
            invariant
                k <= orders.len(),
                all_supported(orders@),
                before.well_formed(),
                first == before.tiles.len(),
                first >= 1,
                self@.well_formed(),
                self@.tiles == before.tiles + orders@.take(k as int),
                forall|i: usize, j: usize| #[trigger]
                    self@.has_edge(i, j) <==> before.has_edge(i, j) || chained(
                        first,
                        first + k,
                        i,
                        j,
                    ),
            decreases orders.len() - k,
        {
            let ghost here = self@;
            let onto = self.tiles.len() - 1;
            assert(is_supported_order(orders@[k as int] as nat));
            match self.attach(orders[k], onto) {
                Ok(_) => {},
                Err(error) => {
                    return Err(error);
                },
            }
            assert(self@.tiles =~= before.tiles + orders@.take(k + 1));
            assert forall|i: usize, j: usize| #[trigger]
                self@.has_edge(i, j) <==> before.has_edge(i, j) || chained(
                    first,
                    first + k + 1,
                    i,
                    j,
                ) by {
                assert(here.has_edge(i, j) <==> before.has_edge(i, j) || chained(
                    first,
                    first + k,
                    i,
                    j,
                ));
            }
            k += 1;
        }
        assert(orders@.take(k as int) =~= orders@);
        Ok(())
    }
}

/// The numbers of sides of the new tiles that copying the first `count` tiles gives:
/// those of the tiles whose copy coincides with no tile.
pub open spec fn copied_tiles(
    tiles: Seq<usize>,
    coincident: Seq<Option<usize>>,
    count: int,
) -> Seq<usize>
    decreases count,
{
    if count <= 0 {
        Seq::<usize>::empty()
    } else {
        let copied = copied_tiles(tiles, coincident, count - 1);
        if coincident[count - 1] is None {
            copied.push(tiles[count - 1])
        } else {
            copied
        }
    }
}

/// The tile that the copy of tile `i` becomes: the tile with which it coincides, or a
/// new tile behind the tiles that were there, new tiles being in the order of the
/// tiles that they copy.
pub open spec fn image_of(tiles: Seq<usize>, coincident: Seq<Option<usize>>, i: int) -> int {
    match coincident[i] {
        Some(j) => j as int,
        None => (tiles.len() + copied_tiles(tiles, coincident, i).len()) as int,
    }
}

/// Whether tiles `i` and `j` are the copies of two tiles of which one lists the other
/// as a neighbour.
pub open spec fn is_copied_edge(
    lattice: LatticeModel,
    coincident: Seq<Option<usize>>,
    i: usize,
    j: usize,
) -> bool {
    exists|a: usize, b: usize| #[trigger]
        lattice.has_edge(a, b) && image_of(lattice.tiles, coincident, a as int) == i && image_of(
            lattice.tiles,
            coincident,
            b as int,
        ) == j
}

/// Whether `i` and `j` are, in either order, the copies of tile `a` and of its
/// neighbour at position `k`.
spec fn mirrors(
    lattice: LatticeModel,
    coincident: Seq<Option<usize>>,
    a: int,
    k: int,
    i: usize,
    j: usize,
) -> bool {
    &&& 0 <= a < lattice.connectivity.len()
    &&& 0 <= k < lattice.connectivity[a].len()
    &&& {
        let b = lattice.connectivity[a][k] as int;
        ||| image_of(lattice.tiles, coincident, a) == i && image_of(lattice.tiles, coincident, b)
            == j
        ||| image_of(lattice.tiles, coincident, a) == j && image_of(lattice.tiles, coincident, b)
            == i
    }
}

/// Whether `i` and `j` are the copies of a tile and a neighbour of it that come
/// before position `upto_k` of the neighbours of tile `upto_a`.
spec fn mirrored(
    lattice: LatticeModel,
    coincident: Seq<Option<usize>>,
    upto_a: int,
    upto_k: int,
    i: usize,
    j: usize,
) -> bool {
    exists|a: int, k: int| #[trigger]
        mirrors(lattice, coincident, a, k, i, j) && (a < upto_a || (a == upto_a && k < upto_k))
}

/// One more neighbour of a tile has been copied.
proof fn lemma_mirrored_step(
    lattice: LatticeModel,
    coincident: Seq<Option<usize>>,
    a: int,
    k: int,
    i: usize,
    j: usize,
)
    ensures
        mirrored(lattice, coincident, a, k + 1, i, j) <==> mirrored(lattice, coincident, a, k, i, j)
            || mirrors(lattice, coincident, a, k, i, j),
{
    if mirrored(lattice, coincident, a, k + 1, i, j) {
        let (a0, k0) = choose|a0: int, k0: int| #[trigger]
            mirrors(lattice, coincident, a0, k0, i, j) && (a0 < a || (a0 == a && k0 < k + 1));
        if !(a0 == a && k0 == k) {
            assert(mirrors(lattice, coincident, a0, k0, i, j) && (a0 < a || (a0 == a && k0 < k)));
        }
    }
    if mirrored(lattice, coincident, a, k, i, j) {
        let (a0, k0) = choose|a0: int, k0: int| #[trigger]
            mirrors(lattice, coincident, a0, k0, i, j) && (a0 < a || (a0 == a && k0 < k));
        assert(mirrors(lattice, coincident, a0, k0, i, j) && (a0 < a || (a0 == a && k0 < k + 1)));
    }
    if mirrors(lattice, coincident, a, k, i, j) {
        assert(mirrors(lattice, coincident, a, k, i, j) && (a < a || (a == a && k < k + 1)));
    }
}

/// All neighbours of a tile have been copied.
proof fn lemma_mirrored_row(
    lattice: LatticeModel,
    coincident: Seq<Option<usize>>,
    a: int,
    i: usize,
    j: usize,
)
    requires
        0 <= a < lattice.connectivity.len(),
    ensures
        mirrored(lattice, coincident, a, lattice.connectivity[a].len() as int, i, j) <==> mirrored(
            lattice,
            coincident,
            a + 1,
            0,
            i,
            j,
        ),
{
    let k = lattice.connectivity[a].len() as int;
    if mirrored(lattice, coincident, a, k, i, j) {
        let (a0, k0) = choose|a0: int, k0: int| #[trigger]
            mirrors(lattice, coincident, a0, k0, i, j) && (a0 < a || (a0 == a && k0 < k));
        assert(mirrors(lattice, coincident, a0, k0, i, j) && (a0 < a + 1 || (a0 == a + 1 && k0
            < 0)));
    }
    if mirrored(lattice, coincident, a + 1, 0, i, j) {
        let (a0, k0) = choose|a0: int, k0: int| #[trigger]
            mirrors(lattice, coincident, a0, k0, i, j) && (a0 < a + 1 || (a0 == a + 1 && k0 < 0));
        assert(mirrors(lattice, coincident, a0, k0, i, j) && (a0 < a || (a0 == a && k0 < k)));
    }
}

/// Once the neighbours of all tiles have been copied, the copied pairs are the copies
/// of the edges.
proof fn lemma_mirrored_all(
    lattice: LatticeModel,
    coincident: Seq<Option<usize>>,
    i: usize,
    j: usize,
)
    requires
        lattice.well_formed(),
        lattice.tiles.len() <= usize::MAX,
    ensures
        mirrored(lattice, coincident, lattice.tiles.len() as int, 0, i, j) <==> is_copied_edge(
            lattice,
            coincident,
            i,
            j,
        ),
{
    let n = lattice.tiles.len() as int;
    if mirrored(lattice, coincident, n, 0, i, j) {
        let (a0, k0) = choose|a0: int, k0: int| #[trigger]
            mirrors(lattice, coincident, a0, k0, i, j) && (a0 < n || (a0 == n && k0 < 0));
        let a = a0 as usize;
        let b = lattice.connectivity[a0][k0];
        assert(lattice.connectivity[a0].contains(b));
        assert(lattice.has_edge(a, b));
        assert(lattice.has_edge(b, a));
        if image_of(lattice.tiles, coincident, a0) == i && image_of(
            lattice.tiles,
            coincident,
            b as int,
        ) == j {
            assert(lattice.has_edge(a, b) && image_of(lattice.tiles, coincident, a as int) == i
                && image_of(lattice.tiles, coincident, b as int) == j);
        } else {
            assert(lattice.has_edge(b, a) && image_of(lattice.tiles, coincident, b as int) == i
                && image_of(lattice.tiles, coincident, a as int) == j);
        }
    }
    if is_copied_edge(lattice, coincident, i, j) {
        let (a, b) = choose|a: usize, b: usize| #[trigger]
            lattice.has_edge(a, b) && image_of(lattice.tiles, coincident, a as int) == i
                && image_of(lattice.tiles, coincident, b as int) == j;
        let k = choose|k: int|
            0 <= k < lattice.connectivity[a as int].len() && lattice.connectivity[a as int][k]
                == b;
        assert(mirrors(lattice, coincident, a as int, k, i, j) && (a < n || (a == n && k < 0)));
    }
}

/// A copy of the lists of neighbours.
fn copy_rows(connectivity: &Vec<Vec<usize>>) -> (copy: Vec<Vec<usize>>)
    ensures
        lists(copy@) == lists(connectivity@),
{
    let mut copy: Vec<Vec<usize>> = Vec::new();
    let mut a: usize = 0;
    while a < connectivity.len()
        invariant
            a <= connectivity.len(),
            copy@.len() == a,
            forall|m: int| 0 <= m < a ==> copy@[m]@ == connectivity@[m]@,
        decreases connectivity.len() - a,
    {
        copy.push(copy_row(&connectivity[a]));
        a += 1;
    }
    assert(lists(copy@) =~= lists(connectivity@));
    copy
}

impl Lattice {
    /// Adds the copy of the lattice under a rigid motion. `coincident` says of each
    /// tile with which tile its copy coincides, if with any. A copy that coincides
    /// with no tile becomes a new tile with the same number of sides; the new tiles
    /// come in the order of the tiles that they copy. For every pair of neighbours, the copies
    /// become neighbours of each other.
    pub fn replicate(&mut self, coincident: &Vec<Option<usize>>)
        requires
            old(self)@.well_formed(),
            coincident@.len() == old(self)@.tiles.len(),
            forall|i: int|
                0 <= i < coincident@.len() ==> (#[trigger] coincident@[i] matches Some(j) ==> j
                    < old(self)@.tiles.len()),
        ensures
            final(self)@.well_formed(),
            final(self)@.tiles == old(self)@.tiles + copied_tiles(
                old(self)@.tiles,
                coincident@,
                coincident@.len() as int,
            ),
            forall|i: usize, j: usize| #[trigger]
                final(self)@.has_edge(i, j) <==> old(self)@.has_edge(i, j) || is_copied_edge(
                    old(self)@,
                    coincident@,
                    i,
                    j,
                ),
    {
        let ghost before = self@;
        let rows = copy_rows(&self.connectivity);
        let n = self.tiles.len();
        let mut images: Vec<usize> = Vec::new();
        let mut i: usize = 0;
        assert(self@.tiles =~= before.tiles + copied_tiles(before.tiles, coincident@, 0));
        while i < n
            invariant
                i <= n,
                n == before.tiles.len(),
                coincident@.len() == n,
                before.well_formed(),
                forall|m: int|
                    0 <= m < coincident@.len() ==> (#[trigger] coincident@[m] matches Some(j) ==> j
                        < n),
                self@.well_formed(),
                self@.tiles == before.tiles + copied_tiles(before.tiles, coincident@, i as int),
                forall|p: usize, q: usize| #[trigger]
                    self@.has_edge(p, q) <==> before.has_edge(p, q),
                images@.len() == i,
                forall|m: int|
                    0 <= m < i ==> #[trigger] images@[m] == image_of(before.tiles, coincident@, m),
                forall|m: int| 0 <= m < i ==> #[trigger] images@[m] < self@.tiles.len(),
            decreases n - i,
        {
            let ghost here = self@;
            assert(self@.tiles[i as int] == before.tiles[i as int]);
            assert(is_supported_order(before.tiles[i as int] as nat));
            match coincident[i] {
                Some(j) => {
                    images.push(j);
                },
                None => {
                    let count = self.tiles.len();
                    let sides = self.tiles[i];
                    match self.add_tile(sides) {
                        Ok(index) => {
                            images.push(index);
                        },
                        Err(_) => {
                            images.push(i);
                        },
                    }
                    assert forall|p: usize, q: usize| #[trigger]
                        self@.has_edge(p, q) <==> before.has_edge(p, q) by {
                        assert(here.has_edge(p, q) <==> before.has_edge(p, q));
                        if p < here.connectivity.len() {
                            assert(self@.connectivity[p as int] == here.connectivity[p as int]);
                        }
                    }
                },
            }
            assert(self@.tiles =~= before.tiles + copied_tiles(before.tiles, coincident@, i + 1));
            i += 1;
        }
        let ghost grown = self@;
        let mut a: usize = 0;
        assert forall|p: usize, q: usize| #[trigger]
            self@.has_edge(p, q) <==> before.has_edge(p, q) || mirrored(
                before,
                coincident@,
                0,
                0,
                p,
                q,
            ) by {
            assert(!mirrored(before, coincident@, 0, 0, p, q));
        }
        while a < n
            invariant
                a <= n,
                n == before.tiles.len(),
                before.well_formed(),
                lists(rows@) == before.connectivity,
                self@.well_formed(),
                self@.tiles == grown.tiles,
                images@.len() == n,
                forall|m: int|
                    0 <= m < n ==> #[trigger] images@[m] == image_of(before.tiles, coincident@, m),
                forall|m: int| 0 <= m < n ==> #[trigger] images@[m] < grown.tiles.len(),
                forall|p: usize, q: usize| #[trigger]
                    self@.has_edge(p, q) <==> before.has_edge(p, q) || mirrored(
                        before,
                        coincident@,
                        a as int,
                        0,
                        p,
                        q,
                    ),
            decreases n - a,
        {
            assert(lists(rows@)[a as int] == rows@[a as int]@);
            let row_len = rows[a].len();
            let mut k: usize = 0;
            while k < row_len
                invariant
                    a < n,
                    k <= row_len,
                    row_len == rows@[a as int]@.len(),
                    n == before.tiles.len(),
                    before.well_formed(),
                    lists(rows@) == before.connectivity,
                    rows@[a as int]@ == before.connectivity[a as int],
                    self@.well_formed(),
                    self@.tiles == grown.tiles,
                    images@.len() == n,
                    forall|m: int|
                        0 <= m < n ==> #[trigger] images@[m] == image_of(
                            before.tiles,
                            coincident@,
                            m,
                        ),
                    forall|m: int| 0 <= m < n ==> #[trigger] images@[m] < grown.tiles.len(),
                    forall|p: usize, q: usize| #[trigger]
                        self@.has_edge(p, q) <==> before.has_edge(p, q) || mirrored(
                            before,
                            coincident@,
                            a as int,
                            k as int,
                            p,
                            q,
                        ),
                decreases row_len - k,
            {
                let ghost here = self@;
                let b = rows[a][k];
                assert(before.connectivity[a as int][k as int] == b);
                assert(b < n);
                let from = images[a];
                let to = images[b];
                self.connect(from, to);
                assert forall|p: usize, q: usize| #[trigger]
                    self@.has_edge(p, q) <==> before.has_edge(p, q) || mirrored(
                        before,
                        coincident@,
                        a as int,
                        k + 1,
                        p,
                        q,
                    ) by {
                    lemma_mirrored_step(before, coincident@, a as int, k as int, p, q);
                    assert(here.has_edge(p, q) <==> before.has_edge(p, q) || mirrored(
                        before,
                        coincident@,
                        a as int,
                        k as int,
                        p,
                        q,
                    ));
                    assert(mirrors(before, coincident@, a as int, k as int, p, q) <==> (p == from
                        && q == to) || (p == to && q == from));
                }
                k += 1;
            }
            assert forall|p: usize, q: usize| #[trigger]
                self@.has_edge(p, q) <==> before.has_edge(p, q) || mirrored(
                    before,
                    coincident@,
                    a + 1,
                    0,
                    p,
                    q,
                ) by {
                lemma_mirrored_row(before, coincident@, a as int, p, q);
            }
            a += 1;
        }
        assert forall|p: usize, q: usize| #[trigger]
            self@.has_edge(p, q) <==> before.has_edge(p, q) || is_copied_edge(
                before,
                coincident@,
                p,
                q,
            ) by {
            lemma_mirrored_all(before, coincident@, p, q);
        }
    }
}

impl Lattice {
    /// The patch that a configuration describes before it is replicated: the seed
    /// tile, then the tiles of all phases in order, each on an edge of the tile placed
    /// before it. A number of sides that is not supported, of the seed or in a phase,
    /// gives no lattice.
    pub fn patch(configuration: &Configuration) -> (result: Result<Lattice, GeometryError>)
        ensures
            match result {
                Ok(lattice) => {
                    &&& is_supported_order(configuration@.seed as nat)
                    &&& all_supported(flatten(configuration@.phases))
                    &&& lattice@.well_formed()
                    &&& lattice@.tiles == seq![configuration@.seed] + flatten(
                        configuration@.phases,
                    )
                    &&& forall|i: usize, j: usize| #[trigger]
                        lattice@.has_edge(i, j) <==> chained(
                            1,
                            (1 + flatten(configuration@.phases).len()) as int,
                            i,
                            j,
                        )
                },
                Err(error) => {
                    &&& error == GeometryError::UnsupportedPolygonOrder
                    &&& !(is_supported_order(configuration@.seed as nat) && all_supported(
                        flatten(configuration@.phases),
                    ))
                },
            },
    {
        let mut lattice = match Lattice::seed(configuration.seed) {
            Ok(lattice) => lattice,
            Err(error) => {
                return Err(error);
            },
        };
        let ghost seeded = lattice@;
        assert forall|i: usize, j: usize| !#[trigger] seeded.has_edge(i, j) by {
            if i < seeded.connectivity.len() {
                assert(seeded.connectivity[i as int] =~= Seq::<usize>::empty());
            }
        }
        let orders = flatten_phases(&configuration.phases);
        match lattice.grow(&orders) {
            Ok(()) => Ok(lattice),
            Err(error) => Err(error),
        }
    }
}

} // verus!
