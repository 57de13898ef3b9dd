//! The spatial index: a uniform grid that maps each cell to the entities in it.
//!
//! The grid is rebuilt from scratch once per tick. It then agrees with the
//! positions at that moment, and goes stale as entities move.

use crate::components::{Entity, WorldObject};
use crate::fixed::Fixed;
use crate::vector::Vector;
use crate::world::World;
use bevy::math::IVec2;
use vstd::prelude::*;

verus! {

/// The coordinates of a cell.
pub type Cell = (i32, i32);

/// The buckets of the grid, held in `bevy::utils::HashMap`, which is the hash
/// map of the `hashbrown` crate, keyed by `bevy::math::IVec2`. Nothing is
/// proved of the map; what the functions below state of it is taken from its
/// documentation.
#[verifier::external_body]
pub struct CellMap {
    map: bevy::utils::HashMap<IVec2, Vec<Entity>>,
}

/// What a [`CellMap`] holds: for each cell that has a bucket, the entities in
/// it, in the order in which they were put there.
pub uninterp spec fn cell_map_buckets(map: CellMap) -> Map<Cell, Seq<Entity>>;

/// The content of a map without buckets.
pub open spec fn no_buckets() -> Map<Cell, Seq<Entity>> {
    Map::empty()
}

impl View for CellMap {
    type V = Map<Cell, Seq<Entity>>;

    open spec fn view(&self) -> Map<Cell, Seq<Entity>> {
        cell_map_buckets(*self)
    }
}

impl CellMap {
    /// `HashMap::default`: a map without buckets.
    #[verifier::external_body]
    pub(crate) fn new() -> (created: CellMap)
        ensures
            cell_map_buckets(created) == no_buckets(),
    {
        CellMap { map: bevy::utils::HashMap::default() }
    }

    /// `HashMap::clear`: afterwards the map has no buckets.
    #[verifier::external_body]
    pub(crate) fn clear(&mut self)
        ensures
            cell_map_buckets(*final(self)) == no_buckets(),
    {
        self.map.clear();
    }

    /// `HashMap::get`: the bucket of `cell`, if it has one; none otherwise.
    #[verifier::external_body]
    pub(crate) fn get(&self, cell: Cell) -> (bucket: Option<&Vec<Entity>>)
        ensures
            bucket matches Some(b) ==> cell_map_buckets(*self).contains_key(cell) && b@
                == cell_map_buckets(*self)[cell],
            bucket is None ==> !cell_map_buckets(*self).contains_key(cell),
    {
        self.map.get(&IVec2::new(cell.0, cell.1))
    }

    /// `HashMap::remove`: takes the bucket of `cell` out of the map and
    /// returns it, if it has one; the other buckets stay.
    #[verifier::external_body]
    pub(crate) fn remove(&mut self, cell: Cell) -> (bucket: Option<Vec<Entity>>)
        ensures
            cell_map_buckets(*final(self)) == cell_map_buckets(*old(self)).remove(cell),
            bucket matches Some(b) ==> cell_map_buckets(*old(self)).contains_key(cell) && b@
                == cell_map_buckets(*old(self))[cell],
            bucket is None ==> !cell_map_buckets(*old(self)).contains_key(cell),
    {
        self.map.remove(&IVec2::new(cell.0, cell.1))
    }

    /// `HashMap::insert`: makes `bucket` the bucket of `cell`, in place of
    /// the one it had, if any; the other buckets stay.
    #[verifier::external_body]
    pub(crate) fn insert(&mut self, cell: Cell, bucket: Vec<Entity>)
        ensures
            cell_map_buckets(*final(self)) == cell_map_buckets(*old(self)).insert(cell, bucket@),
    {
        self.map.insert(IVec2::new(cell.0, cell.1), bucket);
    }
}

/// The uniform grid.
pub struct SpatialGrid {
    pub buckets: CellMap,
    /// The side of a cell, in world units.
    pub cell_size: Fixed,
}

/// The `i32` nearest to `v`.
pub open spec fn saturated_i32(v: int) -> i32 {
    if v < i32::MIN {
        i32::MIN
    } else if v > i32::MAX {
        i32::MAX
    } else {
        v as i32
    }
}

/// The grid coordinate of the world coordinate `x`: `x / cell_size` rounded
/// down. A grid whose cells have no size has only the cell zero.
pub open spec fn cell_coordinate(x: Fixed, cell_size: Fixed) -> i32 {
    if cell_size <= 0 {
        0
    } else {
        saturated_i32(x as int / cell_size as int)
    }
}

/// The cell in which `position` lies.
pub open spec fn cell_of(position: Vector, cell_size: Fixed) -> Cell {
    (cell_coordinate(position.x, cell_size), cell_coordinate(position.y, cell_size))
}

/// The entities in the bucket of `cell`; none where it has no bucket.
pub open spec fn bucket_at(buckets: Map<Cell, Seq<Entity>>, cell: Cell) -> Seq<Entity> {
    if buckets.contains_key(cell) {
        buckets[cell]
    } else {
        Seq::empty()
    }
}

/// The buckets that hold the first `n` of `objects`, each in the cell of its position.
pub open spec fn indexed(objects: Seq<WorldObject>, cell_size: Fixed, n: int) -> Map<
    Cell,
    Seq<Entity>,
>
    decreases n,
{
    if n <= 0 {
        Map::empty()
    } else {
        let before = indexed(objects, cell_size, n - 1);
        let cell = cell_of(objects[n - 1].position.0, cell_size);
        before.insert(cell, bucket_at(before, cell).push(objects[n - 1].entity))
    }
}

/// The `k`-th of the nine offsets of a neighborhood, column by column.
pub open spec fn neighbor_offset(k: int) -> (int, int) {
    (k / 3 - 1, k % 3 - 1)
}

/// The entities in the bucket that lies `offset` away from `cell`. Beyond the
/// range of the coordinates there is no cell.
pub open spec fn bucket_near(buckets: Map<Cell, Seq<Entity>>, cell: Cell, offset: (int, int))
    -> Seq<Entity> {
    let x = cell.0 + offset.0;
    let y = cell.1 + offset.1;
    if i32::MIN <= x <= i32::MAX && i32::MIN <= y <= i32::MAX {
        bucket_at(buckets, (x as i32, y as i32))
    } else {
        Seq::empty()
    }
}

/// The entities in the first `n` buckets of the neighborhood of `cell`.
pub open spec fn neighborhood(buckets: Map<Cell, Seq<Entity>>, cell: Cell, n: int) -> Seq<Entity>
    decreases n,
{
    if n <= 0 {
        Seq::empty()
    } else {
        neighborhood(buckets, cell, n - 1) + bucket_near(buckets, cell, neighbor_offset(n - 1))
    }
}

/// Two cells are adjacent when they differ by at most one in each coordinate.
pub open spec fn adjacent(a: Cell, b: Cell) -> bool {
    -1 <= a.0 - b.0 <= 1 && -1 <= a.1 - b.1 <= 1
}

/// The grid coordinate of a world coordinate.
pub fn coordinate(x: Fixed, cell_size: Fixed) -> (c: i32)
    ensures
        c == cell_coordinate(x, cell_size),
{
    if cell_size <= 0 {
        0
    } else {
        let quotient: i64 = if x >= 0 {
            x / cell_size
        } else {
            let up: i128 = (-(x as i128) + cell_size as i128 - 1) / cell_size as i128;
            proof {
                lemma_floor_of_negative(x as int, cell_size as int);
            }
            (-up) as i64
        };
        if quotient < i32::MIN as i64 {
            i32::MIN
        } else if quotient > i32::MAX as i64 {
            i32::MAX
        } else {
            quotient as i32
        }
    }
}

/// Rounding a negative quotient down is rounding its opposite up.
proof fn lemma_floor_of_negative(x: int, d: int)
    requires
        x < 0,
        d > 0,
    ensures
        x / d == -((-x + d - 1) / d),
        0 <= (-x + d - 1) / d <= -x,
{
    let up = (-x + d - 1) / d;
    let rest = (-x + d - 1) % d;
    vstd::arithmetic::div_mod::lemma_fundamental_div_mod(-x + d - 1, d);
    assert(d * up + rest == -x + d - 1);
    assert(0 <= rest < d);
    // x == d * (-up) + (d - 1 - rest), with the remainder in [0, d)
    assert(x == d * (-up) + (d - 1 - rest)) by (nonlinear_arith)
        requires
            d * up + rest == -x + d - 1,
    ;
    vstd::arithmetic::div_mod::lemma_fundamental_div_mod_converse(x, d, -up, d - 1 - rest);
    assert(0 <= up <= -x) by (nonlinear_arith)
        requires
            d * up + rest == -x + d - 1,
            0 <= rest < d,
            x < 0,
            d > 0,
    ;
}

impl SpatialGrid {
    /// An empty grid with cells of the given size.
    pub fn new(cell_size: Fixed) -> (grid: SpatialGrid)
        ensures
            grid.cell_size == cell_size,
            grid.buckets@ == no_buckets(),
    {
        SpatialGrid { buckets: CellMap::new(), cell_size }
    }

    /// The cell in which `position` lies.
    pub fn cell(&self, position: Vector) -> (cell: Cell)
        ensures
            cell == cell_of(position, self.cell_size),
    {
        (coordinate(position.x, self.cell_size), coordinate(position.y, self.cell_size))
    }

    /// Puts `entity` at the end of the bucket of `cell`.
    pub fn insert(&mut self, cell: Cell, entity: Entity)
        ensures
            final(self).cell_size == old(self).cell_size,
            final(self).buckets@ == old(self).buckets@.insert(
                cell,
                bucket_at(old(self).buckets@, cell).push(entity),
            ),
    {
        let mut bucket = match self.buckets.remove(cell) {
            Some(bucket) => bucket,
            None => Vec::new(),
        };
        bucket.push(entity);
        self.buckets.insert(cell, bucket);
        assert(self.buckets@ =~= old(self).buckets@.insert(
            cell,
            bucket_at(old(self).buckets@, cell).push(entity),
        ));
    }

    /// Empties the grid and puts every one of `objects` into the bucket of
    /// the cell in which it lies.
    pub fn rebuild(&mut self, objects: &Vec<WorldObject>)
        ensures
            final(self).cell_size == old(self).cell_size,
            final(self).buckets@ == indexed(objects@, old(self).cell_size, objects@.len() as int),
    {
        self.buckets.clear();
        let mut i: usize = 0;
        while i < objects.len()
            invariant
                i <= objects.len(),
                self.cell_size == old(self).cell_size,
                self.buckets@ == indexed(objects@, self.cell_size, i as int),
            decreases objects.len() - i,
        {
            let cell = self.cell(objects[i].position.0);
            self.insert(cell, objects[i].entity);
            i += 1;
        }
    }

    /// The entities in the bucket of `cell`, in the order in which they were put there.
    pub fn bucket(&self, cell: Cell) -> (entities: Vec<Entity>)
        ensures
            entities@ == bucket_at(self.buckets@, cell),
    {
        let mut entities: Vec<Entity> = Vec::new();
        self.collect(cell, &mut entities);
        entities
    }

    /// Appends the entities in the bucket of `cell` to `into`.
    fn collect(&self, cell: Cell, into: &mut Vec<Entity>)
        ensures
            final(into)@ == old(into)@ + bucket_at(self.buckets@, cell),
    {
        match self.buckets.get(cell) {
            Some(bucket) => {
                let mut i: usize = 0;
                while i < bucket.len()
                    invariant
                        i <= bucket.len(),
                        into@ == old(into)@ + bucket@.take(i as int),
                    decreases bucket.len() - i,
                {
                    into.push(bucket[i]);
                    i += 1;
                }
                assert(bucket@.take(bucket@.len() as int) =~= bucket@);
            },
            None => {
                assert(old(into)@ + Seq::<Entity>::empty() =~= old(into)@);
            },
        }
    }

    /// Every entity in the three-by-three block of cells around the cell of
    /// `position`, bucket after bucket.
    pub fn query_neighbors(&self, position: Vector) -> (entities: Vec<Entity>)
        ensures
            entities@ == neighborhood(self.buckets@, cell_of(position, self.cell_size), 9),
    {
        let cell = self.cell(position);
        let mut entities: Vec<Entity> = Vec::new();
        let mut k: i32 = 0;
        while k < 9
            invariant
                0 <= k <= 9,
                entities@ == neighborhood(self.buckets@, cell, k as int),
            decreases 9 - k,
        {
            let dx: i32 = k / 3 - 1;
            let dy: i32 = k % 3 - 1;
            let ghost before = entities@;
            match (cell.0.checked_add(dx), cell.1.checked_add(dy)) {
                (Some(x), Some(y)) => {
                    self.collect((x, y), &mut entities);
                },
                _ => {
                    assert(before + Seq::<Entity>::empty() =~= before);
                },
            }
            k += 1;
        }
        entities
    }
}

/// Rebuilds the grid from the world: afterwards each world object is in the
/// bucket of the cell in which it lies, and in no other.
pub fn update_grid_system(grid: &mut SpatialGrid, world: &World)
    ensures
        final(grid).cell_size == old(grid).cell_size,
        final(grid).buckets@ == indexed(
            world@.objects(),
            old(grid).cell_size,
            world@.objects().len() as int,
        ),
{
    let objects = world.objects();
    grid.rebuild(&objects);
}

/// The entities among the first `n` of `objects` that lie in `cell`, in order.
pub open spec fn entities_in(objects: Seq<WorldObject>, cell_size: Fixed, cell: Cell, n: int)
    -> Seq<Entity>
    decreases n,
{
    if n <= 0 {
        Seq::empty()
    } else if cell_of(objects[n - 1].position.0, cell_size) == cell {
        entities_in(objects, cell_size, cell, n - 1).push(objects[n - 1].entity)
    } else {
        entities_in(objects, cell_size, cell, n - 1)
    }
}

/// Whether the object at place `i` is the entity `e` and lies in `cell`.
pub open spec fn lies_in(
    objects: Seq<WorldObject>,
    cell_size: Fixed,
    i: int,
    e: Entity,
    cell: Cell,
) -> bool {
    0 <= i < objects.len() && objects[i].entity == e && cell_of(objects[i].position.0, cell_size)
        == cell
}

/// Whether the object at place `i` is the entity `e` and lies in `cell` or in a cell next to it.
pub open spec fn lies_near(
    objects: Seq<WorldObject>,
    cell_size: Fixed,
    i: int,
    e: Entity,
    cell: Cell,
) -> bool {
    0 <= i < objects.len() && objects[i].entity == e && adjacent(
        cell_of(objects[i].position.0, cell_size),
        cell,
    )
}

/// The bucket of a cell in a rebuilt grid holds the objects that lie in the
/// cell, in their order, and nothing else.
pub proof fn lemma_indexed_bucket(
    objects: Seq<WorldObject>,
    cell_size: Fixed,
    cell: Cell,
    n: int,
)
    ensures
        bucket_at(indexed(objects, cell_size, n), cell) == entities_in(
            objects,
            cell_size,
            cell,
            n,
        ),
    decreases n,
{
    if n > 0 {
        lemma_indexed_bucket(objects, cell_size, cell, n - 1);
        let own = cell_of(objects[n - 1].position.0, cell_size);
        lemma_indexed_bucket(objects, cell_size, own, n - 1);
    }
}

/// An entity is among those that lie in a cell exactly if one of the objects is it and lies there.
pub proof fn lemma_entities_in(
    objects: Seq<WorldObject>,
    cell_size: Fixed,
    cell: Cell,
    n: int,
    e: Entity,
)
    requires
        0 <= n <= objects.len(),
    ensures
        entities_in(objects, cell_size, cell, n).contains(e) <==> exists|i: int|
            i < n && #[trigger] lies_in(objects, cell_size, i, e, cell),
    decreases n,
{
    if n > 0 {
        lemma_entities_in(objects, cell_size, cell, n - 1, e);
        let before = entities_in(objects, cell_size, cell, n - 1);
        let now = entities_in(objects, cell_size, cell, n);
        if now.contains(e) {
            let at = choose|at: int| 0 <= at < now.len() && now[at] == e;
            if at < before.len() {
                assert(before[at] == e);
                let i = choose|i: int| i < n - 1 && #[trigger] lies_in(
                    objects,
                    cell_size,
                    i,
                    e,
                    cell,
                );
                assert(i < n && lies_in(objects, cell_size, i, e, cell));
            } else {
                assert(lies_in(objects, cell_size, n - 1, e, cell));
            }
        }
        if exists|i: int| i < n && #[trigger] lies_in(objects, cell_size, i, e, cell) {
            let i = choose|i: int| i < n && #[trigger] lies_in(objects, cell_size, i, e, cell);
            if i < n - 1 {
                let at = choose|at: int| 0 <= at < before.len() && before[at] == e;
                assert(now[at] == e);
            } else {
                assert(now[now.len() - 1] == e);
            }
        }
    }
}

/// Whether the `k`-th bucket of the neighborhood of `cell` holds `e`.
pub open spec fn near_bucket_holds(
    buckets: Map<Cell, Seq<Entity>>,
    cell: Cell,
    k: int,
    e: Entity,
) -> bool {
    0 <= k && bucket_near(buckets, cell, neighbor_offset(k)).contains(e)
}

/// A neighborhood holds an entity exactly if one of its buckets does.
pub proof fn lemma_neighborhood_holds(
    buckets: Map<Cell, Seq<Entity>>,
    cell: Cell,
    n: int,
    e: Entity,
)
    requires
        0 <= n,
    ensures
        neighborhood(buckets, cell, n).contains(e) <==> exists|k: int|
            k < n && #[trigger] near_bucket_holds(buckets, cell, k, e),
    decreases n,
{
    if n > 0 {
        lemma_neighborhood_holds(buckets, cell, n - 1, e);
        let before = neighborhood(buckets, cell, n - 1);
        let last = bucket_near(buckets, cell, neighbor_offset(n - 1));
        let now = neighborhood(buckets, cell, n);
        assert(now == before + last);
        if now.contains(e) {
            let at = choose|at: int| 0 <= at < now.len() && now[at] == e;
            if at < before.len() {
                assert(before[at] == e);
                let k = choose|k: int| k < n - 1 && #[trigger] near_bucket_holds(
                    buckets,
                    cell,
                    k,
                    e,
                );
                assert(k < n && near_bucket_holds(buckets, cell, k, e));
            } else {
                assert(last[at - before.len()] == e);
                assert(near_bucket_holds(buckets, cell, n - 1, e));
            }
        }
        if exists|k: int| k < n && #[trigger] near_bucket_holds(buckets, cell, k, e) {
            let k = choose|k: int| k < n && #[trigger] near_bucket_holds(buckets, cell, k, e);
            if k < n - 1 {
                let at = choose|at: int| 0 <= at < before.len() && before[at] == e;
                assert(now[at] == e);
            } else {
                let at = choose|at: int| 0 <= at < last.len() && last[at] == e;
                assert(now[before.len() + at] == e);
            }
        }
    }
}

/// In a grid that was rebuilt from `objects`, the query around `position`
/// returns an entity exactly if one of the objects is that entity and lies
/// in the cell of `position` or in one of the eight cells around it. How
/// far the two are from each other in the plane does not matter.
pub proof fn lemma_seen_iff_adjacent(
    objects: Seq<WorldObject>,
    cell_size: Fixed,
    position: Vector,
    e: Entity,
)
    ensures
        neighborhood(
            indexed(objects, cell_size, objects.len() as int),
            cell_of(position, cell_size),
            9,
        ).contains(e) <==> exists|i: int|
            #[trigger] lies_near(objects, cell_size, i, e, cell_of(position, cell_size)),
{
    let count = objects.len() as int;
    let buckets = indexed(objects, cell_size, count);
    let cell = cell_of(position, cell_size);
    lemma_neighborhood_holds(buckets, cell, 9, e);
    if neighborhood(buckets, cell, 9).contains(e) {
        let k = choose|k: int| k < 9 && #[trigger] near_bucket_holds(buckets, cell, k, e);
        let offset = neighbor_offset(k);
        let x = cell.0 + offset.0;
        let y = cell.1 + offset.1;
        let there: Cell = (x as i32, y as i32);
        lemma_indexed_bucket(objects, cell_size, there, count);
        lemma_entities_in(objects, cell_size, there, count, e);
        let i = choose|i: int| i < count && #[trigger] lies_in(objects, cell_size, i, e, there);
        assert(lies_near(objects, cell_size, i, e, cell));
    }
    if exists|i: int| #[trigger] lies_near(objects, cell_size, i, e, cell) {
        let i = choose|i: int| #[trigger] lies_near(objects, cell_size, i, e, cell);
        let there = cell_of(objects[i].position.0, cell_size);
        let k = (there.0 - cell.0 + 1) * 3 + (there.1 - cell.1 + 1);
        assert(neighbor_offset(k) == (there.0 - cell.0, there.1 - cell.1));
        lemma_indexed_bucket(objects, cell_size, there, count);
        lemma_entities_in(objects, cell_size, there, count, e);
        assert(lies_in(objects, cell_size, i, e, there));
        assert(near_bucket_holds(buckets, cell, k, e));
    }
}

} // verus!
