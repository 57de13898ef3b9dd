//! The simulation as a whole: how a world is settled at the start, what a
//! click into it brings, and the order of the systems in one tick.

use crate::components::{
    create_food, create_predator, create_prey, Entity, Food, Genes, LivingView, Role,
    SimulationSpeed, Species, SpeciesId,
};
use crate::config::{LEAST_FOOD, MOST_FOOD};
use crate::fixed::{minus, over, plus, product, quotient, sum, times, Fixed, ONE};
use crate::gameloop::{game_loop_predator, game_loop_prey, predator_outcome, prey_outcome};
use crate::grid::{indexed, update_grid_system, SpatialGrid};
use crate::perception::{
    perception_scan_system_predator, perception_scan_system_prey, scan_outcome,
};
use crate::random::{draw_between, draw_count, draw_index};
use crate::systems::{all_within_bounds, update_entities, update_outcome};
use crate::vector::Vector;
use crate::world::{all_sound, World, WorldView};
use vstd::prelude::*;

verus! {

/// The width of the world in which entities are settled.
pub const WORLD_WIDTH: Fixed = 800_000_000;

/// The height of the world in which entities are settled.
pub const WORLD_HEIGHT: Fixed = 600_000_000;

/// The side of a cell of the spatial grid.
pub const CELL_SIZE: Fixed = 64_000_000;

/// The speed at which the simulation runs unless told otherwise.
pub const DEFAULT_SPEED: Fixed = 2_000_000;

/// How many prey a click brings.
pub const PREY_PER_CLICK: usize = 10;

/// How far from a click the food that it brings may fall, in each coordinate.
pub const SCATTER: Fixed = 10_000_000;

/// How many prey a new world is settled with.
pub const FIRST_PREY: usize = 2000;

/// How many predators a new world is settled with.
pub const FIRST_PREDATORS: usize = 100;

/// The bound that the number of species of a new world stays below.
pub const MOST_SPECIES: u32 = 14;

/// Two units.
pub const TWO: Fixed = 2_000_000;

/// The least size of the forests of a new world.
pub const LEAST_FOREST: Fixed = 100_000_000;

/// The bound that this size stays below.
pub const MOST_FOREST: Fixed = 200_000_000;

/// Half of `size`.
pub open spec fn half_of(size: Fixed) -> Fixed {
    quotient(size, TWO)
}

/// A click into the world, at a point in world coordinates.
#[derive(Clone, Copy, PartialEq, Eq, Structural, Debug)]
pub enum Click {
    /// Brings prey of the first species.
    Left(Vector),
    /// Brings a cluster of food.
    Right(Vector),
}

/// Whether `after` is `before` with more in it: what was there is there
/// still, unchanged and in its place, and no identifier was taken back.
pub open spec fn grown_from(before: WorldView, after: WorldView) -> bool {
    &&& before.agents.len() <= after.agents.len()
    &&& before.foods.len() <= after.foods.len()
    &&& before.corpses.len() <= after.corpses.len()
    &&& after.agents.take(before.agents.len() as int) == before.agents
    &&& after.foods.take(before.foods.len() as int) == before.foods
    &&& after.corpses.take(before.corpses.len() as int) == before.corpses
    &&& before.next_entity <= after.next_entity
}

/// Whether `living` is a newborn of the given role, with traits that are not negative.
pub open spec fn is_settler(living: LivingView, role: Role) -> bool {
    &&& living == (LivingView {
        entity: living.entity,
        ..LivingView::newborn(role, living.position.0, living.species, living.genes)
    })
    &&& living.genes.wf()
}

/// Whether `food` holds an amount from ten to a hundred and lies within
/// `reach` of `center` in each coordinate.
pub open spec fn is_scattered(food: Food, center: Vector, reach: Fixed) -> bool {
    &&& LEAST_FOOD <= food.amount.0 < MOST_FOOD
    &&& center.x - reach <= food.position.0.x <= center.x + reach
    &&& center.y - reach <= food.position.0.y <= center.y + reach
}

/// Whether `after` is what a click makes of `before`: a left click brings
/// up to ten founders of the first species, all prey, at the point of the
/// click; a right click brings up to thirty food sources around it. Fewer
/// come only where the world runs out of identifiers.
pub open spec fn click_outcome(before: WorldView, after: WorldView, click: Click) -> bool {
    &&& grown_from(before, after)
    &&& after.corpses == before.corpses
    &&& match click {
        Click::Left(point) => {
            &&& after.foods == before.foods
            &&& after.agents.len() <= before.agents.len() + PREY_PER_CLICK
            &&& after.has_room() ==> after.agents.len() == before.agents.len() + PREY_PER_CLICK
            &&& forall|k: int|
                before.agents.len() <= k < after.agents.len() ==> {
                    &&& is_settler(#[trigger] after.agents[k], Role::Prey)
                    &&& after.agents[k].position.0 == point
                    &&& after.agents[k].species == SpeciesId(0)
                    &&& after.agents[k].genes.founder()
                }
        },
        Click::Right(point) => {
            &&& after.agents == before.agents
            &&& after.foods.len() < before.foods.len() + 30
            &&& after.has_room() ==> after.foods.len() >= before.foods.len() + 10
            &&& forall|k: int|
                before.foods.len() <= k < after.foods.len() ==> is_scattered(
                    #[trigger] after.foods[k],
                    point,
                    SCATTER,
                )
        },
    }
}

/// Brings into the world what a click asks for.
pub fn handle_input(world: &mut World, click: Click)
    requires
        old(world)@.wf(),
    ensures
        click_outcome(old(world)@, final(world)@, click),
        final(world)@.wf(),
{
    let ghost before = world@;
    assert(before.agents.take(before.agents.len() as int) =~= before.agents);
    assert(before.foods.take(before.foods.len() as int) =~= before.foods);
    assert(before.corpses.take(before.corpses.len() as int) =~= before.corpses);
    match click {
        Click::Left(point) => {
            let mut i: usize = 0;
            while i < PREY_PER_CLICK
                invariant
                    i <= PREY_PER_CLICK,
                    world@.wf(),
                    grown_from(before, world@),
                    world@.corpses == before.corpses,
                    world@.foods == before.foods,
                    world@.agents.len() <= before.agents.len() + i,
                    world@.has_room() ==> world@.agents.len() == before.agents.len() + i,
                    click == Click::Left(point),
                    forall|k: int|
                        before.agents.len() <= k < world@.agents.len() ==> {
                            &&& is_settler(#[trigger] world@.agents[k], Role::Prey)
                            &&& world@.agents[k].position.0 == point
                            &&& world@.agents[k].species == SpeciesId(0)
                            &&& world@.agents[k].genes.founder()
                        },
                decreases PREY_PER_CLICK - i,
            {
                let ghost previous = world@;
                world.spawn_living(create_prey(point, SpeciesId(0), Genes::default()));
                proof {
                    assert(world@.agents.take(before.agents.len() as int)
                        =~= previous.agents.take(before.agents.len() as int));
                    assert forall|k: int|
                        before.agents.len() <= k < world@.agents.len() implies {
                        &&& is_settler(#[trigger] world@.agents[k], Role::Prey)
                        &&& world@.agents[k].position.0 == point
                        &&& world@.agents[k].species == SpeciesId(0)
                        &&& world@.agents[k].genes.founder()
                    } by {
                        if k < previous.agents.len() {
                            assert(world@.agents[k] == previous.agents[k]);
                        }
                    }
                }
                i += 1;
            }
        },
        Click::Right(point) => {
            let count = draw_count(10, 30);
            let mut i: u32 = 0;
            while i < count
                invariant
                    i <= count,
                    10 <= count < 30,
                    world@.wf(),
                    grown_from(before, world@),
                    world@.corpses == before.corpses,
                    world@.agents == before.agents,
                    world@.foods.len() <= before.foods.len() + i,
                    world@.has_room() ==> world@.foods.len() == before.foods.len() + i,
                    click == Click::Right(point),
                    forall|k: int|
                        before.foods.len() <= k < world@.foods.len() ==> is_scattered(
                            #[trigger] world@.foods[k],
                            point,
                            SCATTER,
                        ),
                decreases count - i,
            {
                let ghost previous = world@;
                let food = scattered_food(point, SCATTER);
                world.spawn_food(food);
                proof {
                    assert(world@.foods.take(before.foods.len() as int) =~= previous.foods.take(
                        before.foods.len() as int,
                    ));
                    assert forall|k: int|
                        before.foods.len() <= k < world@.foods.len() implies is_scattered(
                        #[trigger] world@.foods[k],
                        point,
                        SCATTER,
                    ) by {
                        if k < previous.foods.len() {
                            assert(world@.foods[k] == previous.foods[k]);
                        }
                    }
                }
                i += 1;
            }
        },
    }
}

/// A food source with an amount from ten to a hundred, within `reach` of
/// `center` in each coordinate.
pub fn scattered_food(center: Vector, reach: Fixed) -> (food: Food)
    ensures
        reach >= 0 ==> is_scattered(food, center, reach),
        LEAST_FOOD <= food.amount.0 < MOST_FOOD,
        food.entity == Entity::unassigned(),
{
    let x = draw_between(minus(center.x, reach), plus(center.x, reach));
    let y = draw_between(minus(center.y, reach), plus(center.y, reach));
    create_food(Vector { x, y }, draw_between(LEAST_FOOD, MOST_FOOD))
}

/// How many food sources grow in a forest of the given size, where the
/// noise of the terrain is `noise`: half the size, raised or lowered by the
/// noise; none where that falls below zero.
pub open spec fn forest_growth(noise: Fixed, size: Fixed) -> u32 {
    let half = half_of(size);
    let grown = sum(product(noise, half), half) as int / ONE as int;
    if grown < 0 {
        0
    } else if grown > u32::MAX {
        u32::MAX
    } else {
        grown as u32
    }
}

/// How many food sources grow in a forest.
pub fn forest_food_count(noise: Fixed, size: Fixed) -> (count: u32)
    ensures
        count == forest_growth(noise, size),
{
    let half = over(size, TWO);
    let grown = plus(times(noise, half), half);
    if grown < 0 {
        0
    } else {
        let whole = grown / ONE;
        if whole > u32::MAX as i64 {
            u32::MAX
        } else {
            whole as u32
        }
    }
}

/// Draws the places of the forests of a new world: from twenty to thirty
/// points within the bounds of the world.
pub fn forest_areas() -> (areas: Vec<Vector>)
    ensures
        20 <= areas@.len() < 30,
        forall|i: int|
            0 <= i < areas@.len() ==> 0 <= (#[trigger] areas@[i]).x < WORLD_WIDTH && 0
                <= areas@[i].y < WORLD_HEIGHT,
{
    let count = draw_count(20, 30);
    let mut areas: Vec<Vector> = Vec::new();
    let mut i: u32 = 0;
    while i < count
        invariant
            i <= count,
            20 <= count < 30,
            areas@.len() == i,
            forall|j: int|
                0 <= j < areas@.len() ==> 0 <= (#[trigger] areas@[j]).x < WORLD_WIDTH && 0
                    <= areas@[j].y < WORLD_HEIGHT,
        decreases count - i,
    {
        areas.push(Vector { x: draw_between(0, WORLD_WIDTH), y: draw_between(0, WORLD_HEIGHT) });
        i += 1;
    }
    areas
}

/// Whether `food` may have grown in one of the forests: it holds an amount
/// from ten to a hundred and lies within half the size of one of `areas`.
pub open spec fn in_a_forest(food: Food, areas: Seq<Vector>, size: Fixed) -> bool {
    exists|a: int|
        0 <= a < areas.len() && is_scattered(
            food,
            #[trigger] areas[a],
            half_of(size),
        )
}

/// The noise for the forest at place `i`; none where none was given.
pub open spec fn noise_at(noises: Seq<Fixed>, i: int) -> Fixed {
    if 0 <= i < noises.len() {
        noises[i]
    } else {
        0
    }
}

/// How much food grows in the first `n` forests together.
pub open spec fn forest_total(noises: Seq<Fixed>, size: Fixed, n: int) -> int
    decreases n,
{
    if n <= 0 {
        0
    } else {
        forest_total(noises, size, n - 1) + forest_growth(noise_at(noises, n - 1), size)
    }
}

/// Whether `after` is what the growing of forests makes of `before`: only
/// food comes, each source in one of the forests.
pub open spec fn forest_outcome(
    before: WorldView,
    after: WorldView,
    areas: Seq<Vector>,
    size: Fixed,
) -> bool {
    &&& grown_from(before, after)
    &&& after.agents == before.agents
    &&& after.corpses == before.corpses
    &&& forall|k: int|
        before.foods.len() <= k < after.foods.len() ==> in_a_forest(
            #[trigger] after.foods[k],
            areas,
            size,
        )
}

/// Grows a forest of food around each of `areas`. The noise of the terrain
/// at the area decides how much grows there, and chance how densely.
pub fn spawn_forest(world: &mut World, areas: &Vec<Vector>, noises: &Vec<Fixed>, size: Fixed)
    requires
        old(world)@.wf(),
    ensures
        size >= 0 ==> forest_outcome(old(world)@, final(world)@, areas@, size),
        grown_from(old(world)@, final(world)@),
        final(world)@.agents == old(world)@.agents,
        final(world)@.corpses == old(world)@.corpses,
        final(world)@.foods.len() <= old(world)@.foods.len() + forest_total(
            noises@,
            size,
            areas@.len() as int,
        ),
        final(world)@.has_room() ==> final(world)@.foods.len() == old(world)@.foods.len()
            + forest_total(noises@, size, areas@.len() as int),
        final(world)@.wf(),
{
    let ghost before = world@;
    assert(before.agents.take(before.agents.len() as int) =~= before.agents);
    assert(before.foods.take(before.foods.len() as int) =~= before.foods);
    assert(before.corpses.take(before.corpses.len() as int) =~= before.corpses);
    let half = over(size, TWO);
    let mut a: usize = 0;
    while a < areas.len()
        invariant
            a <= areas.len(),
            world@.wf(),
            half == half_of(size),
            size >= 0 ==> forest_outcome(before, world@, areas@, size),
            grown_from(before, world@),
            world@.agents == before.agents,
            world@.corpses == before.corpses,
            world@.foods.len() <= before.foods.len() + forest_total(noises@, size, a as int),
            world@.has_room() ==> world@.foods.len() == before.foods.len() + forest_total(
                noises@,
                size,
                a as int,
            ),
        decreases areas.len() - a,
    {
        let area = areas[a];
        let noise = if a < noises.len() {
            noises[a]
        } else {
            0
        };
        let density = draw_between(ONE / 2, ONE);
        let offset = times(density, half);
        let count = forest_food_count(noise, size);
        proof {
            if half >= 0 {
                crate::fixed::lemma_fraction_of(density, half);
            }
        }
        let mut k: u32 = 0;
        while k < count
            invariant
                k <= count,
                a < areas.len(),
                area == areas@[a as int],
                world@.wf(),
                size >= 0 ==> 0 <= offset <= half,
                half == half_of(size),
                size >= 0 ==> forest_outcome(before, world@, areas@, size),
                grown_from(before, world@),
                world@.agents == before.agents,
                world@.corpses == before.corpses,
                count == forest_growth(noise_at(noises@, a as int), size),
                world@.foods.len() <= before.foods.len() + forest_total(noises@, size, a as int)
                    + k,
                world@.has_room() ==> world@.foods.len() == before.foods.len() + forest_total(
                    noises@,
                    size,
                    a as int,
                ) + k,
            decreases count - k,
        {
            let ghost previous = world@;
            let food = scattered_food(area, offset);
            world.spawn_food(food);
            proof {
                assert(world@.foods.take(before.foods.len() as int) =~= previous.foods.take(
                    before.foods.len() as int,
                ));
                if size >= 0 {
                    assert forall|j: int|
                        before.foods.len() <= j < world@.foods.len() implies in_a_forest(
                        #[trigger] world@.foods[j],
                        areas@,
                        size,
                    ) by {
                        if j < previous.foods.len() {
                            assert(world@.foods[j] == previous.foods[j]);
                        } else {
                            assert(is_scattered(world@.foods[j], areas@[a as int], half));
                        }
                    }
                }
            }
            k += 1;
        }
        a += 1;
    }
}

/// A new species: the genes of a founder, and a variation of them.
pub fn found_species(id: SpeciesId) -> (species: Species)
    ensures
        species.id == id,
        species.genetic_min.founder(),
        species.genetic_min.wf(),
        species.genetic_max.wf(),
        species.genetic_max == species.genetic_min.varied(
            species.genetic_max.sociality,
            species.genetic_max.vision_range,
            species.genetic_max.wander_radius,
            species.genetic_max.gender,
        ),
        Genes::within_spread(
            species.genetic_max.sociality,
            species.genetic_min.sociality,
            crate::components::SOCIALITY_SPREAD,
        ),
        Genes::within_spread(
            species.genetic_max.vision_range,
            species.genetic_min.vision_range,
            crate::components::RANGE_SPREAD,
        ),
        Genes::within_spread(
            species.genetic_max.wander_radius,
            species.genetic_min.wander_radius,
            crate::components::RANGE_SPREAD,
        ),
{
    let genetic_min = Genes::default();
    Species { id, genetic_min, genetic_max: genetic_min.random_variation() }
}

/// Whether `after` is what the settling of a new world makes of `before`:
/// forests of food, then up to two thousand prey and a hundred predators,
/// newborn, somewhere within the bounds of the world. Fewer come only where
/// the world runs out of identifiers.
pub open spec fn setup_outcome(
    before: WorldView,
    after: WorldView,
    areas: Seq<Vector>,
    noises: Seq<Fixed>,
) -> bool {
    &&& grown_from(before, after)
    &&& after.corpses == before.corpses
    &&& after.agents.len() <= before.agents.len() + FIRST_PREY + FIRST_PREDATORS
    &&& after.has_room() ==> after.agents.len() == before.agents.len() + FIRST_PREY
        + FIRST_PREDATORS
    &&& forall|k: int|
        before.agents.len() <= k < after.agents.len() ==> {
            &&& is_settler(
                #[trigger] after.agents[k],
                if k < before.agents.len() + FIRST_PREY {
                    Role::Prey
                } else {
                    Role::Predator
                },
            )
            &&& 0 <= after.agents[k].position.0.x < WORLD_WIDTH
            &&& 0 <= after.agents[k].position.0.y < WORLD_HEIGHT
            &&& after.agents[k].species.0 < MOST_SPECIES
        }
    &&& exists|size: Fixed|
        {
            &&& LEAST_FOREST <= size < MOST_FOREST
            &&& #[trigger] forest_outcome(
                before,
                WorldView { agents: before.agents, ..after },
                areas,
                size,
            )
            &&& after.foods.len() <= before.foods.len() + forest_total(
                noises,
                size,
                areas.len() as int,
            )
            &&& after.has_room() ==> after.foods.len() == before.foods.len() + forest_total(
                noises,
                size,
                areas.len() as int,
            )
        }
}

/// Settles a new world: forests of food around `areas`, then species, then
/// two thousand prey and a hundred predators, each of a species drawn at random.
pub fn setup_entities(world: &mut World, areas: &Vec<Vector>, noises: &Vec<Fixed>)
    requires
        old(world)@.wf(),
    ensures
        setup_outcome(old(world)@, final(world)@, areas@, noises@),
        final(world)@.wf(),
{
    let ghost before = world@;
    let size = draw_between(LEAST_FOREST, MOST_FOREST);
    spawn_forest(world, areas, noises, size);
    let ghost planted = world@;
    let mut species: Vec<Species> = Vec::new();
    let prey_species = draw_count(5, 10);
    let predator_species = draw_count(3, 5);
    let mut s: u32 = 0;
    while s < prey_species + predator_species
        invariant
            s <= prey_species + predator_species,
            prey_species < 10,
            predator_species < 5,
            species@.len() == s,
            forall|j: int|
                0 <= j < species@.len() ==> (#[trigger] species@[j]).genetic_min.wf()
                    && species@[j].genetic_max.wf() && species@[j].id.0 < MOST_SPECIES,
        decreases prey_species + predator_species - s,
    {
        species.push(found_species(SpeciesId(s)));
        s += 1;
    }
    let total = FIRST_PREY + FIRST_PREDATORS;
    proof {
        assert(planted.agents.take(planted.agents.len() as int) =~= planted.agents);
        assert(planted.foods.take(planted.foods.len() as int) =~= planted.foods);
        assert(planted.corpses.take(planted.corpses.len() as int) =~= planted.corpses);
    }
    let mut i: usize = 0;
    while i < total
        invariant
            i <= total,
            total == FIRST_PREY + FIRST_PREDATORS,
            species@.len() >= 8,
            forall|j: int|
                0 <= j < species@.len() ==> (#[trigger] species@[j]).genetic_min.wf()
                    && species@[j].genetic_max.wf() && species@[j].id.0 < MOST_SPECIES,
            world@.wf(),
            grown_from(planted, world@),
            world@.corpses == planted.corpses,
            world@.foods == planted.foods,
            world@.agents.len() <= planted.agents.len() + i,
            world@.has_room() ==> world@.agents.len() == planted.agents.len() + i,
            forall|k: int|
                planted.agents.len() <= k < world@.agents.len() ==> {
                    &&& is_settler(
                        #[trigger] world@.agents[k],
                        if k < planted.agents.len() + FIRST_PREY {
                            Role::Prey
                        } else {
                            Role::Predator
                        },
                    )
                    &&& 0 <= world@.agents[k].position.0.x < WORLD_WIDTH
                    &&& 0 <= world@.agents[k].position.0.y < WORLD_HEIGHT
                    &&& world@.agents[k].species.0 < MOST_SPECIES
                },
        decreases total - i,
    {
        let ghost previous = world@;
        let position = Vector { x: draw_between(0, WORLD_WIDTH), y: draw_between(0, WORLD_HEIGHT) };
        let kind = species[draw_index(species.len())];
        let genes = kind.random_gene();
        proof {
            crate::components::lemma_child_is_mean(
                kind.genetic_min,
                kind.genetic_max,
                genes.gender,
            );
        }
        let living = if i < FIRST_PREY {
            create_prey(position, kind.id, genes)
        } else {
            create_predator(position, kind.id, genes)
        };
        world.spawn_living(living);
        proof {
            assert(world@.agents.take(planted.agents.len() as int) =~= previous.agents.take(
                planted.agents.len() as int,
            ));
            assert forall|k: int| planted.agents.len() <= k < world@.agents.len() implies {
                &&& is_settler(
                    #[trigger] world@.agents[k],
                    if k < planted.agents.len() + FIRST_PREY {
                        Role::Prey
                    } else {
                        Role::Predator
                    },
                )
                &&& 0 <= world@.agents[k].position.0.x < WORLD_WIDTH
                &&& 0 <= world@.agents[k].position.0.y < WORLD_HEIGHT
                &&& world@.agents[k].species.0 < MOST_SPECIES
            } by {
                if k < previous.agents.len() {
                    assert(world@.agents[k] == previous.agents[k]);
                }
            }
        }
        i += 1;
    }
    proof {
        assert(world@.agents.take(before.agents.len() as int) =~= planted.agents.take(
            before.agents.len() as int,
        ));
        let only_food = WorldView { agents: before.agents, ..world@ };
        assert(only_food.agents.take(before.agents.len() as int) =~= before.agents);
        assert forall|k: int|
            before.foods.len() <= k < only_food.foods.len() implies in_a_forest(
            #[trigger] only_food.foods[k],
            areas@,
            size,
        ) by {
            assert(only_food.foods[k] == planted.foods[k]);
        }
        assert(forest_outcome(before, only_food, areas@, size));
    }
}

/// The simulation: a world, the grid through which its entities perceive
/// it, and the speed at which it runs.
pub struct Simulation {
    pub world: World,
    pub grid: SpatialGrid,
    pub speed: SimulationSpeed,
}

/// Whether `after` is what one tick makes of `before`, for some chance: the
/// grid is rebuilt from the world as it is; the prey scan through it, then
/// the predators; the prey eat and move, then the predators; then all live
/// one tick and those that suit each other pair.
pub open spec fn tick_outcome(
    before: WorldView,
    after: WorldView,
    cell_size: Fixed,
    tick_delta: Fixed,
    speed: Fixed,
) -> bool {
    let delta_time = product(tick_delta, speed);
    let buckets = indexed(before.objects(), cell_size, before.objects().len() as int);
    exists|scanned: WorldView, sensed: WorldView, grazed: WorldView, hunted: WorldView|
        {
            &&& #[trigger] scan_outcome(
                before,
                scanned,
                buckets,
                cell_size,
                Role::Prey,
                delta_time,
                speed,
            )
            &&& #[trigger] scan_outcome(
                scanned,
                sensed,
                buckets,
                cell_size,
                Role::Predator,
                delta_time,
                speed,
            )
            &&& #[trigger] prey_outcome(sensed, grazed, delta_time)
            &&& #[trigger] predator_outcome(grazed, hunted, delta_time)
            &&& update_outcome(hunted, after, delta_time)
        }
}

impl Simulation {
    /// A simulation of an empty world, with cells of sixty-four units and at twice the pace.
    pub fn new() -> (simulation: Simulation)
        ensures
            simulation.world@.wf(),
            simulation.world@.agents.len() == 0,
            simulation.world@.foods.len() == 0,
            simulation.world@.corpses.len() == 0,
            simulation.grid.cell_size == CELL_SIZE,
            simulation.speed == SimulationSpeed(DEFAULT_SPEED),
    {
        Simulation {
            world: World::new(),
            grid: SpatialGrid::new(CELL_SIZE),
            speed: SimulationSpeed(DEFAULT_SPEED),
        }
    }

    /// One tick of `tick_delta` seconds: every system runs once, in order,
    /// and each sees what the ones before it have left.
    pub fn tick(&mut self, tick_delta: Fixed)
        requires
            old(self).world@.wf(),
        ensures
            tick_outcome(
                old(self).world@,
                final(self).world@,
                old(self).grid.cell_size,
                tick_delta,
                old(self).speed.0,
            ),
            final(self).world@.wf(),
            all_within_bounds(final(self).world@.agents),
            all_sound(old(self).world@.agents) ==> all_sound(final(self).world@.agents),
            final(self).grid.cell_size == old(self).grid.cell_size,
            final(self).speed == old(self).speed,
            final(self).grid.buckets@ == indexed(
                old(self).world@.objects(),
                old(self).grid.cell_size,
                old(self).world@.objects().len() as int,
            ),
    {
        let speed = self.speed;
        update_grid_system(&mut self.grid, &self.world);
        perception_scan_system_prey(&self.grid, &mut self.world, tick_delta, speed);
        let ghost scanned = self.world@;
        perception_scan_system_predator(&self.grid, &mut self.world, tick_delta, speed);
        let ghost sensed = self.world@;
        game_loop_prey(&mut self.world, tick_delta, speed);
        let ghost grazed = self.world@;
        game_loop_predator(&mut self.world, tick_delta, speed);
        let ghost hunted = self.world@;
        update_entities(&mut self.world, tick_delta, speed);
        proof {
            let delta_time = product(tick_delta, speed.0);
            let buckets = self.grid.buckets@;
            assert(scan_outcome(
                old(self).world@,
                scanned,
                buckets,
                self.grid.cell_size,
                Role::Prey,
                delta_time,
                speed.0,
            ));
            assert(scan_outcome(
                scanned,
                sensed,
                buckets,
                self.grid.cell_size,
                Role::Predator,
                delta_time,
                speed.0,
            ));
            assert(prey_outcome(sensed, grazed, delta_time));
            assert(predator_outcome(grazed, hunted, delta_time));
        }
    }
}

} // verus!
