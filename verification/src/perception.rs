//! Perception: what each living entity notices around it.
//!
//! A scan looks up the entities in the nine grid cells around the scanner. It
//! always renews the lists of nearby bodies to avoid and of mates to approach.
//! Only an entity that is awake and not too lazy also looks for food and
//! renews its wander target.

use crate::components::{
    BehaviorState, CorpseState, Entity, LivingEntity, LivingView, PerceptionView, Role,
    SimulationSpeed, SpeciesId,
};
use crate::fixed::{
    blend, difference, lerp, minus, over, plus, product, quotient, sum, times, Fixed, ONE,
};
use crate::grid::{cell_of, neighborhood, SpatialGrid};
use crate::random::{draw_between, draw_coin, draw_index, draw_unit};
use crate::vector::Vector;
use crate::world::{
    agent_ids, all_sound, corpse_ids, food_ids, place_of, sound, World, WorldView,
};
use vstd::prelude::*;

verus! {

/// Closer than this, any body is avoided.
pub const NEARBY_AVOIDANCE_DISTANCE: Fixed = 5_000_000;

/// Closer than this, a willing mate is noticed.
pub const MATE_DETECTION_DISTANCE: Fixed = 10_000_000;

/// Up to this distance a prey fears a predator.
pub const FEAR_RADIUS: Fixed = 20_000_000;

/// The distance at which two bodies touch.
pub const COLLISION_RADIUS: Fixed = 4_000_000;

/// Below this sanity an entity panics: it sees no food and roams erratically.
pub const PANIC_SANITY: Fixed = 100_000;

/// A corpse is fresh enough to eat while its decay timer is above this.
pub const FRESH_DECAY: Fixed = 75_000_000;

/// The decay timer at which a corpse starts; its stench grows as the timer falls.
pub const FULL_DECAY: Fixed = 100_000_000;

/// Seconds of rest between two scans of a wholly lazy entity at speed one.
pub const LAZINESS_PERIOD: Fixed = 5_000_000;

/// Seconds between two wander targets of a wholly curious entity.
pub const SHORTEST_RETARGET: Fixed = 3_000_000;

/// Seconds between two wander targets of an entity without curiosity.
pub const LONGEST_RETARGET: Fixed = 12_000_000;

/// What kind of world object was seen, with what the scanner reads of it.
#[derive(Clone, Copy, PartialEq, Eq, Structural, Debug)]
pub enum Nature {
    Living { role: Role, mate_ready: bool, gender: bool, species: SpeciesId },
    Food,
    Corpse { state: CorpseState },
}

/// A world object as the scanner finds it when it looks the entity up.
#[derive(Clone, Copy, PartialEq, Eq, Structural, Debug)]
pub struct Sighting {
    pub entity: Entity,
    pub position: Vector,
    pub nature: Nature,
}

/// The chance that enters one scan.
#[derive(Clone, Copy, PartialEq, Eq, Structural, Debug)]
pub struct SenseRolls {
    /// The direction of the next wander target, each component in `[-1, 1)`.
    pub heading: Vector,
    /// How far out the next wander target lies, as a fraction of the wander radius in `[0, 1)`.
    pub reach: Fixed,
    /// Whether the nearest food is chosen, rather than any.
    pub prefer_nearest: bool,
    /// Which food is chosen where any may be: its place, modulo the number of candidates.
    pub pick: usize,
}

impl SenseRolls {
    /// Whether the rolls lie in the ranges from which they are drawn.
    pub open spec fn valid(self) -> bool {
        &&& -ONE <= self.heading.x < ONE
        &&& -ONE <= self.heading.y < ONE
        &&& 0 <= self.reach < ONE
    }

    /// The rolls used for an entity for which none were supplied.
    pub open spec fn none() -> SenseRolls {
        SenseRolls { heading: Vector::origin(), reach: 0, prefer_nearest: true, pick: 0 }
    }

    /// Draws the rolls of one scan.
    pub fn draw() -> (rolls: SenseRolls)
        ensures
            rolls.valid(),
    {
        SenseRolls {
            heading: Vector { x: draw_between(-ONE, ONE), y: draw_between(-ONE, ONE) },
            reach: draw_unit(),
            prefer_nearest: draw_coin(),
            pick: draw_index(usize::MAX),
        }
    }
}

/// The rolls for the entity at place `i`.
pub open spec fn rolls_at(rolls: Seq<SenseRolls>, i: int) -> SenseRolls {
    if 0 <= i < rolls.len() {
        rolls[i]
    } else {
        SenseRolls::none()
    }
}

/// What looking `e` up in the world gives: a living entity, else a food
/// source, else a corpse of that identifier; nothing where it has left the world.
pub open spec fn sighting_of(world: WorldView, e: Entity) -> Option<Sighting> {
    if let Some(i) = place_of(agent_ids(world.agents), e) {
        Some(
            Sighting {
                entity: e,
                position: world.agents[i].position.0,
                nature: Nature::Living {
                    role: world.agents[i].role,
                    mate_ready: world.agents[i].needs.mate_ready,
                    gender: world.agents[i].genes.gender,
                    species: world.agents[i].species,
                },
            },
        )
    } else if let Some(i) = place_of(food_ids(world.foods), e) {
        Some(Sighting { entity: e, position: world.foods[i].position.0, nature: Nature::Food })
    } else if let Some(i) = place_of(corpse_ids(world.corpses), e) {
        Some(
            Sighting {
                entity: e,
                position: world.corpses[i].position.0,
                nature: Nature::Corpse { state: world.corpses[i].state },
            },
        )
    } else {
        None
    }
}

/// What the entity `me` finds of the first `n` of `neighbors`: each one that
/// is not itself and is still in the world, in order.
pub open spec fn seen(world: WorldView, me: Entity, neighbors: Seq<Entity>, n: int) -> Seq<
    Sighting,
>
    decreases n,
{
    if n <= 0 {
        Seq::empty()
    } else {
        let before = seen(world, me, neighbors, n - 1);
        if neighbors[n - 1] == me {
            before
        } else {
            match sighting_of(world, neighbors[n - 1]) {
                Some(sighting) => before.push(sighting),
                None => before,
            }
        }
    }
}

/// Whether the scanner skips the costly part of the scan this tick: it is
/// asleep, or its laziness has not let enough time pass since the last one.
pub open spec fn skips_sensing(me: LivingView, delta_time: Fixed, speed: Fixed) -> bool {
    sum(me.perception.time_since_last_sense, delta_time) < product(
        product(me.genes.laziness, LAZINESS_PERIOD),
        speed,
    ) || me.behavior == BehaviorState::Sleep
}

/// The points that one sighting makes the scanner avoid: a body that is too
/// close, and for a prey the stench of a corpse in view and a predator within
/// the fear radius.
pub open spec fn repulsions_from(me: LivingView, s: Sighting, skip: bool) -> Seq<(Vector, Fixed)> {
    let dist = me.position.0.separation(s.position);
    let crowding = if dist < NEARBY_AVOIDANCE_DISTANCE {
        seq![(s.position, quotient(difference(COLLISION_RADIUS, dist), COLLISION_RADIUS))]
    } else {
        Seq::empty()
    };
    let stench = match s.nature {
        Nature::Corpse { state } => if !skip && me.role == Role::Prey && dist
            < me.genes.vision_range {
            seq![(s.position, quotient(difference(FULL_DECAY, state.decay_timer), dist))]
        } else {
            Seq::empty()
        },
        _ => Seq::empty(),
    };
    let fear = match s.nature {
        Nature::Living { role, .. } => if me.role == Role::Prey && role == Role::Predator && dist
            <= FEAR_RADIUS {
            seq![(s.position, quotient(dist, FEAR_RADIUS))]
        } else {
            Seq::empty()
        },
        _ => Seq::empty(),
    };
    crowding + stench + fear
}

/// Whether the sighting is a mate for the scanner: both are ready, of the
/// same species and of opposite gender, and close enough.
pub open spec fn is_mate(me: LivingView, s: Sighting) -> bool {
    &&& me.position.0.separation(s.position) < MATE_DETECTION_DISTANCE
    &&& me.needs.mate_ready
    &&& s.nature matches Nature::Living { mate_ready, gender, species, .. }
    &&& mate_ready
    &&& gender != me.genes.gender
    &&& species == me.species
}

/// Whether the sighting is something the scanner can eat and sees: for a
/// prey a food source, for a predator a prey or a fresh corpse with flesh on it.
pub open spec fn is_food_for(me: LivingView, s: Sighting, skip: bool) -> bool {
    &&& !skip
    &&& me.needs.sanity > PANIC_SANITY
    &&& me.position.0.separation(s.position) < me.genes.vision_range
    &&& match (me.role, s.nature) {
        (Role::Prey, Nature::Food) => true,
        (Role::Predator, Nature::Living { role, .. }) => role == Role::Prey,
        (Role::Predator, Nature::Corpse { state }) => state.flesh_amount > 0 && state.decay_timer
            > FRESH_DECAY,
        _ => false,
    }
}

/// Every point to avoid that the first `n` sightings give, in order.
pub open spec fn repulsions_of(me: LivingView, sightings: Seq<Sighting>, skip: bool, n: int)
    -> Seq<(Vector, Fixed)>
    decreases n,
{
    if n <= 0 {
        Seq::empty()
    } else {
        repulsions_of(me, sightings, skip, n - 1) + repulsions_from(me, sightings[n - 1], skip)
    }
}

/// The position of every mate among the first `n` sightings, each with strength one.
pub open spec fn attractions_of(me: LivingView, sightings: Seq<Sighting>, n: int) -> Seq<
    (Vector, Fixed),
>
    decreases n,
{
    if n <= 0 {
        Seq::empty()
    } else if is_mate(me, sightings[n - 1]) {
        attractions_of(me, sightings, n - 1).push((sightings[n - 1].position, ONE))
    } else {
        attractions_of(me, sightings, n - 1)
    }
}

/// Everything edible among the first `n` sightings, each with its distance.
pub open spec fn candidates_of(me: LivingView, sightings: Seq<Sighting>, skip: bool, n: int)
    -> Seq<(Entity, Fixed)>
    decreases n,
{
    if n <= 0 {
        Seq::empty()
    } else if is_food_for(me, sightings[n - 1], skip) {
        candidates_of(me, sightings, skip, n - 1).push(
            (sightings[n - 1].entity, me.position.0.separation(sightings[n - 1].position)),
        )
    } else {
        candidates_of(me, sightings, skip, n - 1)
    }
}

/// The place of the nearest among the first `n` candidates; of several
/// equally near, the first. `n` is at least one.
pub open spec fn nearest_place(candidates: Seq<(Entity, Fixed)>, n: int) -> int
    decreases n,
{
    if n <= 1 {
        0
    } else {
        let best = nearest_place(candidates, n - 1);
        if candidates[n - 1].1 < candidates[best].1 {
            n - 1
        } else {
            best
        }
    }
}

/// The food that is targeted among the candidates: with `prefer_nearest` the
/// nearest one, else the one that `pick` falls on; none where there is no candidate.
pub open spec fn chosen_target(candidates: Seq<(Entity, Fixed)>, prefer_nearest: bool, pick: usize)
    -> Option<Entity> {
    if candidates.len() == 0 {
        None
    } else if prefer_nearest {
        Some(candidates[nearest_place(candidates, candidates.len() as int)].0)
    } else {
        Some(candidates[pick as int % candidates.len() as int].0)
    }
}

/// The point that a scanner at `position` wanders to next: out along the
/// heading, the whole wander radius in panic, else the fraction `reach` of it.
pub open spec fn wander_target(position: Vector, radius: Fixed, panic: bool, rolls: SenseRolls)
    -> Vector {
    let distance = if panic {
        radius
    } else {
        product(rolls.reach, radius)
    };
    position.plus(rolls.heading.direction().scaled(distance))
}

/// The next wander target lies within the wander radius of the scanner.
pub proof fn lemma_wander_target_is_within_radius(
    position: Vector,
    radius: Fixed,
    panic: bool,
    rolls: SenseRolls,
)
    requires
        radius >= 0,
        rolls.valid(),
    ensures
        position.separation(wander_target(position, radius, panic, rolls)) <= radius,
{
    let distance = if panic {
        radius
    } else {
        product(rolls.reach, radius)
    };
    crate::fixed::lemma_fraction_of(rolls.reach, radius);
    crate::vector::lemma_direction_is_short(rolls.heading);
    crate::vector::lemma_scaled_is_short(rolls.heading.direction(), distance);
    let step = rolls.heading.direction().scaled(distance);
    assert(crate::vector::no_longer_than(step, radius)) by (nonlinear_arith)
        requires
            step.x * step.x + step.y * step.y <= distance * distance,
            0 <= distance <= radius,
    ;
    crate::vector::lemma_step_is_short(position, step, radius);
}

/// How long the scanner keeps a wander target: from three seconds for the
/// most curious to twelve for the least.
pub open spec fn retarget_interval(curiosity: Fixed) -> Fixed {
    blend(SHORTEST_RETARGET, LONGEST_RETARGET, difference(ONE, curiosity))
}

/// Whether the scanner roams: it wanders, or it panics.
pub open spec fn roams(me: LivingView) -> bool {
    me.behavior == BehaviorState::Wander || me.needs.sanity < PANIC_SANITY
}

/// The perception of `me` after one scan that found `sightings`.
pub open spec fn scanned(
    me: LivingView,
    sightings: Seq<Sighting>,
    delta_time: Fixed,
    speed: Fixed,
    rolls: SenseRolls,
) -> PerceptionView {
    let skip = skips_sensing(me, delta_time, speed);
    let target_clock = sum(me.perception.time_since_last_target, delta_time);
    let retarget = !skip && roams(me) && target_clock > retarget_interval(me.genes.curiosity);
    let count = sightings.len() as int;
    PerceptionView {
        target_food: if skip {
            me.perception.target_food
        } else {
            chosen_target(
                candidates_of(me, sightings, skip, count),
                rolls.prefer_nearest,
                rolls.pick,
            )
        },
        target_position: if skip {
            me.perception.target_position
        } else if !roams(me) {
            None
        } else if retarget {
            Some(
                wander_target(
                    me.position.0,
                    me.genes.wander_radius,
                    me.needs.sanity < PANIC_SANITY,
                    rolls,
                ),
            )
        } else {
            me.perception.target_position
        },
        repulsions: repulsions_of(me, sightings, skip, count),
        attractions: attractions_of(me, sightings, count),
        time_since_last_sense: if skip {
            sum(me.perception.time_since_last_sense, delta_time)
        } else {
            0
        },
        time_since_last_target: if retarget {
            0
        } else {
            target_clock
        },
    }
}

/// The entity `me` after one scan that found `sightings`: only its perception changes.
pub open spec fn perceived(
    me: LivingView,
    sightings: Seq<Sighting>,
    delta_time: Fixed,
    speed: Fixed,
    rolls: SenseRolls,
) -> LivingView {
    LivingView { perception: scanned(me, sightings, delta_time, speed, rolls), ..me }
}

/// The nearest candidate is at most as far as any other.
pub proof fn lemma_nearest_is_nearest(candidates: Seq<(Entity, Fixed)>, n: int, j: int)
    requires
        0 <= j < n <= candidates.len(),
    ensures
        0 <= nearest_place(candidates, n) < n,
        candidates[nearest_place(candidates, n)].1 <= candidates[j].1,
    decreases n,
{
    if n > 1 {
        if j < n - 1 {
            lemma_nearest_is_nearest(candidates, n - 1, j);
        } else {
            lemma_nearest_is_nearest(candidates, n - 1, 0);
        }
    }
}

impl World {
    /// Looks the entity `e` up: among the living, else the food, else the corpses.
    pub fn observe(&self, e: Entity) -> (found: Option<Sighting>)
        requires
            self@.wf(),
        ensures
            found == sighting_of(self@, e),
    {
        if let Some(i) = self.find_agent(e) {
            let living = &self.agents[i];
            Some(
                Sighting {
                    entity: e,
                    position: living.position.0,
                    nature: Nature::Living {
                        role: living.role,
                        mate_ready: living.needs.mate_ready,
                        gender: living.genes.gender,
                        species: living.species,
                    },
                },
            )
        } else if let Some(i) = self.find_food(e) {
            Some(Sighting { entity: e, position: self.foods[i].position.0, nature: Nature::Food })
        } else if let Some(i) = self.find_corpse(e) {
            Some(
                Sighting {
                    entity: e,
                    position: self.corpses[i].position.0,
                    nature: Nature::Corpse { state: self.corpses[i].state },
                },
            )
        } else {
            None
        }
    }

    /// Looks up each of `neighbors` but `me` itself, and returns what is still in the world.
    pub fn observe_all(&self, me: Entity, neighbors: &Vec<Entity>) -> (sightings: Vec<Sighting>)
        requires
            self@.wf(),
        ensures
            sightings@ == seen(self@, me, neighbors@, neighbors@.len() as int),
    {
        let mut sightings: Vec<Sighting> = Vec::new();
        let mut i: usize = 0;
        while i < neighbors.len()
            invariant
                i <= neighbors.len(),
                self@.wf(),
                sightings@ == seen(self@, me, neighbors@, i as int),
            decreases neighbors.len() - i,
        {
            let other = neighbors[i];
            if other != me {
                if let Some(sighting) = self.observe(other) {
                    sightings.push(sighting);
                }
            }
            i += 1;
        }
        sightings
    }
}

/// Whether the sighting is a mate for the scanner.
fn mate(me: &LivingEntity, s: &Sighting, dist: Fixed) -> (b: bool)
    requires
        dist == me@.position.0.separation(s.position),
    ensures
        b == is_mate(me@, *s),
{
    if dist < MATE_DETECTION_DISTANCE && me.needs.mate_ready {
        match s.nature {
            Nature::Living { role: _, mate_ready, gender, species } => {
                mate_ready && gender != me.genes.gender && species == me.species
            },
            _ => false,
        }
    } else {
        false
    }
}

/// Whether the sighting is something the scanner can eat and sees.
fn edible(me: &LivingEntity, s: &Sighting, dist: Fixed, skip: bool) -> (b: bool)
    requires
        dist == me@.position.0.separation(s.position),
    ensures
        b == is_food_for(me@, *s, skip),
{
    if !skip && me.needs.sanity > PANIC_SANITY && dist < me.genes.vision_range {
        match (me.role, s.nature) {
            (Role::Prey, Nature::Food) => true,
            (Role::Predator, Nature::Living { role, mate_ready: _, gender: _, species: _ }) => role
                == Role::Prey,
            (Role::Predator, Nature::Corpse { state }) => state.flesh_amount > 0
                && state.decay_timer > FRESH_DECAY,
            _ => false,
        }
    } else {
        false
    }
}

/// Appends to `repulsions` the points that one sighting makes the scanner avoid.
fn push_repulsions(
    me: &LivingEntity,
    s: &Sighting,
    dist: Fixed,
    skip: bool,
    repulsions: &mut Vec<(Vector, Fixed)>,
)
    requires
        dist == me@.position.0.separation(s.position),
    ensures
        final(repulsions)@ == old(repulsions)@ + repulsions_from(me@, *s, skip),
{
    if dist < NEARBY_AVOIDANCE_DISTANCE {
        repulsions.push((s.position, over(minus(COLLISION_RADIUS, dist), COLLISION_RADIUS)));
    }
    let ghost crowded = repulsions@;
    match s.nature {
        Nature::Corpse { state } => {
            if !skip && me.role == Role::Prey && dist < me.genes.vision_range {
                repulsions.push((s.position, over(minus(FULL_DECAY, state.decay_timer), dist)));
            }
        },
        Nature::Living { role, mate_ready: _, gender: _, species: _ } => {
            if me.role == Role::Prey && role == Role::Predator && dist <= FEAR_RADIUS {
                repulsions.push((s.position, over(dist, FEAR_RADIUS)));
            }
        },
        Nature::Food => {},
    }
    assert(repulsions@ =~= old(repulsions)@ + repulsions_from(me@, *s, skip));
}

/// The place of the nearest candidate.
fn nearest(candidates: &Vec<(Entity, Fixed)>) -> (best: usize)
    requires
        candidates@.len() > 0,
    ensures
        best == nearest_place(candidates@, candidates@.len() as int),
        best < candidates@.len(),
{
    let mut best: usize = 0;
    let mut i: usize = 1;
    while i < candidates.len()
        invariant
            1 <= i <= candidates.len(),
            best < i,
            best == nearest_place(candidates@, i as int),
        decreases candidates.len() - i,
    {
        if candidates[i].1 < candidates[best].1 {
            best = i;
        }
        i += 1;
    }
    best
}

/// Chooses the food to go for among the candidates.
pub fn choose_target(candidates: &Vec<(Entity, Fixed)>, prefer_nearest: bool, pick: usize)
    -> (target: Option<Entity>)
    ensures
        target == chosen_target(candidates@, prefer_nearest, pick),
{
    if candidates.len() == 0 {
        None
    } else if prefer_nearest {
        Some(candidates[nearest(candidates)].0)
    } else {
        Some(candidates[pick % candidates.len()].0)
    }
}

/// One scan of `living`, which looked its neighbors up and found `sightings`.
pub fn perceive(
    living: &mut LivingEntity,
    sightings: &Vec<Sighting>,
    delta_time: Fixed,
    speed: Fixed,
    rolls: &SenseRolls,
)
    ensures
        final(living)@ == perceived(old(living)@, sightings@, delta_time, speed, *rolls),
{
    let ghost me = living@;
    let sense_clock = plus(living.perception.time_since_last_sense, delta_time);
    let target_clock = plus(living.perception.time_since_last_target, delta_time);
    let threshold = times(times(living.genes.laziness, LAZINESS_PERIOD), speed);
    let asleep = match living.behavior {
        BehaviorState::Sleep => true,
        _ => false,
    };
    let skip = sense_clock < threshold || asleep;
    let panic = living.needs.sanity < PANIC_SANITY;
    let wandering = match living.behavior {
        BehaviorState::Wander => true,
        _ => false,
    };
    let roaming = wandering || panic;
    let mut retarget = false;
    let mut target_position = living.perception.target_position;
    if !skip {
        if roaming {
            let interval = lerp(
                SHORTEST_RETARGET,
                LONGEST_RETARGET,
                minus(ONE, living.genes.curiosity),
            );
            if target_clock > interval {
                retarget = true;
                let distance = if panic {
                    living.genes.wander_radius
                } else {
                    times(rolls.reach, living.genes.wander_radius)
                };
                target_position = Some(
                    living.position.0.add(rolls.heading.normalize_or_zero().scale(distance)),
                );
            }
        } else {
            target_position = None;
        }
    }
    let mut repulsions: Vec<(Vector, Fixed)> = Vec::new();
    let mut attractions: Vec<(Vector, Fixed)> = Vec::new();
    let mut candidates: Vec<(Entity, Fixed)> = Vec::new();
    let mut i: usize = 0;
    while i < sightings.len()
        invariant
            i <= sightings.len(),
            living@ == me,
            repulsions@ == repulsions_of(me, sightings@, skip, i as int),
            attractions@ == attractions_of(me, sightings@, i as int),
            candidates@ == candidates_of(me, sightings@, skip, i as int),
        decreases sightings.len() - i,
    {
        let s = sightings[i];
        let dist = living.position.0.distance(s.position);
        push_repulsions(living, &s, dist, skip, &mut repulsions);
        if mate(living, &s, dist) {
            attractions.push((s.position, ONE));
        }
        if edible(living, &s, dist, skip) {
            candidates.push((s.entity, dist));
        }
        i += 1;
    }
    if !skip {
        living.perception.target_food = choose_target(&candidates, rolls.prefer_nearest, rolls.pick);
        living.perception.time_since_last_sense = 0;
    } else {
        living.perception.time_since_last_sense = sense_clock;
    }
    living.perception.target_position = target_position;
    living.perception.repulsions = repulsions;
    living.perception.attractions = attractions;
    living.perception.time_since_last_target = if retarget {
        0
    } else {
        target_clock
    };
}

/// The world after every living entity of the given role has scanned its
/// surroundings through `buckets`; the entity at place `i` uses the rolls at
/// place `i`. Nothing but the perception of those entities changes.
pub open spec fn world_scanned(
    world: WorldView,
    buckets: Map<(i32, i32), Seq<Entity>>,
    cell_size: Fixed,
    role: Role,
    delta_time: Fixed,
    speed: Fixed,
    rolls: Seq<SenseRolls>,
) -> WorldView {
    WorldView {
        agents: Seq::new(
            world.agents.len(),
            |i: int|
                if world.agents[i].role == role {
                    let neighbors = neighborhood(
                        buckets,
                        cell_of(world.agents[i].position.0, cell_size),
                        9,
                    );
                    perceived(
                        world.agents[i],
                        seen(world, world.agents[i].entity, neighbors, neighbors.len() as int),
                        delta_time,
                        speed,
                        rolls_at(rolls, i),
                    )
                } else {
                    world.agents[i]
                },
        ),
        ..world
    }
}

/// Two worlds in which a scanner finds the same: they hold the same food and
/// corpses, and living entities that differ in their perception at most.
pub open spec fn same_to_the_eye(a: WorldView, b: WorldView) -> bool {
    &&& a.foods == b.foods
    &&& a.corpses == b.corpses
    &&& a.agents.len() == b.agents.len()
    &&& forall|i: int|
        0 <= i < a.agents.len() ==> (#[trigger] a.agents[i]) == (LivingView {
            perception: a.agents[i].perception,
            ..b.agents[i]
        })
}

/// A scanner finds the same in two worlds that are the same to the eye.
pub proof fn lemma_seen_alike(
    a: WorldView,
    b: WorldView,
    me: Entity,
    neighbors: Seq<Entity>,
    n: int,
)
    requires
        same_to_the_eye(a, b),
    ensures
        seen(a, me, neighbors, n) == seen(b, me, neighbors, n),
    decreases n,
{
    if n > 0 {
        lemma_seen_alike(a, b, me, neighbors, n - 1);
        let e = neighbors[n - 1];
        assert(agent_ids(a.agents) =~= agent_ids(b.agents)) by {
            assert forall|i: int| 0 <= i < a.agents.len() implies (
            #[trigger] a.agents[i]).entity == b.agents[i].entity by {}
        }
        if let Some(i) = place_of(agent_ids(a.agents), e) {
            crate::world::lemma_place_below(agent_ids(a.agents), e, a.agents.len() as int);
            assert(a.agents[i].position == b.agents[i].position);
        }
    }
}

/// A scan leaves sound entities sound: it changes their perception only.
pub proof fn lemma_scan_sound(
    world: WorldView,
    buckets: Map<(i32, i32), Seq<Entity>>,
    cell_size: Fixed,
    role: Role,
    delta_time: Fixed,
    speed: Fixed,
    rolls: Seq<SenseRolls>,
)
    requires
        all_sound(world.agents),
    ensures
        all_sound(world_scanned(world, buckets, cell_size, role, delta_time, speed, rolls).agents),
{
    let after = world_scanned(world, buckets, cell_size, role, delta_time, speed, rolls);
    assert forall|i: int| 0 <= i < after.agents.len() implies sound(#[trigger] after.agents[i]) by {
        assert(sound(world.agents[i]));
    }
}

/// A scan changes no identifier: a world that was well formed stays so.
pub proof fn lemma_scan_keeps_order(
    world: WorldView,
    buckets: Map<(i32, i32), Seq<Entity>>,
    cell_size: Fixed,
    role: Role,
    delta_time: Fixed,
    speed: Fixed,
    rolls: Seq<SenseRolls>,
)
    requires
        world.wf(),
    ensures
        world_scanned(world, buckets, cell_size, role, delta_time, speed, rolls).wf(),
        same_to_the_eye(
            world_scanned(world, buckets, cell_size, role, delta_time, speed, rolls),
            world,
        ),
{
    let after = world_scanned(world, buckets, cell_size, role, delta_time, speed, rolls);
    assert(agent_ids(after.agents) =~= agent_ids(world.agents));
}

/// Runs the scan of every living entity of the given role, with the given rolls.
pub fn scan_with(
    grid: &SpatialGrid,
    world: &mut World,
    role: Role,
    tick_delta: Fixed,
    speed: SimulationSpeed,
    rolls: &Vec<SenseRolls>,
)
    requires
        old(world)@.wf(),
    ensures
        final(world)@ == world_scanned(
            old(world)@,
            grid.buckets@,
            grid.cell_size,
            role,
            product(tick_delta, speed.0),
            speed.0,
            rolls@,
        ),
        final(world)@.wf(),
        all_sound(old(world)@.agents) ==> all_sound(final(world)@.agents),
{
    let delta_time = times(tick_delta, speed.0);
    let ghost before = world@;
    proof {
        if all_sound(before.agents) {
            lemma_scan_sound(
                before,
                grid.buckets@,
                grid.cell_size,
                role,
                delta_time,
                speed.0,
                rolls@,
            );
        }
        lemma_scan_keeps_order(
            before,
            grid.buckets@,
            grid.cell_size,
            role,
            delta_time,
            speed.0,
            rolls@,
        );
    }
    let ghost after = world_scanned(
        before,
        grid.buckets@,
        grid.cell_size,
        role,
        delta_time,
        speed.0,
        rolls@,
    );
    let mut i: usize = 0;
    while i < world.agents.len()
        invariant
            i <= world.agents.len(),
            delta_time == product(tick_delta, speed.0),
            after == world_scanned(
                before,
                grid.buckets@,
                grid.cell_size,
                role,
                delta_time,
                speed.0,
                rolls@,
            ),
            world@.wf(),
            world@.foods == before.foods,
            world@.corpses == before.corpses,
            world@.next_entity == before.next_entity,
            world@.agents.len() == before.agents.len(),
            forall|j: int| 0 <= j < i ==> (#[trigger] world@.agents[j]) == after.agents[j],
            forall|j: int|
                i <= j < world@.agents.len() ==> (#[trigger] world@.agents[j]) == before.agents[j],
        decreases world.agents.len() - i,
    {
        let matches = match (world.agents[i].role, role) {
            (Role::Prey, Role::Prey) => true,
            (Role::Predator, Role::Predator) => true,
            _ => false,
        };
        if matches {
            let one = if i < rolls.len() {
                rolls[i]
            } else {
                SenseRolls { heading: Vector::zero(), reach: 0, prefer_nearest: true, pick: 0 }
            };
            let me = world.agents[i].entity;
            let neighbors = grid.query_neighbors(world.agents[i].position.0);
            let sightings = world.observe_all(me, &neighbors);
            proof {
                let now = world@;
                assert(same_to_the_eye(now, before)) by {
                    assert forall|j: int| 0 <= j < now.agents.len() implies (
                    #[trigger] now.agents[j]) == (LivingView {
                        perception: now.agents[j].perception,
                        ..before.agents[j]
                    }) by {
                        if j < i {
                            assert(now.agents[j] == after.agents[j]);
                        } else {
                            assert(now.agents[j] == before.agents[j]);
                        }
                    }
                }
                lemma_seen_alike(now, before, me, neighbors@, neighbors@.len() as int);
                assert(world@.agents[i as int] == before.agents[i as int]);
            }
            let ghost previous = world@;
            perceive(&mut world.agents[i], &sightings, delta_time, speed.0, &one);
            proof {
                assert(world@.agents[i as int] == after.agents[i as int]);
                assert(agent_ids(world@.agents) =~= agent_ids(previous.agents)) by {
                    assert forall|j: int| 0 <= j < world@.agents.len() implies world@.agents[j].entity
                        == previous.agents[j].entity by {
                        if j != i {
                            assert(world@.agents[j] == previous.agents[j]);
                        }
                    }
                }
                assert forall|j: int| 0 <= j < i + 1 implies (#[trigger] world@.agents[j])
                    == after.agents[j] by {
                    if j < i {
                        assert(world@.agents[j] == previous.agents[j]);
                    }
                }
                assert forall|j: int| i + 1 <= j < world@.agents.len() implies (
                #[trigger] world@.agents[j]) == before.agents[j] by {
                    assert(world@.agents[j] == previous.agents[j]);
                }
            }
        } else {
            proof {
                assert(world@.agents[i as int] == before.agents[i as int]);
                assert(after.agents[i as int] == before.agents[i as int]);
            }
        }
        i += 1;
    }
    assert(world@.agents =~= after.agents);
}

/// Draws the rolls for one scan of each of `count` entities.
pub fn draw_sense_rolls(count: usize) -> (rolls: Vec<SenseRolls>)
    ensures
        rolls@.len() == count,
        forall|i: int| 0 <= i < count ==> (#[trigger] rolls@[i]).valid(),
{
    let mut rolls: Vec<SenseRolls> = Vec::new();
    let mut i: usize = 0;
    while i < count
        invariant
            i <= count,
            rolls@.len() == i,
            forall|j: int| 0 <= j < i ==> (#[trigger] rolls@[j]).valid(),
        decreases count - i,
    {
        rolls.push(SenseRolls::draw());
        i += 1;
    }
    rolls
}

/// Whether `after` is what a scan of the entities of `role` makes of
/// `before` for some rolls within their ranges, one set per living entity.
pub open spec fn scan_outcome(
    before: WorldView,
    after: WorldView,
    buckets: Map<(i32, i32), Seq<Entity>>,
    cell_size: Fixed,
    role: Role,
    delta_time: Fixed,
    speed: Fixed,
) -> bool {
    exists|rolls: Seq<SenseRolls>|
        {
            &&& rolls.len() == before.agents.len()
            &&& forall|i: int| 0 <= i < rolls.len() ==> (#[trigger] rolls[i]).valid()
            &&& after == #[trigger] world_scanned(
                before,
                buckets,
                cell_size,
                role,
                delta_time,
                speed,
                rolls,
            )
        }
}

/// The perception of every prey is renewed from what the grid shows around it.
pub fn perception_scan_system_prey(
    grid: &SpatialGrid,
    world: &mut World,
    tick_delta: Fixed,
    speed: SimulationSpeed,
)
    requires
        old(world)@.wf(),
    ensures
        scan_outcome(
            old(world)@,
            final(world)@,
            grid.buckets@,
            grid.cell_size,
            Role::Prey,
            product(tick_delta, speed.0),
            speed.0,
        ),
        final(world)@.wf(),
        all_sound(old(world)@.agents) ==> all_sound(final(world)@.agents),
{
    let rolls = draw_sense_rolls(world.agents.len());
    scan_with(grid, world, Role::Prey, tick_delta, speed, &rolls);
}

/// The perception of every predator is renewed from what the grid shows around it.
pub fn perception_scan_system_predator(
    grid: &SpatialGrid,
    world: &mut World,
    tick_delta: Fixed,
    speed: SimulationSpeed,
)
    requires
        old(world)@.wf(),
    ensures
        scan_outcome(
            old(world)@,
            final(world)@,
            grid.buckets@,
            grid.cell_size,
            Role::Predator,
            product(tick_delta, speed.0),
            speed.0,
        ),
        final(world)@.wf(),
        all_sound(old(world)@.agents) ==> all_sound(final(world)@.agents),
{
    let rolls = draw_sense_rolls(world.agents.len());
    scan_with(grid, world, Role::Predator, tick_delta, speed, &rolls);
}

} // verus!
