//! Movement and feeding.
//!
//! Each living entity in turn bites its target if it is within reach, else
//! heads for it, else for its wander target; what it perceives as too close
//! pushes it away and aside. What is eaten up leaves the world only when all
//! have moved, and until then nobody else bites it.

use crate::components::{
    create_corpse, fresh_corpse_state, Corpse, Entity, Food, FoodAmount, LivingEntity, LivingView,
    Needs, Position, Role, SimulationSpeed, MAX_HUNGER,
};
use crate::fixed::{
    clamp, clamped, difference, lesser, min, minus, negate, negated, over, plus, product,
    quotient, sum, times, Fixed, ONE,
};
use crate::perception::COLLISION_RADIUS;
use crate::random::{draw_between, draw_coin};
use crate::vector::Vector;
use crate::world::{
    agent_ids, all_sound, contains, corpse_ids, food_ids, lemma_place_below, place_of, sound,
    World, WorldView,
};
use vstd::prelude::*;

verus! {

/// The distance from which food and corpses can be bitten.
pub const BITE_RANGE: Fixed = 2_500_000;

/// How hard a body that is too close pushes away.
pub const REPULSION_STRENGTH: Fixed = 50_000_000;

/// Below this sanity an entity may stumble.
pub const LOW_SANITY: Fixed = 300_000;

/// The least flesh on the corpse of a prey that was eaten alive.
pub const LEAST_FLESH: Fixed = 10_000_000;

/// The bound that the flesh on such a corpse stays below.
pub const MOST_FLESH: Fixed = 50_000_000;

/// The chance that enters the move of one living entity.
#[derive(Clone, Debug)]
pub struct MoveRolls {
    /// Whether it stumbles, if its sanity is low.
    pub stumble: bool,
    /// For each point it avoids, to which side it first turns.
    pub turns: Vec<bool>,
    /// The flesh on the corpse of what it kills, in `[10, 50)`.
    pub flesh: Fixed,
}

/// The mathematical content of [`MoveRolls`].
pub struct MoveRollsView {
    pub stumble: bool,
    pub turns: Seq<bool>,
    pub flesh: Fixed,
}

impl View for MoveRolls {
    type V = MoveRollsView;

    open spec fn view(&self) -> MoveRollsView {
        MoveRollsView { stumble: self.stumble, turns: self.turns@, flesh: self.flesh }
    }
}

impl MoveRollsView {
    /// Whether the rolls lie in the range from which they are drawn.
    pub open spec fn valid(self) -> bool {
        LEAST_FLESH <= self.flesh < MOST_FLESH
    }

    /// The rolls used for an entity for which none were supplied.
    pub open spec fn none() -> MoveRollsView {
        MoveRollsView { stumble: false, turns: Seq::empty(), flesh: LEAST_FLESH }
    }
}

/// The rolls for the entity at place `i`.
pub open spec fn move_rolls_at(rolls: Seq<MoveRolls>, i: int) -> MoveRollsView {
    if 0 <= i < rolls.len() {
        rolls[i]@
    } else {
        MoveRollsView::none()
    }
}

/// The side to which the `k`-th avoided point makes the entity turn first.
pub open spec fn turn_at(turns: Seq<bool>, k: int) -> bool {
    0 <= k < turns.len() && turns[k]
}

/// What is eaten in one bite of `bite_size` from a source that holds `amount`.
pub open spec fn bitten(bite_size: Fixed, amount: Fixed) -> Fixed {
    lesser(bite_size, amount)
}

/// The needs after `eaten` was eaten: hunger falls by as much, not below
/// zero, and energy rises by a hundredth of it.
pub open spec fn fed(needs: Needs, eaten: Fixed) -> Needs {
    Needs {
        hunger: clamped(difference(needs.hunger, eaten), 0, MAX_HUNGER),
        energy: sum(needs.energy, quotient(eaten, MAX_HUNGER)),
        ..needs
    }
}

/// The speed at which the entity wanders: its top speed scaled by its
/// energy, and cut by its sanity where it stumbles.
pub open spec fn wander_speed(me: LivingView, stumble: bool) -> Fixed {
    let speed = product(me.genes.max_speed, me.needs.energy);
    if me.needs.sanity < LOW_SANITY && stumble {
        product(speed, difference(ONE, me.needs.sanity))
    } else {
        speed
    }
}

/// The step the entity wants to take: toward what it chases, the faster the
/// hungrier it is; else toward its wander target; else none.
pub open spec fn desired_velocity(
    me: LivingView,
    chase: Option<Vector>,
    delta_time: Fixed,
    stumble: bool,
) -> Vector {
    match chase {
        Some(goal) => goal.minus(me.position.0).direction().scaled(
            product(quotient(product(me.genes.max_speed, me.needs.hunger), MAX_HUNGER), delta_time),
        ),
        None => match me.perception.target_position {
            Some(goal) => goal.minus(me.position.0).direction().scaled(
                product(wander_speed(me, stumble), delta_time),
            ),
            None => Vector::origin(),
        },
    }
}

/// The quarter turn of `away` to the side that `turn` names.
pub open spec fn sideways(away: Vector, turn: bool) -> Vector {
    if turn {
        away.turned()
    } else {
        Vector { x: away.y, y: negated(away.x) }
    }
}

/// The sideways direction that does not go against the desired step.
pub open spec fn around(away: Vector, desired: Vector, turn: bool) -> Vector {
    let tangent = sideways(away, turn);
    if tangent.inner(desired.direction()) >= 0 {
        tangent
    } else {
        tangent.reversed()
    }
}

/// The force on an entity at `position` after the first `n` of the points it
/// avoids: each pushes it straight away, by its strength, and aside, around
/// the obstacle. The point that it chases does not push.
pub open spec fn avoidance(
    position: Vector,
    desired: Vector,
    chase: Option<Vector>,
    delta_time: Fixed,
    repulsions: Seq<(Vector, Fixed)>,
    turns: Seq<bool>,
    n: int,
) -> Vector
    decreases n,
{
    if n <= 0 {
        Vector::origin()
    } else {
        let before = avoidance(position, desired, chase, delta_time, repulsions, turns, n - 1);
        if chase == Some(repulsions[n - 1].0) {
            before
        } else {
            let away = position.minus(repulsions[n - 1].0).direction();
            before.plus(
                away.scaled(repulsions[n - 1].1).scaled(REPULSION_STRENGTH).scaled(delta_time),
            ).plus(around(away, desired, turn_at(turns, n - 1)).scaled(delta_time))
        }
    }
}

/// The entity after its move: only its position changes.
pub open spec fn moved(
    me: LivingView,
    chase: Option<Vector>,
    delta_time: Fixed,
    rolls: MoveRollsView,
) -> LivingView {
    let desired = desired_velocity(me, chase, delta_time, rolls.stumble);
    let force = avoidance(
        me.position.0,
        desired,
        chase,
        delta_time,
        me.perception.repulsions,
        rolls.turns,
        me.perception.repulsions.len() as int,
    );
    LivingView { position: Position(me.position.0.plus(desired.plus(force))), ..me }
}

/// The state of a pass of the prey: the world as it stands, and the food
/// that has been eaten up and waits to leave.
pub struct Grazing {
    pub world: WorldView,
    pub eaten_up: Seq<Entity>,
}

/// The meal of the prey at place `i`, and the point that it chases instead if
/// its target is out of reach. A target that has been eaten up, or has left
/// the world, is no target.
pub open spec fn grazed(state: Grazing, i: int) -> (Grazing, Option<Vector>) {
    let w = state.world;
    let me = w.agents[i];
    match me.perception.target_food {
        None => (state, None),
        Some(food) => if state.eaten_up.contains(food) {
            (state, None)
        } else {
            match place_of(food_ids(w.foods), food) {
                None => (state, None),
                Some(j) => if me.position.0.separation(w.foods[j].position.0) <= BITE_RANGE {
                    let eaten = bitten(me.genes.bite_size, w.foods[j].amount.0);
                    let left = difference(w.foods[j].amount.0, eaten);
                    (
                        Grazing {
                            world: WorldView {
                                agents: w.agents.update(
                                    i,
                                    LivingView { needs: fed(me.needs, eaten), ..me },
                                ),
                                foods: w.foods.update(
                                    j,
                                    Food { amount: FoodAmount(left), ..w.foods[j] },
                                ),
                                ..w
                            },
                            eaten_up: if left <= 0 {
                                state.eaten_up.push(food)
                            } else {
                                state.eaten_up
                            },
                        },
                        None,
                    )
                } else {
                    (state, Some(w.foods[j].position.0))
                },
            }
        },
    }
}

/// The turn of the living entity at place `i` in a pass of the prey: a prey
/// eats or chases, then moves; a predator waits.
pub open spec fn prey_turn(state: Grazing, i: int, delta_time: Fixed, rolls: MoveRollsView)
    -> Grazing {
    if state.world.agents[i].role == Role::Prey {
        let (fed_state, chase) = grazed(state, i);
        Grazing {
            world: WorldView {
                agents: fed_state.world.agents.update(
                    i,
                    moved(fed_state.world.agents[i], chase, delta_time, rolls),
                ),
                ..fed_state.world
            },
            ..fed_state
        }
    } else {
        state
    }
}

/// The pass of the prey after the first `n` living entities have had their turn.
pub open spec fn prey_pass(world: WorldView, delta_time: Fixed, rolls: Seq<MoveRolls>, n: int)
    -> Grazing
    decreases n,
{
    if n <= 0 {
        Grazing { world, eaten_up: Seq::empty() }
    } else {
        prey_turn(
            prey_pass(world, delta_time, rolls, n - 1),
            n - 1,
            delta_time,
            move_rolls_at(rolls, n - 1),
        )
    }
}

/// The world after the prey have eaten and moved, and the food that was eaten up has left.
pub open spec fn after_prey(world: WorldView, delta_time: Fixed, rolls: Seq<MoveRolls>)
    -> WorldView {
    let done = prey_pass(world, delta_time, rolls, world.agents.len() as int);
    done.world.without_foods(done.eaten_up)
}

/// The state of a pass of the predators: the world as it stands, the prey
/// that have been eaten up and wait to leave, and the corpses that wait to
/// take their place.
pub struct Hunting {
    pub world: WorldView,
    pub killed: Seq<Entity>,
    pub remains: Seq<Corpse>,
}

/// The meal of the predator at place `i`, and the point that it chases
/// instead if its target is out of reach. Its target is a prey that can be
/// eaten, or else a corpse. A prey is bitten from the distance at which
/// bodies touch; one that is eaten up is killed, and `flesh` is the flesh on
/// its corpse.
pub open spec fn hunted(state: Hunting, i: int, flesh: Fixed) -> (Hunting, Option<Vector>) {
    let w = state.world;
    let me = w.agents[i];
    match me.perception.target_food {
        None => (state, None),
        Some(target) => if state.killed.contains(target) {
            (state, None)
        } else if let Some(j) = place_of(agent_ids(w.agents), target) {
            match w.agents[j].food_amount {
                Some(amount) => if w.agents[j].role != Role::Prey || j == i {
                    (state, None)
                } else if me.position.0.separation(w.agents[j].position.0) <= COLLISION_RADIUS {
                    let eaten = bitten(me.genes.bite_size, amount.0);
                    let left = difference(amount.0, eaten);
                    (
                        Hunting {
                            world: WorldView {
                                agents: w.agents.update(
                                    j,
                                    LivingView {
                                        food_amount: Some(FoodAmount(left)),
                                        ..w.agents[j]
                                    },
                                ).update(i, LivingView { needs: fed(me.needs, eaten), ..me }),
                                ..w
                            },
                            killed: if left <= 0 {
                                state.killed.push(target)
                            } else {
                                state.killed
                            },
                            remains: if left <= 0 {
                                state.remains.push(
                                    Corpse {
                                        entity: Entity::unassigned(),
                                        position: w.agents[j].position,
                                        state: fresh_corpse_state(flesh),
                                    },
                                )
                            } else {
                                state.remains
                            },
                        },
                        None,
                    )
                } else {
                    (state, Some(w.agents[j].position.0))
                },
                None => (state, None),
            }
        } else if let Some(j) = place_of(corpse_ids(w.corpses), target) {
            if me.position.0.separation(w.corpses[j].position.0) <= BITE_RANGE {
                let eaten = bitten(me.genes.bite_size, w.corpses[j].state.flesh_amount);
                let left = difference(w.corpses[j].state.flesh_amount, eaten);
                (
                    Hunting {
                        world: WorldView {
                            agents: w.agents.update(
                                i,
                                LivingView { needs: fed(me.needs, eaten), ..me },
                            ),
                            corpses: w.corpses.update(
                                j,
                                Corpse {
                                    state: crate::components::CorpseState {
                                        flesh_amount: left,
                                        ..w.corpses[j].state
                                    },
                                    ..w.corpses[j]
                                },
                            ),
                            ..w
                        },
                        ..state
                    },
                    None,
                )
            } else {
                (state, Some(w.corpses[j].position.0))
            }
        } else {
            (state, None)
        },
    }
}

/// The turn of the living entity at place `i` in a pass of the predators: a
/// predator eats or chases, then moves; a prey waits.
pub open spec fn predator_turn(state: Hunting, i: int, delta_time: Fixed, rolls: MoveRollsView)
    -> Hunting {
    if state.world.agents[i].role == Role::Predator {
        let (fed_state, chase) = hunted(state, i, rolls.flesh);
        Hunting {
            world: WorldView {
                agents: fed_state.world.agents.update(
                    i,
                    moved(fed_state.world.agents[i], chase, delta_time, rolls),
                ),
                ..fed_state.world
            },
            ..fed_state
        }
    } else {
        state
    }
}

/// The pass of the predators after the first `n` living entities have had their turn.
pub open spec fn predator_pass(
    world: WorldView,
    delta_time: Fixed,
    rolls: Seq<MoveRolls>,
    n: int,
) -> Hunting
    decreases n,
{
    if n <= 0 {
        Hunting { world, killed: Seq::empty(), remains: Seq::empty() }
    } else {
        predator_turn(
            predator_pass(world, delta_time, rolls, n - 1),
            n - 1,
            delta_time,
            move_rolls_at(rolls, n - 1),
        )
    }
}

/// The world after the predators have eaten and moved, the prey that were
/// eaten up have left, and a corpse lies where each of them was.
pub open spec fn after_predators(world: WorldView, delta_time: Fixed, rolls: Seq<MoveRolls>)
    -> WorldView {
    let done = predator_pass(world, delta_time, rolls, world.agents.len() as int);
    done.world.without_agents(done.killed).with_corpses(done.remains)
}

/// Eats `eaten`: hunger falls, energy rises.
fn feed(needs: &mut Needs, eaten: Fixed)
    ensures
        *final(needs) == fed(*old(needs), eaten),
{
    needs.hunger = clamp(minus(needs.hunger, eaten), 0, MAX_HUNGER);
    needs.energy = plus(needs.energy, over(eaten, MAX_HUNGER));
}

/// The sideways direction that does not go against the desired step.
fn turn_around(away: Vector, desired: Vector, turn: bool) -> (v: Vector)
    ensures
        v == around(away, desired, turn),
{
    let tangent = if turn {
        away.perp()
    } else {
        Vector { x: away.y, y: negate(away.x) }
    };
    if tangent.dot(desired.normalize_or_zero()) >= 0 {
        tangent
    } else {
        tangent.neg()
    }
}

/// Moves `living`: toward `chase` if there is something to chase, else
/// toward its wander target, pushed away and aside by what it avoids.
pub fn advance(
    living: &mut LivingEntity,
    chase: Option<Vector>,
    delta_time: Fixed,
    rolls: &MoveRolls,
)
    ensures
        final(living)@ == moved(old(living)@, chase, delta_time, rolls@),
{
    let ghost me = living@;
    let position = living.position.0;
    let mut speed = times(living.genes.max_speed, living.needs.energy);
    if living.needs.sanity < LOW_SANITY && rolls.stumble {
        speed = times(speed, minus(ONE, living.needs.sanity));
    }
    let desired = match chase {
        Some(goal) => {
            let pace = times(
                over(times(living.genes.max_speed, living.needs.hunger), MAX_HUNGER),
                delta_time,
            );
            goal.sub(position).normalize_or_zero().scale(pace)
        },
        None => match living.perception.target_position {
            Some(goal) => goal.sub(position).normalize_or_zero().scale(times(speed, delta_time)),
            None => Vector::zero(),
        },
    };
    let mut force = Vector::zero();
    let mut k: usize = 0;
    while k < living.perception.repulsions.len()
        invariant
            k <= living.perception.repulsions.len(),
            living@ == me,
            position == me.position.0,
            desired == desired_velocity(me, chase, delta_time, rolls.stumble),
            force == avoidance(
                position,
                desired,
                chase,
                delta_time,
                me.perception.repulsions,
                rolls.turns@,
                k as int,
            ),
        decreases living.perception.repulsions.len() - k,
    {
        let (point, strength) = living.perception.repulsions[k];
        let spared = match chase {
            Some(goal) => goal == point,
            None => false,
        };
        if !spared {
            let away = position.sub(point).normalize_or_zero();
            let turn = k < rolls.turns.len() && rolls.turns[k];
            force = force.add(away.scale(strength).scale(REPULSION_STRENGTH).scale(delta_time)).add(
                turn_around(away, desired, turn).scale(delta_time),
            );
        }
        k += 1;
    }
    living.position = Position(position.add(desired.add(force)));
}

/// The meal of the prey at place `i`.
fn graze(world: &mut World, i: usize, eaten_up: &mut Vec<Entity>) -> (chase: Option<Vector>)
    requires
        old(world)@.wf(),
        i < old(world).agents.len(),
    ensures
        (Grazing { world: final(world)@, eaten_up: final(eaten_up)@ }, chase) == grazed(
            Grazing { world: old(world)@, eaten_up: old(eaten_up)@ },
            i as int,
        ),
{
    let ghost before = world@;
    let ghost me = before.agents[i as int];
    match world.agents[i].perception.target_food {
        None => None,
        Some(food) => {
            if contains(eaten_up, food) {
                None
            } else {
                match world.find_food(food) {
                    None => None,
                    Some(j) => {
                        let target = world.foods[j];
                        if world.agents[i].position.0.distance(target.position.0) <= BITE_RANGE {
                            let eaten = min(world.agents[i].genes.bite_size, target.amount.0);
                            let left = minus(target.amount.0, eaten);
                            world.foods[j].amount = FoodAmount(left);
                            feed(&mut world.agents[i].needs, eaten);
                            if left <= 0 {
                                eaten_up.push(food);
                            }
                            proof {
                                assert(world@.agents =~= before.agents.update(
                                    i as int,
                                    LivingView { needs: fed(me.needs, eaten), ..me },
                                ));
                                assert(world@.foods =~= before.foods.update(
                                    j as int,
                                    Food { amount: FoodAmount(left), ..before.foods[j as int] },
                                ));
                            }
                            None
                        } else {
                            Some(target.position.0)
                        }
                    },
                }
            }
        },
    }
}

/// The meal of the predator at place `i`.
fn hunt(
    world: &mut World,
    i: usize,
    killed: &mut Vec<Entity>,
    remains: &mut Vec<Corpse>,
    flesh: Fixed,
) -> (chase: Option<Vector>)
    requires
        old(world)@.wf(),
        i < old(world).agents.len(),
    ensures
        (
            Hunting { world: final(world)@, killed: final(killed)@, remains: final(remains)@ },
            chase,
        ) == hunted(
            Hunting { world: old(world)@, killed: old(killed)@, remains: old(remains)@ },
            i as int,
            flesh,
        ),
{
    let ghost before = world@;
    let ghost me = before.agents[i as int];
    let target = match world.agents[i].perception.target_food {
        None => {
            return None;
        },
        Some(target) => target,
    };
    if contains(killed, target) {
        return None;
    }
    if let Some(j) = world.find_agent(target) {
        let amount = match world.agents[j].food_amount {
            Some(amount) => amount,
            None => {
                return None;
            },
        };
        let is_prey = match world.agents[j].role {
            Role::Prey => true,
            Role::Predator => false,
        };
        if !is_prey || j == i {
            return None;
        }
        let prey_position = world.agents[j].position;
        if world.agents[i].position.0.distance(prey_position.0) <= COLLISION_RADIUS {
            let eaten = min(world.agents[i].genes.bite_size, amount.0);
            let left = minus(amount.0, eaten);
            world.agents[j].food_amount = Some(FoodAmount(left));
            feed(&mut world.agents[i].needs, eaten);
            if left <= 0 {
                killed.push(target);
                remains.push(create_corpse(prey_position.0, flesh));
            }
            proof {
                assert(world@.agents =~= before.agents.update(
                    j as int,
                    LivingView { food_amount: Some(FoodAmount(left)), ..before.agents[j as int] },
                ).update(i as int, LivingView { needs: fed(me.needs, eaten), ..me }));
            }
            None
        } else {
            Some(prey_position.0)
        }
    } else if let Some(j) = world.find_corpse(target) {
        let corpse = world.corpses[j];
        if world.agents[i].position.0.distance(corpse.position.0) <= BITE_RANGE {
            let eaten = min(world.agents[i].genes.bite_size, corpse.state.flesh_amount);
            let left = minus(corpse.state.flesh_amount, eaten);
            world.corpses[j].state.flesh_amount = left;
            feed(&mut world.agents[i].needs, eaten);
            proof {
                assert(world@.agents =~= before.agents.update(
                    i as int,
                    LivingView { needs: fed(me.needs, eaten), ..me },
                ));
                assert(world@.corpses =~= before.corpses.update(
                    j as int,
                    Corpse {
                        state: crate::components::CorpseState {
                            flesh_amount: left,
                            ..before.corpses[j as int].state
                        },
                        ..before.corpses[j as int]
                    },
                ));
            }
            None
        } else {
            Some(corpse.position.0)
        }
    } else {
        None
    }
}

/// A meal changes no identifier and allots none.
pub proof fn lemma_grazed_keeps_order(state: Grazing, i: int)
    requires
        state.world.wf(),
        0 <= i < state.world.agents.len(),
    ensures
        grazed(state, i).0.world.wf(),
        grazed(state, i).0.world.agents.len() == state.world.agents.len(),
        grazed(state, i).0.world.agents[i].role == state.world.agents[i].role,
        agent_ids(grazed(state, i).0.world.agents) == agent_ids(state.world.agents),
        food_ids(grazed(state, i).0.world.foods) == food_ids(state.world.foods),
{
    let after = grazed(state, i).0.world;
    let w = state.world;
    if let Some(food) = w.agents[i].perception.target_food {
        if let Some(j) = place_of(food_ids(w.foods), food) {
            lemma_place_below(food_ids(w.foods), food, w.foods.len() as int);
        }
    }
    assert(agent_ids(after.agents) =~= agent_ids(w.agents));
    assert(food_ids(after.foods) =~= food_ids(w.foods));
}

/// A turn of the prey changes no identifier and allots none.
pub proof fn lemma_prey_turn_keeps_order(
    state: Grazing,
    i: int,
    delta_time: Fixed,
    rolls: MoveRollsView,
)
    requires
        state.world.wf(),
        0 <= i < state.world.agents.len(),
    ensures
        prey_turn(state, i, delta_time, rolls).world.wf(),
        prey_turn(state, i, delta_time, rolls).world.agents.len() == state.world.agents.len(),
        agent_ids(prey_turn(state, i, delta_time, rolls).world.agents) == agent_ids(
            state.world.agents,
        ),
        food_ids(prey_turn(state, i, delta_time, rolls).world.foods) == food_ids(
            state.world.foods,
        ),
{
    lemma_grazed_keeps_order(state, i);
    let after = prey_turn(state, i, delta_time, rolls).world;
    assert(agent_ids(after.agents) =~= agent_ids(state.world.agents));
}

/// A hunt changes no identifier and allots none.
pub proof fn lemma_hunted_keeps_order(state: Hunting, i: int, flesh: Fixed)
    requires
        state.world.wf(),
        0 <= i < state.world.agents.len(),
    ensures
        hunted(state, i, flesh).0.world.wf(),
        hunted(state, i, flesh).0.world.agents.len() == state.world.agents.len(),
        hunted(state, i, flesh).0.world.agents[i].role == state.world.agents[i].role,
        agent_ids(hunted(state, i, flesh).0.world.agents) == agent_ids(state.world.agents),
{
    let after = hunted(state, i, flesh).0.world;
    let w = state.world;
    if let Some(target) = w.agents[i].perception.target_food {
        if let Some(j) = place_of(agent_ids(w.agents), target) {
            lemma_place_below(agent_ids(w.agents), target, w.agents.len() as int);
        } else if let Some(j) = place_of(corpse_ids(w.corpses), target) {
            lemma_place_below(corpse_ids(w.corpses), target, w.corpses.len() as int);
        }
    }
    assert(agent_ids(after.agents) =~= agent_ids(w.agents));
    assert(corpse_ids(after.corpses) =~= corpse_ids(w.corpses));
}

/// A turn of the predators changes no identifier and allots none.
pub proof fn lemma_predator_turn_keeps_order(
    state: Hunting,
    i: int,
    delta_time: Fixed,
    rolls: MoveRollsView,
)
    requires
        state.world.wf(),
        0 <= i < state.world.agents.len(),
    ensures
        predator_turn(state, i, delta_time, rolls).world.wf(),
        predator_turn(state, i, delta_time, rolls).world.agents.len()
            == state.world.agents.len(),
        agent_ids(predator_turn(state, i, delta_time, rolls).world.agents) == agent_ids(
            state.world.agents,
        ),
{
    lemma_hunted_keeps_order(state, i, rolls.flesh);
    let after = predator_turn(state, i, delta_time, rolls).world;
    assert(agent_ids(after.agents) =~= agent_ids(state.world.agents));
}

/// The rolls that stand in for an entity for which none were supplied.
fn no_rolls() -> (rolls: MoveRolls)
    ensures
        rolls@ == MoveRollsView::none(),
{
    MoveRolls { stumble: false, turns: Vec::new(), flesh: LEAST_FLESH }
}

/// The prey eat and move, each with the rolls at its place; then the food
/// that was eaten up leaves the world.
pub fn game_loop_prey_with(
    world: &mut World,
    tick_delta: Fixed,
    speed: SimulationSpeed,
    rolls: &Vec<MoveRolls>,
)
    requires
        old(world)@.wf(),
    ensures
        final(world)@ == after_prey(old(world)@, product(tick_delta, speed.0), rolls@),
        final(world)@.wf(),
        all_sound(old(world)@.agents) ==> all_sound(final(world)@.agents),
{
    let delta_time = times(tick_delta, speed.0);
    proof {
        if all_sound(old(world)@.agents) {
            lemma_after_prey_sound(old(world)@, delta_time, rolls@);
        }
    }
    let spare = no_rolls();
    let ghost before = world@;
    let mut eaten_up: Vec<Entity> = Vec::new();
    let mut i: usize = 0;
    while i < world.agents.len()
        invariant
            i <= world.agents.len(),
            world.agents.len() == before.agents.len(),
            world@.wf(),
            spare@ == MoveRollsView::none(),
            (Grazing { world: world@, eaten_up: eaten_up@ }) == prey_pass(
                before,
                delta_time,
                rolls@,
                i as int,
            ),
        decreases world.agents.len() - i,
    {
        let ghost state = Grazing { world: world@, eaten_up: eaten_up@ };
        let one = if i < rolls.len() {
            &rolls[i]
        } else {
            &spare
        };
        proof {
            lemma_prey_turn_keeps_order(state, i as int, delta_time, one@);
            lemma_grazed_keeps_order(state, i as int);
        }
        let grazes = match world.agents[i].role {
            Role::Prey => true,
            Role::Predator => false,
        };
        if grazes {
            let chase = graze(world, i, &mut eaten_up);
            let ghost fed_state = Grazing { world: world@, eaten_up: eaten_up@ };
            advance(&mut world.agents[i], chase, delta_time, one);
            proof {
                assert(world@.agents =~= fed_state.world.agents.update(
                    i as int,
                    moved(fed_state.world.agents[i as int], chase, delta_time, one@),
                ));
            }
        }
        i += 1;
    }
    world.remove_foods(&eaten_up);
}

/// The predators eat and move, each with the rolls at its place; then the
/// prey that were eaten up leave the world, and a corpse takes the place of each.
pub fn game_loop_predator_with(
    world: &mut World,
    tick_delta: Fixed,
    speed: SimulationSpeed,
    rolls: &Vec<MoveRolls>,
)
    requires
        old(world)@.wf(),
    ensures
        final(world)@ == after_predators(old(world)@, product(tick_delta, speed.0), rolls@),
        final(world)@.wf(),
        all_sound(old(world)@.agents) ==> all_sound(final(world)@.agents),
{
    let delta_time = times(tick_delta, speed.0);
    proof {
        if all_sound(old(world)@.agents) {
            lemma_after_predators_sound(old(world)@, delta_time, rolls@);
        }
    }
    let spare = no_rolls();
    let ghost before = world@;
    let mut killed: Vec<Entity> = Vec::new();
    let mut remains: Vec<Corpse> = Vec::new();
    let mut i: usize = 0;
    while i < world.agents.len()
        invariant
            i <= world.agents.len(),
            world.agents.len() == before.agents.len(),
            world@.wf(),
            spare@ == MoveRollsView::none(),
            (Hunting { world: world@, killed: killed@, remains: remains@ }) == predator_pass(
                before,
                delta_time,
                rolls@,
                i as int,
            ),
        decreases world.agents.len() - i,
    {
        let ghost state = Hunting { world: world@, killed: killed@, remains: remains@ };
        let one = if i < rolls.len() {
            &rolls[i]
        } else {
            &spare
        };
        proof {
            lemma_predator_turn_keeps_order(state, i as int, delta_time, one@);
            lemma_hunted_keeps_order(state, i as int, one@.flesh);
        }
        let hunts = match world.agents[i].role {
            Role::Prey => false,
            Role::Predator => true,
        };
        if hunts {
            let chase = hunt(world, i, &mut killed, &mut remains, one.flesh);
            let ghost fed_state = Hunting { world: world@, killed: killed@, remains: remains@ };
            advance(&mut world.agents[i], chase, delta_time, one);
            proof {
                assert(world@.agents =~= fed_state.world.agents.update(
                    i as int,
                    moved(fed_state.world.agents[i as int], chase, delta_time, one@),
                ));
            }
        }
        i += 1;
    }
    world.remove_agents(&killed);
    world.spawn_corpses(&remains);
}

/// Draws the rolls for the move of every living entity of the world.
pub fn draw_move_rolls(world: &World) -> (rolls: Vec<MoveRolls>)
    ensures
        rolls@.len() == world@.agents.len(),
        forall|i: int|
            0 <= i < rolls@.len() ==> (#[trigger] rolls@[i])@.valid() && rolls@[i]@.turns.len()
                == world@.agents[i].perception.repulsions.len(),
{
    let mut rolls: Vec<MoveRolls> = Vec::new();
    let mut i: usize = 0;
    while i < world.agents.len()
        invariant
            i <= world.agents.len(),
            rolls@.len() == i,
            forall|j: int|
                0 <= j < i ==> (#[trigger] rolls@[j])@.valid() && rolls@[j]@.turns.len()
                    == world@.agents[j].perception.repulsions.len(),
        decreases world.agents.len() - i,
    {
        let mut turns: Vec<bool> = Vec::new();
        let mut k: usize = 0;
        while k < world.agents[i].perception.repulsions.len()
            invariant
                i < world.agents.len(),
                k <= world.agents[i as int].perception.repulsions.len(),
                turns@.len() == k,
            decreases world.agents[i as int].perception.repulsions.len() - k,
        {
            turns.push(draw_coin());
            k += 1;
        }
        rolls.push(
            MoveRolls {
                stumble: draw_coin(),
                turns,
                flesh: draw_between(LEAST_FLESH, MOST_FLESH),
            },
        );
        i += 1;
    }
    rolls
}

/// Whether `rolls` holds one set of rolls for each of `count` entities, each within its range.
pub open spec fn fair_move_rolls(rolls: Seq<MoveRolls>, count: nat) -> bool {
    &&& rolls.len() == count
    &&& forall|i: int| 0 <= i < rolls.len() ==> (#[trigger] rolls[i])@.valid()
}

/// Whether `after` is what a pass of the prey makes of `before` for some rolls.
pub open spec fn prey_outcome(before: WorldView, after: WorldView, delta_time: Fixed) -> bool {
    exists|rolls: Seq<MoveRolls>|
        fair_move_rolls(rolls, before.agents.len()) && after == #[trigger] after_prey(
            before,
            delta_time,
            rolls,
        )
}

/// Whether `after` is what a pass of the predators makes of `before` for some rolls.
pub open spec fn predator_outcome(before: WorldView, after: WorldView, delta_time: Fixed) -> bool {
    exists|rolls: Seq<MoveRolls>|
        fair_move_rolls(rolls, before.agents.len()) && after == #[trigger] after_predators(
            before,
            delta_time,
            rolls,
        )
}

/// The prey eat and move; the food that was eaten up leaves the world.
pub fn game_loop_prey(world: &mut World, tick_delta: Fixed, speed: SimulationSpeed)
    requires
        old(world)@.wf(),
    ensures
        prey_outcome(old(world)@, final(world)@, product(tick_delta, speed.0)),
        final(world)@.wf(),
        all_sound(old(world)@.agents) ==> all_sound(final(world)@.agents),
{
    let rolls = draw_move_rolls(world);
    game_loop_prey_with(world, tick_delta, speed, &rolls);
}

/// The predators eat and move; each prey that was eaten up leaves the world
/// and a corpse takes its place.
pub fn game_loop_predator(world: &mut World, tick_delta: Fixed, speed: SimulationSpeed)
    requires
        old(world)@.wf(),
    ensures
        predator_outcome(old(world)@, final(world)@, product(tick_delta, speed.0)),
        final(world)@.wf(),
        all_sound(old(world)@.agents) ==> all_sound(final(world)@.agents),
{
    let rolls = draw_move_rolls(world);
    game_loop_predator_with(world, tick_delta, speed, &rolls);
}

/// Whether nothing in the world can feed backwards: no food source holds
/// less than nothing, and no living entity bites off less than nothing.
pub open spec fn edible(world: WorldView) -> bool {
    &&& forall|j: int| 0 <= j < world.foods.len() ==> (#[trigger] world.foods[j]).amount.0 >= 0
    &&& forall|i: int|
        0 <= i < world.agents.len() ==> (#[trigger] world.agents[i]).genes.bite_size >= 0
}

/// Whether a pass of the prey that began with `before` has so far eaten of
/// each food source no more than it held, and has marked every source that
/// the biting brought down to nothing.
pub open spec fn conserved(before: WorldView, state: Grazing) -> bool {
    &&& state.world.agents.len() == before.agents.len()
    &&& state.world.foods.len() == before.foods.len()
    &&& forall|i: int|
        0 <= i < before.agents.len() ==> (#[trigger] state.world.agents[i]).genes
            == before.agents[i].genes
    &&& forall|j: int|
        0 <= j < before.foods.len() ==> {
            &&& (#[trigger] state.world.foods[j]).entity == before.foods[j].entity
            &&& 0 <= state.world.foods[j].amount.0 <= before.foods[j].amount.0
            &&& state.world.foods[j].amount.0 < before.foods[j].amount.0
                && state.world.foods[j].amount.0 <= 0 ==> state.eaten_up.contains(
                before.foods[j].entity,
            )
        }
}

/// One turn of a pass of the prey eats of no food source more than it holds,
/// and marks the source that it brings down to nothing.
pub proof fn lemma_prey_turn_conserves(
    before: WorldView,
    state: Grazing,
    i: int,
    delta_time: Fixed,
    rolls: MoveRollsView,
)
    requires
        edible(before),
        conserved(before, state),
        0 <= i < before.agents.len(),
    ensures
        conserved(before, prey_turn(state, i, delta_time, rolls)),
{
    let after = prey_turn(state, i, delta_time, rolls);
    let w = state.world;
    let me = w.agents[i];
    assert(me.genes == before.agents[i].genes);
    assert(before.agents[i].genes.bite_size >= 0);
    if me.role == Role::Prey {
        if let Some(food) = me.perception.target_food {
            if !state.eaten_up.contains(food) {
                if let Some(j) = place_of(food_ids(w.foods), food) {
                    lemma_place_below(food_ids(w.foods), food, w.foods.len() as int);
                    assert(w.foods[j].entity == food);
                    assert(before.foods[j].amount.0 >= 0);
                }
            }
        }
    }
    assert forall|k: int| 0 <= k < before.agents.len() implies (
    #[trigger] after.world.agents[k]).genes == before.agents[k].genes by {
        assert(w.agents[k].genes == before.agents[k].genes);
    }
    assert forall|j: int| 0 <= j < before.foods.len() implies {
        &&& (#[trigger] after.world.foods[j]).entity == before.foods[j].entity
        &&& 0 <= after.world.foods[j].amount.0 <= before.foods[j].amount.0
        &&& after.world.foods[j].amount.0 < before.foods[j].amount.0
            && after.world.foods[j].amount.0 <= 0 ==> after.eaten_up.contains(
            before.foods[j].entity,
        )
    } by {
        let held = w.foods[j];
        assert(held.entity == before.foods[j].entity);
        if state.eaten_up.contains(before.foods[j].entity) {
            let at = choose|at: int|
                0 <= at < state.eaten_up.len() && state.eaten_up[at] == before.foods[j].entity;
            if after.eaten_up.len() > state.eaten_up.len() {
                assert(after.eaten_up[at] == state.eaten_up[at]);
            }
            assert(after.eaten_up.contains(before.foods[j].entity));
        }
        if after.eaten_up.len() > state.eaten_up.len() {
            assert(after.eaten_up[after.eaten_up.len() - 1] == after.eaten_up.last());
        }
    }
}

/// In a pass of the prey no food source is eaten beyond what it held when
/// the pass began, whoever bites it and however often.
pub proof fn lemma_prey_pass_conserves(
    world: WorldView,
    delta_time: Fixed,
    rolls: Seq<MoveRolls>,
    n: int,
)
    requires
        edible(world),
        0 <= n <= world.agents.len(),
    ensures
        conserved(world, prey_pass(world, delta_time, rolls, n)),
    decreases n,
{
    if n > 0 {
        lemma_prey_pass_conserves(world, delta_time, rolls, n - 1);
        lemma_prey_turn_conserves(
            world,
            prey_pass(world, delta_time, rolls, n - 1),
            n - 1,
            delta_time,
            move_rolls_at(rolls, n - 1),
        );
    }
}

/// What all the prey together eat of a food source in one pass is at most
/// what it held before the pass; and a source that their biting brought
/// down to nothing is gone from the world when the pass is over.
pub proof fn lemma_eaten_up_food_leaves(
    world: WorldView,
    delta_time: Fixed,
    rolls: Seq<MoveRolls>,
    j: int,
)
    requires
        world.wf(),
        edible(world),
        0 <= j < world.foods.len(),
    ensures
        ({
            let done = prey_pass(world, delta_time, rolls, world.agents.len() as int);
            &&& done.world.foods.len() == world.foods.len()
            &&& 0 <= world.foods[j].amount.0 - done.world.foods[j].amount.0
                <= world.foods[j].amount.0
            &&& done.world.foods[j].amount.0 < world.foods[j].amount.0
                && done.world.foods[j].amount.0 <= 0 ==> !food_ids(
                after_prey(world, delta_time, rolls).foods,
            ).contains(world.foods[j].entity)
        }),
{
    let count = world.agents.len() as int;
    let done = prey_pass(world, delta_time, rolls, count);
    lemma_prey_pass_conserves(world, delta_time, rolls, count);
    let held = done.world.foods[j];
    assert(held.entity == world.foods[j].entity);
    assert(food_ids(done.world.foods) =~= food_ids(world.foods)) by {
        assert forall|k: int| 0 <= k < world.foods.len() implies (
        #[trigger] done.world.foods[k]).entity == world.foods[k].entity by {}
    }
    crate::world::lemma_foods_without_ids(
        done.world.foods,
        done.eaten_up,
        done.world.foods.len() as int,
    );
    crate::world::lemma_ids_without(
        food_ids(done.world.foods),
        done.eaten_up,
        world.next_entity,
        done.world.foods.len() as int,
    );
}

/// A pass of the prey leaves sound entities sound.
pub proof fn lemma_prey_pass_sound(
    world: WorldView,
    delta_time: Fixed,
    rolls: Seq<MoveRolls>,
    n: int,
)
    requires
        all_sound(world.agents),
        0 <= n <= world.agents.len(),
    ensures
        all_sound(prey_pass(world, delta_time, rolls, n).world.agents),
        prey_pass(world, delta_time, rolls, n).world.agents.len() == world.agents.len(),
    decreases n,
{
    if n > 0 {
        lemma_prey_pass_sound(world, delta_time, rolls, n - 1);
        let before = prey_pass(world, delta_time, rolls, n - 1);
        let after = prey_pass(world, delta_time, rolls, n);
        let w = before.world;
        if let Some(food) = w.agents[n - 1].perception.target_food {
            if let Some(j) = place_of(food_ids(w.foods), food) {
                lemma_place_below(food_ids(w.foods), food, w.foods.len() as int);
            }
        }
        assert forall|i: int| 0 <= i < after.world.agents.len() implies sound(
            #[trigger] after.world.agents[i],
        ) by {
            assert(sound(w.agents[i]));
        }
    }
}

/// A pass of the predators leaves sound entities sound.
pub proof fn lemma_predator_pass_sound(
    world: WorldView,
    delta_time: Fixed,
    rolls: Seq<MoveRolls>,
    n: int,
)
    requires
        all_sound(world.agents),
        0 <= n <= world.agents.len(),
    ensures
        all_sound(predator_pass(world, delta_time, rolls, n).world.agents),
        predator_pass(world, delta_time, rolls, n).world.agents.len() == world.agents.len(),
    decreases n,
{
    if n > 0 {
        lemma_predator_pass_sound(world, delta_time, rolls, n - 1);
        let before = predator_pass(world, delta_time, rolls, n - 1);
        let after = predator_pass(world, delta_time, rolls, n);
        let w = before.world;
        if let Some(target) = w.agents[n - 1].perception.target_food {
            if let Some(j) = place_of(agent_ids(w.agents), target) {
                lemma_place_below(agent_ids(w.agents), target, w.agents.len() as int);
            } else if let Some(j) = place_of(corpse_ids(w.corpses), target) {
                lemma_place_below(corpse_ids(w.corpses), target, w.corpses.len() as int);
            }
        }
        assert forall|i: int| 0 <= i < after.world.agents.len() implies sound(
            #[trigger] after.world.agents[i],
        ) by {
            assert(sound(w.agents[i]));
        }
    }
}

/// The prey's eating and moving leaves sound entities sound.
pub proof fn lemma_after_prey_sound(world: WorldView, delta_time: Fixed, rolls: Seq<MoveRolls>)
    requires
        all_sound(world.agents),
    ensures
        all_sound(after_prey(world, delta_time, rolls).agents),
{
    lemma_prey_pass_sound(world, delta_time, rolls, world.agents.len() as int);
}

/// The predators' eating and moving leaves sound entities sound.
pub proof fn lemma_after_predators_sound(
    world: WorldView,
    delta_time: Fixed,
    rolls: Seq<MoveRolls>,
)
    requires
        all_sound(world.agents),
    ensures
        all_sound(after_predators(world, delta_time, rolls).agents),
{
    let count = world.agents.len() as int;
    lemma_predator_pass_sound(world, delta_time, rolls, count);
    let done = predator_pass(world, delta_time, rolls, count);
    let thinned = done.world.without_agents(done.killed);
    crate::world::lemma_agents_without_subset(done.world.agents, done.killed, count);
    assert forall|k: int| 0 <= k < thinned.agents.len() implies sound(
        #[trigger] thinned.agents[k],
    ) by {
        let j = choose|j: int| 0 <= j < count && thinned.agents[k] == done.world.agents[j];
        assert(sound(done.world.agents[j]));
    }
    crate::world::lemma_with_corpses_frame(thinned, done.remains);
}

} // verus!
