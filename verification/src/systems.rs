//! Metabolism and the life cycle.
//!
//! Every tick each living entity grows hungrier and older, gains or loses
//! energy and sanity, and decides anew what to do. Those whose time has come
//! die and leave a corpse; those who carried to term give birth. Corpses
//! decay, and what is left of a corpse when its decay ends turns into food.

use crate::components::{
    create_corpse, create_food, create_predator, create_prey, fresh_corpse_state, Age,
    BehaviorState, Corpse, CorpseState, Entity, Food, FoodAmount, Genes, LivingEntity, LivingView,
    Needs, Role, SimulationSpeed, MAX_HUNGER,
};
use crate::fixed::{
    clamp, clamped, difference, minus, over, plus, product, quotient, sum, times, Fixed, ONE,
};
use crate::gameloop::{LEAST_FLESH, MOST_FLESH};
use crate::random::{draw_between, draw_coin, draw_count, draw_unit};
use crate::reproduction::{
    after_pairing, draw_pair_rolls, fair_pair_rolls, pair_mates_with, pairing_pass, PairRolls,
};
use crate::world::{
    agent_ids, all_sound, corpse_ids, lemma_agents_without_ids, lemma_ids_without, living_views,
    ordered_below, sound, World, WorldView,
};
use vstd::prelude::*;

verus! {

/// Sanity gained per second by an entity that is not starving.
pub const SANITY_GAIN_RATE: Fixed = 10_000;

/// Sanity gained per second by a starving entity: a loss.
pub const STARVING_SANITY_RATE: Fixed = -100_000;

/// Above this hunger an entity starves, below it an entity can be ready to mate.
pub const STARVING_HUNGER: Fixed = 90_000_000;

/// The rate at which energy follows hunger, per second.
pub const ENERGY_RATE: Fixed = 100_000;

/// Above this hunger an entity seeks food whatever its genes.
pub const SEEKING_HUNGER: Fixed = 50_000_000;

/// Below this hunger a greedy entity seeks food.
pub const GREEDY_HUNGER: Fixed = 80_000_000;

/// The greed above which an entity is greedy, and the laziness above which it is lazy.
pub const HALF: Fixed = 500_000;

/// The fraction of its greatest age from which an entity can be ready to mate.
pub const MATING_AGE_FROM: Fixed = 200_000;

/// The fraction of its greatest age up to which an entity can be ready to mate.
pub const MATING_AGE_UP_TO: Fixed = 800_000;

/// The least sanity of an entity that is ready to mate.
pub const MATING_SANITY: Fixed = 500_000;

/// The least energy of an entity that is ready to mate.
pub const MATING_ENERGY: Fixed = 900_000;

/// What is left of a mother's energy after a birth, as a fraction.
pub const BIRTH_TOLL: Fixed = 100_000;

/// The least time after a birth before the next pregnancy.
pub const SHORTEST_BACKOFF: Fixed = 3_000_000;

/// The bound that this time stays below.
pub const LONGEST_BACKOFF: Fixed = 6_000_000;

/// The chance that enters one tick of the life of a living entity.
#[derive(Clone, Debug)]
pub struct LifeRolls {
    /// The roll against its sociality, in `[0, 1)`.
    pub social: Fixed,
    /// The flesh on its corpse, in `[10, 50)`.
    pub flesh: Fixed,
    /// The time before it can conceive again after a birth, in `[3, 6)`.
    pub backoff: Fixed,
    /// How many it bears, from one to below the most it can.
    pub litter: u32,
    /// The gender of each newborn in turn.
    pub genders: Vec<bool>,
}

/// The mathematical content of [`LifeRolls`].
pub struct LifeRollsView {
    pub social: Fixed,
    pub flesh: Fixed,
    pub backoff: Fixed,
    pub litter: u32,
    pub genders: Seq<bool>,
}

impl View for LifeRolls {
    type V = LifeRollsView;

    open spec fn view(&self) -> LifeRollsView {
        LifeRollsView {
            social: self.social,
            flesh: self.flesh,
            backoff: self.backoff,
            litter: self.litter,
            genders: self.genders@,
        }
    }
}

impl LifeRollsView {
    /// Whether the rolls lie in the ranges from which they are drawn for an
    /// entity that can bear up to `max_offspring_count`.
    pub open spec fn valid(self, max_offspring_count: u32) -> bool {
        &&& 0 <= self.social < ONE
        &&& LEAST_FLESH <= self.flesh < MOST_FLESH
        &&& SHORTEST_BACKOFF <= self.backoff < LONGEST_BACKOFF
        &&& max_offspring_count >= 2 ==> 1 <= self.litter < max_offspring_count
    }

    /// The rolls used for an entity for which none were supplied.
    pub open spec fn none() -> LifeRollsView {
        LifeRollsView {
            social: 0,
            flesh: LEAST_FLESH,
            backoff: SHORTEST_BACKOFF,
            litter: 1,
            genders: Seq::empty(),
        }
    }
}

/// The rolls for the entity at place `i`.
pub open spec fn life_rolls_at(rolls: Seq<LifeRolls>, i: int) -> LifeRollsView {
    if 0 <= i < rolls.len() {
        rolls[i]@
    } else {
        LifeRollsView::none()
    }
}

/// The gender of the `k`-th newborn of a litter; a male where none was rolled.
pub open spec fn gender_at(genders: Seq<bool>, k: int) -> bool {
    0 <= k < genders.len() && genders[k]
}

/// What an entity does: it seeks food when it is hungry, or greedy and not
/// full; else it sleeps when it is lazy; else it wanders.
pub open spec fn decided(hunger: Fixed, genes: Genes) -> BehaviorState {
    if hunger > SEEKING_HUNGER || (hunger < GREEDY_HUNGER && genes.greed > HALF) {
        BehaviorState::SeekFood
    } else if genes.laziness > HALF {
        BehaviorState::Sleep
    } else {
        BehaviorState::Wander
    }
}

/// Hunger after `delta_time`: it grows at the entity's rate, within `[0, 100]`.
pub open spec fn hunger_after(hunger: Fixed, hunger_rate: Fixed, delta_time: Fixed) -> Fixed {
    clamped(sum(hunger, product(hunger_rate, delta_time)), 0, MAX_HUNGER)
}

/// Energy after `delta_time`, given the new hunger: it collapses when hunger
/// is at its height, else it grows the faster the less hungry the entity is;
/// within `[0, 1]`.
pub open spec fn energy_after(energy: Fixed, hunger: Fixed, delta_time: Fixed) -> Fixed {
    clamped(
        if hunger >= MAX_HUNGER {
            product(energy, product(ENERGY_RATE, delta_time))
        } else {
            sum(
                energy,
                product(
                    product(ENERGY_RATE, delta_time),
                    quotient(difference(MAX_HUNGER, hunger), MAX_HUNGER),
                ),
            )
        },
        0,
        ONE,
    )
}

/// Sanity after `delta_time`, given the new hunger: it rises slowly, or falls
/// when the entity starves; within `[0, 1]`.
pub open spec fn sanity_after(sanity: Fixed, hunger: Fixed, delta_time: Fixed) -> Fixed {
    clamped(
        sum(
            sanity,
            product(
                delta_time,
                if hunger > STARVING_HUNGER {
                    STARVING_SANITY_RATE
                } else {
                    SANITY_GAIN_RATE
                },
            ),
        ),
        0,
        ONE,
    )
}

/// Whether an entity with these needs, genes and age is ready to mate, given
/// its roll against its sociality.
pub open spec fn ready_to_mate(needs: Needs, genes: Genes, age: Fixed, social: Fixed) -> bool {
    &&& needs.partner is None
    &&& age >= product(MATING_AGE_FROM, genes.max_age)
    &&& age <= product(MATING_AGE_UP_TO, genes.max_age)
    &&& needs.sanity >= MATING_SANITY
    &&& needs.hunger < STARVING_HUNGER
    &&& needs.energy >= MATING_ENERGY
    &&& !needs.pregnant
    &&& needs.pregnancy_timer <= 0
    &&& social < genes.sociality
}

/// A timer after `delta_time`: it runs down to zero.
pub open spec fn run_down(timer: Fixed, delta_time: Fixed) -> Fixed {
    if difference(timer, delta_time) < 0 {
        0
    } else {
        difference(timer, delta_time)
    }
}

/// The entity after one tick of metabolism.
pub open spec fn metabolized(me: LivingView, delta_time: Fixed, social: Fixed) -> LivingView {
    let hunger = hunger_after(me.needs.hunger, me.genes.hunger_rate, delta_time);
    let energy = energy_after(me.needs.energy, hunger, delta_time);
    let sanity = sanity_after(me.needs.sanity, hunger, delta_time);
    let age = sum(me.age.0, delta_time);
    let fed = Needs { hunger, energy, sanity, ..me.needs };
    let bond_over = me.needs.partner is Some && difference(me.needs.partner_timer, delta_time) <= 0;
    LivingView {
        age: Age(age),
        behavior: decided(hunger, me.genes),
        needs: Needs {
            mate_ready: ready_to_mate(fed, me.genes, age, social),
            partner: if bond_over && !me.needs.pregnant {
                None
            } else {
                me.needs.partner
            },
            partner_timer: if me.needs.partner is None {
                me.needs.partner_timer
            } else if bond_over {
                0
            } else {
                difference(me.needs.partner_timer, delta_time)
            },
            mating_timer: clamped(difference(me.needs.mating_timer, delta_time), 0, ONE),
            pregnancy_timer: run_down(me.needs.pregnancy_timer, delta_time),
            ..fed
        },
        ..me
    }
}

/// Whether the entity dies: of age, or of hunger once its energy is spent.
pub open spec fn dies(me: LivingView) -> bool {
    me.age.0 >= me.genes.max_age || (me.needs.hunger >= MAX_HUNGER && me.needs.energy <= 0)
}

/// Whether the entity gives birth: it is pregnant, has its partner and his
/// genes, and has carried to term.
pub open spec fn is_due(me: LivingView) -> bool {
    &&& me.needs.pregnant
    &&& me.needs.partner is Some
    &&& me.needs.partner_genes is Some
    &&& me.needs.pregnancy_timer <= 0
}

/// The mother after the birth: a tenth of her energy is left, her partner
/// is gone, and `backoff` must pass before she can conceive again.
pub open spec fn delivered(me: LivingView, backoff: Fixed) -> LivingView {
    LivingView {
        needs: Needs {
            pregnant: false,
            energy: product(me.needs.energy, BIRTH_TOLL),
            pregnancy_timer: backoff,
            partner: None,
            partner_genes: None,
            ..me.needs
        },
        ..me
    }
}

/// How many are born: one where the mother can bear fewer than two, else
/// what was rolled, from one to below the most she can bear.
pub open spec fn litter_size(max_offspring_count: u32, rolled: u32) -> u32 {
    if max_offspring_count < 2 || rolled < 1 {
        1
    } else if rolled >= max_offspring_count {
        (max_offspring_count - 1) as u32
    } else {
        rolled
    }
}

/// A newborn of `mother` with the given genes: of her role and species, at
/// her position, and it knows its mother.
pub open spec fn child_of(mother: LivingView, genes: Genes) -> LivingView {
    LivingView {
        needs: Needs { mother: Some(mother.entity), ..Needs::initial() },
        ..LivingView::newborn(mother.role, mother.position.0, mother.species, genes)
    }
}

/// The litter of `mother`: each newborn has the genes of the crossing of
/// hers with her partner's, and the gender that was rolled for it.
pub open spec fn litter_of(mother: LivingView, rolls: LifeRollsView) -> Seq<LivingView> {
    Seq::new(
        litter_size(mother.genes.max_offspring_count, rolls.litter) as nat,
        |k: int|
            child_of(
                mother,
                mother.genes.crossed(
                    mother.needs.partner_genes.unwrap(),
                    gender_at(rolls.genders, k),
                ),
            ),
    )
}

/// The entity after one tick of its life: metabolism, and the birth if it is
/// due and does not die.
pub open spec fn lived(me: LivingView, delta_time: Fixed, rolls: LifeRollsView) -> LivingView {
    let older = metabolized(me, delta_time, rolls.social);
    if !dies(older) && is_due(older) {
        delivered(older, rolls.backoff)
    } else {
        older
    }
}

/// Who leaves and who enters the world in one tick of life.
pub struct Fates {
    /// The entities that die.
    pub deaths: Seq<Entity>,
    /// The corpse of each, in the same order.
    pub graves: Seq<Corpse>,
    /// The newborn.
    pub births: Seq<LivingView>,
}

/// The fates of the first `n` living entities.
pub open spec fn fates(agents: Seq<LivingView>, delta_time: Fixed, rolls: Seq<LifeRolls>, n: int)
    -> Fates
    decreases n,
{
    if n <= 0 {
        Fates { deaths: Seq::empty(), graves: Seq::empty(), births: Seq::empty() }
    } else {
        let before = fates(agents, delta_time, rolls, n - 1);
        let one = life_rolls_at(rolls, n - 1);
        let older = metabolized(agents[n - 1], delta_time, one.social);
        if dies(older) {
            Fates {
                deaths: before.deaths.push(older.entity),
                graves: before.graves.push(
                    Corpse {
                        entity: Entity::unassigned(),
                        position: older.position,
                        state: fresh_corpse_state(one.flesh),
                    },
                ),
                ..before
            }
        } else if is_due(older) {
            Fates { births: before.births + litter_of(older, one), ..before }
        } else {
            before
        }
    }
}

/// The corpse after `delta_time` of decay.
pub open spec fn decayed(corpse: Corpse, delta_time: Fixed) -> Corpse {
    Corpse {
        state: CorpseState {
            decay_timer: difference(
                corpse.state.decay_timer,
                product(delta_time, corpse.state.decay_rate),
            ),
            ..corpse.state
        },
        ..corpse
    }
}

/// What the decay of corpses takes from the world and gives to it.
pub struct Decay {
    /// The corpses whose decay has ended.
    pub gone: Seq<Entity>,
    /// The food that each of them turns into, in the same order.
    pub sprouts: Seq<Food>,
}

/// The decay of the first `n` corpses: a corpse whose timer runs out leaves,
/// and food with as much as its flesh takes its place.
pub open spec fn decay(corpses: Seq<Corpse>, delta_time: Fixed, n: int) -> Decay
    decreases n,
{
    if n <= 0 {
        Decay { gone: Seq::empty(), sprouts: Seq::empty() }
    } else {
        let before = decay(corpses, delta_time, n - 1);
        let rotten = decayed(corpses[n - 1], delta_time);
        if rotten.state.decay_timer <= 0 {
            Decay {
                gone: before.gone.push(rotten.entity),
                sprouts: before.sprouts.push(
                    Food {
                        entity: Entity::unassigned(),
                        position: rotten.position,
                        amount: FoodAmount(rotten.state.flesh_amount),
                    },
                ),
            }
        } else {
            before
        }
    }
}

/// The world after every living entity has lived one tick and every corpse
/// has decayed, before anything leaves or enters.
pub open spec fn aged(world: WorldView, delta_time: Fixed, rolls: Seq<LifeRolls>) -> WorldView {
    WorldView {
        agents: Seq::new(
            world.agents.len(),
            |i: int| lived(world.agents[i], delta_time, life_rolls_at(rolls, i)),
        ),
        corpses: Seq::new(world.corpses.len(), |i: int| decayed(world.corpses[i], delta_time)),
        ..world
    }
}

/// The world after one tick of metabolism and the life cycle: the dead and
/// the decayed have left; the corpses of the dead, the newborn and the food
/// from the decayed corpses have entered, in this order.
pub open spec fn after_life(world: WorldView, delta_time: Fixed, rolls: Seq<LifeRolls>)
    -> WorldView {
    let fate = fates(world.agents, delta_time, rolls, world.agents.len() as int);
    let rot = decay(world.corpses, delta_time, world.corpses.len() as int);
    aged(world, delta_time, rolls).without_agents(fate.deaths).without_corpses(
        rot.gone,
    ).with_corpses(fate.graves).with_livings(fate.births).with_foods(rot.sprouts)
}

/// Decides what an entity with this hunger and these genes does.
pub fn decide_behavior(hunger: Fixed, genes: &Genes) -> (state: BehaviorState)
    ensures
        state == decided(hunger, *genes),
{
    if hunger > SEEKING_HUNGER || (hunger < GREEDY_HUNGER && genes.greed > HALF) {
        BehaviorState::SeekFood
    } else if genes.laziness > HALF {
        BehaviorState::Sleep
    } else {
        BehaviorState::Wander
    }
}

/// One tick of metabolism of `living`.
pub fn metabolize(living: &mut LivingEntity, delta_time: Fixed, social: Fixed)
    ensures
        final(living)@ == metabolized(old(living)@, delta_time, social),
{
    let genes = living.genes;
    let hunger = clamp(
        plus(living.needs.hunger, times(genes.hunger_rate, delta_time)),
        0,
        MAX_HUNGER,
    );
    let raw_energy = if hunger >= MAX_HUNGER {
        times(living.needs.energy, times(ENERGY_RATE, delta_time))
    } else {
        plus(
            living.needs.energy,
            times(times(ENERGY_RATE, delta_time), over(minus(MAX_HUNGER, hunger), MAX_HUNGER)),
        )
    };
    let energy = clamp(raw_energy, 0, ONE);
    let sanity_rate = if hunger > STARVING_HUNGER {
        STARVING_SANITY_RATE
    } else {
        SANITY_GAIN_RATE
    };
    let sanity = clamp(plus(living.needs.sanity, times(delta_time, sanity_rate)), 0, ONE);
    let age = plus(living.age.0, delta_time);
    let mate_ready = living.needs.partner.is_none() && age >= times(MATING_AGE_FROM, genes.max_age)
        && age <= times(MATING_AGE_UP_TO, genes.max_age) && sanity >= MATING_SANITY && hunger
        < STARVING_HUNGER && energy >= MATING_ENERGY && !living.needs.pregnant
        && living.needs.pregnancy_timer <= 0 && social < genes.sociality;
    if living.needs.partner.is_some() {
        let left = minus(living.needs.partner_timer, delta_time);
        if left <= 0 {
            living.needs.partner_timer = 0;
            if !living.needs.pregnant {
                living.needs.partner = None;
            }
        } else {
            living.needs.partner_timer = left;
        }
    }
    let gestation = minus(living.needs.pregnancy_timer, delta_time);
    living.needs.pregnancy_timer = if gestation < 0 {
        0
    } else {
        gestation
    };
    living.needs.mating_timer = clamp(minus(living.needs.mating_timer, delta_time), 0, ONE);
    living.needs.hunger = hunger;
    living.needs.energy = energy;
    living.needs.sanity = sanity;
    living.needs.mate_ready = mate_ready;
    living.age = Age(age);
    living.behavior = decide_behavior(hunger, &genes);
}

/// Whether the entity dies.
pub fn is_dying(living: &LivingEntity) -> (b: bool)
    ensures
        b == dies(living@),
{
    living.age.0 >= living.genes.max_age || (living.needs.hunger >= MAX_HUNGER
        && living.needs.energy <= 0)
}

/// The genes of the partner of an entity that gives birth; none where it does not.
fn father_of(living: &LivingEntity) -> (father: Option<Genes>)
    ensures
        father is Some == is_due(living@),
        father is Some ==> father == living@.needs.partner_genes,
{
    if living.needs.pregnant && living.needs.partner.is_some() && living.needs.pregnancy_timer
        <= 0 {
        living.needs.partner_genes
    } else {
        None
    }
}

/// How many are born.
fn count_litter(max_offspring_count: u32, rolled: u32) -> (count: u32)
    ensures
        count == litter_size(max_offspring_count, rolled),
{
    if max_offspring_count < 2 || rolled < 1 {
        1
    } else if rolled >= max_offspring_count {
        max_offspring_count - 1
    } else {
        rolled
    }
}

/// Appends the litter of `mother` to `births`.
fn bear(mother: &LivingEntity, father: Genes, rolls: &LifeRolls, births: &mut Vec<LivingEntity>)
    requires
        mother@.needs.partner_genes == Some(father),
    ensures
        living_views(final(births)@) == living_views(old(births)@) + litter_of(mother@, rolls@),
{
    let count = count_litter(mother.genes.max_offspring_count, rolls.litter);
    let ghost litter = litter_of(mother@, rolls@);
    let mut k: u32 = 0;
    while k < count
        invariant
            k <= count,
            count == litter.len(),
            litter == litter_of(mother@, rolls@),
            mother@.needs.partner_genes == Some(father),
            living_views(births@) == living_views(old(births)@) + litter.take(k as int),
        decreases count - k,
    {
        let gender = (k as usize) < rolls.genders.len() && rolls.genders[k as usize];
        let genes = mother.genes.crossover(&father, gender);
        let mut child = match mother.role {
            Role::Prey => create_prey(mother.position.0, mother.species, genes),
            Role::Predator => create_predator(mother.position.0, mother.species, genes),
        };
        child.needs.mother = Some(mother.entity);
        let ghost so_far = living_views(births@);
        births.push(child);
        proof {
            assert(litter[k as int] == child@);
            assert(living_views(births@) =~= so_far.push(child@));
            assert(litter.take(k + 1) =~= litter.take(k as int).push(litter[k as int]));
        }
        k += 1;
    }
    assert(litter.take(count as int) =~= litter);
}

/// The mother gives birth.
fn deliver(living: &mut LivingEntity, backoff: Fixed)
    ensures
        final(living)@ == delivered(old(living)@, backoff),
{
    living.needs.pregnant = false;
    living.needs.energy = times(living.needs.energy, BIRTH_TOLL);
    living.needs.pregnancy_timer = backoff;
    living.needs.partner = None;
    living.needs.partner_genes = None;
}

/// The rolls that stand in for an entity for which none were supplied.
fn no_rolls() -> (rolls: LifeRolls)
    ensures
        rolls@ == LifeRollsView::none(),
{
    LifeRolls {
        social: 0,
        flesh: LEAST_FLESH,
        backoff: SHORTEST_BACKOFF,
        litter: 1,
        genders: Vec::new(),
    }
}

/// One tick of metabolism and the life cycle, with the rolls at place `i`
/// for the living entity at place `i`.
pub fn live_with(
    world: &mut World,
    tick_delta: Fixed,
    speed: SimulationSpeed,
    rolls: &Vec<LifeRolls>,
)
    requires
        old(world)@.wf(),
    ensures
        final(world)@ == after_life(old(world)@, product(tick_delta, speed.0), rolls@),
        final(world)@.wf(),
{
    let delta_time = times(tick_delta, speed.0);
    let spare = no_rolls();
    let ghost before = world@;
    let mut deaths: Vec<Entity> = Vec::new();
    let mut graves: Vec<Corpse> = Vec::new();
    let mut births: Vec<LivingEntity> = Vec::new();
    assert(living_views(births@) =~= Seq::empty());
    let mut i: usize = 0;
    while i < world.agents.len()
        invariant
            i <= world.agents.len(),
            world.agents.len() == before.agents.len(),
            spare@ == LifeRollsView::none(),
            world@.foods == before.foods,
            world@.corpses == before.corpses,
            world@.next_entity == before.next_entity,
            forall|j: int|
                0 <= j < i ==> (#[trigger] world@.agents[j]) == lived(
                    before.agents[j],
                    delta_time,
                    life_rolls_at(rolls@, j),
                ),
            forall|j: int|
                i <= j < world.agents.len() ==> (#[trigger] world@.agents[j]) == before.agents[j],
            (Fates { deaths: deaths@, graves: graves@, births: living_views(births@) }) == fates(
                before.agents,
                delta_time,
                rolls@,
                i as int,
            ),
        decreases world.agents.len() - i,
    {
        let one = if i < rolls.len() {
            &rolls[i]
        } else {
            &spare
        };
        let ghost previous = world@;
        assert(previous.agents[i as int] == before.agents[i as int]);
        metabolize(&mut world.agents[i], delta_time, one.social);
        let ghost older = world@.agents[i as int];
        if is_dying(&world.agents[i]) {
            deaths.push(world.agents[i].entity);
            graves.push(create_corpse(world.agents[i].position.0, one.flesh));
        } else if let Some(father) = father_of(&world.agents[i]) {
            bear(&world.agents[i], father, one, &mut births);
            deliver(&mut world.agents[i], one.backoff);
        }
        proof {
            assert forall|j: int| 0 <= j < i + 1 implies (#[trigger] world@.agents[j]) == lived(
                before.agents[j],
                delta_time,
                life_rolls_at(rolls@, j),
            ) by {
                if j < i {
                    assert(world@.agents[j] == previous.agents[j]);
                }
            }
            assert forall|j: int| i + 1 <= j < world.agents.len() implies (
            #[trigger] world@.agents[j]) == before.agents[j] by {
                assert(world@.agents[j] == previous.agents[j]);
            }
        }
        i += 1;
    }
    let mut gone: Vec<Entity> = Vec::new();
    let mut sprouts: Vec<Food> = Vec::new();
    let mut j: usize = 0;
    while j < world.corpses.len()
        invariant
            j <= world.corpses.len(),
            world.corpses.len() == before.corpses.len(),
            world@.agents == aged(before, delta_time, rolls@).agents,
            world@.foods == before.foods,
            world@.next_entity == before.next_entity,
            forall|k: int|
                0 <= k < j ==> (#[trigger] world@.corpses[k]) == decayed(
                    before.corpses[k],
                    delta_time,
                ),
            forall|k: int|
                j <= k < world.corpses.len() ==> (#[trigger] world@.corpses[k])
                    == before.corpses[k],
            (Decay { gone: gone@, sprouts: sprouts@ }) == decay(
                before.corpses,
                delta_time,
                j as int,
            ),
        decreases world.corpses.len() - j,
    {
        let ghost previous = world@;
        assert(world@.corpses[j as int] == before.corpses[j as int]);
        let corpse = world.corpses[j];
        let timer = minus(corpse.state.decay_timer, times(delta_time, corpse.state.decay_rate));
        world.corpses[j].state.decay_timer = timer;
        if timer <= 0 {
            gone.push(corpse.entity);
            sprouts.push(create_food(corpse.position.0, corpse.state.flesh_amount));
        }
        proof {
            assert(world@.corpses[j as int] == decayed(before.corpses[j as int], delta_time));
            assert forall|k: int| 0 <= k < j + 1 implies (#[trigger] world@.corpses[k]) == decayed(
                before.corpses[k],
                delta_time,
            ) by {
                if k < j {
                    assert(world@.corpses[k] == previous.corpses[k]);
                }
            }
            assert forall|k: int| j + 1 <= k < world.corpses.len() implies (
            #[trigger] world@.corpses[k]) == before.corpses[k] by {
                assert(world@.corpses[k] == previous.corpses[k]);
            }
        }
        j += 1;
    }
    proof {
        let target = aged(before, delta_time, rolls@);
        assert(world@.corpses =~= target.corpses);
        assert(world@ == target);
        assert(agent_ids(target.agents) =~= agent_ids(before.agents));
        assert(corpse_ids(target.corpses) =~= corpse_ids(before.corpses));
    }
    world.remove_agents(&deaths);
    world.remove_corpses(&gone);
    world.spawn_corpses(&graves);
    world.spawn_livings(births);
    world.spawn_foods(&sprouts);
}

/// Whether `rolls` holds one set of rolls for each of `agents`, each within its ranges.
pub open spec fn fair_life_rolls(rolls: Seq<LifeRolls>, agents: Seq<LivingView>) -> bool {
    &&& rolls.len() == agents.len()
    &&& forall|i: int|
        0 <= i < rolls.len() ==> (#[trigger] rolls[i])@.valid(agents[i].genes.max_offspring_count)
}

/// Draws the rolls for one tick of the life of every living entity of the world.
pub fn draw_life_rolls(world: &World) -> (rolls: Vec<LifeRolls>)
    ensures
        fair_life_rolls(rolls@, world@.agents),
        forall|i: int|
            0 <= i < rolls@.len() ==> (#[trigger] rolls@[i])@.genders.len() == if world@.agents[i].needs.pregnant {
                litter_size(world@.agents[i].genes.max_offspring_count, rolls@[i]@.litter) as int
            } else {
                0
            },
{
    let mut rolls: Vec<LifeRolls> = Vec::new();
    let mut i: usize = 0;
    while i < world.agents.len()
        invariant
            i <= world.agents.len(),
            rolls@.len() == i,
            forall|j: int|
                0 <= j < i ==> {
                    &&& (#[trigger] rolls@[j])@.valid(world@.agents[j].genes.max_offspring_count)
                    &&& rolls@[j]@.genders.len() == if world@.agents[j].needs.pregnant {
                        litter_size(
                            world@.agents[j].genes.max_offspring_count,
                            rolls@[j]@.litter,
                        ) as int
                    } else {
                        0
                    }
                },
        decreases world.agents.len() - i,
    {
        let most = world.agents[i].genes.max_offspring_count;
        let litter = if most < 2 {
            1
        } else {
            draw_count(1, most)
        };
        let mut genders: Vec<bool> = Vec::new();
        if world.agents[i].needs.pregnant {
            let mut k: u32 = 0;
            while k < litter
                invariant
                    k <= litter,
                    genders@.len() == k,
                decreases litter - k,
            {
                genders.push(draw_coin());
                k += 1;
            }
        }
        rolls.push(
            LifeRolls {
                social: draw_unit(),
                flesh: draw_between(LEAST_FLESH, MOST_FLESH),
                backoff: draw_between(SHORTEST_BACKOFF, LONGEST_BACKOFF),
                litter,
                genders,
            },
        );
        i += 1;
    }
    rolls
}

/// The world after metabolism, the life cycle and the pairing.
pub open spec fn after_update(
    world: WorldView,
    delta_time: Fixed,
    life: Seq<LifeRolls>,
    pairing: Seq<PairRolls>,
) -> WorldView {
    after_pairing(after_life(world, delta_time, life), pairing)
}

/// Whether `after` is what one tick of metabolism, the life cycle and the
/// pairing makes of `before` for some rolls.
pub open spec fn update_outcome(before: WorldView, after: WorldView, delta_time: Fixed) -> bool {
    exists|life: Seq<LifeRolls>, pairing: Seq<PairRolls>|
        {
            &&& fair_life_rolls(life, before.agents)
            &&& fair_pair_rolls(pairing, after_life(before, delta_time, life).agents.len())
            &&& after == #[trigger] after_update(before, delta_time, life, pairing)
        }
}

/// One tick of metabolism, the life cycle and the pairing, with the given rolls.
pub fn update_entities_with(
    world: &mut World,
    tick_delta: Fixed,
    speed: SimulationSpeed,
    life: &Vec<LifeRolls>,
    pairing: &Vec<PairRolls>,
)
    requires
        old(world)@.wf(),
    ensures
        final(world)@ == after_update(
            old(world)@,
            product(tick_delta, speed.0),
            life@,
            pairing@,
        ),
        final(world)@.wf(),
        all_within_bounds(final(world)@.agents),
        all_sound(old(world)@.agents) ==> all_sound(final(world)@.agents),
{
    live_with(world, tick_delta, speed, life);
    pair_mates_with(world, pairing);
    proof {
        lemma_update_within_bounds(old(world)@, product(tick_delta, speed.0), life@, pairing@);
        if all_sound(old(world)@.agents) {
            lemma_update_keeps_soundness(
                old(world)@,
                product(tick_delta, speed.0),
                life@,
                pairing@,
            );
        }
    }
}

/// One tick of metabolism, the life cycle and the pairing: every living
/// entity grows hungrier and older and decides what to do; the dead leave a
/// corpse; mothers give birth; decayed corpses turn into food; those that
/// suit each other pair.
pub fn update_entities(world: &mut World, tick_delta: Fixed, speed: SimulationSpeed)
    requires
        old(world)@.wf(),
    ensures
        update_outcome(old(world)@, final(world)@, product(tick_delta, speed.0)),
        final(world)@.wf(),
        all_within_bounds(final(world)@.agents),
        all_sound(old(world)@.agents) ==> all_sound(final(world)@.agents),
{
    let life = draw_life_rolls(world);
    live_with(world, tick_delta, speed, &life);
    let pairing = draw_pair_rolls(world.agents.len());
    pair_mates_with(world, &pairing);
    assert(world@ == after_update(old(world)@, product(tick_delta, speed.0), life@, pairing@));
    proof {
        lemma_update_within_bounds(old(world)@, product(tick_delta, speed.0), life@, pairing@);
        if all_sound(old(world)@.agents) {
            lemma_update_keeps_soundness(
                old(world)@,
                product(tick_delta, speed.0),
                life@,
                pairing@,
            );
        }
    }
}

/// Whether the needs of every one of `agents` are within their bounds.
pub open spec fn all_within_bounds(agents: Seq<LivingView>) -> bool {
    forall|i: int| 0 <= i < agents.len() ==> (#[trigger] agents[i]).needs.within_bounds()
}

/// After a tick of its life the needs of an entity are within their bounds, whatever they were.
pub proof fn lemma_lived_within_bounds(me: LivingView, delta_time: Fixed, rolls: LifeRollsView)
    ensures
        lived(me, delta_time, rolls).needs.within_bounds(),
        metabolized(me, delta_time, rolls.social).needs.within_bounds(),
{
    let older = metabolized(me, delta_time, rolls.social);
    assert(older.needs.within_bounds());
    assert(0 <= product(older.needs.energy, BIRTH_TOLL) <= ONE) by {
        let e = older.needs.energy;
        assert(0 <= e * BIRTH_TOLL <= ONE * BIRTH_TOLL) by (nonlinear_arith)
            requires
                0 <= e <= ONE,
        ;
    }
}

/// The needs of the newborn are within their bounds.
pub proof fn lemma_births_within_bounds(
    agents: Seq<LivingView>,
    delta_time: Fixed,
    rolls: Seq<LifeRolls>,
    n: int,
)
    requires
        0 <= n <= agents.len(),
    ensures
        all_within_bounds(fates(agents, delta_time, rolls, n).births),
    decreases n,
{
    if n > 0 {
        lemma_births_within_bounds(agents, delta_time, rolls, n - 1);
        let before = fates(agents, delta_time, rolls, n - 1).births;
        let now = fates(agents, delta_time, rolls, n).births;
        assert forall|i: int| 0 <= i < now.len() implies (#[trigger] now[i]).needs.within_bounds() by {
            if i < before.len() {
                assert(now[i] == before[i]);
            }
        }
    }
}

/// The pairing leaves hunger, energy and sanity as they are.
pub proof fn lemma_pairing_within_bounds(agents: Seq<LivingView>, rolls: Seq<PairRolls>, n: int)
    requires
        all_within_bounds(agents),
        0 <= n <= agents.len(),
    ensures
        all_within_bounds(pairing_pass(agents, rolls, n)),
        pairing_pass(agents, rolls, n).len() == agents.len(),
    decreases n,
{
    if n > 0 {
        lemma_pairing_within_bounds(agents, rolls, n - 1);
        let before = pairing_pass(agents, rolls, n - 1);
        crate::reproduction::lemma_mate_below(before, n - 1, before.len() as int);
        let now = pairing_pass(agents, rolls, n);
        assert forall|i: int| 0 <= i < now.len() implies (#[trigger] now[i]).needs.within_bounds() by {
            assert(before[i].needs.within_bounds());
        }
    }
}

/// After a tick of metabolism, the life cycle and the pairing, the hunger of
/// every living entity lies in `[0, 100]` and its energy and sanity in
/// `[0, 1]`, whatever the world was before and whatever was rolled.
pub proof fn lemma_update_within_bounds(
    world: WorldView,
    delta_time: Fixed,
    life: Seq<LifeRolls>,
    pairing: Seq<PairRolls>,
)
    ensures
        all_within_bounds(after_update(world, delta_time, life, pairing).agents),
{
    let fate = fates(world.agents, delta_time, life, world.agents.len() as int);
    let rot = decay(world.corpses, delta_time, world.corpses.len() as int);
    let old = aged(world, delta_time, life);
    assert forall|i: int| 0 <= i < old.agents.len() implies (
    #[trigger] old.agents[i]).needs.within_bounds() by {
        lemma_lived_within_bounds(world.agents[i], delta_time, life_rolls_at(life, i));
    }
    let thinned = old.without_agents(fate.deaths);
    crate::world::lemma_agents_without_subset(old.agents, fate.deaths, old.agents.len() as int);
    assert forall|k: int| 0 <= k < thinned.agents.len() implies (
    #[trigger] thinned.agents[k]).needs.within_bounds() by {
        let j = choose|j: int| 0 <= j < old.agents.len() && thinned.agents[k] == old.agents[j];
        assert(old.agents[j].needs.within_bounds());
    }
    let cleared = thinned.without_corpses(rot.gone);
    let buried = cleared.with_corpses(fate.graves);
    crate::world::lemma_with_corpses_frame(cleared, fate.graves);
    let grown = buried.with_livings(fate.births);
    crate::world::lemma_with_livings_frame(buried, fate.births);
    lemma_births_within_bounds(world.agents, delta_time, life, world.agents.len() as int);
    assert forall|k: int| 0 <= k < grown.agents.len() implies (
    #[trigger] grown.agents[k]).needs.within_bounds() by {
        if k < buried.agents.len() {
            assert(grown.agents[k] == grown.agents.take(buried.agents.len() as int)[k]);
            assert(buried.agents[k].needs.within_bounds());
        } else {
            let c = choose|c: int|
                0 <= c < fate.births.len() && grown.agents[k] == (LivingView {
                    entity: grown.agents[k].entity,
                    ..#[trigger] fate.births[c]
                });
            assert(fate.births[c].needs.within_bounds());
        }
    }
    let fed = grown.with_foods(rot.sprouts);
    crate::world::lemma_with_foods_frame(grown, rot.sprouts);
    assert(fed == after_life(world, delta_time, life));
    lemma_pairing_within_bounds(fed.agents, pairing, fed.agents.len() as int);
}

/// The deaths and graves among the first `m` living entities stay what
/// they are when more entities are counted in; there is one grave per death.
pub proof fn lemma_fates_grow(
    agents: Seq<LivingView>,
    delta_time: Fixed,
    rolls: Seq<LifeRolls>,
    m: int,
    n: int,
)
    requires
        0 <= m <= n,
    ensures
        fates(agents, delta_time, rolls, n).deaths.len() == fates(
            agents,
            delta_time,
            rolls,
            n,
        ).graves.len(),
        fates(agents, delta_time, rolls, m).deaths.len() <= fates(
            agents,
            delta_time,
            rolls,
            n,
        ).deaths.len(),
        forall|k: int|
            0 <= k < fates(agents, delta_time, rolls, m).deaths.len() ==> {
                &&& (#[trigger] fates(agents, delta_time, rolls, n).deaths[k]) == fates(
                    agents,
                    delta_time,
                    rolls,
                    m,
                ).deaths[k]
                &&& fates(agents, delta_time, rolls, n).graves[k] == fates(
                    agents,
                    delta_time,
                    rolls,
                    m,
                ).graves[k]
            },
    decreases n,
{
    if n > 0 {
        if m < n {
            lemma_fates_grow(agents, delta_time, rolls, m, n - 1);
        }
        lemma_fates_grow(agents, delta_time, rolls, n - 1, n - 1);
    }
}

/// The deaths among the first `n` living entities are in the order of their
/// identifiers, so that none is counted twice.
pub proof fn lemma_deaths_ordered(
    agents: Seq<LivingView>,
    delta_time: Fixed,
    rolls: Seq<LifeRolls>,
    bound: u64,
    n: int,
)
    requires
        ordered_below(agent_ids(agents), bound),
        0 <= n <= agents.len(),
    ensures
        ordered_below(fates(agents, delta_time, rolls, n).deaths, bound),
        forall|k: int|
            #![trigger fates(agents, delta_time, rolls, n).deaths[k]]
            0 <= k < fates(agents, delta_time, rolls, n).deaths.len() && n < agents.len()
                ==> fates(agents, delta_time, rolls, n).deaths[k].0 < agents[n].entity.0,
    decreases n,
{
    if n > 0 {
        lemma_deaths_ordered(agents, delta_time, rolls, bound, n - 1);
        let before = fates(agents, delta_time, rolls, n - 1).deaths;
        let now = fates(agents, delta_time, rolls, n).deaths;
        let ids = agent_ids(agents);
        assert(ids[n - 1] == agents[n - 1].entity);
        if n < agents.len() {
            assert(ids[n] == agents[n].entity);
        }
        assert forall|i: int, j: int| 0 <= i < j < now.len() implies now[i].0 < now[j].0 by {
            if j < before.len() {
                assert(now[i] == before[i] && now[j] == before[j]);
            } else {
                assert(now[i] == before[i]);
            }
        }
        assert forall|k: int| 0 <= k < now.len() implies (#[trigger] now[k]).0 < bound by {
            if k < before.len() {
                assert(now[k] == before[k]);
            }
        }
        assert forall|k: int|
            #![trigger now[k]]
            0 <= k < now.len() && n < agents.len() implies now[k].0 < agents[n].entity.0 by {
            if k < before.len() {
                assert(now[k] == before[k]);
            }
        }
    }
}

/// A living entity that dies in a tick, of age or of hunger, is gone from
/// the world after it, and exactly one of the corpses that the tick brings
/// is its own, at the place where it died. Unless the world has run out of
/// identifiers, that corpse is in the world after the tick.
pub proof fn lemma_death_leaves_one_corpse(
    world: WorldView,
    delta_time: Fixed,
    life: Seq<LifeRolls>,
    i: int,
)
    requires
        world.wf(),
        0 <= i < world.agents.len(),
        dies(metabolized(world.agents[i], delta_time, life_rolls_at(life, i).social)),
    ensures
        !agent_ids(after_life(world, delta_time, life).agents).contains(world.agents[i].entity),
        ({
            let fate = fates(world.agents, delta_time, life, world.agents.len() as int);
            let own = fates(world.agents, delta_time, life, i).deaths.len() as int;
            &&& fate.graves.len() == fate.deaths.len()
            &&& 0 <= own < fate.deaths.len()
            &&& fate.deaths[own] == world.agents[i].entity
            &&& fate.graves[own].position == world.agents[i].position
            &&& forall|k: int|
                0 <= k < fate.deaths.len() && fate.deaths[k] == world.agents[i].entity ==> k
                    == own
        }),
        after_life(world, delta_time, life).has_room() ==> exists|c: int|
            0 <= c < after_life(world, delta_time, life).corpses.len() && (#[trigger] after_life(
                world,
                delta_time,
                life,
            ).corpses[c]).position == world.agents[i].position && after_life(
                world,
                delta_time,
                life,
            ).corpses[c].entity.0 >= world.next_entity,
{
    let count = world.agents.len() as int;
    let e = world.agents[i].entity;
    let fate = fates(world.agents, delta_time, life, count);
    let rot = decay(world.corpses, delta_time, world.corpses.len() as int);
    let own = fates(world.agents, delta_time, life, i).deaths.len() as int;
    lemma_fates_grow(world.agents, delta_time, life, i, i + 1);
    lemma_fates_grow(world.agents, delta_time, life, i + 1, count);
    lemma_deaths_ordered(world.agents, delta_time, life, world.next_entity, count);
    assert(fates(world.agents, delta_time, life, i + 1).deaths[own] == e);
    assert(fate.deaths[own] == e);
    assert(fate.deaths.contains(e));
    let old = aged(world, delta_time, life);
    assert(agent_ids(old.agents) =~= agent_ids(world.agents));
    let thinned = old.without_agents(fate.deaths);
    lemma_agents_without_ids(old.agents, fate.deaths, count);
    lemma_ids_without(agent_ids(old.agents), fate.deaths, world.next_entity, count);
    let cleared = thinned.without_corpses(rot.gone);
    let buried = cleared.with_corpses(fate.graves);
    crate::world::lemma_with_corpses_frame(cleared, fate.graves);
    let grown = buried.with_livings(fate.births);
    crate::world::lemma_with_livings_frame(buried, fate.births);
    let after = grown.with_foods(rot.sprouts);
    crate::world::lemma_with_foods_frame(grown, rot.sprouts);
    assert(after == after_life(world, delta_time, life));
    assert forall|k: int| 0 <= k < after.agents.len() implies agent_ids(after.agents)[k] != e by {
        if k < thinned.agents.len() {
            assert(grown.agents[k] == grown.agents.take(buried.agents.len() as int)[k]);
            assert(agent_ids(thinned.agents)[k] == thinned.agents[k].entity);
            assert(!fate.deaths.contains(agent_ids(thinned.agents)[k]));
        } else {
            assert(grown.agents[k].entity.0 >= world.next_entity);
            assert(agent_ids(world.agents)[i] == e);
        }
    }
    if after.has_room() {
        crate::world::lemma_with_corpses_exact(cleared, fate.graves);
        let c = cleared.corpses.len() + own;
        assert(buried.corpses[c] == crate::world::corpses_numbered(
            fate.graves,
            cleared.next_entity,
        )[own]);
        assert(after.corpses[c].position == world.agents[i].position);
    }
}

/// What the decay took and gave among the first `m` corpses stays what it
/// is when more corpses are counted in; there is one food source per corpse.
pub proof fn lemma_decay_grows(corpses: Seq<Corpse>, delta_time: Fixed, m: int, n: int)
    requires
        0 <= m <= n,
    ensures
        decay(corpses, delta_time, n).gone.len() == decay(corpses, delta_time, n).sprouts.len(),
        decay(corpses, delta_time, m).gone.len() <= decay(corpses, delta_time, n).gone.len(),
        forall|k: int|
            0 <= k < decay(corpses, delta_time, m).gone.len() ==> {
                &&& (#[trigger] decay(corpses, delta_time, n).gone[k]) == decay(
                    corpses,
                    delta_time,
                    m,
                ).gone[k]
                &&& decay(corpses, delta_time, n).sprouts[k] == decay(
                    corpses,
                    delta_time,
                    m,
                ).sprouts[k]
            },
    decreases n,
{
    if n > 0 {
        if m < n {
            lemma_decay_grows(corpses, delta_time, m, n - 1);
        }
        lemma_decay_grows(corpses, delta_time, n - 1, n - 1);
    }
}

/// The corpses whose decay has ended are in the order of their identifiers,
/// so that none is counted twice.
pub proof fn lemma_gone_ordered(corpses: Seq<Corpse>, delta_time: Fixed, bound: u64, n: int)
    requires
        ordered_below(corpse_ids(corpses), bound),
        0 <= n <= corpses.len(),
    ensures
        ordered_below(decay(corpses, delta_time, n).gone, bound),
        forall|k: int|
            #![trigger decay(corpses, delta_time, n).gone[k]]
            0 <= k < decay(corpses, delta_time, n).gone.len() && n < corpses.len() ==> decay(
                corpses,
                delta_time,
                n,
            ).gone[k].0 < corpses[n].entity.0,
    decreases n,
{
    if n > 0 {
        lemma_gone_ordered(corpses, delta_time, bound, n - 1);
        let before = decay(corpses, delta_time, n - 1).gone;
        let now = decay(corpses, delta_time, n).gone;
        let ids = corpse_ids(corpses);
        assert(ids[n - 1] == corpses[n - 1].entity);
        if n < corpses.len() {
            assert(ids[n] == corpses[n].entity);
        }
        assert forall|i: int, j: int| 0 <= i < j < now.len() implies now[i].0 < now[j].0 by {
            if j < before.len() {
                assert(now[i] == before[i] && now[j] == before[j]);
            } else {
                assert(now[i] == before[i]);
            }
        }
        assert forall|k: int| 0 <= k < now.len() implies (#[trigger] now[k]).0 < bound by {
            if k < before.len() {
                assert(now[k] == before[k]);
            }
        }
        assert forall|k: int|
            #![trigger now[k]]
            0 <= k < now.len() && n < corpses.len() implies now[k].0 < corpses[n].entity.0 by {
            if k < before.len() {
                assert(now[k] == before[k]);
            }
        }
    }
}

/// A corpse whose decay ends in a tick is gone from the world after it, and
/// exactly one of the food sources that the tick brings is what is left of
/// it: it lies where the corpse lay and holds as much as the corpse had
/// flesh. Unless the world has run out of identifiers, that food is in the
/// world after the tick.
pub proof fn lemma_decayed_corpse_turns_into_food(
    world: WorldView,
    delta_time: Fixed,
    life: Seq<LifeRolls>,
    j: int,
)
    requires
        world.wf(),
        0 <= j < world.corpses.len(),
        decayed(world.corpses[j], delta_time).state.decay_timer <= 0,
    ensures
        !corpse_ids(after_life(world, delta_time, life).corpses).contains(
            world.corpses[j].entity,
        ),
        ({
            let rot = decay(world.corpses, delta_time, world.corpses.len() as int);
            let own = decay(world.corpses, delta_time, j).gone.len() as int;
            &&& rot.sprouts.len() == rot.gone.len()
            &&& 0 <= own < rot.gone.len()
            &&& rot.gone[own] == world.corpses[j].entity
            &&& rot.sprouts[own].position == world.corpses[j].position
            &&& rot.sprouts[own].amount.0 == world.corpses[j].state.flesh_amount
            &&& forall|k: int|
                0 <= k < rot.gone.len() && rot.gone[k] == world.corpses[j].entity ==> k == own
        }),
        after_life(world, delta_time, life).has_room() ==> exists|f: int|
            0 <= f < after_life(world, delta_time, life).foods.len() && (#[trigger] after_life(
                world,
                delta_time,
                life,
            ).foods[f]).position == world.corpses[j].position && after_life(
                world,
                delta_time,
                life,
            ).foods[f].amount.0 == world.corpses[j].state.flesh_amount && after_life(
                world,
                delta_time,
                life,
            ).foods[f].entity.0 >= world.next_entity,
{
    let count = world.corpses.len() as int;
    let e = world.corpses[j].entity;
    let fate = fates(world.agents, delta_time, life, world.agents.len() as int);
    let rot = decay(world.corpses, delta_time, count);
    let own = decay(world.corpses, delta_time, j).gone.len() as int;
    lemma_decay_grows(world.corpses, delta_time, j, j + 1);
    lemma_decay_grows(world.corpses, delta_time, j + 1, count);
    lemma_gone_ordered(world.corpses, delta_time, world.next_entity, count);
    assert(decay(world.corpses, delta_time, j + 1).gone[own] == e);
    assert(rot.gone[own] == e);
    assert(rot.gone.contains(e));
    let old = aged(world, delta_time, life);
    assert(corpse_ids(old.corpses) =~= corpse_ids(world.corpses));
    let thinned = old.without_agents(fate.deaths);
    let cleared = thinned.without_corpses(rot.gone);
    crate::world::lemma_corpses_without_ids(old.corpses, rot.gone, count);
    lemma_ids_without(corpse_ids(old.corpses), rot.gone, world.next_entity, count);
    let buried = cleared.with_corpses(fate.graves);
    crate::world::lemma_with_corpses_frame(cleared, fate.graves);
    crate::world::lemma_with_corpses_new(cleared, fate.graves);
    let grown = buried.with_livings(fate.births);
    crate::world::lemma_with_livings_frame(buried, fate.births);
    let after = grown.with_foods(rot.sprouts);
    crate::world::lemma_with_foods_frame(grown, rot.sprouts);
    assert(after == after_life(world, delta_time, life));
    assert forall|k: int| 0 <= k < after.corpses.len() implies corpse_ids(after.corpses)[k]
        != e by {
        if k < cleared.corpses.len() {
            assert(buried.corpses[k] == buried.corpses.take(cleared.corpses.len() as int)[k]);
            assert(corpse_ids(cleared.corpses)[k] == cleared.corpses[k].entity);
            assert(!rot.gone.contains(corpse_ids(cleared.corpses)[k]));
        } else {
            assert(buried.corpses[k].entity.0 >= world.next_entity);
            assert(corpse_ids(world.corpses)[j] == e);
        }
    }
    if after.has_room() {
        crate::world::lemma_with_foods_exact(grown, rot.sprouts);
        let f = grown.foods.len() + own;
        assert(after.foods[f] == crate::world::foods_numbered(rot.sprouts, grown.next_entity)[own]);
    }
}

/// A tick of its life leaves a sound entity sound.
pub proof fn lemma_lived_sound(me: LivingView, delta_time: Fixed, rolls: LifeRollsView)
    requires
        sound(me),
    ensures
        sound(lived(me, delta_time, rolls)),
        sound(metabolized(me, delta_time, rolls.social)),
{
}

/// The newborn of sound mothers are sound.
pub proof fn lemma_births_sound(
    agents: Seq<LivingView>,
    delta_time: Fixed,
    rolls: Seq<LifeRolls>,
    n: int,
)
    requires
        all_sound(agents),
        0 <= n <= agents.len(),
    ensures
        all_sound(fates(agents, delta_time, rolls, n).births),
    decreases n,
{
    if n > 0 {
        lemma_births_sound(agents, delta_time, rolls, n - 1);
        let before = fates(agents, delta_time, rolls, n - 1).births;
        let now = fates(agents, delta_time, rolls, n).births;
        let one = life_rolls_at(rolls, n - 1);
        let older = metabolized(agents[n - 1], delta_time, one.social);
        lemma_lived_sound(agents[n - 1], delta_time, one);
        assert forall|i: int| 0 <= i < now.len() implies sound(#[trigger] now[i]) by {
            if i < before.len() {
                assert(now[i] == before[i]);
            } else {
                let father = older.needs.partner_genes.unwrap();
                crate::components::lemma_child_is_mean(
                    older.genes,
                    father,
                    gender_at(one.genders, i - before.len()),
                );
            }
        }
    }
}

/// The pairing leaves sound entities sound.
pub proof fn lemma_pairing_sound(agents: Seq<LivingView>, rolls: Seq<PairRolls>, n: int)
    requires
        all_sound(agents),
        0 <= n <= agents.len(),
    ensures
        all_sound(pairing_pass(agents, rolls, n)),
        pairing_pass(agents, rolls, n).len() == agents.len(),
    decreases n,
{
    if n > 0 {
        lemma_pairing_sound(agents, rolls, n - 1);
        let before = pairing_pass(agents, rolls, n - 1);
        crate::reproduction::lemma_mate_below(before, n - 1, before.len() as int);
        let now = pairing_pass(agents, rolls, n);
        assert forall|i: int| 0 <= i < now.len() implies sound(#[trigger] now[i]) by {
            assert(sound(before[i]));
            if let Some(j) = crate::reproduction::mate_below(before, n - 1, before.len() as int) {
                assert(sound(before[j]));
                assert(sound(before[n - 1]));
            }
        }
    }
}

/// A tick of metabolism, the life cycle and the pairing keeps what holds of
/// every living entity that the simulation has made: no trait is negative,
/// and an entity is pregnant only while it has a partner.
pub proof fn lemma_update_keeps_soundness(
    world: WorldView,
    delta_time: Fixed,
    life: Seq<LifeRolls>,
    pairing: Seq<PairRolls>,
)
    requires
        all_sound(world.agents),
    ensures
        all_sound(after_update(world, delta_time, life, pairing).agents),
{
    let fate = fates(world.agents, delta_time, life, world.agents.len() as int);
    let rot = decay(world.corpses, delta_time, world.corpses.len() as int);
    let old = aged(world, delta_time, life);
    assert forall|i: int| 0 <= i < old.agents.len() implies sound(#[trigger] old.agents[i]) by {
        assert(sound(world.agents[i]));
        lemma_lived_sound(world.agents[i], delta_time, life_rolls_at(life, i));
    }
    let thinned = old.without_agents(fate.deaths);
    crate::world::lemma_agents_without_subset(old.agents, fate.deaths, old.agents.len() as int);
    assert forall|k: int| 0 <= k < thinned.agents.len() implies sound(
        #[trigger] thinned.agents[k],
    ) by {
        let j = choose|j: int| 0 <= j < old.agents.len() && thinned.agents[k] == old.agents[j];
        assert(sound(old.agents[j]));
    }
    let cleared = thinned.without_corpses(rot.gone);
    let buried = cleared.with_corpses(fate.graves);
    crate::world::lemma_with_corpses_frame(cleared, fate.graves);
    let grown = buried.with_livings(fate.births);
    crate::world::lemma_with_livings_frame(buried, fate.births);
    lemma_births_sound(world.agents, delta_time, life, world.agents.len() as int);
    assert forall|k: int| 0 <= k < grown.agents.len() implies sound(#[trigger] grown.agents[k]) by {
        if k < buried.agents.len() {
            assert(grown.agents[k] == grown.agents.take(buried.agents.len() as int)[k]);
            assert(sound(buried.agents[k]));
        } else {
            let c = choose|c: int|
                0 <= c < fate.births.len() && grown.agents[k] == (LivingView {
                    entity: grown.agents[k].entity,
                    ..#[trigger] fate.births[c]
                });
            assert(sound(fate.births[c]));
        }
    }
    let fed = grown.with_foods(rot.sprouts);
    crate::world::lemma_with_foods_frame(grown, rot.sprouts);
    assert(fed == after_life(world, delta_time, life));
    lemma_pairing_sound(fed.agents, pairing, fed.agents.len() as int);
}

} // verus!
