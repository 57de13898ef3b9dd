//! The data of the simulation: identifiers, genes, needs, perception and the
//! records of the three kinds of world object.

use crate::fixed::{average, midpoint, minus, plus, Fixed, ONE};
use crate::random::{draw_between, draw_coin, draw_count};
use crate::vector::Vector;
use vstd::prelude::*;

verus! {

/// By how much sociality varies within a species.
pub const SOCIALITY_SPREAD: Fixed = 100_000;

/// By how much vision range and wander radius vary within a species.
pub const RANGE_SPREAD: Fixed = 100_000_000;

/// The upper end of the hunger scale.
pub const MAX_HUNGER: Fixed = 100_000_000;

/// The decay timer of a fresh corpse.
pub const FRESH_DECAY_TIMER: Fixed = 100_000_000;

/// The identifier of a world object. An identifier may be stale: the object
/// it named may have left the world.
#[derive(Clone, Copy, PartialEq, Eq, Structural, Debug, Hash)]
pub struct Entity(pub u64);

impl Entity {
    /// The identifier of a record that has not entered a world yet.
    pub open spec fn unassigned() -> Entity {
        Entity(u64::MAX)
    }

    /// The identifier that a freshly made record carries until a world gives it its own.
    pub fn placeholder() -> (e: Entity)
        ensures
            e == Entity::unassigned(),
    {
        Entity(u64::MAX)
    }
}

/// The factor by which every tick's elapsed time is stretched.
#[derive(Clone, Copy, PartialEq, Eq, Structural, Debug)]
pub struct SimulationSpeed(pub Fixed);

/// The age of a living entity, in simulated seconds.
#[derive(Clone, Copy, PartialEq, Eq, Structural, Debug)]
pub struct Age(pub Fixed);

/// Where a world object is.
#[derive(Clone, Copy, PartialEq, Eq, Structural, Debug)]
pub struct Position(pub Vector);

/// How much can still be eaten of a food source.
#[derive(Clone, Copy, PartialEq, Eq, Structural, Debug)]
pub struct FoodAmount(pub Fixed);

/// The species a living entity belongs to.
#[derive(Clone, Copy, PartialEq, Eq, Structural, Debug)]
pub struct SpeciesId(pub u32);

/// What a living entity is currently doing.
#[derive(Clone, Copy, PartialEq, Eq, Structural, Debug)]
pub enum BehaviorState {
    SeekFood,
    Sleep,
    Wander,
}

/// Whether a living entity grazes or hunts.
#[derive(Clone, Copy, PartialEq, Eq, Structural, Debug)]
pub enum Role {
    Prey,
    Predator,
}

/// The inherited traits of a living entity. They never change after birth.
#[derive(Clone, Copy, PartialEq, Eq, Structural, Debug)]
pub struct Genes {
    /// 0 is an introvert, 1 an extrovert.
    pub sociality: Fixed,
    /// How often the wander target changes.
    pub curiosity: Fixed,
    /// How readily it goes for food.
    pub greed: Fixed,
    /// How much it prefers resting to exploring.
    pub laziness: Fixed,
    pub vision_range: Fixed,
    pub wander_radius: Fixed,
    pub max_speed: Fixed,
    /// How much it eats in one bite.
    pub bite_size: Fixed,
    /// Hunger gained per second.
    pub hunger_rate: Fixed,
    pub max_age: Fixed,
    /// `true` is female, `false` male.
    pub gender: bool,
    pub max_offspring_count: u32,
    pub can_produce_food: bool,
}

impl Genes {
    /// Every continuous trait is non-negative.
    pub open spec fn wf(self) -> bool {
        &&& self.sociality >= 0
        &&& self.curiosity >= 0
        &&& self.greed >= 0
        &&& self.laziness >= 0
        &&& self.vision_range >= 0
        &&& self.wander_radius >= 0
        &&& self.max_speed >= 0
        &&& self.bite_size >= 0
        &&& self.hunger_rate >= 0
        &&& self.max_age >= 0
    }

    /// The ranges from which the genes of a founder are drawn. A male founder
    /// bears no offspring and produces no food.
    pub open spec fn founder(self) -> bool {
        &&& 0 <= self.sociality < ONE
        &&& 0 <= self.curiosity < ONE
        &&& 0 <= self.greed < ONE
        &&& 0 <= self.laziness < ONE
        &&& 300 * ONE <= self.vision_range < 500 * ONE
        &&& 300 * ONE <= self.wander_radius < 600 * ONE
        &&& 5 * ONE <= self.max_speed < 10 * ONE
        &&& ONE <= self.bite_size < 10 * ONE
        &&& ONE / 2 <= self.hunger_rate < ONE
        &&& 100 * ONE <= self.max_age < 300 * ONE
        &&& self.gender ==> 1 <= self.max_offspring_count < 10
        &&& !self.gender ==> self.max_offspring_count == 0 && !self.can_produce_food
    }

    /// The child of `self` (the mother) and `father` with the given gender:
    /// every numeric trait is the mean of the parents', and the child can
    /// produce food where either parent can.
    pub open spec fn crossed(self, father: Genes, gender: bool) -> Genes {
        Genes {
            sociality: midpoint(self.sociality, father.sociality),
            curiosity: midpoint(self.curiosity, father.curiosity),
            greed: midpoint(self.greed, father.greed),
            laziness: midpoint(self.laziness, father.laziness),
            vision_range: midpoint(self.vision_range, father.vision_range),
            wander_radius: midpoint(self.wander_radius, father.wander_radius),
            max_speed: midpoint(self.max_speed, father.max_speed),
            bite_size: midpoint(self.bite_size, father.bite_size),
            hunger_rate: midpoint(self.hunger_rate, father.hunger_rate),
            max_age: midpoint(self.max_age, father.max_age),
            gender,
            max_offspring_count: ((self.max_offspring_count + father.max_offspring_count)
                / 2) as u32,
            can_produce_food: self.can_produce_food || father.can_produce_food,
        }
    }

    /// A variation of `self` in the three traits that vary within a species,
    /// with the given gender.
    pub open spec fn varied(
        self,
        sociality: Fixed,
        vision_range: Fixed,
        wander_radius: Fixed,
        gender: bool,
    ) -> Genes {
        Genes { sociality, vision_range, wander_radius, gender, ..self }
    }

    /// Whether `value` may come out when a trait `base` is varied by up to `spread`:
    /// it lies in `[base - spread, base + spread)` and is not negative.
    pub open spec fn within_spread(value: Fixed, base: Fixed, spread: Fixed) -> bool {
        let lo = if base - spread < 0 {
            0
        } else {
            base - spread
        };
        let hi = crate::fixed::sum(base, spread);
        if lo < hi {
            lo <= value < hi
        } else {
            value == lo
        }
    }

    /// Crossover with the child's gender given.
    pub fn crossover(&self, father: &Genes, gender: bool) -> (child: Genes)
        ensures
            child == self.crossed(*father, gender),
    {
        let count: u64 = (self.max_offspring_count as u64 + father.max_offspring_count as u64) / 2;
        Genes {
            sociality: average(self.sociality, father.sociality),
            curiosity: average(self.curiosity, father.curiosity),
            greed: average(self.greed, father.greed),
            laziness: average(self.laziness, father.laziness),
            vision_range: average(self.vision_range, father.vision_range),
            wander_radius: average(self.wander_radius, father.wander_radius),
            max_speed: average(self.max_speed, father.max_speed),
            bite_size: average(self.bite_size, father.bite_size),
            hunger_rate: average(self.hunger_rate, father.hunger_rate),
            max_age: average(self.max_age, father.max_age),
            gender,
            max_offspring_count: count as u32,
            can_produce_food: self.can_produce_food || father.can_produce_food,
        }
    }

    /// Crossover of `self` (the mother) with `father`; the child's gender is drawn at random.
    pub fn mutate(&self, father: &Genes) -> (child: Genes)
        ensures
            child == self.crossed(*father, child.gender),
    {
        let gender = draw_coin();
        self.crossover(father, gender)
    }

    /// A random variation of `self`: sociality moves by up to a tenth, vision
    /// range and wander radius by up to a hundred units, never below zero;
    /// the gender is drawn afresh and the rest is kept.
    pub fn random_variation(&self) -> (g: Genes)
        ensures
            g == self.varied(g.sociality, g.vision_range, g.wander_radius, g.gender),
            Genes::within_spread(g.sociality, self.sociality, SOCIALITY_SPREAD),
            Genes::within_spread(g.vision_range, self.vision_range, RANGE_SPREAD),
            Genes::within_spread(g.wander_radius, self.wander_radius, RANGE_SPREAD),
            self.wf() ==> g.wf(),
    {
        let sociality = vary(self.sociality, SOCIALITY_SPREAD);
        let vision_range = vary(self.vision_range, RANGE_SPREAD);
        let wander_radius = vary(self.wander_radius, RANGE_SPREAD);
        let gender = draw_coin();
        Genes {
            sociality,
            curiosity: self.curiosity,
            greed: self.greed,
            laziness: self.laziness,
            vision_range,
            wander_radius,
            max_speed: self.max_speed,
            bite_size: self.bite_size,
            hunger_rate: self.hunger_rate,
            max_age: self.max_age,
            gender,
            max_offspring_count: self.max_offspring_count,
            can_produce_food: self.can_produce_food,
        }
    }
}

/// Every continuous trait of a child is the mean of its parents' traits,
/// whatever its gender; it can produce food exactly where one of its parents can.
pub proof fn lemma_child_is_mean(mother: Genes, father: Genes, gender: bool)
    requires
        mother.wf(),
        father.wf(),
    ensures
        mother.crossed(father, gender).sociality == (mother.sociality + father.sociality) / 2,
        mother.crossed(father, gender).curiosity == (mother.curiosity + father.curiosity) / 2,
        mother.crossed(father, gender).greed == (mother.greed + father.greed) / 2,
        mother.crossed(father, gender).laziness == (mother.laziness + father.laziness) / 2,
        mother.crossed(father, gender).vision_range == (mother.vision_range
            + father.vision_range) / 2,
        mother.crossed(father, gender).wander_radius == (mother.wander_radius
            + father.wander_radius) / 2,
        mother.crossed(father, gender).max_speed == (mother.max_speed + father.max_speed) / 2,
        mother.crossed(father, gender).bite_size == (mother.bite_size + father.bite_size) / 2,
        mother.crossed(father, gender).hunger_rate == (mother.hunger_rate + father.hunger_rate)
            / 2,
        mother.crossed(father, gender).max_age == (mother.max_age + father.max_age) / 2,
        mother.crossed(father, gender).max_offspring_count == (mother.max_offspring_count
            + father.max_offspring_count) / 2,
        mother.crossed(father, gender).can_produce_food == (mother.can_produce_food
            || father.can_produce_food),
        mother.crossed(father, gender).gender == gender,
        mother.crossed(father, gender).wf(),
{
}

/// Draws a value around `base`, at most `spread` away and not below zero.
fn vary(base: Fixed, spread: Fixed) -> (r: Fixed)
    requires
        spread >= 0,
    ensures
        Genes::within_spread(r, base, spread),
        r >= 0,
{
    let below = minus(base, spread);
    let lo = if below < 0 {
        0
    } else {
        below
    };
    draw_between(lo, plus(base, spread))
}

impl Default for Genes {
    /// The genes of a founder, drawn at random.
    fn default() -> (g: Genes)
        ensures
            g.founder(),
            g.wf(),
    {
        let gender = draw_coin();
        Genes {
            sociality: draw_between(0, 1_000_000),
            vision_range: draw_between(300_000_000, 500_000_000),
            laziness: draw_between(0, 1_000_000),
            greed: draw_between(0, 1_000_000),
            curiosity: draw_between(0, 1_000_000),
            wander_radius: draw_between(300_000_000, 600_000_000),
            bite_size: draw_between(1_000_000, 10_000_000),
            max_speed: draw_between(5_000_000, 10_000_000),
            hunger_rate: draw_between(500_000, 1_000_000),
            max_age: draw_between(100_000_000, 300_000_000),
            gender,
            max_offspring_count: if gender {
                draw_count(1, 10)
            } else {
                0
            },
            can_produce_food: if gender {
                draw_coin()
            } else {
                false
            },
        }
    }
}

/// The state of a corpse.
#[derive(Clone, Copy, PartialEq, Eq, Structural, Debug)]
pub struct CorpseState {
    /// How much flesh is left.
    pub flesh_amount: Fixed,
    /// How fast the corpse decays.
    pub decay_rate: Fixed,
    /// What is left of the decay; the corpse turns into food when it runs out.
    pub decay_timer: Fixed,
}

/// The mutable state of a living entity.
#[derive(Clone, Copy, PartialEq, Eq, Structural, Debug)]
pub struct Needs {
    pub sanity: Fixed,
    pub hunger: Fixed,
    pub energy: Fixed,
    /// The entity that gave birth to this one.
    pub mother: Option<Entity>,
    /// While pregnant, the time until birth; afterwards, the time until she can conceive again.
    pub pregnancy_timer: Fixed,
    pub pregnant: bool,
    pub mating_timer: Fixed,
    pub partner: Option<Entity>,
    pub partner_genes: Option<Genes>,
    /// How long the pair stays together.
    pub partner_timer: Fixed,
    pub mate_ready: bool,
}

impl Needs {
    /// The needs of a newborn: sane, sated and full of energy.
    pub open spec fn initial() -> Needs {
        Needs {
            sanity: ONE,
            hunger: 0,
            energy: ONE,
            mother: None,
            pregnancy_timer: 0,
            pregnant: false,
            mating_timer: 0,
            partner: None,
            partner_genes: None,
            partner_timer: 0,
            mate_ready: false,
        }
    }

    /// Hunger lies in `[0, 100]`, energy and sanity in `[0, 1]`.
    pub open spec fn within_bounds(self) -> bool {
        &&& 0 <= self.hunger <= MAX_HUNGER
        &&& 0 <= self.energy <= ONE
        &&& 0 <= self.sanity <= ONE
    }

    /// An entity is pregnant only while it has a partner, whose genes it holds.
    pub open spec fn bonded(self) -> bool {
        self.pregnant ==> self.partner is Some && self.partner_genes is Some
    }
}

impl Default for Needs {
    fn default() -> (needs: Needs)
        ensures
            needs == Needs::initial(),
    {
        Needs {
            sanity: 1_000_000,
            hunger: 0,
            energy: 1_000_000,
            mother: None,
            pregnancy_timer: 0,
            pregnant: false,
            mating_timer: 0,
            partner: None,
            partner_genes: None,
            partner_timer: 0,
            mate_ready: false,
        }
    }
}

/// What a living entity currently notices. It is overwritten by every sense cycle.
#[derive(Clone, Debug)]
pub struct Perception {
    pub target_food: Option<Entity>,
    /// The point it wanders to.
    pub target_position: Option<Vector>,
    /// Points to move away from, each with a strength.
    pub repulsions: Vec<(Vector, Fixed)>,
    /// Points to move toward, each with a strength.
    pub attractions: Vec<(Vector, Fixed)>,
    pub time_since_last_sense: Fixed,
    pub time_since_last_target: Fixed,
}

/// The mathematical content of a [`Perception`].
pub struct PerceptionView {
    pub target_food: Option<Entity>,
    pub target_position: Option<Vector>,
    pub repulsions: Seq<(Vector, Fixed)>,
    pub attractions: Seq<(Vector, Fixed)>,
    pub time_since_last_sense: Fixed,
    pub time_since_last_target: Fixed,
}

impl PerceptionView {
    /// The perception of an entity that has not sensed anything yet.
    pub open spec fn blank() -> PerceptionView {
        PerceptionView {
            target_food: None,
            target_position: None,
            repulsions: Seq::empty(),
            attractions: Seq::empty(),
            time_since_last_sense: 0,
            time_since_last_target: 0,
        }
    }
}

impl View for Perception {
    type V = PerceptionView;

    open spec fn view(&self) -> PerceptionView {
        PerceptionView {
            target_food: self.target_food,
            target_position: self.target_position,
            repulsions: self.repulsions@,
            attractions: self.attractions@,
            time_since_last_sense: self.time_since_last_sense,
            time_since_last_target: self.time_since_last_target,
        }
    }
}

impl Default for Perception {
    fn default() -> (perception: Perception)
        ensures
            perception@ == PerceptionView::blank(),
    {
        Perception {
            target_food: None,
            target_position: None,
            repulsions: Vec::new(),
            attractions: Vec::new(),
            time_since_last_sense: 0,
            time_since_last_target: 0,
        }
    }
}

/// A species: the two sets of genes between which its members' genes are drawn.
#[derive(Clone, Copy, PartialEq, Eq, Structural, Debug)]
pub struct Species {
    pub id: SpeciesId,
    pub genetic_min: Genes,
    pub genetic_max: Genes,
}

impl Species {
    /// The genes of a new member: the crossing of the two bounds, with a gender drawn at random.
    pub fn random_gene(&self) -> (g: Genes)
        ensures
            g == self.genetic_min.crossed(self.genetic_max, g.gender),
    {
        self.genetic_min.mutate(&self.genetic_max)
    }
}

/// A food source.
#[derive(Clone, Copy, PartialEq, Eq, Structural, Debug)]
pub struct Food {
    pub entity: Entity,
    pub position: Position,
    pub amount: FoodAmount,
}

/// The remains of a living entity.
#[derive(Clone, Copy, PartialEq, Eq, Structural, Debug)]
pub struct Corpse {
    pub entity: Entity,
    pub position: Position,
    pub state: CorpseState,
}

/// An entity and where it is: what the spatial grid is built from.
#[derive(Clone, Copy, PartialEq, Eq, Structural, Debug)]
pub struct WorldObject {
    pub entity: Entity,
    pub position: Position,
}

/// A living entity: a prey or a predator.
#[derive(Clone, Debug)]
pub struct LivingEntity {
    pub entity: Entity,
    pub role: Role,
    pub position: Position,
    pub behavior: BehaviorState,
    pub genes: Genes,
    pub perception: Perception,
    pub age: Age,
    pub needs: Needs,
    pub species: SpeciesId,
    /// What a hunter can eat of it while it lives, if anything.
    pub food_amount: Option<FoodAmount>,
}

/// The mathematical content of a [`LivingEntity`].
pub struct LivingView {
    pub entity: Entity,
    pub role: Role,
    pub position: Position,
    pub behavior: BehaviorState,
    pub genes: Genes,
    pub perception: PerceptionView,
    pub age: Age,
    pub needs: Needs,
    pub species: SpeciesId,
    pub food_amount: Option<FoodAmount>,
}

impl View for LivingEntity {
    type V = LivingView;

    open spec fn view(&self) -> LivingView {
        LivingView {
            entity: self.entity,
            role: self.role,
            position: self.position,
            behavior: self.behavior,
            genes: self.genes,
            perception: self.perception@,
            age: self.age,
            needs: self.needs,
            species: self.species,
            food_amount: self.food_amount,
        }
    }
}

impl LivingView {
    /// A newborn of the given role at `pos`: it wanders, has sensed nothing,
    /// and has no identifier of its own yet.
    pub open spec fn newborn(role: Role, pos: Vector, species: SpeciesId, genes: Genes)
        -> LivingView {
        LivingView {
            entity: Entity::unassigned(),
            role,
            position: Position(pos),
            behavior: BehaviorState::Wander,
            genes,
            perception: PerceptionView::blank(),
            age: Age(0),
            needs: Needs::initial(),
            species,
            food_amount: None,
        }
    }
}

/// The decay of a fresh corpse: it starts at a hundred and falls by one per second.
pub open spec fn fresh_corpse_state(flesh_amount: Fixed) -> CorpseState {
    CorpseState { flesh_amount, decay_rate: ONE, decay_timer: FRESH_DECAY_TIMER }
}

/// A food source of the given amount at `pos`, not yet in a world.
pub fn create_food(pos: Vector, amount: Fixed) -> (food: Food)
    ensures
        food == (Food {
            entity: Entity::unassigned(),
            position: Position(pos),
            amount: FoodAmount(amount),
        }),
{
    Food { entity: Entity::placeholder(), position: Position(pos), amount: FoodAmount(amount) }
}

/// A newborn prey at `pos`, not yet in a world.
pub fn create_prey(pos: Vector, species_id: SpeciesId, gene: Genes) -> (prey: LivingEntity)
    ensures
        prey@ == LivingView::newborn(Role::Prey, pos, species_id, gene),
{
    create_living(Role::Prey, pos, species_id, gene)
}

/// A newborn predator at `pos`, not yet in a world.
pub fn create_predator(pos: Vector, species_id: SpeciesId, gene: Genes) -> (predator:
    LivingEntity)
    ensures
        predator@ == LivingView::newborn(Role::Predator, pos, species_id, gene),
{
    create_living(Role::Predator, pos, species_id, gene)
}

fn create_living(role: Role, pos: Vector, species: SpeciesId, genes: Genes) -> (living:
    LivingEntity)
    ensures
        living@ == LivingView::newborn(role, pos, species, genes),
{
    LivingEntity {
        entity: Entity::placeholder(),
        role,
        position: Position(pos),
        behavior: BehaviorState::Wander,
        genes,
        perception: Perception::default(),
        age: Age(0),
        needs: Needs::default(),
        species,
        food_amount: None,
    }
}

/// A fresh corpse with the given flesh at `pos`, not yet in a world.
pub fn create_corpse(pos: Vector, flesh_amount: Fixed) -> (corpse: Corpse)
    ensures
        corpse == (Corpse {
            entity: Entity::unassigned(),
            position: Position(pos),
            state: fresh_corpse_state(flesh_amount),
        }),
{
    Corpse {
        entity: Entity::placeholder(),
        position: Position(pos),
        state: CorpseState { flesh_amount, decay_rate: ONE, decay_timer: FRESH_DECAY_TIMER },
    }
}

} // verus!
