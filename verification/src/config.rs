//! Saved states: the flat list of records in which a world is kept, and how
//! a world is made of such a list again.
//!
//! A record names the kind of its entity and what it was doing in letters. A
//! name of a behavior that is not known is read as sleep.

use crate::components::{
    create_food, create_prey, BehaviorState, Entity, Food, FoodAmount, Genes, LivingView, Needs,
    Position, Role, SpeciesId,
};
use crate::fixed::Fixed;
use crate::presentation::{color_of, food_color, green, living_color, Color};
use crate::random::draw_between;
use crate::vector::Vector;
use crate::world::{World, WorldView};
use vstd::prelude::*;

verus! {

/// The least amount of a food source that is made without one being given.
pub const LEAST_FOOD: Fixed = 10_000_000;

/// The bound that this amount stays below.
pub const MOST_FOOD: Fixed = 100_000_000;

/// `SeekFood`, in the bytes of its letters.
pub open spec fn seek_food_name() -> Seq<u8> {
    seq![83u8, 101u8, 101u8, 107u8, 70u8, 111u8, 111u8, 100u8]
}

/// `Sleep`, in the bytes of its letters.
pub open spec fn sleep_name() -> Seq<u8> {
    seq![83u8, 108u8, 101u8, 101u8, 112u8]
}

/// `Wander`, in the bytes of its letters.
pub open spec fn wander_name() -> Seq<u8> {
    seq![87u8, 97u8, 110u8, 100u8, 101u8, 114u8]
}

/// `Prey`, in the bytes of its letters.
pub open spec fn prey_name() -> Seq<u8> {
    seq![80u8, 114u8, 101u8, 121u8]
}

/// `Food`, in the bytes of its letters.
pub open spec fn food_name() -> Seq<u8> {
    seq![70u8, 111u8, 111u8, 100u8]
}

/// The name under which a behavior is saved.
pub open spec fn name_of(state: BehaviorState) -> Seq<u8> {
    match state {
        BehaviorState::SeekFood => seek_food_name(),
        BehaviorState::Sleep => sleep_name(),
        BehaviorState::Wander => wander_name(),
    }
}

/// Whether `name` is the name of a behavior.
pub open spec fn is_behavior_name(name: Seq<u8>) -> bool {
    name == seek_food_name() || name == sleep_name() || name == wander_name()
}

/// The behavior that a saved name stands for; sleep for a name that is not known.
pub open spec fn behavior_named(name: Seq<u8>) -> BehaviorState {
    if name == seek_food_name() {
        BehaviorState::SeekFood
    } else if name == wander_name() {
        BehaviorState::Wander
    } else {
        BehaviorState::Sleep
    }
}

/// The record of one entity in a saved state.
#[derive(Clone, Debug)]
pub struct EntityConfig {
    pub position: Vector,
    /// `Prey` or `Food`.
    pub entity_type: Vec<u8>,
    pub color: Color,
    /// The hunger of a prey.
    pub hunger: Option<Fixed>,
    /// What a prey was doing: `SeekFood`, `Sleep` or `Wander`.
    pub behavior_state: Option<Vec<u8>>,
}

/// The mathematical content of an [`EntityConfig`].
pub struct EntityConfigView {
    pub position: Vector,
    pub entity_type: Seq<u8>,
    pub color: Color,
    pub hunger: Option<Fixed>,
    pub behavior_state: Option<Seq<u8>>,
}

impl View for EntityConfig {
    type V = EntityConfigView;

    open spec fn view(&self) -> EntityConfigView {
        EntityConfigView {
            position: self.position,
            entity_type: self.entity_type@,
            color: self.color,
            hunger: self.hunger,
            behavior_state: match self.behavior_state {
                Some(name) => Some(name@),
                None => None,
            },
        }
    }
}

/// The contents of a list of records.
pub open spec fn record_views(records: Seq<EntityConfig>) -> Seq<EntityConfigView> {
    Seq::new(records.len(), |i: int| records[i]@)
}

/// The record of a prey.
pub open spec fn prey_record(prey: LivingView) -> EntityConfigView {
    EntityConfigView {
        position: prey.position.0,
        entity_type: prey_name(),
        color: color_of(Role::Prey),
        hunger: Some(prey.needs.hunger),
        behavior_state: Some(name_of(prey.behavior)),
    }
}

/// The record of a food source.
pub open spec fn food_record(food: Food) -> EntityConfigView {
    EntityConfigView {
        position: food.position.0,
        entity_type: food_name(),
        color: green(),
        hunger: None,
        behavior_state: None,
    }
}

/// The records of the prey among the first `n` living entities, in order.
pub open spec fn prey_records(agents: Seq<LivingView>, n: int) -> Seq<EntityConfigView>
    decreases n,
{
    if n <= 0 {
        Seq::empty()
    } else if agents[n - 1].role == Role::Prey {
        prey_records(agents, n - 1).push(prey_record(agents[n - 1]))
    } else {
        prey_records(agents, n - 1)
    }
}

/// The saved state of a world: a record for each prey, then one for each food source.
pub open spec fn saved(world: WorldView) -> Seq<EntityConfigView> {
    prey_records(world.agents, world.agents.len() as int) + Seq::new(
        world.foods.len(),
        |i: int| food_record(world.foods[i]),
    )
}

/// The prey that a record of a prey stands for, with the given genes: it is
/// of the first species, as hungry as the record says, and does what the
/// record names; where the record names nothing, it wanders.
pub open spec fn prey_of(record: EntityConfigView, genes: Genes) -> LivingView {
    let fresh = LivingView::newborn(Role::Prey, record.position, SpeciesId(0), genes);
    LivingView {
        needs: match record.hunger {
            Some(hunger) => Needs { hunger, ..fresh.needs },
            None => fresh.needs,
        },
        behavior: match record.behavior_state {
            Some(name) => behavior_named(name),
            None => fresh.behavior,
        },
        ..fresh
    }
}

/// The genes for the record at place `i`; a blank set where none were given.
pub open spec fn genes_at(genes: Seq<Genes>, i: int) -> Genes {
    if 0 <= i < genes.len() {
        genes[i]
    } else {
        blank_genes()
    }
}

/// Genes that are zero in every trait.
pub open spec fn blank_genes() -> Genes {
    Genes {
        sociality: 0,
        curiosity: 0,
        greed: 0,
        laziness: 0,
        vision_range: 0,
        wander_radius: 0,
        max_speed: 0,
        bite_size: 0,
        hunger_rate: 0,
        max_age: 0,
        gender: false,
        max_offspring_count: 0,
        can_produce_food: false,
    }
}

/// The amount for the record at place `i`; the least amount where none was given.
pub open spec fn amount_at(amounts: Seq<Fixed>, i: int) -> Fixed {
    if 0 <= i < amounts.len() {
        amounts[i]
    } else {
        LEAST_FOOD
    }
}

/// The world after the first `n` records have been read: a record of a prey
/// brings a prey with the genes at its place, a record of food a food source
/// with the amount at its place, and any other record nothing.
pub open spec fn loaded(
    world: WorldView,
    records: Seq<EntityConfigView>,
    genes: Seq<Genes>,
    amounts: Seq<Fixed>,
    n: int,
) -> WorldView
    decreases n,
{
    if n <= 0 {
        world
    } else {
        let before = loaded(world, records, genes, amounts, n - 1);
        let record = records[n - 1];
        if record.entity_type == prey_name() {
            before.with_living(prey_of(record, genes_at(genes, n - 1)))
        } else if record.entity_type == food_name() {
            before.with_food(
                Food {
                    entity: Entity::unassigned(),
                    position: Position(record.position),
                    amount: FoodAmount(amount_at(amounts, n - 1)),
                },
            )
        } else {
            before
        }
    }
}

/// How many of the first `n` records name a behavior that is not known.
pub open spec fn unknown_names(records: Seq<EntityConfigView>, n: int) -> nat
    decreases n,
{
    if n <= 0 {
        0
    } else {
        unknown_names(records, n - 1) + match records[n - 1].behavior_state {
            Some(name) => if is_behavior_name(name) {
                0nat
            } else {
                1nat
            },
            None => 0nat,
        }
    }
}

/// A behavior that is saved under its name is read back as itself.
pub proof fn lemma_names_round_trip(state: BehaviorState)
    ensures
        behavior_named(name_of(state)) == state,
        is_behavior_name(name_of(state)),
{
    assert(seek_food_name().len() == 8);
    assert(sleep_name().len() == 5);
    assert(wander_name().len() == 6);
}

/// Whether two lists of bytes hold the same.
fn same_bytes(a: &Vec<u8>, b: &Vec<u8>) -> (same: bool)
    ensures
        same == (a@ == b@),
{
    if a.len() != b.len() {
        return false;
    }
    let mut i: usize = 0;
    while i < a.len()
        invariant
            i <= a.len(),
            a.len() == b.len(),
            forall|j: int| 0 <= j < i ==> a@[j] == b@[j],
        decreases a.len() - i,
    {
        if a[i] != b[i] {
            return false;
        }
        i += 1;
    }
    assert(a@ =~= b@);
    true
}

/// The name under which a behavior is saved.
pub fn behavior_state_name(state: BehaviorState) -> (name: Vec<u8>)
    ensures
        name@ == name_of(state),
{
    let name = match state {
        BehaviorState::SeekFood => vec![83u8, 101u8, 101u8, 107u8, 70u8, 111u8, 111u8, 100u8],
        BehaviorState::Sleep => vec![83u8, 108u8, 101u8, 101u8, 112u8],
        BehaviorState::Wander => vec![87u8, 97u8, 110u8, 100u8, 101u8, 114u8],
    };
    assert(name@ =~= name_of(state));
    name
}

/// The behavior that a saved name stands for, and whether the name is known.
/// A name that is not known is read as sleep.
pub fn behavior_state_from_name(name: &Vec<u8>) -> (read: (BehaviorState, bool))
    ensures
        read.0 == behavior_named(name@),
        read.1 == is_behavior_name(name@),
{
    if same_bytes(name, &behavior_state_name(BehaviorState::SeekFood)) {
        (BehaviorState::SeekFood, true)
    } else if same_bytes(name, &behavior_state_name(BehaviorState::Wander)) {
        (BehaviorState::Wander, true)
    } else {
        (BehaviorState::Sleep, same_bytes(name, &behavior_state_name(BehaviorState::Sleep)))
    }
}

/// `Prey`, in the bytes of its letters.
fn prey_type() -> (name: Vec<u8>)
    ensures
        name@ == prey_name(),
{
    let name = vec![80u8, 114u8, 101u8, 121u8];
    assert(name@ =~= prey_name());
    name
}

/// `Food`, in the bytes of its letters.
fn food_type() -> (name: Vec<u8>)
    ensures
        name@ == food_name(),
{
    let name = vec![70u8, 111u8, 111u8, 100u8];
    assert(name@ =~= food_name());
    name
}

/// The saved state of the world: a record for each prey, then one for each food source.
pub fn save_config(world: &World) -> (records: Vec<EntityConfig>)
    ensures
        record_views(records@) == saved(world@),
{
    let mut records: Vec<EntityConfig> = Vec::new();
    assert(record_views(records@) =~= prey_records(world@.agents, 0));
    let mut i: usize = 0;
    while i < world.agents.len()
        invariant
            i <= world.agents.len(),
            record_views(records@) == prey_records(world@.agents, i as int),
        decreases world.agents.len() - i,
    {
        let living = &world.agents[i];
        let is_prey = match living.role {
            Role::Prey => true,
            Role::Predator => false,
        };
        if is_prey {
            let color = living_color(Role::Prey);
            let ghost so_far = record_views(records@);
            let record = EntityConfig {
                position: living.position.0,
                entity_type: prey_type(),
                color,
                hunger: Some(living.needs.hunger),
                behavior_state: Some(behavior_state_name(living.behavior)),
            };
            assert(record@ == prey_record(world@.agents[i as int]));
            records.push(record);
            assert(record_views(records@) =~= so_far.push(prey_record(world@.agents[i as int])));
        }
        i += 1;
    }
    let ghost prey = prey_records(world@.agents, world@.agents.len() as int);
    let ghost food = Seq::new(world@.foods.len(), |i: int| food_record(world@.foods[i]));
    assert(record_views(records@) =~= prey + food.take(0));
    let mut j: usize = 0;
    while j < world.foods.len()
        invariant
            j <= world.foods.len(),
            prey == prey_records(world@.agents, world@.agents.len() as int),
            food == Seq::new(world@.foods.len(), |i: int| food_record(world@.foods[i])),
            record_views(records@) == prey + food.take(j as int),
        decreases world.foods.len() - j,
    {
        let source = world.foods[j];
        let color = food_color();
        let ghost so_far = record_views(records@);
        let record = EntityConfig {
            position: source.position.0,
            entity_type: food_type(),
            color,
            hunger: None,
            behavior_state: None,
        };
        assert(record@ == food_record(world@.foods[j as int]));
        records.push(record);
        assert(record_views(records@) =~= so_far.push(food[j as int]));
        assert(food.take(j + 1) =~= food.take(j as int).push(food[j as int]));
        j += 1;
    }
    assert(food.take(food.len() as int) =~= food);
    records
}

/// Reads a saved state into the world, with the genes at place `i` for a
/// prey of the record at place `i` and the amount at place `i` for its food.
/// Returns how many records named a behavior that is not known.
pub fn load_config_with(
    world: &mut World,
    records: &Vec<EntityConfig>,
    genes: &Vec<Genes>,
    amounts: &Vec<Fixed>,
) -> (unknown: usize)
    requires
        old(world)@.wf(),
    ensures
        final(world)@ == loaded(
            old(world)@,
            record_views(records@),
            genes@,
            amounts@,
            records@.len() as int,
        ),
        final(world)@.wf(),
        unknown == unknown_names(record_views(records@), records@.len() as int),
{
    let ghost all = record_views(records@);
    let mut unknown: usize = 0;
    let mut i: usize = 0;
    while i < records.len()
        invariant
            i <= records.len(),
            all == record_views(records@),
            world@.wf(),
            world@ == loaded(old(world)@, all, genes@, amounts@, i as int),
            unknown == unknown_names(all, i as int),
            unknown <= i,
        decreases records.len() - i,
    {
        let record = &records[i];
        assert(all[i as int] == record@);
        if same_bytes(&record.entity_type, &prey_type()) {
            let own = if i < genes.len() {
                genes[i]
            } else {
                Genes {
                    sociality: 0,
                    curiosity: 0,
                    greed: 0,
                    laziness: 0,
                    vision_range: 0,
                    wander_radius: 0,
                    max_speed: 0,
                    bite_size: 0,
                    hunger_rate: 0,
                    max_age: 0,
                    gender: false,
                    max_offspring_count: 0,
                    can_produce_food: false,
                }
            };
            let mut prey = create_prey(record.position, SpeciesId(0), own);
            if let Some(hunger) = record.hunger {
                prey.needs.hunger = hunger;
            }
            if let Some(name) = &record.behavior_state {
                prey.behavior = behavior_state_from_name(name).0;
            }
            world.spawn_living(prey);
        } else if same_bytes(&record.entity_type, &food_type()) {
            let amount = if i < amounts.len() {
                amounts[i]
            } else {
                LEAST_FOOD
            };
            world.spawn_food(create_food(record.position, amount));
        }
        if let Some(name) = &record.behavior_state {
            if !behavior_state_from_name(name).1 {
                unknown += 1;
            }
        }
        i += 1;
    }
    unknown
}

/// Whether `after` is what reading `records` makes of `before`, for some
/// genes of founders and some amounts of food within their range.
pub open spec fn load_outcome(before: WorldView, after: WorldView, records: Seq<EntityConfigView>)
    -> bool {
    exists|genes: Seq<Genes>, amounts: Seq<Fixed>|
        {
            &&& genes.len() == records.len()
            &&& amounts.len() == records.len()
            &&& forall|i: int| 0 <= i < genes.len() ==> (#[trigger] genes[i]).founder()
            &&& forall|i: int|
                0 <= i < amounts.len() ==> LEAST_FOOD <= (#[trigger] amounts[i]) < MOST_FOOD
            &&& after == #[trigger] loaded(before, records, genes, amounts, records.len() as int)
        }
}

/// Reads a saved state into the world. Each prey gets the genes of a
/// founder, and each food source an amount from ten to a hundred, both drawn
/// at random. Returns how many records named a behavior that is not known.
pub fn load_config(world: &mut World, records: &Vec<EntityConfig>) -> (unknown: usize)
    requires
        old(world)@.wf(),
    ensures
        load_outcome(old(world)@, final(world)@, record_views(records@)),
        final(world)@.wf(),
        unknown == unknown_names(record_views(records@), records@.len() as int),
{
    let mut genes: Vec<Genes> = Vec::new();
    let mut amounts: Vec<Fixed> = Vec::new();
    let mut i: usize = 0;
    while i < records.len()
        invariant
            i <= records.len(),
            genes@.len() == i,
            amounts@.len() == i,
            forall|j: int| 0 <= j < i ==> (#[trigger] genes@[j]).founder(),
            forall|j: int| 0 <= j < i ==> LEAST_FOOD <= (#[trigger] amounts@[j]) < MOST_FOOD,
        decreases records.len() - i,
    {
        genes.push(Genes::default());
        amounts.push(draw_between(LEAST_FOOD, MOST_FOOD));
        i += 1;
    }
    let unknown = load_config_with(world, records, &genes, &amounts);
    assert(world@ == loaded(
        old(world)@,
        record_views(records@),
        genes@,
        amounts@,
        record_views(records@).len() as int,
    ));
    unknown
}

} // verus!
