//! The world: every living entity, food source and corpse, each under an
//! identifier that is never given twice.

use crate::components::{Corpse, Entity, Food, LivingEntity, LivingView, WorldObject};
use vstd::prelude::*;

verus! {

/// The registry of world objects. Each list is kept in the order in which its
/// objects entered the world, which is the order of their identifiers.
pub struct World {
    pub agents: Vec<LivingEntity>,
    pub foods: Vec<Food>,
    pub corpses: Vec<Corpse>,
    /// The identifier that the next object to enter will get.
    pub next_entity: u64,
}

/// The mathematical content of a [`World`].
#[verifier::ext_equal]
pub struct WorldView {
    pub agents: Seq<LivingView>,
    pub foods: Seq<Food>,
    pub corpses: Seq<Corpse>,
    pub next_entity: u64,
}

/// The contents of a list of living entities.
pub open spec fn living_views(agents: Seq<LivingEntity>) -> Seq<LivingView> {
    Seq::new(agents.len(), |i: int| agents[i]@)
}

impl View for World {
    type V = WorldView;

    open spec fn view(&self) -> WorldView {
        WorldView {
            agents: living_views(self.agents@),
            foods: self.foods@,
            corpses: self.corpses@,
            next_entity: self.next_entity,
        }
    }
}

/// Whether a living entity is what the simulation makes of one: its traits
/// are not negative, nor are those of the partner whose genes it holds, and
/// it is pregnant only while it has a partner and holds his genes.
pub open spec fn sound(me: LivingView) -> bool {
    &&& me.genes.wf()
    &&& me.needs.bonded()
    &&& me.needs.partner_genes matches Some(genes) ==> genes.wf()
}

/// Whether every one of `agents` is sound.
pub open spec fn all_sound(agents: Seq<LivingView>) -> bool {
    forall|i: int| 0 <= i < agents.len() ==> sound(#[trigger] agents[i])
}

/// The identifiers of a list of living entities, in order.
pub open spec fn agent_ids(agents: Seq<LivingView>) -> Seq<Entity> {
    Seq::new(agents.len(), |i: int| agents[i].entity)
}

/// The identifiers of a list of food sources, in order.
pub open spec fn food_ids(foods: Seq<Food>) -> Seq<Entity> {
    Seq::new(foods.len(), |i: int| foods[i].entity)
}

/// The identifiers of a list of corpses, in order.
pub open spec fn corpse_ids(corpses: Seq<Corpse>) -> Seq<Entity> {
    Seq::new(corpses.len(), |i: int| corpses[i].entity)
}

/// Identifiers rise strictly along the list and stay below `bound`.
pub open spec fn ordered_below(ids: Seq<Entity>, bound: u64) -> bool {
    &&& forall|i: int, j: int| 0 <= i < j < ids.len() ==> ids[i].0 < ids[j].0
    &&& forall|i: int| 0 <= i < ids.len() ==> (#[trigger] ids[i]).0 < bound
}

/// The last place below `n` at which `e` stands in `ids`, if any.
pub open spec fn place_below(ids: Seq<Entity>, e: Entity, n: int) -> Option<int>
    decreases n,
{
    if n <= 0 {
        None
    } else if ids[n - 1] == e {
        Some(n - 1)
    } else {
        place_below(ids, e, n - 1)
    }
}

/// The place at which `e` stands in `ids`, if any.
pub open spec fn place_of(ids: Seq<Entity>, e: Entity) -> Option<int> {
    place_below(ids, e, ids.len() as int)
}

/// What `place_below` finds is a place of `e`; what it does not find is not there.
pub proof fn lemma_place_below(ids: Seq<Entity>, e: Entity, n: int)
    requires
        0 <= n <= ids.len(),
    ensures
        match place_below(ids, e, n) {
            Some(i) => 0 <= i < n && ids[i] == e,
            None => forall|i: int| 0 <= i < n ==> ids[i] != e,
        },
    decreases n,
{
    if n > 0 && ids[n - 1] != e {
        lemma_place_below(ids, e, n - 1);
    }
}

/// In a list without repetition, an identifier is found exactly at the place where it stands.
pub proof fn lemma_place_of_member(ids: Seq<Entity>, bound: u64, i: int)
    requires
        ordered_below(ids, bound),
        0 <= i < ids.len(),
    ensures
        place_of(ids, ids[i]) == Some(i),
{
    lemma_place_below(ids, ids[i], ids.len() as int);
}

/// A list stays ordered when the bound itself is appended and the bound is raised.
pub proof fn lemma_ordered_push(ids: Seq<Entity>, bound: u64)
    requires
        ordered_below(ids, bound),
        bound < u64::MAX,
    ensures
        ordered_below(ids.push(Entity(bound)), (bound + 1) as u64),
{
    let grown = ids.push(Entity(bound));
    assert forall|i: int, j: int| 0 <= i < j < grown.len() implies grown[i].0 < grown[j].0 by {
        if j < ids.len() {
            assert(grown[i] == ids[i] && grown[j] == ids[j]);
        } else {
            assert(grown[i] == ids[i]);
        }
    }
    assert forall|i: int| 0 <= i < grown.len() implies (#[trigger] grown[i]).0 < bound + 1 by {
        if i < ids.len() {
            assert(grown[i] == ids[i]);
        }
    }
}

/// A list that is ordered below a bound is ordered below any larger bound.
pub proof fn lemma_ordered_raise(ids: Seq<Entity>, bound: u64, higher: u64)
    requires
        ordered_below(ids, bound),
        bound <= higher,
    ensures
        ordered_below(ids, higher),
{
}

/// The first `n` of `agents` but those named in `doomed`, in order.
pub open spec fn agents_without(agents: Seq<LivingView>, doomed: Seq<Entity>, n: int) -> Seq<
    LivingView,
>
    decreases n,
{
    if n <= 0 {
        Seq::empty()
    } else if doomed.contains(agents[n - 1].entity) {
        agents_without(agents, doomed, n - 1)
    } else {
        agents_without(agents, doomed, n - 1).push(agents[n - 1])
    }
}

/// The first `n` of `foods` but those named in `doomed`, in order.
pub open spec fn foods_without(foods: Seq<Food>, doomed: Seq<Entity>, n: int) -> Seq<Food>
    decreases n,
{
    if n <= 0 {
        Seq::empty()
    } else if doomed.contains(foods[n - 1].entity) {
        foods_without(foods, doomed, n - 1)
    } else {
        foods_without(foods, doomed, n - 1).push(foods[n - 1])
    }
}

/// The first `n` of `corpses` but those named in `doomed`, in order.
pub open spec fn corpses_without(corpses: Seq<Corpse>, doomed: Seq<Entity>, n: int) -> Seq<Corpse>
    decreases n,
{
    if n <= 0 {
        Seq::empty()
    } else if doomed.contains(corpses[n - 1].entity) {
        corpses_without(corpses, doomed, n - 1)
    } else {
        corpses_without(corpses, doomed, n - 1).push(corpses[n - 1])
    }
}

/// The first `n` of `ids` but those named in `doomed`, in order.
pub open spec fn ids_without(ids: Seq<Entity>, doomed: Seq<Entity>, n: int) -> Seq<Entity>
    decreases n,
{
    if n <= 0 {
        Seq::empty()
    } else if doomed.contains(ids[n - 1]) {
        ids_without(ids, doomed, n - 1)
    } else {
        ids_without(ids, doomed, n - 1).push(ids[n - 1])
    }
}

/// What is left of an ordered list when some identifiers are struck out is
/// ordered, holds none of them, and holds every other one of the list.
pub proof fn lemma_ids_without(ids: Seq<Entity>, doomed: Seq<Entity>, bound: u64, n: int)
    requires
        ordered_below(ids, bound),
        0 <= n <= ids.len(),
    ensures
        ordered_below(ids_without(ids, doomed, n), bound),
        ids_without(ids, doomed, n).len() <= n,
        forall|k: int|
            0 <= k < ids_without(ids, doomed, n).len() ==> !doomed.contains(
                #[trigger] ids_without(ids, doomed, n)[k],
            ),
        forall|k: int|
            #![trigger ids_without(ids, doomed, n)[k]]
            0 <= k < ids_without(ids, doomed, n).len() && n < ids.len() ==> ids_without(
                ids,
                doomed,
                n,
            )[k].0 < ids[n].0,
        forall|j: int|
            0 <= j < n && !doomed.contains(#[trigger] ids[j]) ==> ids_without(
                ids,
                doomed,
                n,
            ).contains(ids[j]),
    decreases n,
{
    if n > 0 {
        lemma_ids_without(ids, doomed, bound, n - 1);
        let before = ids_without(ids, doomed, n - 1);
        let now = ids_without(ids, doomed, n);
        if !doomed.contains(ids[n - 1]) {
            assert(now == before.push(ids[n - 1]));
            assert forall|i: int, j: int| 0 <= i < j < now.len() implies now[i].0 < now[j].0 by {
                if j < before.len() {
                    assert(now[i] == before[i] && now[j] == before[j]);
                } else {
                    assert(now[i] == before[i]);
                }
            }
            assert forall|k: int| 0 <= k < now.len() implies (#[trigger] now[k]).0 < bound by {
                if k < before.len() {
                    assert(now[k] == before[k]);
                }
            }
            assert forall|k: int| 0 <= k < now.len() implies !doomed.contains(
                #[trigger] now[k],
            ) by {
                if k < before.len() {
                    assert(now[k] == before[k]);
                }
            }
            assert forall|k: int|
                #![trigger now[k]]
                0 <= k < now.len() && n < ids.len() implies now[k].0 < ids[n].0 by {
                if k < before.len() {
                    assert(now[k] == before[k]);
                }
            }
            assert forall|j: int| 0 <= j < n && !doomed.contains(#[trigger] ids[j]) implies now
                .contains(ids[j]) by {
                if j < n - 1 {
                    let k = choose|k: int| 0 <= k < before.len() && before[k] == ids[j];
                    assert(now[k] == ids[j]);
                } else {
                    assert(now[now.len() - 1] == ids[j]);
                }
            }
        } else {
            assert(now == before);
        }
    }
}

/// Striking identifiers out of a list of living entities strikes them out of its identifiers.
pub proof fn lemma_agents_without_ids(agents: Seq<LivingView>, doomed: Seq<Entity>, n: int)
    requires
        0 <= n <= agents.len(),
    ensures
        agent_ids(agents_without(agents, doomed, n)) == ids_without(agent_ids(agents), doomed, n),
    decreases n,
{
    if n > 0 {
        lemma_agents_without_ids(agents, doomed, n - 1);
    }
    assert(agent_ids(agents_without(agents, doomed, n)) =~= ids_without(
        agent_ids(agents),
        doomed,
        n,
    ));
}

/// Striking identifiers out of a list of food strikes them out of its identifiers.
pub proof fn lemma_foods_without_ids(foods: Seq<Food>, doomed: Seq<Entity>, n: int)
    requires
        0 <= n <= foods.len(),
    ensures
        food_ids(foods_without(foods, doomed, n)) == ids_without(food_ids(foods), doomed, n),
    decreases n,
{
    if n > 0 {
        lemma_foods_without_ids(foods, doomed, n - 1);
    }
    assert(food_ids(foods_without(foods, doomed, n)) =~= ids_without(food_ids(foods), doomed, n));
}

/// Striking identifiers out of a list of corpses strikes them out of its identifiers.
pub proof fn lemma_corpses_without_ids(corpses: Seq<Corpse>, doomed: Seq<Entity>, n: int)
    requires
        0 <= n <= corpses.len(),
    ensures
        corpse_ids(corpses_without(corpses, doomed, n)) == ids_without(
            corpse_ids(corpses),
            doomed,
            n,
        ),
    decreases n,
{
    if n > 0 {
        lemma_corpses_without_ids(corpses, doomed, n - 1);
    }
    assert(corpse_ids(corpses_without(corpses, doomed, n)) =~= ids_without(
        corpse_ids(corpses),
        doomed,
        n,
    ));
}

/// Taking corpses in leaves the living and the food as they are, and allots identifiers only.
pub proof fn lemma_with_corpses_frame(world: WorldView, corpses: Seq<Corpse>)
    ensures
        world.with_corpses(corpses).agents == world.agents,
        world.with_corpses(corpses).foods == world.foods,
        world.with_corpses(corpses).next_entity >= world.next_entity,
        world.with_corpses(corpses).corpses.len() >= world.corpses.len(),
        world.with_corpses(corpses).corpses.take(world.corpses.len() as int) == world.corpses,
    decreases corpses.len(),
{
    if corpses.len() > 0 {
        lemma_with_corpses_frame(world, corpses.drop_last());
        let before = world.with_corpses(corpses.drop_last());
        let after = world.with_corpses(corpses);
        assert(after.corpses.take(world.corpses.len() as int) =~= before.corpses.take(
            world.corpses.len() as int,
        ));
    } else {
        assert(world.corpses.take(world.corpses.len() as int) =~= world.corpses);
    }
}

/// Each corpse that a world takes in gets an identifier that was not given before.
pub proof fn lemma_with_corpses_new(world: WorldView, corpses: Seq<Corpse>)
    ensures
        forall|k: int|
            world.corpses.len() <= k < world.with_corpses(corpses).corpses.len() ==> (
            #[trigger] world.with_corpses(corpses).corpses[k]).entity.0 >= world.next_entity,
    decreases corpses.len(),
{
    if corpses.len() > 0 {
        lemma_with_corpses_new(world, corpses.drop_last());
        lemma_with_corpses_frame(world, corpses.drop_last());
        let before = world.with_corpses(corpses.drop_last());
        let after = world.with_corpses(corpses);
        assert forall|k: int| world.corpses.len() <= k < after.corpses.len() implies (
        #[trigger] after.corpses[k]).entity.0 >= world.next_entity by {
            if k < before.corpses.len() {
                assert(after.corpses[k] == before.corpses[k]);
            }
        }
    }
}

/// Taking food in leaves the living and the corpses as they are, and allots identifiers only.
pub proof fn lemma_with_foods_frame(world: WorldView, foods: Seq<Food>)
    ensures
        world.with_foods(foods).agents == world.agents,
        world.with_foods(foods).corpses == world.corpses,
        world.with_foods(foods).next_entity >= world.next_entity,
        world.with_foods(foods).foods.len() >= world.foods.len(),
        world.with_foods(foods).foods.take(world.foods.len() as int) == world.foods,
    decreases foods.len(),
{
    if foods.len() > 0 {
        lemma_with_foods_frame(world, foods.drop_last());
        let before = world.with_foods(foods.drop_last());
        let after = world.with_foods(foods);
        assert(after.foods.take(world.foods.len() as int) =~= before.foods.take(
            world.foods.len() as int,
        ));
    } else {
        assert(world.foods.take(world.foods.len() as int) =~= world.foods);
    }
}

/// Taking living entities in leaves the food and the corpses as they are and
/// the living that were there; each newcomer is one of the litter under an
/// identifier that was not given before.
pub proof fn lemma_with_livings_frame(world: WorldView, litter: Seq<LivingView>)
    ensures
        world.with_livings(litter).foods == world.foods,
        world.with_livings(litter).corpses == world.corpses,
        world.with_livings(litter).next_entity >= world.next_entity,
        world.with_livings(litter).agents.len() >= world.agents.len(),
        world.with_livings(litter).agents.take(world.agents.len() as int) == world.agents,
        forall|k: int|
            #![trigger world.with_livings(litter).agents[k]]
            world.agents.len() <= k < world.with_livings(litter).agents.len() ==> {
                &&& world.with_livings(litter).agents[k].entity.0 >= world.next_entity
                &&& exists|c: int|
                    0 <= c < litter.len() && world.with_livings(litter).agents[k] == (LivingView {
                        entity: world.with_livings(litter).agents[k].entity,
                        ..#[trigger] litter[c]
                    })
            },
    decreases litter.len(),
{
    if litter.len() > 0 {
        let shorter = litter.drop_last();
        lemma_with_livings_frame(world, shorter);
        let before = world.with_livings(shorter);
        let after = world.with_livings(litter);
        assert(after.agents.take(world.agents.len() as int) =~= before.agents.take(
            world.agents.len() as int,
        ));
        assert forall|k: int|
            #![trigger after.agents[k]]
            world.agents.len() <= k < after.agents.len() implies {
            &&& after.agents[k].entity.0 >= world.next_entity
            &&& exists|c: int|
                0 <= c < litter.len() && after.agents[k] == (LivingView {
                    entity: after.agents[k].entity,
                    ..#[trigger] litter[c]
                })
        } by {
            if k < before.agents.len() {
                assert(after.agents[k] == before.agents[k]);
                let c = choose|c: int|
                    0 <= c < shorter.len() && before.agents[k] == (LivingView {
                        entity: before.agents[k].entity,
                        ..#[trigger] shorter[c]
                    });
                assert(litter[c] == shorter[c]);
            } else {
                assert(after.agents[k] == (LivingView {
                    entity: after.agents[k].entity,
                    ..litter[litter.len() - 1]
                }));
            }
        }
    } else {
        assert(world.agents.take(world.agents.len() as int) =~= world.agents);
    }
}

/// The food `foods` under the identifiers that follow `next`, one after another.
pub open spec fn foods_numbered(foods: Seq<Food>, next: u64) -> Seq<Food> {
    Seq::new(foods.len(), |k: int| Food { entity: Entity((next + k) as u64), ..foods[k] })
}

/// The corpses `corpses` under the identifiers that follow `next`, one after another.
pub open spec fn corpses_numbered(corpses: Seq<Corpse>, next: u64) -> Seq<Corpse> {
    Seq::new(corpses.len(), |k: int| Corpse { entity: Entity((next + k) as u64), ..corpses[k] })
}

/// The living entities `litter` under the identifiers that follow `next`, one after another.
pub open spec fn livings_numbered(litter: Seq<LivingView>, next: u64) -> Seq<LivingView> {
    Seq::new(litter.len(), |k: int| LivingView { entity: Entity((next + k) as u64), ..litter[k] })
}

/// A world that still has an identifier to give after it took food in has
/// taken all of it in, in order, under consecutive identifiers.
pub proof fn lemma_with_foods_exact(world: WorldView, foods: Seq<Food>)
    requires
        world.with_foods(foods).has_room(),
    ensures
        world.with_foods(foods).foods == world.foods + foods_numbered(foods, world.next_entity),
        world.with_foods(foods).next_entity == world.next_entity + foods.len(),
    decreases foods.len(),
{
    if foods.len() > 0 {
        lemma_with_foods_exact(world, foods.drop_last());
        assert(world.with_foods(foods).foods =~= world.foods + foods_numbered(
            foods,
            world.next_entity,
        ));
    } else {
        assert(world.foods =~= world.foods + foods_numbered(foods, world.next_entity));
    }
}

/// A world that still has an identifier to give after it took corpses in
/// has taken all of them in, in order, under consecutive identifiers.
pub proof fn lemma_with_corpses_exact(world: WorldView, corpses: Seq<Corpse>)
    requires
        world.with_corpses(corpses).has_room(),
    ensures
        world.with_corpses(corpses).corpses == world.corpses + corpses_numbered(
            corpses,
            world.next_entity,
        ),
        world.with_corpses(corpses).next_entity == world.next_entity + corpses.len(),
    decreases corpses.len(),
{
    if corpses.len() > 0 {
        lemma_with_corpses_exact(world, corpses.drop_last());
        assert(world.with_corpses(corpses).corpses =~= world.corpses + corpses_numbered(
            corpses,
            world.next_entity,
        ));
    } else {
        assert(world.corpses =~= world.corpses + corpses_numbered(corpses, world.next_entity));
    }
}

/// A world that still has an identifier to give after it took living
/// entities in has taken all of them in, in order, under consecutive identifiers.
pub proof fn lemma_with_livings_exact(world: WorldView, litter: Seq<LivingView>)
    requires
        world.with_livings(litter).has_room(),
    ensures
        world.with_livings(litter).agents == world.agents + livings_numbered(
            litter,
            world.next_entity,
        ),
        world.with_livings(litter).next_entity == world.next_entity + litter.len(),
    decreases litter.len(),
{
    if litter.len() > 0 {
        lemma_with_livings_exact(world, litter.drop_last());
        assert(world.with_livings(litter).agents =~= world.agents + livings_numbered(
            litter,
            world.next_entity,
        ));
    } else {
        assert(world.agents =~= world.agents + livings_numbered(litter, world.next_entity));
    }
}

/// Every one of what is left when some are struck out was there before.
pub proof fn lemma_agents_without_subset(agents: Seq<LivingView>, doomed: Seq<Entity>, n: int)
    requires
        0 <= n <= agents.len(),
    ensures
        forall|k: int|
            0 <= k < agents_without(agents, doomed, n).len() ==> exists|j: int|
                0 <= j < n && #[trigger] agents_without(agents, doomed, n)[k] == agents[j],
    decreases n,
{
    if n > 0 {
        lemma_agents_without_subset(agents, doomed, n - 1);
        let before = agents_without(agents, doomed, n - 1);
        let now = agents_without(agents, doomed, n);
        assert forall|k: int| 0 <= k < now.len() implies exists|j: int|
            0 <= j < n && #[trigger] now[k] == agents[j] by {
            if k < before.len() {
                assert(now[k] == before[k]);
                let j = choose|j: int| 0 <= j < n - 1 && before[k] == agents[j];
                assert(now[k] == agents[j]);
            } else {
                assert(now[k] == agents[n - 1]);
            }
        }
    }
}

impl WorldView {
    /// No identifier occurs twice in a list, and none has reached `next_entity`.
    pub open spec fn wf(self) -> bool {
        &&& ordered_below(agent_ids(self.agents), self.next_entity)
        &&& ordered_below(food_ids(self.foods), self.next_entity)
        &&& ordered_below(corpse_ids(self.corpses), self.next_entity)
    }

    /// Whether another identifier can still be given.
    pub open spec fn has_room(self) -> bool {
        self.next_entity < u64::MAX
    }

    /// The world after `food` has entered it under the next identifier; a
    /// world that has run out of identifiers takes nothing in.
    pub open spec fn with_food(self, food: Food) -> WorldView {
        if self.has_room() {
            WorldView {
                foods: self.foods.push(Food { entity: Entity(self.next_entity), ..food }),
                next_entity: (self.next_entity + 1) as u64,
                ..self
            }
        } else {
            self
        }
    }

    /// The world after `corpse` has entered it under the next identifier.
    pub open spec fn with_corpse(self, corpse: Corpse) -> WorldView {
        if self.has_room() {
            WorldView {
                corpses: self.corpses.push(Corpse { entity: Entity(self.next_entity), ..corpse }),
                next_entity: (self.next_entity + 1) as u64,
                ..self
            }
        } else {
            self
        }
    }

    /// The world after `living` has entered it under the next identifier.
    pub open spec fn with_living(self, living: LivingView) -> WorldView {
        if self.has_room() {
            WorldView {
                agents: self.agents.push(
                    LivingView { entity: Entity(self.next_entity), ..living },
                ),
                next_entity: (self.next_entity + 1) as u64,
                ..self
            }
        } else {
            self
        }
    }

    /// The world after each of `foods` has entered it, in order.
    pub open spec fn with_foods(self, foods: Seq<Food>) -> WorldView
        decreases foods.len(),
    {
        if foods.len() == 0 {
            self
        } else {
            self.with_foods(foods.drop_last()).with_food(foods.last())
        }
    }

    /// The world after each of `corpses` has entered it, in order.
    pub open spec fn with_corpses(self, corpses: Seq<Corpse>) -> WorldView
        decreases corpses.len(),
    {
        if corpses.len() == 0 {
            self
        } else {
            self.with_corpses(corpses.drop_last()).with_corpse(corpses.last())
        }
    }

    /// The world after each of `litter` has entered it, in order.
    pub open spec fn with_livings(self, litter: Seq<LivingView>) -> WorldView
        decreases litter.len(),
    {
        if litter.len() == 0 {
            self
        } else {
            self.with_livings(litter.drop_last()).with_living(litter.last())
        }
    }

    /// The world without the living entities named in `doomed`.
    pub open spec fn without_agents(self, doomed: Seq<Entity>) -> WorldView {
        WorldView { agents: agents_without(self.agents, doomed, self.agents.len() as int), ..self }
    }

    /// The world without the food sources named in `doomed`.
    pub open spec fn without_foods(self, doomed: Seq<Entity>) -> WorldView {
        WorldView { foods: foods_without(self.foods, doomed, self.foods.len() as int), ..self }
    }

    /// The world without the corpses named in `doomed`.
    pub open spec fn without_corpses(self, doomed: Seq<Entity>) -> WorldView {
        WorldView {
            corpses: corpses_without(self.corpses, doomed, self.corpses.len() as int),
            ..self
        }
    }

    /// Every world object with its position: living entities first, then food, then corpses.
    pub open spec fn objects(self) -> Seq<WorldObject> {
        Seq::new(
            self.agents.len(),
            |i: int| WorldObject { entity: self.agents[i].entity, position: self.agents[i].position },
        ) + Seq::new(
            self.foods.len(),
            |i: int| WorldObject { entity: self.foods[i].entity, position: self.foods[i].position },
        ) + Seq::new(
            self.corpses.len(),
            |i: int|
                WorldObject { entity: self.corpses[i].entity, position: self.corpses[i].position },
        )
    }
}

/// Whether `e` is named in `list`.
pub fn contains(list: &Vec<Entity>, e: Entity) -> (found: bool)
    ensures
        found == list@.contains(e),
{
    let mut i: usize = 0;
    while i < list.len()
        invariant
            i <= list.len(),
            forall|j: int| 0 <= j < i ==> list@[j] != e,
        decreases list.len() - i,
    {
        if list[i] == e {
            return true;
        }
        i += 1;
    }
    false
}

/// Whether identifiers rise strictly along `ids` and stay below `bound`.
pub fn is_ordered_below(ids: &Vec<Entity>, bound: u64) -> (ok: bool)
    ensures
        ok == ordered_below(ids@, bound),
{
    let mut i: usize = 0;
    while i < ids.len()
        invariant
            i <= ids.len(),
            forall|a: int, b: int| 0 <= a < b < i ==> ids@[a].0 < ids@[b].0,
            forall|a: int| 0 <= a < i ==> (#[trigger] ids@[a]).0 < bound,
        decreases ids.len() - i,
    {
        if ids[i].0 >= bound {
            return false;
        }
        if i > 0 && ids[i - 1].0 >= ids[i].0 {
            assert(!(ids@[i - 1].0 < ids@[i as int].0));
            return false;
        }
        assert forall|a: int, b: int| 0 <= a < b < i + 1 implies ids@[a].0 < ids@[b].0 by {
            if b == i && a < i - 1 {
                assert(ids@[a].0 < ids@[i - 1].0);
            }
        }
        i += 1;
    }
    true
}

impl World {
    /// Whether no identifier occurs twice in a list and none has reached the
    /// next one to be given. Every function that changes a world keeps it so.
    pub fn is_well_formed(&self) -> (ok: bool)
        ensures
            ok == self@.wf(),
    {
        let mut agents: Vec<Entity> = Vec::new();
        let mut i: usize = 0;
        while i < self.agents.len()
            invariant
                i <= self.agents.len(),
                agents@ == agent_ids(self@.agents).take(i as int),
            decreases self.agents.len() - i,
        {
            agents.push(self.agents[i].entity);
            assert(agent_ids(self@.agents).take(i + 1) =~= agent_ids(self@.agents).take(
                i as int,
            ).push(self.agents[i as int].entity));
            i += 1;
        }
        assert(agents@ =~= agent_ids(self@.agents));
        let mut foods: Vec<Entity> = Vec::new();
        let mut j: usize = 0;
        while j < self.foods.len()
            invariant
                j <= self.foods.len(),
                foods@ == food_ids(self@.foods).take(j as int),
            decreases self.foods.len() - j,
        {
            foods.push(self.foods[j].entity);
            assert(food_ids(self@.foods).take(j + 1) =~= food_ids(self@.foods).take(
                j as int,
            ).push(self.foods[j as int].entity));
            j += 1;
        }
        assert(foods@ =~= food_ids(self@.foods));
        let mut corpses: Vec<Entity> = Vec::new();
        let mut k: usize = 0;
        while k < self.corpses.len()
            invariant
                k <= self.corpses.len(),
                corpses@ == corpse_ids(self@.corpses).take(k as int),
            decreases self.corpses.len() - k,
        {
            corpses.push(self.corpses[k].entity);
            assert(corpse_ids(self@.corpses).take(k + 1) =~= corpse_ids(self@.corpses).take(
                k as int,
            ).push(self.corpses[k as int].entity));
            k += 1;
        }
        assert(corpses@ =~= corpse_ids(self@.corpses));
        is_ordered_below(&agents, self.next_entity) && is_ordered_below(&foods, self.next_entity)
            && is_ordered_below(&corpses, self.next_entity)
    }

    /// An empty world.
    pub fn new() -> (world: World)
        ensures
            world@.agents.len() == 0,
            world@.foods.len() == 0,
            world@.corpses.len() == 0,
            world@.next_entity == 0,
            world@.wf(),
    {
        World { agents: Vec::new(), foods: Vec::new(), corpses: Vec::new(), next_entity: 0 }
    }

    /// Takes `food` in under the next identifier and returns it, or returns
    /// `None` where the identifiers have run out.
    pub fn spawn_food(&mut self, food: Food) -> (spawned: Option<Entity>)
        requires
            old(self)@.wf(),
        ensures
            final(self)@ == old(self)@.with_food(food),
            final(self)@.wf(),
            spawned == if old(self)@.has_room() {
                Some(Entity(old(self).next_entity))
            } else {
                None
            },
    {
        if self.next_entity < u64::MAX {
            let entity = Entity(self.next_entity);
            self.foods.push(Food { entity, position: food.position, amount: food.amount });
            self.next_entity = self.next_entity + 1;
            proof {
                let before = old(self)@;
                lemma_ordered_push(food_ids(before.foods), before.next_entity);
                assert(food_ids(self@.foods) =~= food_ids(before.foods).push(entity));
                lemma_ordered_raise(agent_ids(before.agents), before.next_entity, self.next_entity);
                lemma_ordered_raise(
                    corpse_ids(before.corpses),
                    before.next_entity,
                    self.next_entity,
                );
            }
            Some(entity)
        } else {
            None
        }
    }

    /// Takes `corpse` in under the next identifier and returns it, or returns
    /// `None` where the identifiers have run out.
    pub fn spawn_corpse(&mut self, corpse: Corpse) -> (spawned: Option<Entity>)
        requires
            old(self)@.wf(),
        ensures
            final(self)@ == old(self)@.with_corpse(corpse),
            final(self)@.wf(),
            spawned == if old(self)@.has_room() {
                Some(Entity(old(self).next_entity))
            } else {
                None
            },
    {
        if self.next_entity < u64::MAX {
            let entity = Entity(self.next_entity);
            self.corpses.push(Corpse { entity, position: corpse.position, state: corpse.state });
            self.next_entity = self.next_entity + 1;
            proof {
                let before = old(self)@;
                lemma_ordered_push(corpse_ids(before.corpses), before.next_entity);
                assert(corpse_ids(self@.corpses) =~= corpse_ids(before.corpses).push(entity));
                lemma_ordered_raise(agent_ids(before.agents), before.next_entity, self.next_entity);
                lemma_ordered_raise(food_ids(before.foods), before.next_entity, self.next_entity);
            }
            Some(entity)
        } else {
            None
        }
    }

    /// Takes `living` in under the next identifier and returns it, or returns
    /// `None` where the identifiers have run out.
    pub fn spawn_living(&mut self, living: LivingEntity) -> (spawned: Option<Entity>)
        requires
            old(self)@.wf(),
        ensures
            final(self)@ == old(self)@.with_living(living@),
            final(self)@.wf(),
            spawned == if old(self)@.has_room() {
                Some(Entity(old(self).next_entity))
            } else {
                None
            },
    {
        if self.next_entity < u64::MAX {
            let entity = Entity(self.next_entity);
            let mut living = living;
            living.entity = entity;
            self.agents.push(living);
            self.next_entity = self.next_entity + 1;
            proof {
                let before = old(self)@;
                lemma_ordered_push(agent_ids(before.agents), before.next_entity);
                assert(agent_ids(self@.agents) =~= agent_ids(before.agents).push(entity));
                lemma_ordered_raise(food_ids(before.foods), before.next_entity, self.next_entity);
                lemma_ordered_raise(
                    corpse_ids(before.corpses),
                    before.next_entity,
                    self.next_entity,
                );
            }
            Some(entity)
        } else {
            None
        }
    }

    /// Takes each of `foods` in, in order, as far as identifiers are left.
    pub fn spawn_foods(&mut self, foods: &Vec<Food>)
        requires
            old(self)@.wf(),
        ensures
            final(self)@ == old(self)@.with_foods(foods@),
            final(self)@.wf(),
    {
        let mut i: usize = 0;
        while i < foods.len()
            invariant
                i <= foods.len(),
                self@.wf(),
                self@ == old(self)@.with_foods(foods@.take(i as int)),
            decreases foods.len() - i,
        {
            assert(foods@.take(i + 1).drop_last() =~= foods@.take(i as int));
            self.spawn_food(foods[i]);
            i += 1;
        }
        assert(foods@.take(foods@.len() as int) =~= foods@);
    }

    /// Takes each of `litter` in, in order, as far as identifiers are left.
    pub fn spawn_livings(&mut self, litter: Vec<LivingEntity>)
        requires
            old(self)@.wf(),
        ensures
            final(self)@ == old(self)@.with_livings(living_views(litter@)),
            final(self)@.wf(),
    {
        let ghost all = living_views(litter@);
        for living in it: litter.into_iter()
            invariant
                it.seq() == litter@,
                all == living_views(litter@),
                self@.wf(),
                self@ == old(self)@.with_livings(all.take(it.index() as int)),
        {
            assert(all.take(it.index() + 1).drop_last() =~= all.take(it.index() as int));
            assert(all.take(it.index() + 1).last() == living@);
            self.spawn_living(living);
        }
        assert(all.take(all.len() as int) =~= all);
    }

    /// Takes each of `corpses` in, in order, as far as identifiers are left.
    pub fn spawn_corpses(&mut self, corpses: &Vec<Corpse>)
        requires
            old(self)@.wf(),
        ensures
            final(self)@ == old(self)@.with_corpses(corpses@),
            final(self)@.wf(),
    {
        let mut i: usize = 0;
        while i < corpses.len()
            invariant
                i <= corpses.len(),
                self@.wf(),
                self@ == old(self)@.with_corpses(corpses@.take(i as int)),
            decreases corpses.len() - i,
        {
            assert(corpses@.take(i + 1).drop_last() =~= corpses@.take(i as int));
            self.spawn_corpse(corpses[i]);
            i += 1;
        }
        assert(corpses@.take(corpses@.len() as int) =~= corpses@);
    }

    /// Takes the living entities named in `doomed` out of the world.
    pub fn remove_agents(&mut self, doomed: &Vec<Entity>)
        requires
            old(self)@.wf(),
        ensures
            final(self)@ == old(self)@.without_agents(doomed@),
            final(self)@.wf(),
    {
        let ghost before = self@;
        let ghost mut done: int = 0;
        let mut i: usize = 0;
        while i < self.agents.len()
            invariant
                0 <= done <= before.agents.len(),
                i <= self.agents.len(),
                self.agents.len() - i == before.agents.len() - done,
                self@.foods == before.foods,
                self@.corpses == before.corpses,
                self@.next_entity == before.next_entity,
                self@.agents.take(i as int) == agents_without(before.agents, doomed@, done),
                self@.agents.skip(i as int) == before.agents.skip(done),
            decreases self.agents.len() - i,
        {
            let ghost now = self@.agents;
            assert(now[i as int] == now.skip(i as int)[0]);
            assert(before.agents[done] == before.agents.skip(done)[0]);
            assert(now.skip(i + 1) =~= now.skip(i as int).skip(1));
            assert(before.agents.skip(done + 1) =~= before.agents.skip(done).skip(1));
            if contains(doomed, self.agents[i].entity) {
                self.agents.remove(i);
                proof {
                    assert(self@.agents =~= now.remove(i as int));
                    assert(self@.agents.take(i as int) =~= now.take(i as int));
                    assert(self@.agents.skip(i as int) =~= now.skip(i + 1));
                }
            } else {
                i += 1;
                proof {
                    assert(now.take(i as int) =~= now.take(i - 1).push(now[i - 1]));

                }
            }
            proof {
                done = done + 1;
            }
        }
        proof {
            assert(self@.agents =~= self@.agents.take(i as int));
            lemma_agents_without_ids(before.agents, doomed@, before.agents.len() as int);
            lemma_ids_without(
                agent_ids(before.agents),
                doomed@,
                before.next_entity,
                before.agents.len() as int,
            );
        }
    }

    /// Takes the food sources named in `doomed` out of the world.
    pub fn remove_foods(&mut self, doomed: &Vec<Entity>)
        requires
            old(self)@.wf(),
        ensures
            final(self)@ == old(self)@.without_foods(doomed@),
            final(self)@.wf(),
    {
        let ghost before = self@;
        let ghost mut done: int = 0;
        let mut i: usize = 0;
        while i < self.foods.len()
            invariant
                0 <= done <= before.foods.len(),
                i <= self.foods.len(),
                self.foods.len() - i == before.foods.len() - done,
                self@.agents == before.agents,
                self@.corpses == before.corpses,
                self@.next_entity == before.next_entity,
                self@.foods.take(i as int) == foods_without(before.foods, doomed@, done),
                self@.foods.skip(i as int) == before.foods.skip(done),
            decreases self.foods.len() - i,
        {
            let ghost now = self@.foods;
            assert(now[i as int] == now.skip(i as int)[0]);
            assert(before.foods[done] == before.foods.skip(done)[0]);
            assert(now.skip(i + 1) =~= now.skip(i as int).skip(1));
            assert(before.foods.skip(done + 1) =~= before.foods.skip(done).skip(1));
            if contains(doomed, self.foods[i].entity) {
                self.foods.remove(i);
                proof {
                    assert(self@.foods =~= now.remove(i as int));
                    assert(self@.foods.take(i as int) =~= now.take(i as int));
                    assert(self@.foods.skip(i as int) =~= now.skip(i + 1));
                }
            } else {
                i += 1;
                proof {
                    assert(now.take(i as int) =~= now.take(i - 1).push(now[i - 1]));

                }
            }
            proof {
                done = done + 1;
            }
        }
        proof {
            assert(self@.foods =~= self@.foods.take(i as int));
            lemma_foods_without_ids(before.foods, doomed@, before.foods.len() as int);
            lemma_ids_without(
                food_ids(before.foods),
                doomed@,
                before.next_entity,
                before.foods.len() as int,
            );
        }
    }

    /// Takes the corpses named in `doomed` out of the world.
    pub fn remove_corpses(&mut self, doomed: &Vec<Entity>)
        requires
            old(self)@.wf(),
        ensures
            final(self)@ == old(self)@.without_corpses(doomed@),
            final(self)@.wf(),
    {
        let ghost before = self@;
        let ghost mut done: int = 0;
        let mut i: usize = 0;
        while i < self.corpses.len()
            invariant
                0 <= done <= before.corpses.len(),
                i <= self.corpses.len(),
                self.corpses.len() - i == before.corpses.len() - done,
                self@.agents == before.agents,
                self@.foods == before.foods,
                self@.next_entity == before.next_entity,
                self@.corpses.take(i as int) == corpses_without(before.corpses, doomed@, done),
                self@.corpses.skip(i as int) == before.corpses.skip(done),
            decreases self.corpses.len() - i,
        {
            let ghost now = self@.corpses;
            assert(now[i as int] == now.skip(i as int)[0]);
            assert(before.corpses[done] == before.corpses.skip(done)[0]);
            assert(now.skip(i + 1) =~= now.skip(i as int).skip(1));
            assert(before.corpses.skip(done + 1) =~= before.corpses.skip(done).skip(1));
            if contains(doomed, self.corpses[i].entity) {
                self.corpses.remove(i);
                proof {
                    assert(self@.corpses =~= now.remove(i as int));
                    assert(self@.corpses.take(i as int) =~= now.take(i as int));
                    assert(self@.corpses.skip(i as int) =~= now.skip(i + 1));
                }
            } else {
                i += 1;
                proof {
                    assert(now.take(i as int) =~= now.take(i - 1).push(now[i - 1]));

                }
            }
            proof {
                done = done + 1;
            }
        }
        proof {
            assert(self@.corpses =~= self@.corpses.take(i as int));
            lemma_corpses_without_ids(before.corpses, doomed@, before.corpses.len() as int);
            lemma_ids_without(
                corpse_ids(before.corpses),
                doomed@,
                before.next_entity,
                before.corpses.len() as int,
            );
        }
    }

    /// The place of the living entity `e` in `agents`, if it is there.
    pub fn find_agent(&self, e: Entity) -> (found: Option<usize>)
        requires
            self@.wf(),
        ensures
            found matches Some(i) ==> i < self.agents.len() && self.agents[i as int].entity == e
                && place_of(agent_ids(self@.agents), e) == Some(i as int),
            found is None ==> place_of(agent_ids(self@.agents), e) is None,
    {
        let ghost ids = agent_ids(self@.agents);
        let mut lo: usize = 0;
        let mut hi: usize = self.agents.len();
        while lo < hi
            invariant
                lo <= hi <= self.agents.len(),
                ids == agent_ids(self@.agents),
                ordered_below(ids, self@.next_entity),
                forall|i: int| 0 <= i < lo ==> (#[trigger] ids[i]).0 < e.0,
                forall|i: int| hi <= i < ids.len() ==> (#[trigger] ids[i]).0 > e.0,
            decreases hi - lo,
        {
            let mid = lo + (hi - lo) / 2;
            let id = self.agents[mid].entity.0;
            assert(ids[mid as int] == self.agents[mid as int].entity);
            if id == e.0 {
                proof {
                    lemma_place_of_member(ids, self@.next_entity, mid as int);
                }
                return Some(mid);
            } else if id < e.0 {
                assert forall|i: int| 0 <= i < mid + 1 implies (#[trigger] ids[i]).0 < e.0 by {
                    if i < mid {
                        assert(ids[i].0 < ids[mid as int].0);
                    }
                }
                lo = mid + 1;
            } else {
                assert forall|i: int| mid <= i < ids.len() implies (#[trigger] ids[i]).0 > e.0 by {
                    if mid < i {
                        assert(ids[mid as int].0 < ids[i].0);
                    }
                }
                hi = mid;
            }
        }
        proof {
            lemma_place_below(ids, e, ids.len() as int);
        }
        None
    }

    /// The place of the food source `e` in `foods`, if it is there.
    pub fn find_food(&self, e: Entity) -> (found: Option<usize>)
        requires
            self@.wf(),
        ensures
            found matches Some(i) ==> i < self.foods.len() && self.foods[i as int].entity == e
                && place_of(food_ids(self@.foods), e) == Some(i as int),
            found is None ==> place_of(food_ids(self@.foods), e) is None,
    {
        let ghost ids = food_ids(self@.foods);
        let mut lo: usize = 0;
        let mut hi: usize = self.foods.len();
        while lo < hi
            invariant
                lo <= hi <= self.foods.len(),
                ids == food_ids(self@.foods),
                ordered_below(ids, self@.next_entity),
                forall|i: int| 0 <= i < lo ==> (#[trigger] ids[i]).0 < e.0,
                forall|i: int| hi <= i < ids.len() ==> (#[trigger] ids[i]).0 > e.0,
            decreases hi - lo,
        {
            let mid = lo + (hi - lo) / 2;
            let id = self.foods[mid].entity.0;
            assert(ids[mid as int] == self.foods[mid as int].entity);
            if id == e.0 {
                proof {
                    lemma_place_of_member(ids, self@.next_entity, mid as int);
                }
                return Some(mid);
            } else if id < e.0 {
                assert forall|i: int| 0 <= i < mid + 1 implies (#[trigger] ids[i]).0 < e.0 by {
                    if i < mid {
                        assert(ids[i].0 < ids[mid as int].0);
                    }
                }
                lo = mid + 1;
            } else {
                assert forall|i: int| mid <= i < ids.len() implies (#[trigger] ids[i]).0 > e.0 by {
                    if mid < i {
                        assert(ids[mid as int].0 < ids[i].0);
                    }
                }
                hi = mid;
            }
        }
        proof {
            lemma_place_below(ids, e, ids.len() as int);
        }
        None
    }

    /// The place of the corpse `e` in `corpses`, if it is there.
    pub fn find_corpse(&self, e: Entity) -> (found: Option<usize>)
        requires
            self@.wf(),
        ensures
            found matches Some(i) ==> i < self.corpses.len() && self.corpses[i as int].entity == e
                && place_of(corpse_ids(self@.corpses), e) == Some(i as int),
            found is None ==> place_of(corpse_ids(self@.corpses), e) is None,
    {
        let ghost ids = corpse_ids(self@.corpses);
        let mut lo: usize = 0;
        let mut hi: usize = self.corpses.len();
        while lo < hi
            invariant
                lo <= hi <= self.corpses.len(),
                ids == corpse_ids(self@.corpses),
                ordered_below(ids, self@.next_entity),
                forall|i: int| 0 <= i < lo ==> (#[trigger] ids[i]).0 < e.0,
                forall|i: int| hi <= i < ids.len() ==> (#[trigger] ids[i]).0 > e.0,
            decreases hi - lo,
        {
            let mid = lo + (hi - lo) / 2;
            let id = self.corpses[mid].entity.0;
            assert(ids[mid as int] == self.corpses[mid as int].entity);
            if id == e.0 {
                proof {
                    lemma_place_of_member(ids, self@.next_entity, mid as int);
                }
                return Some(mid);
            } else if id < e.0 {
                assert forall|i: int| 0 <= i < mid + 1 implies (#[trigger] ids[i]).0 < e.0 by {
                    if i < mid {
                        assert(ids[i].0 < ids[mid as int].0);
                    }
                }
                lo = mid + 1;
            } else {
                assert forall|i: int| mid <= i < ids.len() implies (#[trigger] ids[i]).0 > e.0 by {
                    if mid < i {
                        assert(ids[mid as int].0 < ids[i].0);
                    }
                }
                hi = mid;
            }
        }
        proof {
            lemma_place_below(ids, e, ids.len() as int);
        }
        None
    }

    /// Every world object with its position: living entities first, then food, then corpses.
    pub fn objects(&self) -> (objects: Vec<WorldObject>)
        ensures
            objects@ == self@.objects(),
    {
        let mut objects: Vec<WorldObject> = Vec::new();
        let mut i: usize = 0;
        while i < self.agents.len()
            invariant
                i <= self.agents.len(),
                objects@ == self@.objects().take(i as int),
            decreases self.agents.len() - i,
        {
            objects.push(
                WorldObject { entity: self.agents[i].entity, position: self.agents[i].position },
            );
            i += 1;
        }
        let mut j: usize = 0;
        while j < self.foods.len()
            invariant
                j <= self.foods.len(),
                objects@ == self@.objects().take(self.agents.len() + j),
            decreases self.foods.len() - j,
        {
            objects.push(
                WorldObject { entity: self.foods[j].entity, position: self.foods[j].position },
            );
            j += 1;
        }
        let mut k: usize = 0;
        while k < self.corpses.len()
            invariant
                k <= self.corpses.len(),
                objects@ == self@.objects().take(self.agents.len() + self.foods.len() + k),
            decreases self.corpses.len() - k,
        {
            objects.push(
                WorldObject { entity: self.corpses[k].entity, position: self.corpses[k].position },
            );
            k += 1;
        }
        objects
    }
}

} // verus!
