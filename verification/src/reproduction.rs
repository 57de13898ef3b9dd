//! Pairing.
//!
//! Two living entities pair when both are ready to mate and free, they are of
//! the same species and of opposite gender, and they are close to each other.
//! Each gets the other as its partner; the female becomes pregnant and keeps
//! a copy of her partner's genes.

use crate::components::{Entity, Genes, LivingEntity, LivingView, Needs};
use crate::fixed::Fixed;
use crate::perception::MATE_DETECTION_DISTANCE;
use crate::random::draw_between;
use crate::world::{agent_ids, World, WorldView};
use vstd::prelude::*;

verus! {

/// The least time a pair stays together, and the least time of a pregnancy.
pub const SHORTEST_BOND: Fixed = 10_000_000;

/// The bound that both times stay below.
pub const LONGEST_BOND: Fixed = 30_000_000;

/// The chance that enters the pairing of one living entity.
#[derive(Clone, Copy, PartialEq, Eq, Structural, Debug)]
pub struct PairRolls {
    /// How long it stays with its partner, in `[10, 30)`.
    pub bond: Fixed,
    /// How long it carries, if it is the female, in `[10, 30)`.
    pub gestation: Fixed,
}

impl PairRolls {
    /// Whether the rolls lie in the ranges from which they are drawn.
    pub open spec fn valid(self) -> bool {
        &&& SHORTEST_BOND <= self.bond < LONGEST_BOND
        &&& SHORTEST_BOND <= self.gestation < LONGEST_BOND
    }

    /// The rolls used for an entity for which none were supplied.
    pub open spec fn none() -> PairRolls {
        PairRolls { bond: SHORTEST_BOND, gestation: SHORTEST_BOND }
    }

    /// Draws the rolls of one pairing.
    pub fn draw() -> (rolls: PairRolls)
        ensures
            rolls.valid(),
    {
        PairRolls {
            bond: draw_between(SHORTEST_BOND, LONGEST_BOND),
            gestation: draw_between(SHORTEST_BOND, LONGEST_BOND),
        }
    }
}

/// The rolls for the entity at place `i`.
pub open spec fn pair_rolls_at(rolls: Seq<PairRolls>, i: int) -> PairRolls {
    if 0 <= i < rolls.len() {
        rolls[i]
    } else {
        PairRolls::none()
    }
}

/// Whether the entity looks for a partner: it is ready to mate and free.
pub open spec fn courting(me: LivingView) -> bool {
    me.needs.mate_ready && me.needs.partner is None && !me.needs.pregnant
}

/// Whether two entities suit each other: both look for a partner, they are
/// of the same species and of opposite gender, and within reach of each other.
pub open spec fn suited(a: LivingView, b: LivingView) -> bool {
    &&& courting(a)
    &&& courting(b)
    &&& a.genes.gender != b.genes.gender
    &&& a.species == b.species
    &&& a.position.0.separation(b.position.0) < MATE_DETECTION_DISTANCE
}

/// The place of the partner for the entity at place `i`: the last one below
/// `n` that suits it, if any.
pub open spec fn mate_below(agents: Seq<LivingView>, i: int, n: int) -> Option<int>
    decreases n,
{
    if n <= 0 {
        None
    } else if n - 1 != i && suited(agents[i], agents[n - 1]) {
        Some(n - 1)
    } else {
        mate_below(agents, i, n - 1)
    }
}

/// The entity once it has paired with the partner of the given identifier
/// and genes; the female is pregnant from then on.
pub open spec fn bonded_with(me: LivingView, partner: Entity, genes: Genes, rolls: PairRolls)
    -> LivingView {
    LivingView {
        needs: if me.genes.gender {
            Needs {
                partner: Some(partner),
                partner_timer: rolls.bond,
                pregnant: true,
                pregnancy_timer: rolls.gestation,
                partner_genes: Some(genes),
                ..me.needs
            }
        } else {
            Needs { partner: Some(partner), partner_timer: rolls.bond, ..me.needs }
        },
        ..me
    }
}

/// The turn of the entity at place `i`: it pairs with its partner, if it finds one.
pub open spec fn pairing_turn(agents: Seq<LivingView>, i: int, rolls: Seq<PairRolls>) -> Seq<
    LivingView,
> {
    match mate_below(agents, i, agents.len() as int) {
        Some(j) => agents.update(
            i,
            bonded_with(agents[i], agents[j].entity, agents[j].genes, pair_rolls_at(rolls, i)),
        ).update(
            j,
            bonded_with(agents[j], agents[i].entity, agents[i].genes, pair_rolls_at(rolls, j)),
        ),
        None => agents,
    }
}

/// The living entities after the first `n` of them have had their turn.
pub open spec fn pairing_pass(agents: Seq<LivingView>, rolls: Seq<PairRolls>, n: int) -> Seq<
    LivingView,
>
    decreases n,
{
    if n <= 0 {
        agents
    } else {
        pairing_turn(pairing_pass(agents, rolls, n - 1), n - 1, rolls)
    }
}

/// The world after the pairing.
pub open spec fn after_pairing(world: WorldView, rolls: Seq<PairRolls>) -> WorldView {
    WorldView { agents: pairing_pass(world.agents, rolls, world.agents.len() as int), ..world }
}

/// What `mate_below` finds is another entity, and suits.
pub proof fn lemma_mate_below(agents: Seq<LivingView>, i: int, n: int)
    requires
        0 <= n <= agents.len(),
    ensures
        mate_below(agents, i, n) matches Some(j) ==> 0 <= j < n && j != i && suited(
            agents[i],
            agents[j],
        ),
    decreases n,
{
    if n > 0 && !(n - 1 != i && suited(agents[i], agents[n - 1])) {
        lemma_mate_below(agents, i, n - 1);
    }
}

/// A turn changes no identifier and keeps the number of entities.
pub proof fn lemma_pairing_turn_keeps_ids(agents: Seq<LivingView>, i: int, rolls: Seq<PairRolls>)
    requires
        0 <= i < agents.len(),
    ensures
        pairing_turn(agents, i, rolls).len() == agents.len(),
        agent_ids(pairing_turn(agents, i, rolls)) == agent_ids(agents),
{
    lemma_mate_below(agents, i, agents.len() as int);
    assert(agent_ids(pairing_turn(agents, i, rolls)) =~= agent_ids(agents));
}

/// Whether two living entities suit each other.
fn suit(a: &LivingEntity, b: &LivingEntity) -> (fit: bool)
    ensures
        fit == suited(a@, b@),
{
    a.needs.mate_ready && a.needs.partner.is_none() && !a.needs.pregnant && b.needs.mate_ready
        && b.needs.partner.is_none() && !b.needs.pregnant && a.genes.gender != b.genes.gender
        && a.species == b.species && a.position.0.distance(b.position.0)
        < MATE_DETECTION_DISTANCE
}

/// The rolls at place `i`, or those that stand in where none were supplied.
fn rolls_for(rolls: &Vec<PairRolls>, i: usize) -> (one: PairRolls)
    ensures
        one == pair_rolls_at(rolls@, i as int),
{
    if i < rolls.len() {
        rolls[i]
    } else {
        PairRolls { bond: SHORTEST_BOND, gestation: SHORTEST_BOND }
    }
}

impl World {
    /// The place of the partner for the living entity at place `i`, if it finds one.
    pub fn find_mate(&self, i: usize) -> (found: Option<usize>)
        ensures
            found matches Some(j) ==> i < self.agents.len() && j < self.agents.len() && j != i
                && mate_below(self@.agents, i as int, self@.agents.len() as int) == Some(
                j as int,
            ),
            found is None && i < self.agents.len() ==> mate_below(
                self@.agents,
                i as int,
                self@.agents.len() as int,
            ) is None,
            i >= self.agents.len() ==> found is None,
    {
        if i >= self.agents.len() {
            return None;
        }
        let mut n = self.agents.len();
        while n > 0
            invariant
                n <= self.agents.len(),
                i < self.agents.len(),
                mate_below(self@.agents, i as int, self@.agents.len() as int) == mate_below(
                    self@.agents,
                    i as int,
                    n as int,
                ),
            decreases n,
        {
            if n - 1 != i && suit(&self.agents[i], &self.agents[n - 1]) {
                return Some(n - 1);
            }
            n -= 1;
        }
        None
    }
}

/// Pairs the living entities, each with the rolls at its place.
pub fn pair_mates_with(world: &mut World, rolls: &Vec<PairRolls>)
    requires
        old(world)@.wf(),
    ensures
        final(world)@ == after_pairing(old(world)@, rolls@),
        final(world)@.wf(),
{
    let ghost before = world@;
    let mut i: usize = 0;
    while i < world.agents.len()
        invariant
            i <= world.agents.len(),
            world.agents.len() == before.agents.len(),
            world@.foods == before.foods,
            world@.corpses == before.corpses,
            world@.next_entity == before.next_entity,
            world@.agents == pairing_pass(before.agents, rolls@, i as int),
            agent_ids(world@.agents) == agent_ids(before.agents),
        decreases world.agents.len() - i,
    {
        let ghost now = world@.agents;
        proof {
            lemma_pairing_turn_keeps_ids(now, i as int, rolls@);
        }
        if let Some(j) = world.find_mate(i) {
            let mine = rolls_for(rolls, i);
            let theirs = rolls_for(rolls, j);
            let partner_entity = world.agents[j].entity;
            let partner_genes = world.agents[j].genes;
            let my_entity = world.agents[i].entity;
            let my_genes = world.agents[i].genes;
            pair(&mut world.agents[i], partner_entity, partner_genes, mine);
            pair(&mut world.agents[j], my_entity, my_genes, theirs);
            proof {
                assert(world@.agents =~= now.update(
                    i as int,
                    bonded_with(now[i as int], partner_entity, partner_genes, mine),
                ).update(j as int, bonded_with(now[j as int], my_entity, my_genes, theirs)));
            }
        }
        i += 1;
    }
}

/// Pairs `living` with the entity of the given identifier and genes.
fn pair(living: &mut LivingEntity, partner: Entity, genes: Genes, rolls: PairRolls)
    ensures
        final(living)@ == bonded_with(old(living)@, partner, genes, rolls),
{
    living.needs.partner = Some(partner);
    living.needs.partner_timer = rolls.bond;
    if living.genes.gender {
        living.needs.pregnant = true;
        living.needs.pregnancy_timer = rolls.gestation;
        living.needs.partner_genes = Some(genes);
    }
}

/// Draws the rolls for the pairing of each of `count` entities.
pub fn draw_pair_rolls(count: usize) -> (rolls: Vec<PairRolls>)
    ensures
        fair_pair_rolls(rolls@, count as nat),
{
    let mut rolls: Vec<PairRolls> = Vec::new();
    let mut i: usize = 0;
    while i < count
        invariant
            i <= count,
            rolls@.len() == i,
            forall|j: int| 0 <= j < i ==> (#[trigger] rolls@[j]).valid(),
        decreases count - i,
    {
        rolls.push(PairRolls::draw());
        i += 1;
    }
    rolls
}

/// Whether `rolls` holds one set of rolls for each of `count` entities, each within its range.
pub open spec fn fair_pair_rolls(rolls: Seq<PairRolls>, count: nat) -> bool {
    &&& rolls.len() == count
    &&& forall|i: int| 0 <= i < rolls.len() ==> (#[trigger] rolls[i]).valid()
}

/// Whether `after` is what the pairing makes of `before` for some rolls.
pub open spec fn pairing_outcome(before: WorldView, after: WorldView) -> bool {
    exists|rolls: Seq<PairRolls>|
        fair_pair_rolls(rolls, before.agents.len()) && after == #[trigger] after_pairing(
            before,
            rolls,
        )
}

/// Pairs the living entities that suit each other.
pub fn pair_mates(world: &mut World)
    requires
        old(world)@.wf(),
    ensures
        pairing_outcome(old(world)@, final(world)@),
        final(world)@.wf(),
{
    let rolls = draw_pair_rolls(world.agents.len());
    pair_mates_with(world, &rolls);
}

} // verus!
