use life_sim::components::{
    create_corpse, create_food, create_predator, create_prey, BehaviorState, Genes, Position, Role,
    SpeciesId,
};
use life_sim::config::{
    behavior_state_from_name, behavior_state_name, load_config, load_config_with, save_config,
    EntityConfig,
};
use life_sim::fixed::ONE;
use life_sim::presentation::{food_color, living_color};
use life_sim::vector::Vector;
use life_sim::world::World;

fn at(x: i64, y: i64) -> Vector {
    Vector::new(x * ONE, y * ONE)
}

fn record(kind: &str, x: i64, hunger: Option<i64>, state: Option<&str>) -> EntityConfig {
    EntityConfig {
        position: at(x, 0),
        entity_type: kind.as_bytes().to_vec(),
        color: food_color(),
        hunger,
        behavior_state: state.map(|s| s.as_bytes().to_vec()),
    }
}

#[test]
fn behaviors_are_saved_under_their_names() {
    assert_eq!(behavior_state_name(BehaviorState::SeekFood), b"SeekFood".to_vec());
    assert_eq!(behavior_state_name(BehaviorState::Sleep), b"Sleep".to_vec());
    assert_eq!(behavior_state_name(BehaviorState::Wander), b"Wander".to_vec());
}

#[test]
fn names_are_read_back_as_their_behaviors() {
    for state in [BehaviorState::SeekFood, BehaviorState::Sleep, BehaviorState::Wander] {
        assert_eq!(behavior_state_from_name(&behavior_state_name(state)), (state, true));
    }
}

#[test]
fn an_unknown_name_is_read_as_sleep() {
    for name in ["Flee", "", "sleep", "SeekFoo", "SeekFood ", "InfluencedWork", "Wanderer"] {
        assert_eq!(
            behavior_state_from_name(&name.as_bytes().to_vec()),
            (BehaviorState::Sleep, false),
            "{name}"
        );
    }
}

#[test]
fn prey_and_food_are_saved() {
    let mut world = World::new();
    world.spawn_living(create_prey(at(1, 2), SpeciesId(0), Genes::default()));
    world.spawn_food(create_food(at(3, 4), 5 * ONE));
    world.spawn_living(create_predator(at(5, 6), SpeciesId(1), Genes::default()));
    world.spawn_corpse(create_corpse(at(7, 8), 5 * ONE));
    world.spawn_living(create_prey(at(9, 9), SpeciesId(0), Genes::default()));
    world.agents[0].needs.hunger = 42 * ONE;
    world.agents[0].behavior = BehaviorState::SeekFood;
    let records = save_config(&world);
    assert_eq!(records.len(), 3);
    assert_eq!(records[0].entity_type, b"Prey".to_vec());
    assert_eq!(records[0].position, at(1, 2));
    assert_eq!(records[0].color, living_color(Role::Prey));
    assert_eq!(records[0].hunger, Some(42 * ONE));
    assert_eq!(records[0].behavior_state, Some(b"SeekFood".to_vec()));
    assert_eq!(records[1].entity_type, b"Prey".to_vec());
    assert_eq!(records[1].position, at(9, 9));
    assert_eq!(records[1].behavior_state, Some(b"Wander".to_vec()));
    assert_eq!(records[2].entity_type, b"Food".to_vec());
    assert_eq!(records[2].position, at(3, 4));
    assert_eq!(records[2].color, food_color());
    assert_eq!(records[2].hunger, None);
    assert_eq!(records[2].behavior_state, None);
}

#[test]
fn records_are_read_into_the_world() {
    let records = vec![
        record("Prey", 1, Some(30 * ONE), Some("SeekFood")),
        record("Food", 2, None, None),
        record("Prey", 3, None, Some("Dance")),
        record("Rock", 4, Some(ONE), Some("Sleep")),
        record("Prey", 5, Some(7 * ONE), None),
        record("Prey", 6, None, Some("Sleep")),
    ];
    let genes: Vec<Genes> = (0..6).map(|_| Genes::default()).collect();
    let amounts: Vec<i64> = (0..6).map(|i| (20 + i) * ONE).collect();
    let mut world = World::new();
    let unknown = load_config_with(&mut world, &records, &genes, &amounts);
    assert_eq!(unknown, 1);
    assert_eq!(world.agents.len(), 4);
    assert_eq!(world.foods.len(), 1);
    assert!(world.corpses.is_empty());
    let first = &world.agents[0];
    assert_eq!(first.position, Position(at(1, 0)));
    assert_eq!(first.role, Role::Prey);
    assert_eq!(first.species, SpeciesId(0));
    assert_eq!(first.needs.hunger, 30 * ONE);
    assert_eq!(first.needs.energy, ONE);
    assert_eq!(first.behavior, BehaviorState::SeekFood);
    assert_eq!(first.genes, genes[0]);
    assert_eq!(world.agents[1].behavior, BehaviorState::Sleep);
    assert_eq!(world.agents[1].needs.hunger, 0);
    assert_eq!(world.agents[1].genes, genes[2]);
    assert_eq!(world.agents[2].behavior, BehaviorState::Wander);
    assert_eq!(world.agents[2].needs.hunger, 7 * ONE);
    assert_eq!(world.agents[3].behavior, BehaviorState::Sleep);
    assert_eq!(world.foods[0].position, Position(at(2, 0)));
    assert_eq!(world.foods[0].amount.0, 21 * ONE);
    assert_eq!(world.next_entity, 5);
}

#[test]
fn a_saved_world_comes_back() {
    let mut world = World::new();
    for i in 0..5 {
        world.spawn_living(create_prey(at(i, i), SpeciesId(0), Genes::default()));
        world.spawn_food(create_food(at(i, -i), 5 * ONE));
        world.agents[i as usize].needs.hunger = i * ONE;
    }
    world.agents[1].behavior = BehaviorState::Sleep;
    world.agents[2].behavior = BehaviorState::SeekFood;
    let mut restored = World::new();
    let unknown = load_config(&mut restored, &save_config(&world));
    assert_eq!(unknown, 0);
    assert_eq!(restored.agents.len(), 5);
    assert_eq!(restored.foods.len(), 5);
    for i in 0..5 {
        assert_eq!(restored.agents[i].position, world.agents[i].position);
        assert_eq!(restored.agents[i].needs.hunger, world.agents[i].needs.hunger);
        assert_eq!(restored.agents[i].behavior, world.agents[i].behavior);
        assert_eq!(restored.foods[i].position, world.foods[i].position);
        let amount = restored.foods[i].amount.0;
        assert!(10 * ONE <= amount && amount < 100 * ONE);
        let g = restored.agents[i].genes;
        assert!(300 * ONE <= g.vision_range && g.vision_range < 500 * ONE);
    }
}

#[test]
fn missing_genes_and_amounts_are_made_up() {
    let records = vec![record("Prey", 1, None, None), record("Food", 2, None, None)];
    let mut world = World::new();
    load_config_with(&mut world, &records, &Vec::new(), &Vec::new());
    assert_eq!(world.agents[0].genes.max_speed, 0);
    assert_eq!(world.foods[0].amount.0, 10 * ONE);
}
