use life_sim::components::{
    create_corpse, create_food, create_predator, create_prey, Entity, Genes, Position, SpeciesId,
};
use life_sim::fixed::ONE;
use life_sim::presentation::{corpse_color, food_color, living_color, EntityColor};
use life_sim::components::{BehaviorState, Role};
use life_sim::vector::Vector;
use life_sim::world::{contains, is_ordered_below, World};

fn at(x: i64, y: i64) -> Vector {
    Vector::new(x * ONE, y * ONE)
}

fn settled() -> World {
    let mut world = World::new();
    let genes = Genes::default();
    world.spawn_living(create_prey(at(1, 1), SpeciesId(0), genes));
    world.spawn_food(create_food(at(2, 2), 5 * ONE));
    world.spawn_living(create_predator(at(3, 3), SpeciesId(1), genes));
    world.spawn_corpse(create_corpse(at(4, 4), 6 * ONE));
    world.spawn_food(create_food(at(5, 5), 7 * ONE));
    world
}

#[test]
fn identifiers_are_given_in_turn() {
    let world = settled();
    assert_eq!(world.agents[0].entity, Entity(0));
    assert_eq!(world.foods[0].entity, Entity(1));
    assert_eq!(world.agents[1].entity, Entity(2));
    assert_eq!(world.corpses[0].entity, Entity(3));
    assert_eq!(world.foods[1].entity, Entity(4));
    assert_eq!(world.next_entity, 5);
}

#[test]
fn a_full_world_takes_nothing_in() {
    let mut world = World::new();
    world.next_entity = u64::MAX - 1;
    assert_eq!(world.spawn_food(create_food(at(0, 0), ONE)), Some(Entity(u64::MAX - 1)));
    assert_eq!(world.spawn_food(create_food(at(0, 0), ONE)), None);
    assert_eq!(world.spawn_corpse(create_corpse(at(0, 0), ONE)), None);
    assert_eq!(world.spawn_living(create_prey(at(0, 0), SpeciesId(0), Genes::default())), None);
    assert_eq!(world.foods.len(), 1);
    assert!(world.corpses.is_empty());
    assert!(world.agents.is_empty());
}

#[test]
fn entities_are_found_where_they_stand() {
    let world = settled();
    assert_eq!(world.find_agent(Entity(2)), Some(1));
    assert_eq!(world.find_agent(Entity(1)), None);
    assert_eq!(world.find_food(Entity(4)), Some(1));
    assert_eq!(world.find_food(Entity(3)), None);
    assert_eq!(world.find_corpse(Entity(3)), Some(0));
    assert_eq!(world.find_corpse(Entity(99)), None);
}

#[test]
fn removal_keeps_the_rest_in_order() {
    let mut world = settled();
    world.spawn_food(create_food(at(6, 6), ONE));
    world.remove_foods(&vec![Entity(4), Entity(77)]);
    assert_eq!(world.foods.len(), 2);
    assert_eq!(world.foods[0].entity, Entity(1));
    assert_eq!(world.foods[1].entity, Entity(5));
    world.remove_agents(&vec![Entity(0)]);
    assert_eq!(world.agents.len(), 1);
    assert_eq!(world.agents[0].entity, Entity(2));
    world.remove_corpses(&vec![Entity(3)]);
    assert!(world.corpses.is_empty());
    assert_eq!(world.next_entity, 6);
}

#[test]
fn objects_list_the_living_then_food_then_corpses() {
    let world = settled();
    let objects = world.objects();
    let ids: Vec<u64> = objects.iter().map(|o| o.entity.0).collect();
    assert_eq!(ids, vec![0, 2, 1, 4, 3]);
    assert_eq!(objects[2].position, Position(at(2, 2)));
}

#[test]
fn membership_in_a_list_of_entities() {
    let list = vec![Entity(3), Entity(5)];
    assert!(contains(&list, Entity(5)));
    assert!(!contains(&list, Entity(4)));
    assert!(!contains(&Vec::new(), Entity(4)));
}

#[test]
fn the_world_shows_each_object_in_its_color() {
    let world = settled();
    let shown = world.appearances();
    assert_eq!(shown.len(), 5);
    assert_eq!(shown[0].entity, Entity(0));
    assert_eq!(shown[0].color, EntityColor(living_color(Role::Prey)));
    assert_eq!(shown[0].behavior, Some(BehaviorState::Wander));
    assert_eq!(shown[1].color, EntityColor(living_color(Role::Predator)));
    assert_eq!(shown[2].entity, Entity(1));
    assert_eq!(shown[2].color, EntityColor(food_color()));
    assert_eq!(shown[2].behavior, None);
    assert_eq!(shown[4].entity, Entity(3));
    assert_eq!(shown[4].color, EntityColor(corpse_color()));
    assert_eq!(shown[4].position, Position(at(4, 4)));
    assert_eq!(food_color().green, ONE);
    assert_eq!(food_color().red, 0);
    assert_eq!(living_color(Role::Prey).blue, 0);
    assert_eq!(corpse_color().red, 300_000);
}

#[test]
fn a_world_is_well_formed_while_its_identifiers_rise() {
    let mut world = settled();
    assert!(world.is_well_formed());
    world.foods.swap(0, 1);
    assert!(!world.is_well_formed());
    world.foods.swap(0, 1);
    assert!(world.is_well_formed());
    world.next_entity = 4;
    assert!(!world.is_well_formed());
    world.next_entity = 5;
    world.corpses.push(world.corpses[0]);
    assert!(!world.is_well_formed());
    assert!(World::new().is_well_formed());
}

#[test]
fn order_of_a_list_of_identifiers() {
    assert!(is_ordered_below(&vec![Entity(1), Entity(4), Entity(9)], 10));
    assert!(!is_ordered_below(&vec![Entity(1), Entity(4), Entity(9)], 9));
    assert!(!is_ordered_below(&vec![Entity(1), Entity(1)], 10));
    assert!(!is_ordered_below(&vec![Entity(2), Entity(1)], 10));
    assert!(is_ordered_below(&Vec::new(), 0));
}

#[test]
fn lookups_find_every_member_of_a_large_world() {
    let mut world = World::new();
    for i in 0..1000 {
        if i % 3 == 0 {
            world.spawn_food(create_food(at(i, 0), ONE));
        } else {
            world.spawn_living(create_prey(at(i, 0), SpeciesId(0), Genes::default()));
        }
    }
    world.remove_foods(&vec![Entity(300), Entity(0), Entity(999)]);
    for i in 0..1000u64 {
        let food = world.find_food(Entity(i));
        let agent = world.find_agent(Entity(i));
        if i % 3 == 0 && i != 300 && i != 0 && i != 999 {
            assert_eq!(world.foods[food.unwrap()].entity, Entity(i));
            assert_eq!(agent, None);
        } else if i % 3 != 0 {
            assert_eq!(world.agents[agent.unwrap()].entity, Entity(i));
            assert_eq!(food, None);
        } else {
            assert_eq!(food, None);
            assert_eq!(agent, None);
        }
        assert_eq!(world.find_corpse(Entity(i)), None);
    }
    assert_eq!(world.find_agent(Entity(5000)), None);
}
