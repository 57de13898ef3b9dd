use life_sim::components::{
    create_corpse, create_food, create_predator, create_prey, BehaviorState, Entity, FoodAmount,
    Genes, Position, Role, SimulationSpeed, SpeciesId,
};
use life_sim::fixed::ONE;
use life_sim::gameloop::{
    advance, draw_move_rolls, game_loop_predator, game_loop_predator_with, game_loop_prey,
    game_loop_prey_with, MoveRolls,
};
use life_sim::grid::{update_grid_system, SpatialGrid};
use life_sim::perception::{scan_with, SenseRolls};
use life_sim::vector::Vector;
use life_sim::world::World;

fn at(x: f64, y: f64) -> Vector {
    Vector::new((x * 1e6).round() as i64, (y * 1e6).round() as i64)
}

fn fx(x: f64) -> i64 {
    (x * 1e6).round() as i64
}

fn eater(bite: i64) -> Genes {
    Genes {
        sociality: 0,
        curiosity: ONE,
        greed: 0,
        laziness: 0,
        vision_range: 100 * ONE,
        wander_radius: 300 * ONE,
        max_speed: 10 * ONE,
        bite_size: bite * ONE,
        hunger_rate: ONE,
        max_age: 100 * ONE,
        gender: true,
        max_offspring_count: 3,
        can_produce_food: false,
    }
}

fn still() -> MoveRolls {
    MoveRolls { stumble: false, turns: Vec::new(), flesh: 20 * ONE }
}

fn one() -> SimulationSpeed {
    SimulationSpeed(ONE)
}

#[test]
fn a_hungry_prey_walks_to_its_food_and_eats_it_up() {
    let mut world = World::new();
    world.spawn_living(create_prey(at(0.0, 0.0), SpeciesId(0), eater(10)));
    let food = world.spawn_food(create_food(at(50.0, 0.0), 5 * ONE)).unwrap();
    world.agents[0].needs.hunger = 60 * ONE;
    world.agents[0].behavior = BehaviorState::SeekFood;
    let mut grid = SpatialGrid::new(64 * ONE);
    let sense = SenseRolls { heading: Vector::zero(), reach: 0, prefer_nearest: true, pick: 0 };
    // eight steps of 10 * 60 / 100 = 6 units bring it within bite range
    for step in 1..=8 {
        update_grid_system(&mut grid, &world);
        scan_with(&grid, &mut world, Role::Prey, ONE, one(), &vec![sense]);
        assert_eq!(world.agents[0].perception.target_food, Some(food));
        game_loop_prey_with(&mut world, ONE, one(), &vec![still()]);
        assert_eq!(world.agents[0].position, Position(at(6.0 * step as f64, 0.0)));
        assert_eq!(world.foods[0].amount, FoodAmount(5 * ONE));
        assert_eq!(world.agents[0].needs.hunger, 60 * ONE);
    }
    update_grid_system(&mut grid, &world);
    scan_with(&grid, &mut world, Role::Prey, ONE, one(), &vec![sense]);
    game_loop_prey_with(&mut world, ONE, one(), &vec![still()]);
    // it bit off all five, its hunger fell by five, and the food is gone
    assert!(world.foods.is_empty());
    assert_eq!(world.find_food(food), None);
    assert_eq!(world.agents[0].needs.hunger, 55 * ONE);
    assert_eq!(world.agents[0].needs.energy, fx(1.05));
}

#[test]
fn one_bite_within_reach_takes_what_is_there() {
    let mut world = World::new();
    world.spawn_living(create_prey(at(0.0, 0.0), SpeciesId(0), eater(10)));
    let food = world.spawn_food(create_food(at(2.5, 0.0), 5 * ONE)).unwrap();
    world.agents[0].needs.hunger = 3 * ONE;
    world.agents[0].perception.target_food = Some(food);
    game_loop_prey_with(&mut world, ONE, one(), &vec![still()]);
    assert!(world.foods.is_empty());
    // hunger does not fall below zero
    assert_eq!(world.agents[0].needs.hunger, 0);
    assert_eq!(world.agents[0].needs.energy, fx(1.05));
    assert_eq!(world.agents[0].position, Position(at(0.0, 0.0)));
}

#[test]
fn a_small_bite_leaves_the_rest() {
    let mut world = World::new();
    world.spawn_living(create_prey(at(0.0, 0.0), SpeciesId(0), eater(2)));
    let food = world.spawn_food(create_food(at(0.0, 2.0), 5 * ONE)).unwrap();
    world.agents[0].needs.hunger = 50 * ONE;
    world.agents[0].perception.target_food = Some(food);
    game_loop_prey_with(&mut world, ONE, one(), &vec![still()]);
    assert_eq!(world.foods[0].amount, FoodAmount(3 * ONE));
    assert_eq!(world.agents[0].needs.hunger, 48 * ONE);
    assert_eq!(world.agents[0].needs.energy, fx(1.02));
    game_loop_prey_with(&mut world, ONE, one(), &vec![still()]);
    assert_eq!(world.foods[0].amount, FoodAmount(ONE));
    game_loop_prey_with(&mut world, ONE, one(), &vec![still()]);
    assert!(world.foods.is_empty());
    assert_eq!(world.agents[0].needs.hunger, 45 * ONE);
}

#[test]
fn two_prey_share_one_food_and_eat_no_more_than_it_holds() {
    let mut world = World::new();
    world.spawn_living(create_prey(at(0.0, 0.0), SpeciesId(0), eater(4)));
    world.spawn_living(create_prey(at(0.0, 1.0), SpeciesId(0), eater(4)));
    let food = world.spawn_food(create_food(at(1.0, 0.0), 5 * ONE)).unwrap();
    for agent in world.agents.iter_mut() {
        agent.needs.hunger = 50 * ONE;
        agent.perception.target_food = Some(food);
    }
    game_loop_prey_with(&mut world, ONE, one(), &vec![still(), still()]);
    assert!(world.foods.is_empty());
    let eaten: i64 = world.agents.iter().map(|a| 50 * ONE - a.needs.hunger).sum();
    assert_eq!(eaten, 5 * ONE);
    assert_eq!(world.agents[0].needs.hunger, 46 * ONE);
    assert_eq!(world.agents[1].needs.hunger, 49 * ONE);
}

#[test]
fn what_was_eaten_up_is_not_bitten_again() {
    let mut world = World::new();
    world.spawn_living(create_prey(at(0.0, 0.0), SpeciesId(0), eater(10)));
    world.spawn_living(create_prey(at(0.0, 1.0), SpeciesId(0), eater(10)));
    world.spawn_living(create_prey(at(30.0, 0.0), SpeciesId(0), eater(10)));
    let food = world.spawn_food(create_food(at(1.0, 0.0), 5 * ONE)).unwrap();
    for agent in world.agents.iter_mut() {
        agent.needs.hunger = 50 * ONE;
        agent.perception.target_food = Some(food);
    }
    game_loop_prey_with(&mut world, ONE, one(), &vec![still(), still(), still()]);
    assert!(world.foods.is_empty());
    assert_eq!(world.agents[0].needs.hunger, 45 * ONE);
    assert_eq!(world.agents[0].needs.energy, fx(1.05));
    // the second finds nothing left, and the third does not walk toward what is gone
    assert_eq!(world.agents[1].needs.hunger, 50 * ONE);
    assert_eq!(world.agents[1].needs.energy, ONE);
    assert_eq!(world.agents[2].position, Position(at(30.0, 0.0)));
}

#[test]
fn a_target_that_left_the_world_is_no_target() {
    let mut world = World::new();
    world.spawn_living(create_prey(at(0.0, 0.0), SpeciesId(0), eater(10)));
    world.agents[0].needs.hunger = 50 * ONE;
    world.agents[0].perception.target_food = Some(Entity(99));
    game_loop_prey_with(&mut world, ONE, one(), &vec![still()]);
    assert_eq!(world.agents[0].position, Position(at(0.0, 0.0)));
    assert_eq!(world.agents[0].needs.hunger, 50 * ONE);
}

#[test]
fn the_hungrier_the_faster_the_chase() {
    for (hunger, step) in [(100, 5.0), (50, 2.5), (0, 0.0)] {
        let mut prey = create_prey(at(0.0, 0.0), SpeciesId(0), eater(1));
        prey.needs.hunger = hunger * ONE;
        // at half a second per tick: 10 * hunger / 100 * 0.5
        advance(&mut prey, Some(at(0.0, -40.0)), ONE / 2, &still());
        assert_eq!(prey.position, Position(at(0.0, -step)));
    }
}

#[test]
fn a_wanderer_moves_by_its_energy() {
    let mut prey = create_prey(at(0.0, 0.0), SpeciesId(0), eater(1));
    prey.perception.target_position = Some(at(30.0, 40.0));
    prey.needs.energy = ONE / 2;
    advance(&mut prey, None, ONE, &still());
    // speed 10 * 0.5 along (0.6, 0.8)
    assert_eq!(prey.position, Position(at(3.0, 4.0)));
}

#[test]
fn low_sanity_may_make_it_stumble() {
    let stumbling = MoveRolls { stumble: true, ..still() };
    let mut prey = create_prey(at(0.0, 0.0), SpeciesId(0), eater(1));
    prey.perception.target_position = Some(at(100.0, 0.0));
    prey.needs.sanity = fx(0.2);
    advance(&mut prey, None, ONE, &stumbling);
    // speed 10 cut by the sanity: 10 * (1 - 0.2)
    assert_eq!(prey.position, Position(at(8.0, 0.0)));
    advance(&mut prey, None, ONE, &still());
    assert_eq!(prey.position, Position(at(18.0, 0.0)));
    prey.needs.sanity = fx(0.3);
    advance(&mut prey, None, ONE, &stumbling);
    assert_eq!(prey.position, Position(at(28.0, 0.0)));
}

#[test]
fn without_a_goal_it_stays() {
    let mut prey = create_prey(at(7.0, 7.0), SpeciesId(0), eater(1));
    advance(&mut prey, None, ONE, &still());
    assert_eq!(prey.position, Position(at(7.0, 7.0)));
}

#[test]
fn what_is_too_close_pushes_away_and_aside() {
    let left = MoveRolls { turns: vec![true], ..still() };
    let mut prey = create_prey(at(0.0, 0.0), SpeciesId(0), eater(1));
    prey.perception.repulsions = vec![(at(3.0, 0.0), fx(0.25))];
    advance(&mut prey, None, ONE, &left);
    // away (-1, 0) * 0.25 * 50, and one unit along the quarter turn of it
    assert_eq!(prey.position, Position(at(-12.5, -1.0)));

    let mut prey = create_prey(at(0.0, 0.0), SpeciesId(0), eater(1));
    prey.perception.repulsions = vec![(at(3.0, 0.0), fx(0.25))];
    advance(&mut prey, None, ONE / 2, &still());
    assert_eq!(prey.position, Position(at(-6.25, 0.5)));
}

#[test]
fn the_side_step_goes_with_the_desired_step() {
    for turn in [true, false] {
        let rolls = MoveRolls { turns: vec![turn], ..still() };
        let mut prey = create_prey(at(0.0, 0.0), SpeciesId(0), eater(1));
        prey.perception.repulsions = vec![(at(3.0, 0.0), fx(0.25))];
        prey.perception.target_position = Some(at(0.0, 100.0));
        advance(&mut prey, None, ONE, &rolls);
        // ten up toward the target, 12.5 away from the obstacle, one more up around it
        assert_eq!(prey.position, Position(at(-12.5, 11.0)));
    }
}

#[test]
fn the_food_that_is_chased_does_not_push() {
    let mut prey = create_prey(at(0.0, 0.0), SpeciesId(0), eater(1));
    prey.needs.hunger = 100 * ONE;
    prey.perception.repulsions = vec![(at(3.0, 0.0), fx(0.25)), (at(0.0, 3.0), fx(0.25))];
    advance(&mut prey, Some(at(3.0, 0.0)), ONE, &still());
    // ten toward the food; only the other body pushes: 12.5 down and one along
    assert_eq!(prey.position, Position(at(11.0, -12.5)));
}

#[test]
fn several_bodies_add_up() {
    let mut prey = create_prey(at(0.0, 0.0), SpeciesId(0), eater(1));
    prey.perception.repulsions = vec![(at(2.0, 0.0), fx(0.5)), (at(-2.0, 0.0), fx(0.5))];
    advance(&mut prey, None, ONE, &MoveRolls { turns: vec![true, true], ..still() });
    // the pushes cancel; the side steps (0, -1) and (0, 1) cancel too
    assert_eq!(prey.position, Position(at(0.0, 0.0)));
    prey.perception.repulsions = vec![(at(2.0, 0.0), fx(0.5)), (at(-2.0, 0.0), fx(0.5))];
    advance(&mut prey, None, ONE, &MoveRolls { turns: vec![true, false], ..still() });
    assert_eq!(prey.position, Position(at(0.0, -2.0)));
}

#[test]
fn a_predator_eats_its_prey_alive_and_leaves_a_corpse() {
    let mut world = World::new();
    let hunter = world.spawn_living(create_predator(at(0.0, 0.0), SpeciesId(5), eater(6))).unwrap();
    let prey = world.spawn_living(create_prey(at(4.0, 0.0), SpeciesId(0), eater(1))).unwrap();
    world.agents[0].needs.hunger = 50 * ONE;
    world.agents[0].perception.target_food = Some(prey);
    world.agents[1].food_amount = Some(FoodAmount(10 * ONE));
    let rolls = vec![MoveRolls { flesh: 33 * ONE, ..still() }, still()];
    game_loop_predator_with(&mut world, ONE, one(), &rolls);
    assert_eq!(world.agents.len(), 2);
    assert_eq!(world.agents[1].food_amount, Some(FoodAmount(4 * ONE)));
    assert_eq!(world.agents[0].needs.hunger, 44 * ONE);
    assert_eq!(world.agents[0].needs.energy, fx(1.06));
    assert!(world.corpses.is_empty());
    game_loop_predator_with(&mut world, ONE, one(), &rolls);
    // the prey is eaten up: it leaves, and its corpse lies where it was
    assert_eq!(world.agents.len(), 1);
    assert_eq!(world.agents[0].entity, hunter);
    assert_eq!(world.agents[0].needs.hunger, 40 * ONE);
    assert_eq!(world.corpses.len(), 1);
    assert_eq!(world.corpses[0].position, Position(at(4.0, 0.0)));
    assert_eq!(world.corpses[0].state.flesh_amount, 33 * ONE);
    assert_eq!(world.corpses[0].state.decay_timer, 100 * ONE);
    assert_eq!(world.corpses[0].state.decay_rate, ONE);
    assert_eq!(world.corpses[0].entity, Entity(2));
}

#[test]
fn a_predator_chases_prey_that_is_out_of_reach() {
    let mut world = World::new();
    world.spawn_living(create_predator(at(0.0, 0.0), SpeciesId(5), eater(6)));
    let prey = world.spawn_living(create_prey(at(0.0, 4.5), SpeciesId(0), eater(1))).unwrap();
    world.agents[0].needs.hunger = 50 * ONE;
    world.agents[0].perception.target_food = Some(prey);
    world.agents[1].food_amount = Some(FoodAmount(10 * ONE));
    game_loop_predator_with(&mut world, ONE, one(), &vec![still(), still()]);
    assert_eq!(world.agents[0].position, Position(at(0.0, 5.0)));
    assert_eq!(world.agents[1].food_amount, Some(FoodAmount(10 * ONE)));
    // the prey does not move in the pass of the predators
    assert_eq!(world.agents[1].position, Position(at(0.0, 4.5)));
}

#[test]
fn prey_without_flesh_to_give_is_no_meal() {
    let mut world = World::new();
    world.spawn_living(create_predator(at(0.0, 0.0), SpeciesId(5), eater(6)));
    let prey = world.spawn_living(create_prey(at(1.0, 0.0), SpeciesId(0), eater(1))).unwrap();
    world.agents[0].needs.hunger = 50 * ONE;
    world.agents[0].perception.target_food = Some(prey);
    game_loop_predator_with(&mut world, ONE, one(), &vec![still(), still()]);
    assert_eq!(world.agents.len(), 2);
    assert_eq!(world.agents[0].needs.hunger, 50 * ONE);
    assert_eq!(world.agents[0].position, Position(at(0.0, 0.0)));
}

#[test]
fn a_predator_feeds_on_a_corpse() {
    let mut world = World::new();
    world.spawn_living(create_predator(at(0.0, 0.0), SpeciesId(5), eater(6)));
    let corpse = world.spawn_corpse(create_corpse(at(0.0, 2.0), 8 * ONE)).unwrap();
    world.agents[0].needs.hunger = 50 * ONE;
    world.agents[0].perception.target_food = Some(corpse);
    game_loop_predator_with(&mut world, ONE, one(), &vec![still()]);
    assert_eq!(world.corpses[0].state.flesh_amount, 2 * ONE);
    assert_eq!(world.agents[0].needs.hunger, 44 * ONE);
    game_loop_predator_with(&mut world, ONE, one(), &vec![still()]);
    // a corpse that is eaten bare stays until it has decayed
    assert_eq!(world.corpses.len(), 1);
    assert_eq!(world.corpses[0].state.flesh_amount, 0);
    assert_eq!(world.agents[0].needs.hunger, 42 * ONE);
}

#[test]
fn a_predator_walks_to_a_corpse_out_of_reach() {
    let mut world = World::new();
    world.spawn_living(create_predator(at(0.0, 0.0), SpeciesId(5), eater(6)));
    let corpse = world.spawn_corpse(create_corpse(at(-30.0, 0.0), 8 * ONE)).unwrap();
    world.agents[0].needs.hunger = 30 * ONE;
    world.agents[0].perception.target_food = Some(corpse);
    game_loop_predator_with(&mut world, ONE, one(), &vec![still()]);
    assert_eq!(world.agents[0].position, Position(at(-3.0, 0.0)));
    assert_eq!(world.corpses[0].state.flesh_amount, 8 * ONE);
}

#[test]
fn two_predators_do_not_kill_the_same_prey_twice() {
    let mut world = World::new();
    world.spawn_living(create_predator(at(0.0, 0.0), SpeciesId(5), eater(6)));
    world.spawn_living(create_predator(at(0.0, 1.0), SpeciesId(5), eater(6)));
    let prey = world.spawn_living(create_prey(at(1.0, 0.0), SpeciesId(0), eater(1))).unwrap();
    world.agents[2].food_amount = Some(FoodAmount(3 * ONE));
    for i in 0..2 {
        world.agents[i].needs.hunger = 50 * ONE;
        world.agents[i].perception.target_food = Some(prey);
    }
    game_loop_predator_with(&mut world, ONE, one(), &vec![still(), still(), still()]);
    assert_eq!(world.agents.len(), 2);
    assert_eq!(world.corpses.len(), 1);
    assert_eq!(world.agents[0].needs.hunger, 47 * ONE);
    assert_eq!(world.agents[1].needs.hunger, 50 * ONE);
    assert_eq!(world.corpses[0].state.flesh_amount, 20 * ONE);
}

#[test]
fn each_pass_moves_its_own_kind_only() {
    let mut world = World::new();
    world.spawn_living(create_prey(at(0.0, 0.0), SpeciesId(0), eater(1)));
    world.spawn_living(create_predator(at(50.0, 0.0), SpeciesId(5), eater(1)));
    for agent in world.agents.iter_mut() {
        agent.perception.target_position = Some(at(0.0, 100.0));
    }
    game_loop_prey_with(&mut world, ONE, one(), &vec![still(), still()]);
    assert_eq!(world.agents[0].position, Position(at(0.0, 10.0)));
    assert_eq!(world.agents[1].position, Position(at(50.0, 0.0)));
    game_loop_predator_with(&mut world, ONE, SimulationSpeed(2 * ONE), &Vec::new());
    assert_eq!(world.agents[0].position, Position(at(0.0, 10.0)));
    // at speed two the tick lasts two seconds: twenty units along (-0.447213, 0.894427)
    assert_eq!(world.agents[1].position, Position(Vector::new(41_055_740, 17_888_540)));
}

#[test]
fn the_drawn_passes_keep_the_world_in_order() {
    let mut world = World::new();
    for i in 0..20 {
        world.spawn_living(create_prey(at(i as f64, 0.0), SpeciesId(0), eater(3)));
        world.spawn_food(create_food(at(i as f64, 1.0), 5 * ONE));
        world.spawn_living(create_predator(at(i as f64, 30.0), SpeciesId(5), eater(3)));
    }
    let foods: Vec<Entity> = world.foods.iter().map(|f| f.entity).collect();
    for (i, agent) in world.agents.iter_mut().enumerate() {
        agent.needs.hunger = 40 * ONE;
        agent.needs.sanity = fx(0.2);
        agent.perception.target_food = Some(foods[i / 2]);
        agent.perception.repulsions = vec![(at(0.0, 0.0), fx(0.1)); 3];
    }
    let rolls = draw_move_rolls(&world);
    assert_eq!(rolls.len(), 40);
    for r in &rolls {
        assert_eq!(r.turns.len(), 3);
        assert!(10 * ONE <= r.flesh && r.flesh < 50 * ONE);
    }
    for _ in 0..3 {
        game_loop_prey(&mut world, ONE / 10, one());
        game_loop_predator(&mut world, ONE / 10, one());
    }
    assert_eq!(world.agents.len(), 40);
    for food in &world.foods {
        assert!(food.amount.0 > 0);
    }
    for pair in world.foods.windows(2) {
        assert!(pair[0].entity.0 < pair[1].entity.0);
    }
}
