use life_sim::components::{
    create_corpse, create_food, create_predator, create_prey, BehaviorState, Entity, Genes, Role,
    SimulationSpeed, SpeciesId,
};
use life_sim::fixed::ONE;
use life_sim::grid::{update_grid_system, SpatialGrid};
use life_sim::perception::{
    choose_target, draw_sense_rolls, perceive, perception_scan_system_predator,
    perception_scan_system_prey, scan_with, Nature, SenseRolls, Sighting,
};
use life_sim::vector::Vector;
use life_sim::world::World;

fn at(x: f64, y: f64) -> Vector {
    Vector::new((x * 1e6).round() as i64, (y * 1e6).round() as i64)
}

fn fx(x: f64) -> i64 {
    (x * 1e6).round() as i64
}

/// Genes of an entity that is alert: not lazy, curious, and sees a hundred units far.
fn alert() -> Genes {
    Genes {
        sociality: fx(0.5),
        curiosity: ONE,
        greed: 0,
        laziness: 0,
        vision_range: 100 * ONE,
        wander_radius: 300 * ONE,
        max_speed: 10 * ONE,
        bite_size: 10 * ONE,
        hunger_rate: ONE,
        max_age: 100 * ONE,
        gender: true,
        max_offspring_count: 3,
        can_produce_food: false,
    }
}

fn plain_rolls() -> SenseRolls {
    SenseRolls { heading: Vector::new(ONE, 0), reach: ONE / 2, prefer_nearest: true, pick: 0 }
}

fn scan(world: &mut World, role: Role, rolls: SenseRolls) {
    let mut grid = SpatialGrid::new(64 * ONE);
    update_grid_system(&mut grid, world);
    let all = vec![rolls; world.agents.len()];
    scan_with(&grid, world, role, ONE, SimulationSpeed(ONE), &all);
}

#[test]
fn a_body_that_is_too_close_repels_by_its_closeness() {
    let mut world = World::new();
    world.spawn_living(create_prey(at(0.0, 0.0), SpeciesId(0), alert()));
    world.spawn_living(create_prey(at(3.0, 0.0), SpeciesId(0), alert()));
    world.spawn_living(create_prey(at(0.0, 4.5), SpeciesId(0), alert()));
    world.spawn_living(create_prey(at(0.0, 5.0), SpeciesId(0), alert()));
    scan(&mut world, Role::Prey, plain_rolls());
    // (4 - 3) / 4 and (4 - 4.5) / 4; what is five units away does not repel
    assert_eq!(
        world.agents[0].perception.repulsions,
        vec![(at(3.0, 0.0), fx(0.25)), (at(0.0, 4.5), fx(-0.125))]
    );
    assert_eq!(world.agents[1].perception.repulsions, vec![(at(0.0, 0.0), fx(0.25))]);
    assert!(world.agents[0].perception.attractions.is_empty());
}

#[test]
fn prey_targets_the_nearest_food_in_view() {
    let mut world = World::new();
    world.spawn_living(create_prey(at(0.0, 0.0), SpeciesId(0), alert()));
    let far = world.spawn_food(create_food(at(50.0, 0.0), 5 * ONE)).unwrap();
    let near = world.spawn_food(create_food(at(20.0, 0.0), 5 * ONE)).unwrap();
    let _hidden = world.spawn_food(create_food(at(0.0, 100.0), 5 * ONE)).unwrap();
    scan(&mut world, Role::Prey, plain_rolls());
    assert_eq!(world.agents[0].perception.target_food, Some(near));
    assert_eq!(world.agents[0].perception.time_since_last_sense, 0);
    let any = SenseRolls { prefer_nearest: false, pick: 4, ..plain_rolls() };
    scan(&mut world, Role::Prey, any);
    assert_eq!(world.agents[0].perception.target_food, Some(far));
    let other = SenseRolls { prefer_nearest: false, pick: 7, ..plain_rolls() };
    scan(&mut world, Role::Prey, other);
    assert_eq!(world.agents[0].perception.target_food, Some(near));
}

#[test]
fn no_food_in_view_clears_the_target() {
    let mut world = World::new();
    world.spawn_living(create_prey(at(0.0, 0.0), SpeciesId(0), alert()));
    world.agents[0].perception.target_food = Some(Entity(77));
    scan(&mut world, Role::Prey, plain_rolls());
    assert_eq!(world.agents[0].perception.target_food, None);
}

#[test]
fn a_lazy_entity_skips_the_scan_but_feels_its_neighbors() {
    let mut world = World::new();
    let mut lazy = alert();
    lazy.laziness = ONE;
    world.spawn_living(create_prey(at(0.0, 0.0), SpeciesId(0), lazy));
    world.spawn_living(create_prey(at(2.0, 0.0), SpeciesId(0), alert()));
    world.spawn_food(create_food(at(20.0, 0.0), 5 * ONE));
    world.agents[0].perception.target_food = Some(Entity(77));
    world.agents[0].perception.target_position = Some(at(9.0, 9.0));
    for tick in 1..5 {
        scan(&mut world, Role::Prey, plain_rolls());
        let p = &world.agents[0].perception;
        assert_eq!(p.time_since_last_sense, tick * ONE);
        assert_eq!(p.target_food, Some(Entity(77)));
        assert_eq!(p.target_position, Some(at(9.0, 9.0)));
        assert_eq!(p.repulsions, vec![(at(2.0, 0.0), fx(0.5))]);
    }
    // after five seconds the threshold of laziness times five is reached
    scan(&mut world, Role::Prey, plain_rolls());
    let p = &world.agents[0].perception;
    assert_eq!(p.time_since_last_sense, 0);
    assert_eq!(p.target_food, Some(Entity(2)));
}

#[test]
fn a_sleeper_does_not_look_for_food() {
    let mut world = World::new();
    world.spawn_living(create_prey(at(0.0, 0.0), SpeciesId(0), alert()));
    world.spawn_food(create_food(at(20.0, 0.0), 5 * ONE));
    world.agents[0].behavior = BehaviorState::Sleep;
    scan(&mut world, Role::Prey, plain_rolls());
    assert_eq!(world.agents[0].perception.target_food, None);
    assert_eq!(world.agents[0].perception.time_since_last_sense, ONE);
    assert_eq!(world.agents[0].perception.time_since_last_target, ONE);
}

#[test]
fn a_panicking_entity_sees_no_food() {
    let mut world = World::new();
    world.spawn_living(create_prey(at(0.0, 0.0), SpeciesId(0), alert()));
    world.spawn_food(create_food(at(20.0, 0.0), 5 * ONE));
    world.agents[0].needs.sanity = fx(0.1);
    scan(&mut world, Role::Prey, plain_rolls());
    assert_eq!(world.agents[0].perception.target_food, None);
    world.agents[0].needs.sanity = fx(0.1) + 1;
    scan(&mut world, Role::Prey, plain_rolls());
    assert_eq!(world.agents[0].perception.target_food, Some(Entity(1)));
}

#[test]
fn ready_mates_of_the_same_species_attract() {
    let mut world = World::new();
    let female = alert();
    let mut male = alert();
    male.gender = false;
    world.spawn_living(create_prey(at(0.0, 0.0), SpeciesId(1), female));
    world.spawn_living(create_prey(at(6.0, 0.0), SpeciesId(1), male));
    world.spawn_living(create_prey(at(0.0, 6.0), SpeciesId(1), female));
    world.spawn_living(create_prey(at(0.0, -6.0), SpeciesId(2), male));
    world.spawn_living(create_prey(at(-6.0, 0.0), SpeciesId(1), male));
    world.spawn_living(create_prey(at(10.0, 0.0), SpeciesId(1), male));
    for i in [0, 1, 2, 3, 5] {
        world.agents[i].needs.mate_ready = true;
    }
    scan(&mut world, Role::Prey, plain_rolls());
    // only the male of her species that is ready and closer than ten units
    assert_eq!(world.agents[0].perception.attractions, vec![(at(6.0, 0.0), ONE)]);
    // the male is within ten units of both females
    assert_eq!(
        world.agents[1].perception.attractions,
        vec![(at(0.0, 0.0), ONE), (at(0.0, 6.0), ONE)]
    );
    assert!(world.agents[4].perception.attractions.is_empty());
    world.agents[0].needs.mate_ready = false;
    scan(&mut world, Role::Prey, plain_rolls());
    assert!(world.agents[0].perception.attractions.is_empty());
    assert_eq!(world.agents[1].perception.attractions, vec![(at(0.0, 6.0), ONE)]);
}

#[test]
fn prey_shun_corpses_and_predators() {
    let mut world = World::new();
    world.spawn_living(create_prey(at(0.0, 0.0), SpeciesId(0), alert()));
    world.spawn_corpse(create_corpse(at(10.0, 0.0), 20 * ONE));
    world.spawn_living(create_predator(at(0.0, 10.0), SpeciesId(5), alert()));
    world.spawn_living(create_predator(at(0.0, 20.0), SpeciesId(5), alert()));
    world.spawn_living(create_predator(at(0.0, 20.5), SpeciesId(5), alert()));
    world.corpses[0].state.decay_timer = 80 * ONE;
    scan(&mut world, Role::Prey, plain_rolls());
    // the stench is (100 - 80) / 10, the fear 10 / 20 and 20 / 20
    assert_eq!(
        world.agents[0].perception.repulsions,
        vec![(at(0.0, 10.0), fx(0.5)), (at(0.0, 20.0), ONE), (at(10.0, 0.0), 2 * ONE)]
    );
    assert_eq!(world.agents[0].perception.target_food, None);
    // the scan of the prey leaves the predators as they are
    assert!(world.agents[1].perception.repulsions.is_empty());
}

#[test]
fn predators_target_prey_and_fresh_corpses() {
    let mut world = World::new();
    let hunter = world.spawn_living(create_predator(at(0.0, 0.0), SpeciesId(5), alert())).unwrap();
    let prey = world.spawn_living(create_prey(at(30.0, 0.0), SpeciesId(0), alert())).unwrap();
    let rotten = world.spawn_corpse(create_corpse(at(10.0, 0.0), 20 * ONE)).unwrap();
    let fresh = world.spawn_corpse(create_corpse(at(20.0, 0.0), 20 * ONE)).unwrap();
    let bare = world.spawn_corpse(create_corpse(at(5.0, 5.0), 0)).unwrap();
    world.spawn_food(create_food(at(1.0, 1.0), 5 * ONE));
    world.corpses[0].state.decay_timer = 75 * ONE;
    scan(&mut world, Role::Predator, plain_rolls());
    assert_eq!(world.agents[0].entity, hunter);
    assert_eq!(world.agents[0].perception.target_food, Some(fresh));
    let first = SenseRolls { prefer_nearest: false, pick: 0, ..plain_rolls() };
    scan(&mut world, Role::Predator, first);
    assert_eq!(world.agents[0].perception.target_food, Some(prey));
    let second = SenseRolls { prefer_nearest: false, pick: 1, ..plain_rolls() };
    scan(&mut world, Role::Predator, second);
    assert_eq!(world.agents[0].perception.target_food, Some(fresh));
    assert_ne!(world.agents[0].perception.target_food, Some(rotten));
    assert_ne!(world.agents[0].perception.target_food, Some(bare));
    // a predator feels the food beside it but does not fear or smell anything
    assert_eq!(world.agents[0].perception.repulsions.len(), 1);
    // the scan of the predators leaves the prey as it is
    assert_eq!(world.agents[1].perception.time_since_last_sense, 0);
    assert_eq!(world.agents[1].perception.time_since_last_target, 0);
}

#[test]
fn a_wanderer_picks_a_new_target_when_its_interval_is_over() {
    let mut world = World::new();
    world.spawn_living(create_prey(at(10.0, 10.0), SpeciesId(0), alert()));
    // full curiosity: a new target every three seconds
    for tick in 1..=3 {
        scan(&mut world, Role::Prey, plain_rolls());
        assert_eq!(world.agents[0].perception.target_position, None);
        assert_eq!(world.agents[0].perception.time_since_last_target, tick * ONE);
    }
    scan(&mut world, Role::Prey, plain_rolls());
    // half of the wander radius of three hundred, along the heading
    assert_eq!(world.agents[0].perception.target_position, Some(at(160.0, 10.0)));
    assert_eq!(world.agents[0].perception.time_since_last_target, 0);
    let up = SenseRolls { heading: Vector::new(0, -ONE / 2), reach: ONE / 10, ..plain_rolls() };
    scan(&mut world, Role::Prey, up);
    assert_eq!(world.agents[0].perception.target_position, Some(at(160.0, 10.0)));
}

#[test]
fn without_curiosity_the_interval_is_twelve_seconds() {
    let mut world = World::new();
    let mut dull = alert();
    dull.curiosity = 0;
    world.spawn_living(create_prey(at(0.0, 0.0), SpeciesId(0), dull));
    for _ in 0..12 {
        scan(&mut world, Role::Prey, plain_rolls());
        assert_eq!(world.agents[0].perception.target_position, None);
    }
    let up = SenseRolls { heading: Vector::new(0, -ONE / 2), reach: ONE / 10, ..plain_rolls() };
    scan(&mut world, Role::Prey, up);
    assert_eq!(world.agents[0].perception.target_position, Some(at(0.0, -30.0)));
}

#[test]
fn panic_sends_an_entity_the_whole_radius_out() {
    let mut world = World::new();
    world.spawn_living(create_prey(at(0.0, 0.0), SpeciesId(0), alert()));
    world.agents[0].behavior = BehaviorState::SeekFood;
    world.agents[0].needs.sanity = fx(0.05);
    world.agents[0].perception.time_since_last_target = 5 * ONE;
    let rolls = SenseRolls { heading: Vector::new(3, 4), reach: 0, ..plain_rolls() };
    scan(&mut world, Role::Prey, rolls);
    assert_eq!(world.agents[0].perception.target_position, Some(at(180.0, 240.0)));
}

#[test]
fn an_entity_that_neither_wanders_nor_panics_has_no_wander_target() {
    let mut world = World::new();
    world.spawn_living(create_prey(at(0.0, 0.0), SpeciesId(0), alert()));
    world.agents[0].behavior = BehaviorState::SeekFood;
    world.agents[0].perception.target_position = Some(at(5.0, 5.0));
    scan(&mut world, Role::Prey, plain_rolls());
    assert_eq!(world.agents[0].perception.target_position, None);
}

#[test]
fn a_stale_grid_shows_only_what_is_still_there() {
    let mut world = World::new();
    world.spawn_living(create_prey(at(0.0, 0.0), SpeciesId(0), alert()));
    let food = world.spawn_food(create_food(at(2.0, 0.0), 5 * ONE)).unwrap();
    let mut grid = SpatialGrid::new(64 * ONE);
    update_grid_system(&mut grid, &world);
    world.remove_foods(&vec![food]);
    scan_with(&grid, &mut world, Role::Prey, ONE, SimulationSpeed(ONE), &vec![plain_rolls()]);
    assert!(world.agents[0].perception.repulsions.is_empty());
    assert_eq!(world.agents[0].perception.target_food, None);
    assert_eq!(world.observe(food), None);
    assert_eq!(
        world.observe(Entity(0)),
        Some(Sighting {
            entity: Entity(0),
            position: at(0.0, 0.0),
            nature: Nature::Living {
                role: Role::Prey,
                mate_ready: false,
                gender: true,
                species: SpeciesId(0)
            },
        })
    );
    assert!(world.observe_all(Entity(0), &vec![Entity(0), food, Entity(9)]).is_empty());
}

#[test]
fn speed_stretches_the_time_between_scans() {
    let mut world = World::new();
    let mut lazy = alert();
    lazy.laziness = ONE / 2;
    world.spawn_living(create_prey(at(0.0, 0.0), SpeciesId(0), lazy));
    let mut grid = SpatialGrid::new(64 * ONE);
    update_grid_system(&mut grid, &world);
    // at speed two a tick of one second lasts two, and the threshold is 0.5 * 5 * 2
    scan_with(&grid, &mut world, Role::Prey, ONE, SimulationSpeed(2 * ONE), &vec![plain_rolls()]);
    assert_eq!(world.agents[0].perception.time_since_last_sense, 2 * ONE);
    scan_with(&grid, &mut world, Role::Prey, ONE, SimulationSpeed(2 * ONE), &vec![plain_rolls()]);
    assert_eq!(world.agents[0].perception.time_since_last_sense, 4 * ONE);
    scan_with(&grid, &mut world, Role::Prey, ONE, SimulationSpeed(2 * ONE), &vec![plain_rolls()]);
    assert_eq!(world.agents[0].perception.time_since_last_sense, 0);
}

#[test]
fn perceive_works_on_what_was_sighted() {
    let mut prey = create_prey(at(0.0, 0.0), SpeciesId(0), alert());
    let sightings = vec![
        Sighting { entity: Entity(5), position: at(0.0, 30.0), nature: Nature::Food },
        Sighting { entity: Entity(6), position: at(0.0, 1.0), nature: Nature::Food },
    ];
    perceive(&mut prey, &sightings, ONE, ONE, &plain_rolls());
    assert_eq!(prey.perception.target_food, Some(Entity(6)));
    assert_eq!(prey.perception.repulsions, vec![(at(0.0, 1.0), fx(0.75))]);
}

#[test]
fn the_first_of_the_nearest_wins() {
    let candidates = vec![
        (Entity(1), 5 * ONE),
        (Entity(2), 3 * ONE),
        (Entity(3), 3 * ONE),
        (Entity(4), 9 * ONE),
    ];
    assert_eq!(choose_target(&candidates, true, 3), Some(Entity(2)));
    assert_eq!(choose_target(&candidates, false, 3), Some(Entity(4)));
    assert_eq!(choose_target(&candidates, false, 6), Some(Entity(3)));
    assert_eq!(choose_target(&Vec::new(), true, 0), None);
    assert_eq!(choose_target(&Vec::new(), false, 9), None);
}

#[test]
fn the_nearest_is_chosen_about_half_of_the_time() {
    let mut candidates = Vec::new();
    for i in 0..100u64 {
        candidates.push((Entity(i), (100 + i as i64) * ONE));
    }
    candidates.swap(0, 57);
    let trials = 20_000;
    let mut nearest = 0;
    for rolls in draw_sense_rolls(trials) {
        if choose_target(&candidates, rolls.prefer_nearest, rolls.pick) == Some(Entity(0)) {
            nearest += 1;
        }
    }
    assert!(nearest * 100 >= trials * 45, "nearest {nearest} of {trials}");
    assert!(nearest * 100 <= trials * 55, "nearest {nearest} of {trials}");
}

#[test]
fn drawn_rolls_are_in_their_ranges() {
    let rolls = draw_sense_rolls(500);
    assert_eq!(rolls.len(), 500);
    let mut picks = Vec::new();
    for r in &rolls {
        assert!(-ONE <= r.heading.x && r.heading.x < ONE);
        assert!(-ONE <= r.heading.y && r.heading.y < ONE);
        assert!(0 <= r.reach && r.reach < ONE);
        picks.push(r.pick);
    }
    picks.sort();
    picks.dedup();
    assert!(picks.len() > 400);
}

#[test]
fn the_systems_scan_each_its_own_kind() {
    let mut world = World::new();
    world.spawn_living(create_prey(at(0.0, 0.0), SpeciesId(0), alert()));
    world.spawn_living(create_predator(at(30.0, 0.0), SpeciesId(1), alert()));
    let food = world.spawn_food(create_food(at(3.0, 0.0), 5 * ONE)).unwrap();
    let mut grid = SpatialGrid::new(64 * ONE);
    update_grid_system(&mut grid, &world);
    perception_scan_system_prey(&grid, &mut world, ONE, SimulationSpeed(ONE));
    assert_eq!(world.agents[0].perception.target_food, Some(food));
    assert_eq!(world.agents[0].perception.repulsions, vec![(at(3.0, 0.0), fx(0.25))]);
    assert_eq!(world.agents[1].perception.target_food, None);
    assert_eq!(world.agents[1].perception.time_since_last_target, 0);
    perception_scan_system_predator(&grid, &mut world, ONE, SimulationSpeed(ONE));
    assert_eq!(world.agents[1].perception.target_food, Some(Entity(0)));
    assert_eq!(world.agents[1].perception.time_since_last_target, ONE);
}

#[test]
fn a_wander_target_lies_within_the_wander_radius() {
    let origin = at(12.5, -40.0);
    for (k, rolls) in draw_sense_rolls(2000).into_iter().enumerate() {
        let mut prey = create_prey(origin, SpeciesId(0), alert());
        prey.genes.wander_radius = fx(37.5);
        prey.perception.time_since_last_target = 20 * ONE;
        if k % 2 == 0 {
            prey.needs.sanity = 0;
        }
        perceive(&mut prey, &Vec::new(), ONE, ONE, &rolls);
        let target = prey.perception.target_position.unwrap();
        assert!(origin.distance(target) <= fx(37.5));
        // in panic it goes the whole radius out, but for the rounding of a short heading
        if k % 2 == 0 && rolls.heading.x.abs().max(rolls.heading.y.abs()) > 10_000 {
            assert!(origin.distance(target) >= fx(37.4));
        }
    }
}

#[test]
fn what_lies_beyond_the_neighboring_cells_is_not_seen() {
    let mut world = World::new();
    let mut keen = alert();
    keen.vision_range = 500 * ONE;
    world.spawn_living(create_prey(at(10.0, 10.0), SpeciesId(0), keen));
    let beyond = world.spawn_food(create_food(at(130.0, 10.0), 5 * ONE)).unwrap();
    let within = world.spawn_food(create_food(at(127.0, 10.0), 5 * ONE)).unwrap();
    scan(&mut world, Role::Prey, plain_rolls());
    // both are in view, but the farther one lies two cells away
    assert_eq!(world.agents[0].perception.target_food, Some(within));
    let any = SenseRolls { prefer_nearest: false, pick: 1, ..plain_rolls() };
    scan(&mut world, Role::Prey, any);
    assert_eq!(world.agents[0].perception.target_food, Some(within));
    assert_ne!(world.agents[0].perception.target_food, Some(beyond));
}
