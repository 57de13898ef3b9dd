use life_sim::components::{
    create_corpse, create_food, create_predator, create_prey, Age, BehaviorState, Entity,
    FoodAmount, Genes, Needs, Perception, Position, Role, Species, SpeciesId,
};
use life_sim::fixed::ONE;
use life_sim::vector::Vector;

fn genes(base: i64, gender: bool, offspring: u32, food: bool) -> Genes {
    Genes {
        sociality: base,
        curiosity: base + 1,
        greed: base + 2,
        laziness: base + 3,
        vision_range: base + 4,
        wander_radius: base + 5,
        max_speed: base + 6,
        bite_size: base + 7,
        hunger_rate: base + 8,
        max_age: base + 9,
        gender,
        max_offspring_count: offspring,
        can_produce_food: food,
    }
}

#[test]
fn child_has_the_mean_of_every_trait() {
    let mother = genes(100, true, 7, false);
    let father = genes(301, false, 0, true);
    let child = mother.crossover(&father, true);
    assert_eq!(child.sociality, 200);
    assert_eq!(child.curiosity, 201);
    assert_eq!(child.greed, 202);
    assert_eq!(child.laziness, 203);
    assert_eq!(child.vision_range, 204);
    assert_eq!(child.wander_radius, 205);
    assert_eq!(child.max_speed, 206);
    assert_eq!(child.bite_size, 207);
    assert_eq!(child.hunger_rate, 208);
    assert_eq!(child.max_age, 209);
    assert_eq!(child.max_offspring_count, 3);
    assert!(child.can_produce_food);
    assert!(child.gender);
}

#[test]
fn mean_of_the_largest_traits_does_not_overflow() {
    let mother = genes(i64::MAX - 9, true, u32::MAX, false);
    let child = mother.crossover(&mother, false);
    assert_eq!(child.sociality, i64::MAX - 9);
    assert_eq!(child.max_age, i64::MAX);
    assert_eq!(child.max_offspring_count, u32::MAX);
    assert!(!child.can_produce_food);
}

#[test]
fn mutate_averages_whatever_the_gender_drawn() {
    let mother = genes(1_000_000, true, 4, true);
    let father = genes(3_000_000, false, 0, false);
    let mut females = 0;
    for _ in 0..200 {
        let child = mother.mutate(&father);
        assert_eq!(child, mother.crossover(&father, child.gender));
        assert_eq!(child.sociality, 2_000_000);
        assert_eq!(child.max_age, 2_000_009);
        if child.gender {
            females += 1;
        }
    }
    assert!(females > 0 && females < 200);
}

#[test]
fn founder_genes_lie_in_their_ranges() {
    let mut seen_sociality = Vec::new();
    for _ in 0..200 {
        let g = Genes::default();
        assert!(0 <= g.sociality && g.sociality < ONE);
        assert!(0 <= g.curiosity && g.curiosity < ONE);
        assert!(0 <= g.greed && g.greed < ONE);
        assert!(0 <= g.laziness && g.laziness < ONE);
        assert!(300 * ONE <= g.vision_range && g.vision_range < 500 * ONE);
        assert!(300 * ONE <= g.wander_radius && g.wander_radius < 600 * ONE);
        assert!(5 * ONE <= g.max_speed && g.max_speed < 10 * ONE);
        assert!(ONE <= g.bite_size && g.bite_size < 10 * ONE);
        assert!(ONE / 2 <= g.hunger_rate && g.hunger_rate < ONE);
        assert!(100 * ONE <= g.max_age && g.max_age < 300 * ONE);
        if g.gender {
            assert!(1 <= g.max_offspring_count && g.max_offspring_count < 10);
        } else {
            assert_eq!(g.max_offspring_count, 0);
            assert!(!g.can_produce_food);
        }
        seen_sociality.push(g.sociality);
    }
    seen_sociality.sort();
    seen_sociality.dedup();
    assert!(seen_sociality.len() > 100);
}

#[test]
fn variation_stays_close_and_never_negative() {
    let base = genes(50_000, true, 3, true);
    for _ in 0..200 {
        let g = base.random_variation();
        assert!(0 <= g.sociality && g.sociality < 150_000);
        assert!(0 <= g.vision_range && g.vision_range < 50_004 + 100 * ONE);
        assert!(0 <= g.wander_radius && g.wander_radius < 50_005 + 100 * ONE);
        assert_eq!(g.curiosity, base.curiosity);
        assert_eq!(g.greed, base.greed);
        assert_eq!(g.laziness, base.laziness);
        assert_eq!(g.max_speed, base.max_speed);
        assert_eq!(g.bite_size, base.bite_size);
        assert_eq!(g.hunger_rate, base.hunger_rate);
        assert_eq!(g.max_age, base.max_age);
        assert_eq!(g.max_offspring_count, 3);
        assert!(g.can_produce_food);
    }
}

#[test]
fn variation_of_a_large_trait_lies_around_it() {
    let base = genes(400 * ONE, false, 0, false);
    for _ in 0..100 {
        let g = base.random_variation();
        assert!(400 * ONE - ONE / 10 <= g.sociality && g.sociality < 400 * ONE + ONE / 10);
        assert!(300 * ONE + 4 <= g.vision_range && g.vision_range < 500 * ONE + 4);
    }
}

#[test]
fn species_crosses_its_two_bounds() {
    let species = Species {
        id: SpeciesId(3),
        genetic_min: genes(10, true, 2, false),
        genetic_max: genes(30, false, 6, false),
    };
    let g = species.random_gene();
    assert_eq!(g.sociality, 20);
    assert_eq!(g.max_age, 29);
    assert_eq!(g.max_offspring_count, 4);
}

#[test]
fn newborn_needs_are_full() {
    let needs = Needs::default();
    assert_eq!(needs.sanity, ONE);
    assert_eq!(needs.hunger, 0);
    assert_eq!(needs.energy, ONE);
    assert_eq!(needs.mother, None);
    assert_eq!(needs.partner, None);
    assert_eq!(needs.partner_genes, None);
    assert!(!needs.pregnant);
    assert!(!needs.mate_ready);
    assert_eq!(needs.pregnancy_timer, 0);
    assert_eq!(needs.mating_timer, 0);
    assert_eq!(needs.partner_timer, 0);
}

#[test]
fn blank_perception_notices_nothing() {
    let perception = Perception::default();
    assert_eq!(perception.target_food, None);
    assert_eq!(perception.target_position, None);
    assert!(perception.repulsions.is_empty());
    assert!(perception.attractions.is_empty());
    assert_eq!(perception.time_since_last_sense, 0);
    assert_eq!(perception.time_since_last_target, 0);
}

#[test]
fn created_records_carry_what_they_were_given() {
    let at = Vector::new(3 * ONE, 4 * ONE);
    let food = create_food(at, 7 * ONE);
    assert_eq!(food.entity, Entity::placeholder());
    assert_eq!(food.position, Position(at));
    assert_eq!(food.amount, FoodAmount(7 * ONE));

    let corpse = create_corpse(at, 12 * ONE);
    assert_eq!(corpse.position, Position(at));
    assert_eq!(corpse.state.flesh_amount, 12 * ONE);
    assert_eq!(corpse.state.decay_rate, ONE);
    assert_eq!(corpse.state.decay_timer, 100 * ONE);

    let g = genes(5, false, 0, false);
    let prey = create_prey(at, SpeciesId(2), g);
    assert_eq!(prey.role, Role::Prey);
    assert_eq!(prey.position, Position(at));
    assert_eq!(prey.behavior, BehaviorState::Wander);
    assert_eq!(prey.genes, g);
    assert_eq!(prey.age, Age(0));
    assert_eq!(prey.needs, Needs::default());
    assert_eq!(prey.species, SpeciesId(2));
    assert_eq!(prey.food_amount, None);

    let predator = create_predator(at, SpeciesId(9), g);
    assert_eq!(predator.role, Role::Predator);
    assert_eq!(predator.species, SpeciesId(9));
}
