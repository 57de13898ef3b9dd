//! What the world shows of itself: for each world object its place, its
//! color and, if it lives, what it is doing. Nothing here changes the world.

use crate::components::{BehaviorState, Entity, Position, Role};
use crate::fixed::{Fixed, ONE};
use crate::world::{World, WorldView};
use vstd::prelude::*;

verus! {

/// A color: red, green, blue and opacity, each from zero to one.
#[derive(Clone, Copy, PartialEq, Eq, Structural, Debug)]
pub struct Color {
    pub red: Fixed,
    pub green: Fixed,
    pub blue: Fixed,
    pub alpha: Fixed,
}

/// The color in which a world object is drawn.
#[derive(Clone, Copy, PartialEq, Eq, Structural, Debug)]
pub struct EntityColor(pub Color);

/// The color of food.
pub open spec fn green() -> Color {
    Color { red: 0, green: ONE, blue: 0, alpha: ONE }
}

/// The color of prey.
pub open spec fn yellow() -> Color {
    Color { red: ONE, green: ONE, blue: 0, alpha: ONE }
}

/// The color of predators.
pub open spec fn red() -> Color {
    Color { red: ONE, green: 0, blue: 0, alpha: ONE }
}

/// The color of corpses.
pub open spec fn gray() -> Color {
    Color { red: 300_000, green: 300_000, blue: 300_000, alpha: ONE }
}

/// The color of a living entity of the given role.
pub open spec fn color_of(role: Role) -> Color {
    match role {
        Role::Prey => yellow(),
        Role::Predator => red(),
    }
}

/// How one world object looks.
#[derive(Clone, Copy, PartialEq, Eq, Structural, Debug)]
pub struct Appearance {
    pub entity: Entity,
    pub position: Position,
    pub color: EntityColor,
    /// What it is doing, if it lives.
    pub behavior: Option<BehaviorState>,
}

impl WorldView {
    /// How every world object looks: the living first, then the food, then the corpses.
    pub open spec fn appearances(self) -> Seq<Appearance> {
        Seq::new(
            self.agents.len(),
            |i: int|
                Appearance {
                    entity: self.agents[i].entity,
                    position: self.agents[i].position,
                    color: EntityColor(color_of(self.agents[i].role)),
                    behavior: Some(self.agents[i].behavior),
                },
        ) + Seq::new(
            self.foods.len(),
            |i: int|
                Appearance {
                    entity: self.foods[i].entity,
                    position: self.foods[i].position,
                    color: EntityColor(green()),
                    behavior: None,
                },
        ) + Seq::new(
            self.corpses.len(),
            |i: int|
                Appearance {
                    entity: self.corpses[i].entity,
                    position: self.corpses[i].position,
                    color: EntityColor(gray()),
                    behavior: None,
                },
        )
    }
}

/// The color of food.
pub fn food_color() -> (color: Color)
    ensures
        color == green(),
{
    Color { red: 0, green: ONE, blue: 0, alpha: ONE }
}

/// The color of a corpse.
pub fn corpse_color() -> (color: Color)
    ensures
        color == gray(),
{
    Color { red: 300_000, green: 300_000, blue: 300_000, alpha: ONE }
}

/// The color of a living entity of the given role.
pub fn living_color(role: Role) -> (color: Color)
    ensures
        color == color_of(role),
{
    match role {
        Role::Prey => Color { red: ONE, green: ONE, blue: 0, alpha: ONE },
        Role::Predator => Color { red: ONE, green: 0, blue: 0, alpha: ONE },
    }
}

impl World {
    /// How every world object looks: the living first, then the food, then the corpses.
    pub fn appearances(&self) -> (shown: Vec<Appearance>)
        ensures
            shown@ == self@.appearances(),
    {
        let mut shown: Vec<Appearance> = Vec::new();
        let mut i: usize = 0;
        while i < self.agents.len()
            invariant
                i <= self.agents.len(),
                shown@ == self@.appearances().take(i as int),
            decreases self.agents.len() - i,
        {
            shown.push(
                Appearance {
                    entity: self.agents[i].entity,
                    position: self.agents[i].position,
                    color: EntityColor(living_color(self.agents[i].role)),
                    behavior: Some(self.agents[i].behavior),
                },
            );
            i += 1;
        }
        let mut j: usize = 0;
        while j < self.foods.len()
            invariant
                j <= self.foods.len(),
                shown@ == self@.appearances().take(self.agents.len() + j),
            decreases self.foods.len() - j,
        {
            shown.push(
                Appearance {
                    entity: self.foods[j].entity,
                    position: self.foods[j].position,
                    color: EntityColor(food_color()),
                    behavior: None,
                },
            );
            j += 1;
        }
        let mut k: usize = 0;
        while k < self.corpses.len()
            invariant
                k <= self.corpses.len(),
                shown@ == self@.appearances().take(self.agents.len() + self.foods.len() + k),
            decreases self.corpses.len() - k,
        {
            shown.push(
                Appearance {
                    entity: self.corpses[k].entity,
                    position: self.corpses[k].position,
                    color: EntityColor(corpse_color()),
                    behavior: None,
                },
            );
            k += 1;
        }
        shown
    }
}

} // verus!
