//! An engine for simulating a population of creatures, prey and predators,
//! that forage, mate, age and die in a continuous two-dimensional world.
//!
//! One tick of the simulation runs six systems in a fixed order:
//!
//! 1. [`grid::update_grid_system`] rebuilds the spatial grid from the world;
//! 2. [`perception::perception_scan_system_prey`] and
//!    [`perception::perception_scan_system_predator`] renew what each living
//!    entity notices around it;
//! 3. [`gameloop::game_loop_prey`] and [`gameloop::game_loop_predator`] let
//!    each one eat or move;
//! 4. [`systems::update_entities`] advances hunger, energy, sanity and age,
//!    takes the dead out and brings their corpses, the newborn and the food
//!    from decayed corpses in, and pairs those that suit each other.
//!
//! [`simulation::Simulation::tick`] runs them all.
//!
//! # Numbers
//!
//! Every continuous quantity is a fixed-point number, an `i64` of millionths
//! (see [`fixed`]). Arithmetic saturates instead of overflowing, so every
//! function is defined on every input.
//!
//! # Chance
//!
//! Each system comes in two forms. The form whose name ends in `_with` takes
//! the outcome of every draw as an argument and is a function in the
//! mathematical sense: its contract states the world that results. The other
//! form draws the numbers itself, through the `rand` crate, and calls the
//! first; its contract states that the world that results is the one that
//! the first form gives for some draws within their ranges.
//!
//! # What is proved
//!
//! Every function is verified against its contract, but for the two places
//! where the library calls other crates: the one function of [`random`] that
//! calls `rand`, and the map of [`grid::CellMap`], which is the hash map
//! that `bevy` offers. Beyond the contracts, the library proves laws about
//! the simulation, among them: that needs stay within their bounds
//! ([`systems::lemma_update_within_bounds`]); that the dead leave exactly one
//! corpse ([`systems::lemma_death_leaves_one_corpse`]); that a decayed corpse
//! turns into food of its flesh
//! ([`systems::lemma_decayed_corpse_turns_into_food`]); that no food source is
//! eaten beyond what it holds ([`gameloop::lemma_eaten_up_food_leaves`]); that
//! a child has the mean of its parents' traits
//! ([`components::lemma_child_is_mean`]); and that the grid shows exactly
//! what lies in the adjacent cells ([`grid::lemma_seen_iff_adjacent`]).

pub mod fixed;
pub mod vector;
pub mod random;
pub mod components;
pub mod world;
pub mod grid;
pub mod perception;
pub mod gameloop;
pub mod systems;
pub mod reproduction;
pub mod presentation;
pub mod config;
pub mod simulation;
