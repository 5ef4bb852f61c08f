//! The decisions of ships that fight in the Oort space simulation: radio links, radar tracking,
//! fire control, missile guidance, and the tactics of fighters, frigates and cruisers.
//!
//! The simulation itself, and all geometry, stay outside: each function takes what has been
//! measured or computed and gives what is to be done.
pub mod abilities;
pub mod aim;
pub mod beam;
pub mod class;
pub mod clusters;
pub mod contact;
pub mod control;
pub mod cruiser;
pub mod fighter;
pub mod fighter_duel;
pub mod lookup;
pub mod measure;
pub mod missile;
pub mod mission_cruiser_defense;
pub mod mission_gunnery;
pub mod radar;
pub mod radio;
pub mod schedule;
pub mod select;
pub mod slices;
pub mod tutorial;
pub mod tutorial_cruiser;
pub mod tutorial_frigate;
pub mod tutorial_squadron;
pub mod weapons;
