//! Travel-demand generation and time-stepped execution for a microscopic
//! traffic simulation.

pub mod ids;
pub mod units;
pub mod map;
pub mod random;
pub mod trips;
pub mod parking;
pub mod idset;
pub mod driving;
pub mod walking;
pub mod report;
pub mod sim;
pub mod realize;
pub mod search;
pub mod seeding;
pub mod neighborhood;
pub mod goal;
pub mod demand;
pub mod allot;
pub mod batch;
pub mod spawning;
pub mod border;
pub mod scenario;
pub mod speed;
pub mod starting;
pub mod valid;
pub mod decided;
