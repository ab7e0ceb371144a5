//! A cooperative user-space threading core (scheduler, mutex, thread
//! lifecycle) together with the grid city that exercises it.

pub mod bfs;
pub mod city;
pub mod errno;
pub mod grid;
pub mod laws;
pub mod matrix;
pub mod mutex;
pub mod render;
pub mod rng;
pub mod sched;
pub mod sched_lemmas;
pub mod scheduler;
pub mod spawn;
pub mod threads;
pub mod vehicle;
