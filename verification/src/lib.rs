//! Timeline, input-mapping and capture bookkeeping for a screen recorder that
//! re-renders its cursor and camera from an input log.

pub mod camera;
pub mod capture;
pub mod events;
pub mod input;
pub mod jsonl;
pub mod mapping;
pub mod timebase;
