//! The core of the Gunship game engine: entity bookkeeping, component storage, collision
//! callbacks and the broadphase grid walk, per-frame input and frame decisions, the work and
//! fiber schedulers' bookkeeping, WAVE decoding, shader parsing and COLLADA vertex layout.

pub mod asynchronous;
pub mod callback;
pub mod collections;
pub mod component;
pub mod ecs;
pub mod engine;
pub mod input;
pub mod mesh_renderer;
pub mod resource;
pub mod scene;
pub mod scheduler;
pub mod time;
pub mod wav;
