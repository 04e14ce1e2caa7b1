//! A small 2D/3D game engine core: background removal for generated
//! sprites, workflow handling for an image-generation server, and the
//! editor, input and scene state that the windowed front end drives.

pub mod pixels;
pub mod crop;
pub mod text;
pub mod json;
pub mod workflow;
pub mod comfy;
pub mod sprite_job;
pub mod gui;
pub mod input;
pub mod scene;
