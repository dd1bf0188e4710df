//! A retained-mode toolkit for terminal dashboards: a tree of components laid
//! out on a character grid, a focus cursor that routes one input event per
//! frame, pages with menus, and timed alerts drawn above the content.

pub mod area_calculation;
pub mod clock;
pub mod component;
pub mod geometry;
pub mod id;
pub mod render;
pub mod shape;
pub mod surface;
pub mod utils;
pub mod windows;
