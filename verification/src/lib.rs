//! A per-frame simulation host: a scheduler that runs the components of its
//! game objects through the phases of a frame, a viewport whose values tell
//! their observers when they have changed, and two cell simulations: a sparse
//! automaton on the plane and a dense reaction-diffusion grid on a torus.
//!
//! Nothing here draws or listens: the host feeds the pointer, the frame time
//! and the screen size in, and reads cells, vertices and view values out.

pub mod clear_canvas;
pub mod engine;
pub mod fps_tracker;
pub mod input;
pub mod life;
pub mod math;
pub mod reaction_diffusion;
pub mod reaction_diffusion_ui;
pub mod schedule;
pub mod screen;
pub mod time;
pub mod viewport;
