//! Pointer input for flat UI panels placed in a 3-D scene.
//!
//! A panel (a *surface*) shows a 2-D immediate-mode UI that is rendered into
//! a texture. A picking backend reports that the pointer moved over a surface
//! or clicked on it, and where in the world the surface was hit. This crate
//! decides what the embedded UI is told about it: which interactions are
//! dropped, which are fatal, and which synthetic pointer events are appended,
//! in which order, to the input queue of which surface.
//!
//! The crate does no arithmetic on coordinates. It is generic over the
//! world-space vector type `V`, the transform type `T`, the size scalar `S`
//! and the pixel position type `P`, and the caller supplies the projection
//! from a world-space hit to a pixel position. What the crate proves holds
//! for every projection.

pub mod guarantees;
pub mod input;
pub mod pointer;
pub mod resolve;
pub mod surface;
pub mod translate;

pub use input::{Modifiers, PointerButton, SyntheticEvent};
pub use pointer::{Interaction, PointerHit, Request, UIPointerClick, UIPointerMove};
pub use resolve::{resolve, MissingBuffer, Resolution};
pub use surface::{find_buffer, find_surface, PixelBuffer, Surface, WorldUI};
pub use translate::{deliver, translate, ui_interactions};
