//! Text-mode widgets that nest and render into a character buffer, with a
//! few small self-contained routines beside them: the Luhn check, integer
//! geometry and route prefix matching.
pub mod geometry;
pub mod luhn;
pub mod paths;
pub mod widgets;

pub use geometry::{Circle, Point, Polygon, Shape};
pub use luhn::luhn;
pub use paths::prefix_matches;
pub use widgets::{render, Action, Button, Component, Label, Widget, Window};
