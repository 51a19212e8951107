//! Verified core of a sprite-based image recreator: pixel buffers, the
//! scoring of an attempt against a wanted image, the placement of sprites
//! on the canvas, the choice of the best attempt of a run, the random draws
//! that pick candidates, and the reading of counts typed by the user.

pub mod compose;
pub mod count;
pub mod draw;
pub mod pixmap;
pub mod run;
pub mod score;

pub use compose::{compose_at, place_sprite, score_canvas, try_placement, Trial};
pub use count::{count_or, parse_i32};
pub use draw::{candidate_from_draws, draw_candidate, draw_position, Candidate};
pub use pixmap::{narrow, Pixmap, PixmapView, Rgba16, Rgba8};
pub use run::{best_candidate, RunStep, RunTracker, Session};
pub use score::{compare_images, CompareError, Comparison};
