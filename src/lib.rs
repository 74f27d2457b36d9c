//! Locating directional vent glyphs in a captured screen frame.
//!
//! The pipeline runs from raw BGRA bytes to a binary mask of the vent
//! palette, from the mask to region boundaries, from boundaries to scored
//! candidates, and from candidates to one point per compass direction.
pub mod candidate;
pub mod contour;
pub mod input;
pub mod laws;
pub mod mat;
pub mod ranking;
pub mod sorting;
pub mod vent;

pub use candidate::{build_candidates, keep_comparable, score_regions, sort_by_area, Candidate};
pub use contour::{centroid, contour_area, Point};
pub use input::{key_transition, InputState};
pub use mat::{bitwise_or, build_mask, in_range, vent_bands, ColorBand, Mat, VentError};
pub use ranking::{RankingTable, VentAction};
pub use vent::{select_in_regions, select_vent, DEFAULT_RETENTION_PERCENT};
