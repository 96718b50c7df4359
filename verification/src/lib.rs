//! Palette computation for color-cycling images: rotation of palette
//! sub-ranges over elapsed time and blending between named palettes over the
//! course of a day.
//!
//! `shared` holds the data types, the rotation of a palette range, the shift
//! amount of each animation style and the list of pixels to paint; `base`
//! the image that is animated by its cycles alone; `timeline` the image
//! whose palette also follows the time of day; `clock` the reading of times
//! of day.

pub mod base;
pub mod clock;
pub mod shared;
pub mod timeline;
