//! Stamps a content image into the chroma-key window of a template image.
//!
//! The pipeline: match every template pixel against the mask color, reduce
//! the matches to their bounding rectangle, scale and center-crop the content
//! to that rectangle, and paste it over the matching pixels.
pub mod color;
pub mod pixels;
pub mod occupancy;
pub mod token;
pub mod viewport;
