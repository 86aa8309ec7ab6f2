//! Reading PowerPoint (`.pptx`) packages into a slide model, and planning
//! how each slide is painted.
//!
//! The package reader (`pptx`) turns the bytes of a `.pptx` archive into a
//! [`pptx::Presentation`]: the slide size, each slide's shapes with their
//! geometry, fills, outlines and text, and the embedded media. The planner
//! (`render`) decides, for each shape, which drawing operations it needs.

pub mod error;
pub mod strings;
pub mod number;
pub mod xml;
pub mod archive;
pub mod pptx;
pub mod render;
