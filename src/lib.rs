//! The data engine of a viewer for tabular files: datasets of typed cells,
//! filtering by column conditions, stable sorting, inference of the map
//! columns, projection for export, and the viewer's state transitions.

pub mod value;
pub mod dataset;
pub mod rows;
pub mod filter;
pub mod sort;
pub mod columns;
pub mod geometry;
pub mod export;
pub mod hexagon;
pub mod viewer;
