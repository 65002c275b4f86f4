pub mod text;
pub mod json;
pub mod scales;
pub mod flare;
pub mod forecast;
pub mod alerts;
pub mod launch;
pub mod raster;
pub mod canvas;
pub mod ui;
pub mod bands;
pub mod graph;
pub mod overlay;
pub mod worldmap;
pub mod timestamp;
