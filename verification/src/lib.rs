//! Palette and colour management: the colour model, palettes, the in-memory
//! model filled from the palette database, the database's statements and the
//! transaction protocol that keeps its tables consistent.
pub mod text;
pub mod util;
pub mod color;
pub mod extracted_color;
pub mod palette;
pub mod model;
pub mod sql;
pub mod transaction;
pub mod toasts;
pub mod path;
pub mod tables;
