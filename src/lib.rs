//! Style cascade and box-model layout for a small document engine: a document
//! tree and a stylesheet go in, positioned paint commands come out. Lengths
//! and positions are held in thousandths of a pixel.

pub mod chars;
pub mod listmap;
pub mod parser;
pub mod dom;
pub mod html;
pub mod cssom;
pub mod css;
pub mod style;
pub mod laws;
pub mod boxes;
pub mod visuals;
pub mod renderer;
