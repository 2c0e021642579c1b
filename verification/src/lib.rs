//! Declarative 2D scene graph with verified rendering logic.

pub mod accuracy;
pub mod arith;
pub mod boxes;
pub mod builder;
pub mod chars;
pub mod composition;
pub mod copy;
pub mod digits;
pub mod drawings;
pub mod ellipse;
pub mod extrema;
pub mod fit;
pub mod geometry;
pub mod laws;
pub mod outlines;
pub mod path;
pub mod path2d;
pub mod pixmap;
pub mod render;
pub mod rounding;
pub mod scalar;
pub mod scene;
pub mod single;
pub mod sketch;
pub mod steps;
pub mod style;
pub mod text;
