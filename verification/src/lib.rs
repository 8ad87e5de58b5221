//! The editing core of the eddy text editor: a text buffer built on a rope,
//! the selections of each view into it, undo history, line-ending
//! normalisation, colors and themes.

mod rope;
pub mod text;
pub mod line_ending;
pub mod history;
pub mod views;
pub mod graphemes;
pub mod buffer;
pub mod motion;
pub mod vertical;
pub mod chars;
pub mod word;
pub mod gestures;
pub mod queries;
pub mod highlight;
pub mod style;
pub mod theme;
pub mod backend;
pub mod names;
pub mod project;
pub mod layer;
pub mod msg;
pub mod keymap;

pub mod range;
pub mod point;
pub mod selection;

pub use range::Range;
pub use point::Point;
pub use selection::Selection;
pub use keymap::Command;

