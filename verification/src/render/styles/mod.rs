pub mod box_;
pub mod image;
pub mod stack;
pub mod text;

pub use box_::{BoxDirection, BoxStyle, CrossAlign, MainAlign};
pub use image::{ImageFit, ImageStyle};
pub use stack::{Place, StackStyle};
pub use text::FontWeight;

use vstd::prelude::*;

verus! {

/// A color given by its red, green, blue and alpha channels.
#[derive(Debug, Clone, Copy, PartialEq, Eq, Structural)]
pub struct Color {
    pub r: u8,
    pub g: u8,
    pub b: u8,
    pub a: u8,
}

/// The four sides of a box, each with its own size.
#[derive(Debug, Clone, Copy)]
pub struct EdgeInsets<S> {
    pub top: S,
    pub right: S,
    pub bottom: S,
    pub left: S,
}

impl<S: Copy> EdgeInsets<S> {
    /// The same size on every side.
    pub fn all(size: S) -> (r: EdgeInsets<S>)
        ensures
            r.top == size,
            r.right == size,
            r.bottom == size,
            r.left == size,
    {
        EdgeInsets { top: size, right: size, bottom: size, left: size }
    }

    /// `vertical` at the top and the bottom, `horizontal` at the right and the left.
    pub fn vertical_horizontal(vertical: S, horizontal: S) -> (r: EdgeInsets<S>)
        ensures
            r.top == vertical,
            r.bottom == vertical,
            r.right == horizontal,
            r.left == horizontal,
    {
        EdgeInsets { top: vertical, right: horizontal, bottom: vertical, left: horizontal }
    }
}

/// Why a style value cannot be read; each carries the text that was refused.
#[derive(Debug, Clone, PartialEq, Eq)]
pub enum StyleError {
    InvalidBoxDirection(String),
    InvalidMainAlign(String),
    InvalidCrossAlign(String),
    InvalidPlace(String),
    InvalidFit(String),
    InvalidFontWeight(String),
}

} // verus!
