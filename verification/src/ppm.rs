//! A picture as plain colours, ready to be written out as text.

use crate::color::Color;
use vstd::prelude::*;

verus! {

/// The colours of a picture, row after row from the top, with its size.
#[derive(Clone, Debug, PartialEq)]
pub struct PPM<S> {
    pub colors: Vec<Color<S>>,
    pub width: u16,
    pub height: u16,
}

impl<S> PPM<S> {
    pub fn new(colors: Vec<Color<S>>, width: u16, height: u16) -> (r: Self)
        ensures
            r.colors == colors,
            r.width == width,
            r.height == height,
    {
        PPM { colors, width, height }
    }
}

} // verus!
