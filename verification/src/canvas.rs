//! The pixel canvas handed to the presentation layer: packed `0RGB`
//! values, row-major. Presentation (windowing) lives outside the library;
//! the canvas itself only carries the buffer and its dimensions.
use vstd::prelude::*;

verus! {

pub struct Canvas {
    pub height: usize,
    pub width: usize,
    pub data: Vec<u32>,
}

/// A canvas is well formed when it carries one packed pixel per cell.
pub open spec fn canvas_wf(c: Canvas) -> bool {
    c.data@.len() == c.width * c.height
}

impl Canvas {
    pub fn new(width: usize, height: usize, data: Vec<u32>) -> (c: Canvas)
        requires
            data@.len() == width * height,
        ensures
            c.width == width && c.height == height && c.data == data,
            canvas_wf(c),
    {
        Canvas { height, width, data }
    }
}

} // verus!
