//! The size of the surface that is drawn to, in pixels.

use vstd::prelude::*;

verus! {

pub struct Screen {
    size: (i32, i32),
}

impl View for Screen {
    type V = (int, int);

    closed spec fn view(&self) -> (int, int) {
        (self.size.0 as int, self.size.1 as int)
    }
}

impl Screen {
    pub fn new(size: (i32, i32)) -> (screen: Self)
        ensures
            screen@ == (size.0 as int, size.1 as int),
    {
        Self { size }
    }

    pub fn size(&self) -> (size: (i32, i32))
        ensures
            (size.0 as int, size.1 as int) == self@,
    {
        self.size
    }

    pub fn width(&self) -> (width: i32)
        ensures
            width == self@.0,
    {
        self.size.0
    }

    pub fn height(&self) -> (height: i32)
        ensures
            height == self@.1,
    {
        self.size.1
    }

    pub fn set_size(&mut self, size: (i32, i32))
        ensures
            final(self)@ == (size.0 as int, size.1 as int),
    {
        self.size = size;
    }
}

} // verus!
