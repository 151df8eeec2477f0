//! Pointer state sampled once per frame.
//!
//! The host stores the current buttons bitmask and cursor position as events
//! arrive, and copies them into the "last frame" slots when a frame ends.
//! Behaviours read the difference: which buttons went down this frame and how
//! far the cursor moved.

use vstd::prelude::*;

verus! {

/// A pointer button, as reported in the buttons bitmask.
#[derive(Clone, Copy, Debug, PartialEq, Eq, Structural)]
pub enum Button {
    Left,
    Middle,
    Right,
}

impl Button {
    /// The position of this button in the buttons bitmask: bit 0 is the
    /// primary (left) button, bit 1 the secondary (right) one, bit 2 the
    /// middle one.
    pub open spec fn bit(self) -> u16 {
        match self {
            Button::Left => 0u16,
            Button::Right => 1u16,
            Button::Middle => 2u16,
        }
    }
}

/// Whether the bit of `button` is set in the bitmask `buttons`.
pub open spec fn is_pressed(buttons: u16, button: Button) -> bool {
    (buttons >> button.bit()) & 1u16 == 1u16
}

/// The sentinel stored as the last cursor position before any frame has ended.
pub open spec fn no_position() -> (int, int) {
    (-1, -1)
}

/// What an [`Input`] holds.
pub struct InputView {
    pub mouse_position: (int, int),
    pub last_mouse_position: (int, int),
    pub buttons: u16,
    pub last_buttons: u16,
}

impl InputView {
    /// The cursor movement since the last frame, pointing from the current
    /// position back to the previous one; zero while no previous position is
    /// known.
    pub open spec fn delta(self) -> (int, int) {
        if self.last_mouse_position == no_position() {
            (0, 0)
        } else {
            (
                self.last_mouse_position.0 - self.mouse_position.0,
                self.last_mouse_position.1 - self.mouse_position.1,
            )
        }
    }

    /// Whether both components of [`InputView::delta`] are representable.
    pub open spec fn delta_fits(self) -> bool {
        &&& i32::MIN <= self.delta().0 <= i32::MAX
        &&& i32::MIN <= self.delta().1 <= i32::MAX
    }
}

/// The pointer state of the current frame and of the frame before it.
pub struct Input {
    mouse_position: (i32, i32),
    last_mouse_position: (i32, i32),
    buttons: u16,
    last_buttons: u16,
}

impl View for Input {
    type V = InputView;

    closed spec fn view(&self) -> InputView {
        InputView {
            mouse_position: (self.mouse_position.0 as int, self.mouse_position.1 as int),
            last_mouse_position: (
                self.last_mouse_position.0 as int,
                self.last_mouse_position.1 as int,
            ),
            buttons: self.buttons,
            last_buttons: self.last_buttons,
        }
    }
}

impl Input {
    /// No button pressed, the cursor at the origin, no previous position.
    pub fn new() -> (input: Self)
        ensures
            input@ == (InputView {
                mouse_position: (0, 0),
                last_mouse_position: no_position(),
                buttons: 0,
                last_buttons: 0,
            }),
    {
        Self { mouse_position: (0, 0), last_mouse_position: (-1, -1), buttons: 0, last_buttons: 0 }
    }

    pub fn set_buttons(&mut self, buttons: u16)
        ensures
            final(self)@ == (InputView { buttons, ..old(self)@ }),
    {
        self.buttons = buttons;
    }

    pub fn set_last_buttons(&mut self, buttons: u16)
        ensures
            final(self)@ == (InputView { last_buttons: buttons, ..old(self)@ }),
    {
        self.last_buttons = buttons;
    }

    pub fn set_mouse_position(&mut self, mouse_position: (i32, i32))
        ensures
            final(self)@ == (InputView {
                mouse_position: (mouse_position.0 as int, mouse_position.1 as int),
                ..old(self)@
            }),
    {
        self.mouse_position = mouse_position;
    }

    pub fn set_last_mouse_position(&mut self, mouse_position: (i32, i32))
        ensures
            final(self)@ == (InputView {
                last_mouse_position: (mouse_position.0 as int, mouse_position.1 as int),
                ..old(self)@
            }),
    {
        self.last_mouse_position = mouse_position;
    }

    /// Whether `button` is held in the current frame.
    pub fn get_button(&self, button: Button) -> (held: bool)
        ensures
            held == is_pressed(self@.buttons, button),
    {
        let buttons = self.buttons;
        proof {
            lemma_mask_is_bit(buttons);
        }
        match button {
            Button::Left => self.buttons & 1u16 > 0,
            Button::Middle => self.buttons & 4u16 > 0,
            Button::Right => self.buttons & 2u16 > 0,
        }
    }

    /// Whether `button` is held in the current frame and was not in the last.
    pub fn get_button_down(&self, button: Button) -> (went_down: bool)
        ensures
            went_down == (is_pressed(self@.buttons, button) && !is_pressed(
                self@.last_buttons,
                button,
            )),
    {
        let buttons = self.buttons;
        let last_buttons = self.last_buttons;
        proof {
            lemma_mask_is_bit(buttons);
            lemma_mask_is_bit(last_buttons);
        }
        match button {
            Button::Left => self.buttons & 1u16 > 0 && !(self.last_buttons & 1u16 > 0),
            Button::Middle => self.buttons & 4u16 > 0 && !(self.last_buttons & 4u16 > 0),
            Button::Right => self.buttons & 2u16 > 0 && !(self.last_buttons & 2u16 > 0),
        }
    }

    pub fn buttons(&self) -> (buttons: u16)
        ensures
            buttons == self@.buttons,
    {
        self.buttons
    }

    pub fn mouse_position(&self) -> (position: (i32, i32))
        ensures
            (position.0 as int, position.1 as int) == self@.mouse_position,
    {
        self.mouse_position
    }

    /// The cursor movement since the last frame. See [`InputView::delta`].
    pub fn mouse_delta_position(&self) -> (delta: (i32, i32))
        requires
            self@.delta_fits(),
        ensures
            (delta.0 as int, delta.1 as int) == self@.delta(),
    {
        if self.last_mouse_position.0 == -1 && self.last_mouse_position.1 == -1 {
            return (0, 0);
        }
        (
            self.last_mouse_position.0 - self.mouse_position.0,
            self.last_mouse_position.1 - self.mouse_position.1,
        )
    }

    /// Whether the cursor has moved since the last frame.
    pub fn mouse_moved(&self) -> (moved: bool)
        ensures
            moved == (self@.delta() != (0int, 0int)),
    {
        let unknown = self.last_mouse_position.0 == -1 && self.last_mouse_position.1 == -1;
        !unknown && (self.last_mouse_position.0 != self.mouse_position.0
            || self.last_mouse_position.1 != self.mouse_position.1)
    }

    /// Ends the frame: the current buttons and cursor position become the
    /// last ones.
    pub fn end_frame(&mut self)
        ensures
            final(self)@ == (InputView {
                last_mouse_position: old(self)@.mouse_position,
                last_buttons: old(self)@.buttons,
                ..old(self)@
            }),
    {
        self.last_mouse_position = self.mouse_position;
        self.last_buttons = self.buttons;
    }
}

/// Testing a bitmask against 1, 2 or 4 reads bit 0, 1 or 2.
proof fn lemma_mask_is_bit(buttons: u16)
    ensures
        (buttons & 1u16 > 0) == ((buttons >> 0u16) & 1u16 == 1u16),
        (buttons & 2u16 > 0) == ((buttons >> 1u16) & 1u16 == 1u16),
        (buttons & 4u16 > 0) == ((buttons >> 2u16) & 1u16 == 1u16),
{
    assert((buttons & 1u16 > 0) == ((buttons >> 0u16) & 1u16 == 1u16)) by (bit_vector);
    assert((buttons & 2u16 > 0) == ((buttons >> 1u16) & 1u16 == 1u16)) by (bit_vector);
    assert((buttons & 4u16 > 0) == ((buttons >> 2u16) & 1u16 == 1u16)) by (bit_vector);
}

} // verus!
