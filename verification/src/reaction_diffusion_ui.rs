//! The state behind the controls of the reaction-diffusion simulation: two
//! buttons and two sliders.
//!
//! The host records clicks and slider movements as they happen; the
//! simulation reads them once per frame, and the late update at the end of the
//! frame takes them back: a click is seen in one frame only, and a slider
//! counts as changed in the frame after it moved.

use vstd::prelude::*;

verus! {

/// What a [`ReactionDiffusionUI`] holds. Slider values are in thousandths.
pub struct UiView {
    pub clear_button: bool,
    pub random_preset_button: bool,
    pub feed_slider_value: u32,
    pub last_feed_slider_value: u32,
    pub kill_slider_value: u32,
    pub last_kill_slider_value: u32,
}

pub struct ReactionDiffusionUI {
    clear_button: bool,
    random_preset_button: bool,
    feed_slider_value: u32,
    last_feed_slider_value: u32,
    kill_slider_value: u32,
    last_kill_slider_value: u32,
}

impl View for ReactionDiffusionUI {
    type V = UiView;

    closed spec fn view(&self) -> UiView {
        UiView {
            clear_button: self.clear_button,
            random_preset_button: self.random_preset_button,
            feed_slider_value: self.feed_slider_value,
            last_feed_slider_value: self.last_feed_slider_value,
            kill_slider_value: self.kill_slider_value,
            last_kill_slider_value: self.last_kill_slider_value,
        }
    }
}

impl ReactionDiffusionUI {
    /// No button clicked, both sliders at zero.
    pub fn new() -> (ui: Self)
        ensures
            ui@ == (UiView {
                clear_button: false,
                random_preset_button: false,
                feed_slider_value: 0,
                last_feed_slider_value: 0,
                kill_slider_value: 0,
                last_kill_slider_value: 0,
            }),
    {
        Self {
            clear_button: false,
            random_preset_button: false,
            feed_slider_value: 0,
            last_feed_slider_value: 0,
            kill_slider_value: 0,
            last_kill_slider_value: 0,
        }
    }

    /// Whether the clear button was clicked this frame.
    pub fn clear_button(&self) -> (clicked: bool)
        ensures
            clicked == self@.clear_button,
    {
        self.clear_button
    }

    /// Whether the random preset button was clicked this frame.
    pub fn random_preset_button(&self) -> (clicked: bool)
        ensures
            clicked == self@.random_preset_button,
    {
        self.random_preset_button
    }

    pub fn feed_slider_value(&self) -> (value: u32)
        ensures
            value == self@.feed_slider_value,
    {
        self.feed_slider_value
    }

    pub fn set_feed_slider_value(&mut self, value: u32)
        ensures
            final(self)@ == (UiView { feed_slider_value: value, ..old(self)@ }),
    {
        self.feed_slider_value = value;
    }

    /// Whether the feed slider stands elsewhere than at the last late update.
    pub fn feed_slider_value_changed(&self) -> (changed: bool)
        ensures
            changed == (self@.feed_slider_value != self@.last_feed_slider_value),
    {
        self.feed_slider_value != self.last_feed_slider_value
    }

    pub fn kill_slider_value(&self) -> (value: u32)
        ensures
            value == self@.kill_slider_value,
    {
        self.kill_slider_value
    }

    pub fn set_kill_slider_value(&mut self, value: u32)
        ensures
            final(self)@ == (UiView { kill_slider_value: value, ..old(self)@ }),
    {
        self.kill_slider_value = value;
    }

    /// Whether the kill slider stands elsewhere than at the last late update.
    pub fn kill_slider_value_changed(&self) -> (changed: bool)
        ensures
            changed == (self@.kill_slider_value != self@.last_kill_slider_value),
    {
        self.kill_slider_value != self.last_kill_slider_value
    }

    /// Records a click on the clear button.
    pub fn click_clear(&mut self)
        ensures
            final(self)@ == (UiView { clear_button: true, ..old(self)@ }),
    {
        self.clear_button = true;
    }

    /// Records a click on the random preset button.
    pub fn click_random_preset(&mut self)
        ensures
            final(self)@ == (UiView { random_preset_button: true, ..old(self)@ }),
    {
        self.random_preset_button = true;
    }

    /// Ends the frame: the clicks are taken back, and the sliders count as
    /// unchanged until they move again.
    pub fn on_late_update(&mut self)
        ensures
            final(self)@ == (UiView {
                clear_button: false,
                random_preset_button: false,
                last_feed_slider_value: old(self)@.feed_slider_value,
                last_kill_slider_value: old(self)@.kill_slider_value,
                ..old(self)@
            }),
    {
        self.last_feed_slider_value = self.feed_slider_value;
        self.last_kill_slider_value = self.kill_slider_value;
        self.clear_button = false;
        self.random_preset_button = false;
    }
}

} // verus!
