use sim_engine::reaction_diffusion_ui::ReactionDiffusionUI;

#[test]
fn new_ui_is_untouched() {
    let ui = ReactionDiffusionUI::new();
    assert!(!ui.clear_button());
    assert!(!ui.random_preset_button());
    assert_eq!(ui.feed_slider_value(), 0);
    assert_eq!(ui.kill_slider_value(), 0);
    assert!(!ui.feed_slider_value_changed());
    assert!(!ui.kill_slider_value_changed());
}

#[test]
fn clicks_last_until_the_late_update() {
    let mut ui = ReactionDiffusionUI::new();
    ui.click_clear();
    assert!(ui.clear_button());
    assert!(!ui.random_preset_button());
    ui.click_random_preset();
    assert!(ui.random_preset_button());
    ui.on_late_update();
    assert!(!ui.clear_button());
    assert!(!ui.random_preset_button());
}

#[test]
fn sliders_count_as_changed_until_the_late_update() {
    let mut ui = ReactionDiffusionUI::new();
    ui.set_feed_slider_value(55);
    assert_eq!(ui.feed_slider_value(), 55);
    assert!(ui.feed_slider_value_changed());
    assert!(!ui.kill_slider_value_changed());
    ui.set_kill_slider_value(62);
    assert!(ui.kill_slider_value_changed());
    ui.on_late_update();
    assert!(!ui.feed_slider_value_changed());
    assert!(!ui.kill_slider_value_changed());
    assert_eq!(ui.feed_slider_value(), 55);
    assert_eq!(ui.kill_slider_value(), 62);
    // back to the same value: not a change
    ui.set_feed_slider_value(55);
    assert!(!ui.feed_slider_value_changed());
    ui.set_feed_slider_value(56);
    ui.set_feed_slider_value(55);
    assert!(!ui.feed_slider_value_changed());
}
