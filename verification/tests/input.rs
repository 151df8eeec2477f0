use sim_engine::input::Button;
use sim_engine::input::Input;

#[test]
fn new_input_is_idle() {
    let input = Input::new();
    assert_eq!(input.buttons(), 0);
    assert_eq!(input.mouse_position(), (0, 0));
    assert_eq!(input.mouse_delta_position(), (0, 0));
    assert!(!input.get_button(Button::Left));
    assert!(!input.get_button(Button::Middle));
    assert!(!input.get_button(Button::Right));
    assert!(!input.mouse_moved());
}

#[test]
fn buttons_are_read_from_their_bits() {
    let mut input = Input::new();
    input.set_buttons(0b001);
    assert!(input.get_button(Button::Left));
    assert!(!input.get_button(Button::Right));
    assert!(!input.get_button(Button::Middle));
    input.set_buttons(0b010);
    assert!(!input.get_button(Button::Left));
    assert!(input.get_button(Button::Right));
    assert!(!input.get_button(Button::Middle));
    input.set_buttons(0b100);
    assert!(!input.get_button(Button::Left));
    assert!(!input.get_button(Button::Right));
    assert!(input.get_button(Button::Middle));
    input.set_buttons(0xfff8);
    assert!(!input.get_button(Button::Left));
    assert!(!input.get_button(Button::Right));
    assert!(!input.get_button(Button::Middle));
    input.set_buttons(0xffff);
    assert!(input.get_button(Button::Left));
    assert!(input.get_button(Button::Right));
    assert!(input.get_button(Button::Middle));
    assert_eq!(input.buttons(), 0xffff);
}

#[test]
fn button_down_lasts_one_frame() {
    let mut input = Input::new();
    input.set_buttons(0b101);
    assert!(input.get_button_down(Button::Left));
    assert!(input.get_button_down(Button::Middle));
    assert!(!input.get_button_down(Button::Right));
    input.set_last_buttons(0b001);
    assert!(!input.get_button_down(Button::Left));
    assert!(input.get_button_down(Button::Middle));
    input.end_frame();
    assert!(!input.get_button_down(Button::Middle));
    assert!(input.get_button(Button::Middle));
    input.set_buttons(0);
    assert!(!input.get_button_down(Button::Left));
}

#[test]
fn delta_points_back_to_the_last_position() {
    let mut input = Input::new();
    input.set_mouse_position((10, 20));
    // no last position yet
    assert_eq!(input.mouse_delta_position(), (0, 0));
    assert!(!input.mouse_moved());
    input.set_last_mouse_position((13, 15));
    assert_eq!(input.mouse_delta_position(), (3, -5));
    assert!(input.mouse_moved());
    input.end_frame();
    assert_eq!(input.mouse_delta_position(), (0, 0));
    assert!(!input.mouse_moved());
    input.set_mouse_position((11, 20));
    assert_eq!(input.mouse_delta_position(), (-1, 0));
    assert_eq!(input.mouse_position(), (11, 20));
}

#[test]
fn last_position_minus_one_minus_one_means_none() {
    let mut input = Input::new();
    input.set_mouse_position((5, 5));
    input.set_last_mouse_position((-1, -1));
    assert_eq!(input.mouse_delta_position(), (0, 0));
    input.set_last_mouse_position((-1, 0));
    assert_eq!(input.mouse_delta_position(), (-6, -5));
}
