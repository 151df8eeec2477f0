use sim_engine::engine::App;
use sim_engine::engine::Call;
use sim_engine::engine::Component;
use sim_engine::engine::ComponentHolder;
use sim_engine::engine::EngineState;
use sim_engine::engine::Frame;
use sim_engine::engine::GameObject;
use sim_engine::engine::Phase;
use sim_engine::time::Time;

struct World {
    log: Vec<String>,
    flag: bool,
    seen_flags: Vec<bool>,
    seen_times: Vec<u64>,
}

fn world() -> World {
    World { log: Vec::new(), flag: false, seen_flags: Vec::new(), seen_times: Vec::new() }
}

enum Behaviour {
    /// Writes every hook to the log under its name.
    Recorder(&'static str),
    /// Queues a game object with one recorder in every update.
    Spawner(&'static str),
    /// Sets the flag in its update and takes it back in its late update.
    FlagSetter,
    /// Notes the flag in its render.
    FlagReader,
    /// Notes the frame time in its update.
    TimeReader,
    /// Does nothing at all.
    Idle,
}

type State = EngineState<World, Behaviour>;

fn note(state: &mut State, name: &str, hook: &str) {
    state.world_mut().log.push(format!("{} {}", name, hook));
}

impl Component<State> for Behaviour {
    fn on_add_to_game_object(&mut self, frame: &Frame, state: &mut State) {
        if let Behaviour::Recorder(name) = self {
            note(state, name, "add");
        }
    }

    fn on_first_update(&mut self, frame: &Frame, state: &mut State) {
        if let Behaviour::Recorder(name) = self {
            note(state, name, "first");
        }
    }

    fn on_resize(&mut self, frame: &Frame, state: &mut State) {
        if let Behaviour::Recorder(name) = self {
            let size = frame.screen().size();
            state.world_mut().log.push(format!("{} resize {}x{}", name, size.0, size.1));
        }
    }

    fn on_update(&mut self, frame: &Frame, state: &mut State) {
        match self {
            Behaviour::Recorder(name) => note(state, name, "update"),
            Behaviour::Spawner(child) => {
                let mut game_object = GameObject::new();
                game_object.add_component(Behaviour::Recorder(child), 1, frame, state);
                state.add_game_object(game_object);
            }
            Behaviour::FlagSetter => state.world_mut().flag = true,
            Behaviour::TimeReader => {
                let now = frame.time().unscaled_time();
                state.world_mut().seen_times.push(now);
            }
            _ => {}
        }
    }

    fn on_pre_render(&mut self, frame: &Frame, state: &mut State) {
        if let Behaviour::Recorder(name) = self {
            note(state, name, "pre");
        }
    }

    fn on_render(&mut self, frame: &Frame, state: &mut State) {
        match self {
            Behaviour::Recorder(name) => note(state, name, "render"),
            Behaviour::FlagReader => {
                let flag = state.world().flag;
                state.world_mut().seen_flags.push(flag);
            }
            _ => {}
        }
    }

    fn on_late_update(&mut self, frame: &Frame, state: &mut State) {
        match self {
            Behaviour::Recorder(name) => note(state, name, "late"),
            Behaviour::FlagSetter => state.world_mut().flag = false,
            _ => {}
        }
    }
}

fn object_of(app: &mut App<World, Behaviour>, behaviours: Vec<Behaviour>) -> GameObject<Behaviour> {
    let mut game_object = GameObject::new();
    for (kind, behaviour) in behaviours.into_iter().enumerate() {
        app.add_component_to(&mut game_object, behaviour, kind as u32);
    }
    game_object
}

fn take_log(app: &mut App<World, Behaviour>) -> Vec<String> {
    std::mem::take(&mut app.state_mut().world_mut().log)
}

fn call(phase: Phase, game_object: usize, component: usize) -> Call {
    Call { phase, game_object, component }
}

#[test]
fn phases_run_one_after_the_other_over_all_game_objects() {
    let mut app = App::new(world(), (800, 600));
    let a = object_of(&mut app, vec![Behaviour::Recorder("a1"), Behaviour::Recorder("a2")]);
    app.add_game_object(a);
    app.tick(Time::new());
    let b = object_of(&mut app, vec![Behaviour::Recorder("b")]);
    app.add_game_object(b);
    take_log(&mut app);
    let calls = app.tick(Time::new());
    assert_eq!(
        take_log(&mut app),
        vec![
            "b first", "a1 update", "a2 update", "b update", "a1 pre", "a2 pre", "b pre", "a1 render", "a2 render",
            "b render", "a1 late", "a2 late", "b late"
        ]
    );
    assert_eq!(
        calls,
        vec![
            call(Phase::FirstUpdate, 1, 0),
            call(Phase::Update, 0, 0),
            call(Phase::Update, 0, 1),
            call(Phase::Update, 1, 0),
            call(Phase::PreRender, 0, 0),
            call(Phase::PreRender, 0, 1),
            call(Phase::PreRender, 1, 0),
            call(Phase::Render, 0, 0),
            call(Phase::Render, 0, 1),
            call(Phase::Render, 1, 0),
            call(Phase::LateUpdate, 0, 0),
            call(Phase::LateUpdate, 0, 1),
            call(Phase::LateUpdate, 1, 0),
        ]
    );
}

#[test]
fn first_update_is_called_once_and_first() {
    let mut app = App::new(world(), (800, 600));
    let a = object_of(&mut app, vec![Behaviour::Recorder("a"), Behaviour::Recorder("b")]);
    app.add_game_object(a);
    take_log(&mut app);
    let mut log = Vec::new();
    for tick in 0..6 {
        if tick == 3 {
            let c = object_of(&mut app, vec![Behaviour::Recorder("c")]);
            app.add_game_object(c);
            take_log(&mut app);
        }
        app.tick(Time::new());
        log.extend(take_log(&mut app));
    }
    for name in ["a", "b", "c"] {
        let firsts: Vec<usize> =
            (0..log.len()).filter(|i| log[*i] == format!("{} first", name)).collect();
        assert_eq!(firsts.len(), 1, "{}", name);
        let others = (0..log.len()).filter(|i| log[*i].starts_with(name) && !log[*i].ends_with("first"));
        for other in others {
            assert!(firsts[0] < other);
        }
    }
    assert_eq!(log.iter().filter(|l| *l == "a update").count(), 6);
    assert_eq!(log.iter().filter(|l| *l == "c update").count(), 3);
}

#[test]
fn what_an_update_sets_is_seen_by_every_render_of_the_tick() {
    let mut app = App::new(world(), (800, 600));
    // the reader comes before the setter in the live list
    let setter = object_of(&mut app, vec![Behaviour::FlagSetter]);
    let reader = object_of(&mut app, vec![Behaviour::FlagReader]);
    let other = object_of(&mut app, vec![Behaviour::Idle, Behaviour::FlagReader]);
    app.add_game_object(setter);
    app.add_game_object(other);
    app.add_game_object(reader);
    for _ in 0..3 {
        app.tick(Time::new());
    }
    assert_eq!(app.state().world().seen_flags, vec![true; 6]);
    // the late update took the flag back
    assert!(!app.state().world().flag);
}

#[test]
fn a_game_object_queued_in_a_tick_waits_for_the_next() {
    let mut app = App::new(world(), (800, 600));
    let spawner = object_of(&mut app, vec![Behaviour::Spawner("child"), Behaviour::Recorder("parent")]);
    app.add_game_object(spawner);
    take_log(&mut app);
    assert_eq!(app.game_objects().len(), 0);
    let calls = app.tick(Time::new());
    // the child was queued in the update phase: it got its add hook, and
    // nothing else in this tick
    assert_eq!(
        take_log(&mut app),
        vec!["parent first", "child add", "parent update", "parent pre", "parent render", "parent late"]
    );
    assert!(calls.iter().all(|c| c.game_object == 0));
    assert_eq!(app.game_objects().len(), 1);
    let calls = app.tick(Time::new());
    let log = take_log(&mut app);
    assert_eq!(app.game_objects().len(), 2);
    assert_eq!(
        log,
        vec![
            "child first",
            "child add",
            "parent update",
            "child update",
            "parent pre",
            "child pre",
            "parent render",
            "child render",
            "parent late",
            "child late"
        ]
    );
    assert_eq!(calls[0], call(Phase::FirstUpdate, 1, 0));
    assert_eq!(calls.iter().filter(|c| c.game_object == 1).count(), 5);
    assert_eq!(calls.iter().filter(|c| c.game_object >= 2).count(), 0);
}

#[test]
fn the_queue_is_drained_from_its_end() {
    let mut app = App::new(world(), (800, 600));
    for name in ["a", "b", "c"] {
        let game_object = object_of(&mut app, vec![Behaviour::Recorder(name)]);
        app.add_game_object(game_object);
    }
    take_log(&mut app);
    app.tick(Time::new());
    let log = take_log(&mut app);
    assert_eq!(&log[..6], ["c first", "b first", "a first", "c update", "b update", "a update"]);
    // those that come later join behind
    let d = object_of(&mut app, vec![Behaviour::Recorder("d")]);
    app.add_game_object(d);
    take_log(&mut app);
    app.tick(Time::new());
    let log = take_log(&mut app);
    assert_eq!(&log[..5], ["d first", "c update", "b update", "a update", "d update"]);
}

#[test]
fn resize_runs_in_the_tick_after_the_size_was_set() {
    let mut app = App::new(world(), (800, 600));
    let a = object_of(&mut app, vec![Behaviour::Recorder("a")]);
    app.add_game_object(a);
    take_log(&mut app);
    app.set_screen_size((1024, 768));
    assert_eq!(app.screen().size(), (1024, 768));
    let calls = app.tick(Time::new());
    assert_eq!(
        take_log(&mut app),
        vec!["a first", "a resize 1024x768", "a update", "a pre", "a render", "a late"]
    );
    assert_eq!(calls[1], call(Phase::Resize, 0, 0));
    let calls = app.tick(Time::new());
    assert_eq!(take_log(&mut app), vec!["a update", "a pre", "a render", "a late"]);
    assert!(calls.iter().all(|c| c.phase != Phase::Resize));
}

#[test]
fn an_empty_app_ticks() {
    let mut app: App<World, Behaviour> = App::new(world(), (1, 1));
    assert_eq!(app.tick(Time::new()), vec![]);
    let empty = GameObject::new();
    app.add_game_object(empty);
    assert_eq!(app.tick(Time::new()), vec![]);
    assert_eq!(app.game_objects().len(), 1);
    assert_eq!(app.game_objects()[0].components().len(), 0);
}

#[test]
fn add_hook_runs_when_the_component_is_added() {
    let mut app = App::new(world(), (800, 600));
    let mut game_object = GameObject::new();
    app.add_component_to(&mut game_object, Behaviour::Recorder("a"), 7);
    assert_eq!(take_log(&mut app), vec!["a add"]);
    app.add_component_to(&mut game_object, Behaviour::Recorder("b"), 8);
    assert_eq!(take_log(&mut app), vec!["b add"]);
    assert_eq!(game_object.components().len(), 2);
    assert_eq!(game_object.components()[0].kind(), 7);
    assert!(!game_object.components()[1].had_first_update());
}

#[test]
fn components_are_found_by_kind() {
    let mut app = App::new(world(), (800, 600));
    let mut game_object = GameObject::new();
    assert_eq!(game_object.get_component(0), None);
    app.add_component_to(&mut game_object, Behaviour::Idle, 5);
    app.add_component_to(&mut game_object, Behaviour::Idle, 9);
    app.add_component_to(&mut game_object, Behaviour::Idle, 5);
    assert_eq!(game_object.get_component(5), Some(0));
    assert_eq!(game_object.get_component(9), Some(1));
    assert_eq!(game_object.get_component(6), None);
}

#[test]
fn holder_keeps_the_first_update_mark() {
    let mut holder = ComponentHolder::new(Behaviour::Idle, 3);
    assert_eq!(holder.kind(), 3);
    assert!(!holder.had_first_update());
    holder.set_had_first_update();
    assert!(holder.had_first_update());
    let mut state_owner: App<World, Behaviour> = App::new(world(), (1, 1));
    let frame_owner: App<World, Behaviour> = App::new(world(), (1, 1));
    let frame = frame_owner.frame();
    // the first update is not due any more, every other hook is
    assert!(!holder.run(Phase::FirstUpdate, frame, state_owner.state_mut()));
    assert!(holder.run(Phase::Update, frame, state_owner.state_mut()));
    let mut fresh = ComponentHolder::new(Behaviour::Recorder("x"), 0);
    assert!(fresh.run(Phase::FirstUpdate, frame, state_owner.state_mut()));
    assert!(fresh.had_first_update());
    assert!(!fresh.run(Phase::FirstUpdate, frame, state_owner.state_mut()));
    assert_eq!(take_log(&mut state_owner), vec!["x first"]);
}

#[test]
fn tick_hands_the_frame_time_to_the_hooks() {
    let mut app = App::new(world(), (800, 600));
    let reader = object_of(&mut app, vec![Behaviour::TimeReader]);
    app.add_game_object(reader);
    let mut time = Time::new();
    time.set_unscaled_time(5_000);
    time.set_delta_time(16);
    app.tick(time);
    time.set_unscaled_time(5_016);
    app.tick(time);
    assert_eq!(app.state().world().seen_times, vec![5_000, 5_016]);
    assert_eq!(app.time().unscaled_time(), 5_016);
    assert_eq!(app.time().delta_time(), 16);
}

#[test]
fn tick_ends_the_frame_of_the_pointer() {
    let mut app: App<World, Behaviour> = App::new(world(), (800, 600));
    app.input_mut().set_buttons(1);
    app.input_mut().set_mouse_position((30, 40));
    assert!(app.input().get_button_down(sim_engine::input::Button::Left));
    app.tick(Time::new());
    assert!(!app.input().get_button_down(sim_engine::input::Button::Left));
    assert!(app.input().get_button(sim_engine::input::Button::Left));
    assert_eq!(app.input().mouse_delta_position(), (0, 0));
    app.input_mut().set_mouse_position((35, 40));
    assert_eq!(app.input().mouse_delta_position(), (-5, 0));
}

#[test]
fn queueing_and_resizing_keep_the_pointer_and_the_time() {
    let mut app: App<World, Behaviour> = App::new(world(), (800, 600));
    app.input_mut().set_buttons(5);
    app.input_mut().set_mouse_position((30, 40));
    let mut time = Time::new();
    time.set_unscaled_time(77);
    app.tick(time);
    app.input_mut().set_buttons(3);
    app.state_mut().world_mut().flag = true;
    let game_object = GameObject::new();
    app.add_game_object(game_object);
    app.set_screen_size((10, 20));
    assert_eq!(app.input().buttons(), 3);
    assert_eq!(app.input().mouse_position(), (30, 40));
    assert_eq!(app.input().mouse_delta_position(), (0, 0));
    assert_eq!(app.time().unscaled_time(), 77);
    assert_eq!(app.screen().size(), (10, 20));
    assert!(app.state().world().flag);
    assert_eq!(app.frame().screen().size(), (10, 20));
    assert_eq!(app.frame().input().buttons(), 3);
}

#[test]
fn tick_keeps_the_buttons_and_the_position_of_the_frame() {
    let mut app: App<World, Behaviour> = App::new(world(), (800, 600));
    let a = object_of(&mut app, vec![Behaviour::Recorder("a"), Behaviour::FlagSetter]);
    app.add_game_object(a);
    app.input_mut().set_buttons(6);
    app.input_mut().set_last_buttons(1);
    app.input_mut().set_mouse_position((-3, 9));
    let mut time = Time::new();
    time.set_delta_time(5);
    time.set_unscaled_time(123);
    app.tick(time);
    assert_eq!(app.input().buttons(), 6);
    assert_eq!(app.input().mouse_position(), (-3, 9));
    assert!(!app.input().get_button_down(sim_engine::input::Button::Right));
    assert!(app.input().get_button(sim_engine::input::Button::Right));
    assert!(!app.input().mouse_moved());
    assert_eq!((app.time().delta_time(), app.time().unscaled_time()), (5, 123));
    assert_eq!(app.screen().size(), (800, 600));
}
