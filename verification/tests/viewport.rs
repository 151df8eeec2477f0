use sim_engine::viewport::Observer;
use sim_engine::viewport::Projection;
use sim_engine::viewport::Updater;
use sim_engine::viewport::ViewError;
use sim_engine::viewport::ViewState;
use sim_engine::viewport::Viewport;
use sim_engine::viewport::CAMERA_LIMIT;
use std::cell::RefCell;
use std::rc::Rc;

type Log = Rc<RefCell<Vec<(&'static str, i64)>>>;

/// Notes its name and one value of what it is shown.
struct Recorder {
    name: &'static str,
    log: Log,
}

impl Observer<ViewState> for Recorder {
    fn value_changed(&mut self, owner: &ViewState) {
        self.log.borrow_mut().push((self.name, owner.orthographic_size as i64));
    }
}

impl Observer<i64> for Recorder {
    fn value_changed(&mut self, owner: &i64) {
        self.log.borrow_mut().push((self.name, *owner));
    }
}

fn recorder(name: &'static str, log: &Log) -> Option<Recorder> {
    Some(Recorder { name, log: Rc::clone(log) })
}

fn taken(log: &Log) -> Vec<(&'static str, i64)> {
    std::mem::take(&mut *log.borrow_mut())
}

fn viewport() -> Viewport<Recorder> {
    Viewport::new(800, 600, 50_000, (16_000, -5_000), 7_500, 7_500_000).unwrap()
}

#[test]
fn sync_tells_the_observers_once() {
    let log: Log = Rc::default();
    let mut cell: Updater<u32, Recorder> = Updater::new(5);
    cell.set_update(recorder("a", &log));
    cell.set_update(recorder("b", &log));
    assert!(cell.needs_update());
    assert_eq!(cell.sync(&10i64), vec![0, 1]);
    assert_eq!(taken(&log), vec![("a", 10), ("b", 10)]);
    assert!(!cell.needs_update());
    // a second sync without a set tells nobody
    assert_eq!(cell.sync(&11i64), Vec::<usize>::new());
    assert_eq!(cell.sync(&12i64), Vec::<usize>::new());
    assert_eq!(taken(&log), vec![]);
    cell.set_value(6);
    assert_eq!(*cell.get_value(), 6);
    assert_eq!(cell.sync(&13i64), vec![0, 1]);
    assert_eq!(cell.sync(&14i64), Vec::<usize>::new());
    assert_eq!(taken(&log), vec![("a", 13), ("b", 13)]);
}

#[test]
fn setting_the_same_value_marks_the_cell() {
    let log: Log = Rc::default();
    let mut cell: Updater<u32, Recorder> = Updater::new(5);
    cell.set_update(recorder("a", &log));
    cell.sync(&0i64);
    taken(&log);
    cell.set_value(5);
    assert!(cell.needs_update());
    assert_eq!(cell.sync(&1i64), vec![0]);
    assert_eq!(taken(&log), vec![("a", 1)]);
}

#[test]
fn a_new_observer_is_told_at_the_next_sync() {
    let log: Log = Rc::default();
    let mut cell: Updater<u32, Recorder> = Updater::new(5);
    cell.sync(&0i64);
    assert!(!cell.needs_update());
    cell.set_update(recorder("late", &log));
    assert!(cell.needs_update());
    assert_eq!(cell.sync(&7i64), vec![0]);
    assert_eq!(taken(&log), vec![("late", 7)]);
}

#[test]
fn empty_slots_are_passed_over() {
    let log: Log = Rc::default();
    let mut cell: Updater<u32, Recorder> = Updater::new(5);
    cell.set_update(None);
    cell.set_update(recorder("a", &log));
    cell.set_update(None);
    cell.set_update(recorder("b", &log));
    assert_eq!(cell.update_if_not_none(&3i64), vec![1, 3]);
    assert_eq!(taken(&log), vec![("a", 3), ("b", 3)]);
    // telling without a sync leaves the mark
    assert!(cell.needs_update());
    assert_eq!(cell.sync(&4i64), vec![1, 3]);
}

#[test]
fn new_viewport() {
    let v = viewport();
    assert_eq!((v.width(), v.height()), (800, 600));
    assert_eq!(v.orthographic_size(), 50_000);
    assert_eq!(v.camera_pos(), (16_000, -5_000));
    assert_eq!(v.view_transform(), (-16_000, 5_000));
    assert_eq!(v.projection(), Projection { half_width: 66_667, half_height: 50_000 });
    let s = v.snapshot();
    assert_eq!((s.width, s.height, s.orthographic_size), (800, 600, 50_000));
    assert_eq!((s.camera_pos, s.view), ((16_000, -5_000), (-16_000, 5_000)));
    assert_eq!(s.projection, Projection { half_width: 66_667, half_height: 50_000 });
    let tall: Viewport<Recorder> = Viewport::new(3, 7, 50_000, (0, 0), 7_500, 7_500_000).unwrap();
    assert_eq!(tall.projection(), Projection { half_width: 21_429, half_height: 50_000 });
    let wide: Viewport<Recorder> = Viewport::new(1024, 768, 266_000, (0, 0), 7_500, 7_500_000).unwrap();
    assert_eq!(wide.projection(), Projection { half_width: 354_667, half_height: 266_000 });
}

fn refusal(made: Result<Viewport<Recorder>, ViewError>) -> Option<ViewError> {
    made.err()
}

#[test]
fn bad_viewports_are_refused() {
    assert_eq!(refusal(Viewport::new(0, 600, 50_000, (0, 0), 7_500, 7_500_000)), Some(ViewError::Size));
    assert_eq!(refusal(Viewport::new(800, -1, 50_000, (0, 0), 7_500, 7_500_000)), Some(ViewError::Size));
    assert_eq!(refusal(Viewport::new(800, 600, 50_000, (0, 0), 0, 7_500_000)), Some(ViewError::Range));
    assert_eq!(refusal(Viewport::new(800, 600, 50_000, (0, 0), 60_000, 7_500_000)), Some(ViewError::Range));
    assert_eq!(refusal(Viewport::new(800, 600, 50_000, (0, 0), 7_500, 40_000)), Some(ViewError::Range));
    assert_eq!(refusal(Viewport::new(800, 600, 50_000, (0, 0), 9, 8)), Some(ViewError::Range));
    assert_eq!(
        refusal(Viewport::new(800, 600, 50_000, (CAMERA_LIMIT + 1, 0), 7_500, 7_500_000)),
        Some(ViewError::Camera)
    );
    assert_eq!(
        refusal(Viewport::new(800, 600, 50_000, (0, i64::MIN), 7_500, 7_500_000)),
        Some(ViewError::Camera)
    );
    assert_eq!(refusal(Viewport::new(0, 600, 1, (i64::MAX, 0), 0, 0)), Some(ViewError::Size));
    assert_eq!(refusal(Viewport::new(1, 1, 1, (i64::MAX, 0), 0, 0)), Some(ViewError::Range));
    assert!(Viewport::<Recorder>::new(1, 1, 1, (CAMERA_LIMIT, -CAMERA_LIMIT), 1, 1).is_ok());
}

#[test]
fn sync_tells_only_the_cells_that_changed() {
    let log: Log = Rc::default();
    let mut v = viewport();
    v.set_height_change(recorder("height", &log));
    v.set_orthographic_size_change(recorder("size", &log));
    v.set_view_change(recorder("view", &log));
    v.set_projection_change(recorder("projection", &log));
    v.set_projection_change(recorder("projection 2", &log));
    // every cell needs an update at first
    let told = v.update_uniforms_in_shader();
    assert_eq!((told.height, told.orthographic_size, told.view, told.projection), (vec![0], vec![0], vec![0], vec![0, 1]));
    assert_eq!(
        taken(&log),
        vec![("height", 50_000), ("size", 50_000), ("view", 50_000), ("projection", 50_000), ("projection 2", 50_000)]
    );
    // nothing changed: nobody is told
    let told = v.update_uniforms_in_shader();
    assert!(told.height.is_empty() && told.orthographic_size.is_empty());
    assert!(told.view.is_empty() && told.projection.is_empty());
    assert_eq!(taken(&log), vec![]);
    // the camera moved: the view alone
    assert_eq!(v.set_camera_pos((1, 2)), Ok(()));
    let told = v.update_uniforms_in_shader();
    assert_eq!((told.height, told.orthographic_size, told.view, told.projection), (vec![], vec![], vec![0], vec![]));
    assert_eq!(taken(&log), vec![("view", 50_000)]);
    // the orthographic size: itself and the projection, once for several sets
    v.set_orthographic_size(60_000);
    v.set_orthographic_size(70_000);
    let told = v.update_uniforms_in_shader();
    assert_eq!((told.height, told.orthographic_size, told.view, told.projection), (vec![], vec![0], vec![], vec![0, 1]));
    assert_eq!(taken(&log), vec![("size", 70_000), ("projection", 70_000), ("projection 2", 70_000)]);
    // a resize: height, view and projection
    assert_eq!(v.resize(1024, 768), Ok(()));
    let told = v.update_uniforms_in_shader();
    assert_eq!((told.height, told.orthographic_size, told.view, told.projection), (vec![0], vec![], vec![0], vec![0, 1]));
    taken(&log);
    assert!(v.update_uniforms_in_shader().projection.is_empty());
}

#[test]
fn view_and_projection_follow_their_inputs() {
    let mut v = viewport();
    assert_eq!(v.set_camera_pos((-7, 9)), Ok(()));
    assert_eq!(v.camera_pos(), (-7, 9));
    assert_eq!(v.view_transform(), (7, -9));
    v.set_orthographic_size(266_000);
    assert_eq!(v.projection(), Projection { half_width: 354_667, half_height: 266_000 });
    assert_eq!(v.resize(3, 7), Ok(()));
    assert_eq!((v.width(), v.height()), (3, 7));
    assert_eq!(v.projection(), Projection { half_width: 114_000, half_height: 266_000 });
    assert_eq!(v.view_transform(), (7, -9));
}

#[test]
fn orthographic_size_is_held_to_its_range() {
    let mut v = viewport();
    v.set_orthographic_size(1);
    assert_eq!(v.orthographic_size(), 7_500);
    assert_eq!(v.projection(), Projection { half_width: 10_000, half_height: 7_500 });
    v.set_orthographic_size(u32::MAX);
    assert_eq!(v.orthographic_size(), 7_500_000);
    v.set_orthographic_size(7_500);
    assert_eq!(v.orthographic_size(), 7_500);
}

#[test]
fn refused_changes_leave_the_viewport_alone() {
    let log: Log = Rc::default();
    let mut v = viewport();
    v.set_view_change(recorder("view", &log));
    v.update_uniforms_in_shader();
    taken(&log);
    assert_eq!(v.set_camera_pos((CAMERA_LIMIT + 1, 0)), Err(ViewError::Camera));
    assert_eq!(v.resize(0, 5), Err(ViewError::Size));
    assert_eq!(v.resize(5, 0), Err(ViewError::Size));
    assert_eq!(v.camera_pos(), (16_000, -5_000));
    assert_eq!((v.width(), v.height()), (800, 600));
    assert!(v.update_uniforms_in_shader().view.is_empty());
    assert_eq!(v.set_camera_pos((CAMERA_LIMIT, -CAMERA_LIMIT)), Ok(()));
    // a zoom or a pan that would carry the camera out of reach
    assert_eq!(v.pan((-30, 0)), Err(ViewError::Camera));
    assert_eq!(v.zoom((800, 300), -100), Err(ViewError::Camera));
    assert_eq!(v.camera_pos(), (CAMERA_LIMIT, -CAMERA_LIMIT));
    assert_eq!(v.orthographic_size(), 50_000);
    assert_eq!(v.pan((30, 0)), Ok(()));
    assert_eq!(v.camera_pos(), (CAMERA_LIMIT - 5_000, -CAMERA_LIMIT));
}

#[test]
fn zoom_about_the_cursor() {
    let mut v = viewport();
    assert_eq!(v.zoom((0, 0), 100), Ok(()));
    assert_eq!(v.orthographic_size(), 60_000);
    assert_eq!(v.camera_pos(), (29_333, -15_000));
    assert_eq!(v.view_transform(), (-29_333, 15_000));
    assert_eq!(v.projection(), Projection { half_width: 80_000, half_height: 60_000 });
    // about the middle of the screen the camera stays
    let mut v = viewport();
    assert_eq!(v.zoom((400, 300), 100), Ok(()));
    assert_eq!(v.orthographic_size(), 60_000);
    assert_eq!(v.camera_pos(), (16_000, -5_000));
    let mut v: Viewport<Recorder> = Viewport::new(1024, 768, 266_000, (0, 0), 7_500, 7_500_000).unwrap();
    assert_eq!(v.zoom((1000, 10), 250), Ok(()));
    assert_eq!(v.orthographic_size(), 399_000);
    assert_eq!(v.camera_pos(), (-169_021, -129_536));
}

/// `height` times the world coordinates of what is seen at the screen point.
fn world_times_height(v: &Viewport<Recorder>, p: (i64, i64)) -> (i64, i64) {
    let (w, h, s) = (v.width() as i64, v.height() as i64, v.orthographic_size() as i64);
    (h * v.camera_pos().0 + (2 * p.0 - w) * s, h * v.camera_pos().1 + (h - 2 * p.1) * s)
}

#[test]
fn zoom_keeps_the_point_under_the_cursor() {
    let mut v = viewport();
    let before = world_times_height(&v, (123, 457));
    assert_eq!(v.zoom((123, 457), -37), Ok(()));
    assert_eq!(v.orthographic_size(), 46_300);
    assert_eq!(v.camera_pos(), (12_584, -6_936));
    let after = world_times_height(&v, (123, 457));
    assert_eq!((after.0 - before.0, after.1 - before.1), (200, 200));
    for (cursor, delta) in [((0, 0), 333), ((799, 599), -77), ((-50, 1000), 12), ((400, 1), 499), ((1, 300), -499)] {
        let before = world_times_height(&v, (cursor.0 as i64, cursor.1 as i64));
        assert_eq!(v.zoom(cursor, delta), Ok(()));
        let after = world_times_height(&v, (cursor.0 as i64, cursor.1 as i64));
        assert!(2 * (after.0 - before.0).abs() <= 600);
        assert!(2 * (after.1 - before.1).abs() <= 600);
    }
}

#[test]
fn zoom_stays_within_the_range() {
    let mut v = viewport();
    let mut sizes = Vec::new();
    for _ in 0..7 {
        assert_eq!(v.zoom((400, 300), 1000), Ok(()));
        sizes.push(v.orthographic_size());
    }
    assert_eq!(sizes, vec![150_000, 450_000, 1_350_000, 4_050_000, 7_500_000, 7_500_000, 7_500_000]);
    let mut sizes = Vec::new();
    for _ in 0..8 {
        assert_eq!(v.zoom((400, 300), -400), Ok(()));
        sizes.push(v.orthographic_size());
    }
    assert_eq!(sizes, vec![1_500_000, 300_000, 60_000, 12_000, 7_500, 7_500, 7_500, 7_500]);
    for delta in [i32::MIN, i32::MAX, -501, -500, 0] {
        assert_eq!(v.zoom((400, 300), delta), Ok(()));
        assert!((7_500..=7_500_000).contains(&v.orthographic_size()));
    }
}

#[test]
fn pan_moves_the_camera_against_the_drag() {
    let mut v = viewport();
    assert_eq!(v.zoom((123, 457), -37), Ok(()));
    assert_eq!(v.pan((30, -12)), Ok(()));
    assert_eq!(v.camera_pos(), (7_954, -8_788));
    assert_eq!(v.view_transform(), (-7_954, 8_788));
    assert_eq!(v.orthographic_size(), 46_300);
    assert_eq!(v.pan((0, 0)), Ok(()));
    assert_eq!(v.camera_pos(), (7_954, -8_788));
}
