//! The view state: the size of the viewport, the camera, and the view and
//! projection that follow from them, each in a cell that remembers whether it
//! changed since its observers were last told.
//!
//! Lengths in the world are counted in thousandths of a unit. The view is
//! held as the translation that undoes the camera position, the projection
//! as the half extents of the orthographic box.

use crate::math::clamp;
use crate::math::div_round;
use crate::math::lemma_round_div_is_near;
use crate::math::round_div;
use vstd::prelude::*;

verus! {

/// Something that is told when a value has changed. `V` is what it is shown
/// of the owner of the value.
pub trait Observer<V> {
    fn value_changed(&mut self, owner: &V);
}

/// What an [`Updater`] holds: the value, which of its observer slots are
/// filled, and whether the observers have yet to be told of the value.
pub struct UpdaterView<T> {
    pub value: T,
    pub observers: Seq<bool>,
    pub needs_update: bool,
}

/// The filled slots among the first `n`, in order: the observers that a
/// sync tells.
pub open spec fn filled(observers: Seq<bool>, n: int) -> Seq<usize>
    decreases n,
{
    if n <= 0 {
        Seq::empty()
    } else if observers[n - 1] {
        filled(observers, n - 1).push((n - 1) as usize)
    } else {
        filled(observers, n - 1)
    }
}

impl<T> UpdaterView<T> {
    /// The cell once `value` has been set: it needs an update, whether or
    /// not the value differs from the one before.
    pub open spec fn set(self, value: T) -> Self {
        UpdaterView { value, needs_update: true, ..self }
    }

    /// The observers that a sync tells, in the order in which they were
    /// registered: all of them if the cell needs an update, else none.
    pub open spec fn told(self) -> Seq<usize> {
        if self.needs_update {
            filled(self.observers, self.observers.len() as int)
        } else {
            Seq::empty()
        }
    }

    /// The cell after a sync.
    pub open spec fn synced(self) -> Self {
        UpdaterView { needs_update: false, ..self }
    }
}

/// Syncing twice tells the observers once: a sync that follows a sync, with
/// no value set and no observer registered in between, tells nobody and
/// changes nothing.
pub proof fn lemma_second_sync_is_silent<T>(cell: UpdaterView<T>)
    ensures
        cell.synced().told() == Seq::<usize>::empty(),
        cell.synced().synced() == cell.synced(),
        cell.set(cell.value).told() == filled(cell.observers, cell.observers.len() as int),
{
}

/// A value with its observers.
pub struct Updater<T, O> {
    value: T,
    update: Vec<Option<O>>,
    needs_update: bool,
}

impl<T, O> View for Updater<T, O> {
    type V = UpdaterView<T>;

    closed spec fn view(&self) -> UpdaterView<T> {
        UpdaterView {
            value: self.value,
            observers: self.update@.map_values(|slot: Option<O>| slot is Some),
            needs_update: self.needs_update,
        }
    }
}

impl<T, O> Updater<T, O> {
    /// A cell without observers. It needs an update from the start.
    pub fn new(value: T) -> (cell: Self)
        ensures
            cell@ == (UpdaterView { value, observers: Seq::empty(), needs_update: true }),
    {
        let cell = Self { value, update: Vec::new(), needs_update: true };
        assert(cell@.observers =~= Seq::<bool>::empty());
        cell
    }

    pub fn get_value(&self) -> (value: &T)
        ensures
            *value == self@.value,
    {
        &self.value
    }

    /// Replaces the value and marks the cell, whether or not the value
    /// differs from the one before.
    pub fn set_value(&mut self, value: T)
        ensures
            final(self)@ == old(self)@.set(value),
    {
        self.value = value;
        self.needs_update = true;
    }

    /// Registers an observer, or an empty slot, and marks the cell, so that
    /// the next sync tells the observer of the value as it is.
    pub fn set_update(&mut self, update: Option<O>)
        ensures
            final(self)@ == (UpdaterView {
                observers: old(self)@.observers.push(update is Some),
                needs_update: true,
                ..old(self)@
            }),
    {
        self.update.push(update);
        self.needs_update = true;
        assert(self@.observers =~= old(self)@.observers.push(update is Some));
    }

    pub fn needs_update(&self) -> (needs_update: bool)
        ensures
            needs_update == self@.needs_update,
    {
        self.needs_update
    }

    /// Tells every observer, in the order in which they were registered,
    /// and hands back the slots of those told.
    pub fn update_if_not_none<V>(&mut self, owner: &V) -> (told: Vec<usize>) where O: Observer<V>
        ensures
            final(self)@ == old(self)@,
            told@ == filled(old(self)@.observers, old(self)@.observers.len() as int),
    {
        let mut told: Vec<usize> = Vec::new();
        let n = self.update.len();
        let mut i: usize = 0;
        while i < n
            invariant
                i <= n,
                n == self.update.len(),
                self@ == old(self)@,
                told@ == filled(self@.observers, i as int),
            decreases n - i,
        {
            let ghost before = self@;
            let ghost slots = self.update@;
            match &mut self.update[i] {
                Some(observer) => {
                    observer.value_changed(owner);
                    told.push(i);
                },
                None => {},
            }
            proof {
                assert(self.update@.len() == n);
                assert forall|k: int| 0 <= k < n implies #[trigger] self@.observers[k]
                    == before.observers[k] by {
                    if k != i {
                        assert(self.update@[k] == slots[k]);
                    }
                }
                assert(self@.observers =~= before.observers);
            }
            i += 1;
        }
        told
    }

    /// Tells the observers if the cell needs an update, and clears the
    /// mark. Hands back the slots of those told.
    pub fn sync<V>(&mut self, owner: &V) -> (told: Vec<usize>) where O: Observer<V>
        ensures
            final(self)@ == old(self)@.synced(),
            told@ == old(self)@.told(),
    {
        if self.needs_update {
            let told = self.update_if_not_none(owner);
            self.needs_update = false;
            told
        } else {
            Vec::new()
        }
    }
}

/// The camera stays within this distance of the origin along each axis, in
/// thousandths of a unit.
pub const CAMERA_LIMIT: i64 = 0x2000_0000_0000_0000;

/// A scroll of this many units doubles the orthographic size.
pub const ZOOM_UNIT: i64 = 500;

/// The half extents of the orthographic box, in thousandths of a unit: the
/// box reaches from `-half_width` to `half_width` and from `-half_height` to
/// `half_height`.
#[derive(Clone, Copy, Debug, PartialEq, Eq, Structural)]
pub struct Projection {
    pub half_width: i64,
    pub half_height: i64,
}

/// What the observers are shown: the values of the viewport as they are when
/// a sync begins.
#[derive(Clone, Copy, Debug)]
pub struct ViewState {
    pub width: i32,
    pub height: i32,
    pub camera_pos: (i64, i64),
    pub orthographic_size: u32,
    pub view: (i64, i64),
    pub projection: Projection,
}

/// Why a viewport refused what it was asked.
#[derive(Clone, Copy, Debug, PartialEq, Eq, Structural)]
pub enum ViewError {
    /// The width or the height is not positive.
    Size,
    /// The range of the orthographic size is empty or starts at zero, or the
    /// size lies outside it.
    Range,
    /// The camera would leave the part of the world that can be held.
    Camera,
}

/// The observers that one sync of a viewport told, cell by cell.
pub struct Told {
    pub height: Vec<usize>,
    pub orthographic_size: Vec<usize>,
    pub view: Vec<usize>,
    pub projection: Vec<usize>,
}

/// What a [`Viewport`] holds.
pub struct ViewportView {
    pub width: int,
    pub height: UpdaterView<i32>,
    pub camera_pos: (int, int),
    pub view: UpdaterView<(i64, i64)>,
    pub projection: UpdaterView<Projection>,
    pub orthographic_size: UpdaterView<u32>,
    pub size_min: u32,
    pub size_max: u32,
}

/// The translation that undoes a camera position.
pub open spec fn view_of(camera_pos: (int, int)) -> (int, int) {
    (-camera_pos.0, -camera_pos.1)
}

/// The half extents of the box for a viewport of `width` by `height` pixels
/// and an orthographic size of `size`: the size upwards, and the size times
/// the aspect ratio sidewards.
pub open spec fn projection_of(width: int, height: int, size: int) -> (int, int) {
    (round_div(width * size, height), size)
}

/// Whether a camera position can be held.
pub open spec fn camera_in_reach(camera_pos: (int, int)) -> bool {
    &&& -CAMERA_LIMIT <= camera_pos.0 <= CAMERA_LIMIT
    &&& -CAMERA_LIMIT <= camera_pos.1 <= CAMERA_LIMIT
}

/// `height` times the world x coordinate of the point that is seen at
/// screen column `px`, when the camera is at `camera_x` and the orthographic
/// size is `size`.
pub open spec fn world_x_times_height(
    width: int,
    height: int,
    camera_x: int,
    size: int,
    px: int,
) -> int {
    height * camera_x + (2 * px - width) * size
}

/// `height` times the world y coordinate of the point that is seen at
/// screen row `py`.
pub open spec fn world_y_times_height(height: int, camera_y: int, size: int, py: int) -> int {
    height * camera_y + (height - 2 * py) * size
}

impl ViewportView {
    /// Whether the viewport is as its methods keep it: the size positive,
    /// the orthographic size within its range, the camera in reach, and the
    /// view and the projection those that follow from the camera, the size
    /// and the orthographic size.
    pub open spec fn valid(self) -> bool {
        &&& self.width > 0
        &&& self.height.value > 0
        &&& 0 < self.size_min <= self.orthographic_size.value <= self.size_max
        &&& camera_in_reach(self.camera_pos)
        &&& (self.view.value.0 as int, self.view.value.1 as int) == view_of(self.camera_pos)
        &&& (self.projection.value.half_width as int, self.projection.value.half_height as int)
            == projection_of(self.width, self.height.value as int, self.orthographic_size.value as int)
    }

    /// The orthographic size after a scroll of `delta`: the size grows by
    /// `delta / 500` of itself and is held to its range.
    pub open spec fn zoomed_size(self, delta: int) -> int {
        clamp(
            self.orthographic_size.value + round_div(
                delta * self.orthographic_size.value,
                ZOOM_UNIT as int,
            ),
            self.size_min as int,
            self.size_max as int,
        )
    }

    /// The camera position after a scroll of `delta` with the cursor at the
    /// screen point `cursor`: moved so that the point of the world under the
    /// cursor stays under it.
    pub open spec fn zoomed_camera(self, cursor: (int, int), delta: int) -> (int, int) {
        let grown = self.zoomed_size(delta) - self.orthographic_size.value;
        (
            self.camera_pos.0 - round_div(
                (2 * cursor.0 - self.width) * grown,
                self.height.value as int,
            ),
            self.camera_pos.1 - round_div(
                (self.height.value - 2 * cursor.1) * grown,
                self.height.value as int,
            ),
        )
    }

    /// The camera position after the cursor has dragged the world by
    /// `movement` pixels.
    pub open spec fn panned_camera(self, movement: (int, int)) -> (int, int) {
        (
            self.camera_pos.0 - round_div(
                2 * movement.0 * self.orthographic_size.value,
                self.height.value as int,
            ),
            self.camera_pos.1 + round_div(
                2 * movement.1 * self.orthographic_size.value,
                self.height.value as int,
            ),
        )
    }

    /// The viewport with the camera at `camera_pos`. The view follows and
    /// needs an update.
    pub open spec fn with_camera(self, camera_pos: (int, int)) -> Self {
        ViewportView {
            camera_pos,
            view: self.view.set((view_of(camera_pos).0 as i64, view_of(camera_pos).1 as i64)),
            ..self
        }
    }

    /// The viewport with the orthographic size `size`. The projection
    /// follows, and both need an update.
    pub open spec fn with_size(self, size: u32) -> Self {
        ViewportView {
            orthographic_size: self.orthographic_size.set(size),
            projection: self.projection.set(
                Projection {
                    half_width: projection_of(self.width, self.height.value as int, size as int).0
                        as i64,
                    half_height: size as i64,
                },
            ),
            ..self
        }
    }

    /// The viewport after a scroll of `delta` with the cursor at `cursor`.
    pub open spec fn zoomed(self, cursor: (int, int), delta: int) -> Self {
        self.with_size(self.zoomed_size(delta) as u32).with_camera(
            self.zoomed_camera(cursor, delta),
        )
    }
}

/// Zoom clamp: however far and however often one scrolls, the orthographic
/// size stays within its range.
pub proof fn lemma_zoom_stays_in_range(v: ViewportView, delta: int)
    requires
        v.valid(),
    ensures
        v.size_min <= v.zoomed_size(delta) <= v.size_max,
{
}

/// Zoom toward the cursor: the point of the world that is seen at a screen
/// point before a zoom about that point is seen there after it, up to the
/// rounding of the camera position: along each axis, the world coordinate
/// under the cursor moves by at most half a thousandth of a unit.
pub proof fn lemma_zoom_keeps_cursor(v: ViewportView, cursor: (int, int), delta: int)
    requires
        v.valid(),
    ensures
        ({
            let h = v.height.value as int;
            let before = world_x_times_height(
                v.width,
                h,
                v.camera_pos.0,
                v.orthographic_size.value as int,
                cursor.0,
            );
            let after = world_x_times_height(
                v.width,
                h,
                v.zoomed_camera(cursor, delta).0,
                v.zoomed_size(delta),
                cursor.0,
            );
            -h <= 2 * (after - before) <= h
        }),
        ({
            let h = v.height.value as int;
            let before = world_y_times_height(
                h,
                v.camera_pos.1,
                v.orthographic_size.value as int,
                cursor.1,
            );
            let after = world_y_times_height(
                h,
                v.zoomed_camera(cursor, delta).1,
                v.zoomed_size(delta),
                cursor.1,
            );
            -h <= 2 * (after - before) <= h
        }),
{
    let h = v.height.value as int;
    let size = v.orthographic_size.value as int;
    let grown = v.zoomed_size(delta) - size;
    let kx = 2 * cursor.0 - v.width;
    let ky = h - 2 * cursor.1;
    let qx = round_div(kx * grown, h);
    let qy = round_div(ky * grown, h);
    lemma_round_div_is_near(kx * grown, h);
    lemma_round_div_is_near(ky * grown, h);
    assert(h * (v.camera_pos.0 - qx) + kx * (size + grown) - (h * v.camera_pos.0 + kx * size) == kx
        * grown - qx * h) by (nonlinear_arith);
    assert(h * (v.camera_pos.1 - qy) + ky * (size + grown) - (h * v.camera_pos.1 + ky * size) == ky
        * grown - qy * h) by (nonlinear_arith);
}

/// The viewport.
pub struct Viewport<O> {
    width: i32,
    height_updater: Updater<i32, O>,
    camera_pos: (i64, i64),
    view_updater: Updater<(i64, i64), O>,
    projection_updater: Updater<Projection, O>,
    orthographic_size_updater: Updater<u32, O>,
    size_min: u32,
    size_max: u32,
}

impl<O> View for Viewport<O> {
    type V = ViewportView;

    closed spec fn view(&self) -> ViewportView {
        ViewportView {
            width: self.width as int,
            height: self.height_updater@,
            camera_pos: (self.camera_pos.0 as int, self.camera_pos.1 as int),
            view: self.view_updater@,
            projection: self.projection_updater@,
            orthographic_size: self.orthographic_size_updater@,
            size_min: self.size_min,
            size_max: self.size_max,
        }
    }
}

/// The half extents of the box.
fn projection_for(width: i32, height: i32, size: u32) -> (projection: Projection)
    requires
        width > 0,
        height > 0,
    ensures
        (projection.half_width as int, projection.half_height as int) == projection_of(
            width as int,
            height as int,
            size as int,
        ),
{
    assert(0 <= width * size <= 0x7fff_ffff * 0xffff_ffff) by (nonlinear_arith)
        requires
            0 < width <= 0x7fff_ffff,
            0 <= size <= 0xffff_ffff,
    ;
    let n = (width as i128) * (size as i128);
    let q = div_round(n, height as i128);
    proof {
        lemma_quotient_in_reach(n as int, height as int, q as int);
    }
    Projection { half_width: q as i64, half_height: size as i64 }
}

/// Whether `value` lies within `limit` of zero.
fn within(value: i128, limit: i64) -> (within: bool)
    requires
        limit >= 0,
    ensures
        within == (-limit <= value <= limit),
{
    -(limit as i128) <= value && value <= limit as i128
}

impl<O> Viewport<O> {
    /// A viewport of `width` by `height` pixels with the camera at
    /// `camera_pos`, the orthographic size `orthographic_size` and the range
    /// from `size_min` to `size_max` for it. Every cell needs an update.
    /// Refused, with the first of these faults: a size that is not positive;
    /// a range that is empty or starts at zero, or an orthographic size
    /// outside it; a camera out of reach.
    pub fn new(
        width: i32,
        height: i32,
        orthographic_size: u32,
        camera_pos: (i64, i64),
        size_min: u32,
        size_max: u32,
    ) -> (made: Result<Self, ViewError>)
        ensures
            made matches Ok(viewport) ==> viewport@.valid() && viewport@ == (ViewportView {
                width: width as int,
                height: UpdaterView { value: height, observers: Seq::empty(), needs_update: true },
                camera_pos: (camera_pos.0 as int, camera_pos.1 as int),
                view: UpdaterView {
                    value: ((-camera_pos.0) as i64, (-camera_pos.1) as i64),
                    observers: Seq::empty(),
                    needs_update: true,
                },
                projection: UpdaterView {
                    value: Projection {
                        half_width: projection_of(
                            width as int,
                            height as int,
                            orthographic_size as int,
                        ).0 as i64,
                        half_height: orthographic_size as i64,
                    },
                    observers: Seq::empty(),
                    needs_update: true,
                },
                orthographic_size: UpdaterView {
                    value: orthographic_size,
                    observers: Seq::empty(),
                    needs_update: true,
                },
                size_min,
                size_max,
            }),
            made matches Err(e) ==> e == if width <= 0 || height <= 0 {
                ViewError::Size
            } else if size_min == 0 || orthographic_size < size_min || orthographic_size > size_max {
                ViewError::Range
            } else {
                ViewError::Camera
            },
            made is Ok <==> width > 0 && height > 0 && 0 < size_min <= orthographic_size <= size_max
                && camera_in_reach((camera_pos.0 as int, camera_pos.1 as int)),
    {
        if width <= 0 || height <= 0 {
            return Err(ViewError::Size);
        }
        if size_min == 0 || orthographic_size < size_min || orthographic_size > size_max {
            return Err(ViewError::Range);
        }
        if !within(camera_pos.0 as i128, CAMERA_LIMIT) || !within(camera_pos.1 as i128, CAMERA_LIMIT) {
            return Err(ViewError::Camera);
        }
        Ok(
            Self {
                width,
                height_updater: Updater::new(height),
                camera_pos,
                view_updater: Updater::new((-camera_pos.0, -camera_pos.1)),
                projection_updater: Updater::new(projection_for(width, height, orthographic_size)),
                orthographic_size_updater: Updater::new(orthographic_size),
                size_min,
                size_max,
            },
        )
    }

    pub fn width(&self) -> (width: i32)
        ensures
            width == self@.width,
    {
        self.width
    }

    pub fn height(&self) -> (height: i32)
        ensures
            height == self@.height.value,
    {
        *self.height_updater.get_value()
    }

    pub fn camera_pos(&self) -> (camera_pos: (i64, i64))
        ensures
            (camera_pos.0 as int, camera_pos.1 as int) == self@.camera_pos,
    {
        self.camera_pos
    }

    pub fn orthographic_size(&self) -> (orthographic_size: u32)
        ensures
            orthographic_size == self@.orthographic_size.value,
    {
        *self.orthographic_size_updater.get_value()
    }

    /// The view: the translation that undoes the camera position.
    pub fn view_transform(&self) -> (view: (i64, i64))
        ensures
            view == self@.view.value,
    {
        *self.view_updater.get_value()
    }

    pub fn projection(&self) -> (projection: Projection)
        ensures
            projection == self@.projection.value,
    {
        *self.projection_updater.get_value()
    }

    /// What the observers are shown.
    pub fn snapshot(&self) -> (state: ViewState)
        ensures
            state == (ViewState {
                width: self@.width as i32,
                height: self@.height.value,
                camera_pos: (self@.camera_pos.0 as i64, self@.camera_pos.1 as i64),
                orthographic_size: self@.orthographic_size.value,
                view: self@.view.value,
                projection: self@.projection.value,
            }),
    {
        ViewState {
            width: self.width,
            height: self.height(),
            camera_pos: self.camera_pos,
            orthographic_size: self.orthographic_size(),
            view: self.view_transform(),
            projection: self.projection(),
        }
    }

    /// Registers an observer of the height.
    pub fn set_height_change(&mut self, height_change: Option<O>)
        ensures
            final(self)@ == (ViewportView {
                height: UpdaterView {
                    observers: old(self)@.height.observers.push(height_change is Some),
                    needs_update: true,
                    ..old(self)@.height
                },
                ..old(self)@
            }),
    {
        self.height_updater.set_update(height_change);
    }

    /// Registers an observer of the orthographic size.
    pub fn set_orthographic_size_change(&mut self, orthographic_size_change: Option<O>)
        ensures
            final(self)@ == (ViewportView {
                orthographic_size: UpdaterView {
                    observers: old(self)@.orthographic_size.observers.push(
                        orthographic_size_change is Some,
                    ),
                    needs_update: true,
                    ..old(self)@.orthographic_size
                },
                ..old(self)@
            }),
    {
        self.orthographic_size_updater.set_update(orthographic_size_change);
    }

    /// Registers an observer of the view.
    pub fn set_view_change(&mut self, view_change: Option<O>)
        ensures
            final(self)@ == (ViewportView {
                view: UpdaterView {
                    observers: old(self)@.view.observers.push(view_change is Some),
                    needs_update: true,
                    ..old(self)@.view
                },
                ..old(self)@
            }),
    {
        self.view_updater.set_update(view_change);
    }

    /// Registers an observer of the projection.
    pub fn set_projection_change(&mut self, projection_change: Option<O>)
        ensures
            final(self)@ == (ViewportView {
                projection: UpdaterView {
                    observers: old(self)@.projection.observers.push(projection_change is Some),
                    needs_update: true,
                    ..old(self)@.projection
                },
                ..old(self)@
            }),
    {
        self.projection_updater.set_update(projection_change);
    }

    /// Sets the orthographic size, held to its range, and the projection
    /// that follows from it.
    pub fn set_orthographic_size(&mut self, orthographic_size: u32)
        requires
            old(self)@.valid(),
        ensures
            final(self)@.valid(),
            final(self)@ == old(self)@.with_size(
                clamp(
                    orthographic_size as int,
                    old(self)@.size_min as int,
                    old(self)@.size_max as int,
                ) as u32,
            ),
    {
        let size = if orthographic_size < self.size_min {
            self.size_min
        } else if orthographic_size > self.size_max {
            self.size_max
        } else {
            orthographic_size
        };
        self.orthographic_size_updater.set_value(size);
        self.recalculate_projection();
    }

    /// Moves the camera, and sets the view that follows from it. A position
    /// out of reach is refused and changes nothing.
    pub fn set_camera_pos(&mut self, camera_pos: (i64, i64)) -> (set: Result<(), ViewError>)
        requires
            old(self)@.valid(),
        ensures
            final(self)@.valid(),
            set == if camera_in_reach((camera_pos.0 as int, camera_pos.1 as int)) {
                Ok::<(), ViewError>(())
            } else {
                Err(ViewError::Camera)
            },
            final(self)@ == if camera_in_reach((camera_pos.0 as int, camera_pos.1 as int)) {
                old(self)@.with_camera((camera_pos.0 as int, camera_pos.1 as int))
            } else {
                old(self)@
            },
    {
        if !within(camera_pos.0 as i128, CAMERA_LIMIT) || !within(camera_pos.1 as i128, CAMERA_LIMIT) {
            return Err(ViewError::Camera);
        }
        self.camera_pos = camera_pos;
        self.recalculate_view();
        Ok(())
    }

    /// Takes over a new size of the viewport: the height, the view and the
    /// projection need an update. A size that is not positive is refused and
    /// changes nothing.
    pub fn resize(&mut self, width: i32, height: i32) -> (resized: Result<(), ViewError>)
        requires
            old(self)@.valid(),
        ensures
            final(self)@.valid(),
            resized == if width > 0 && height > 0 {
                Ok::<(), ViewError>(())
            } else {
                Err(ViewError::Size)
            },
            final(self)@ == if width > 0 && height > 0 {
                ViewportView {
                    width: width as int,
                    height: old(self)@.height.set(height),
                    view: old(self)@.view.set(old(self)@.view.value),
                    projection: old(self)@.projection.set(
                        Projection {
                            half_width: projection_of(
                                width as int,
                                height as int,
                                old(self)@.orthographic_size.value as int,
                            ).0 as i64,
                            half_height: old(self)@.orthographic_size.value as i64,
                        },
                    ),
                    ..old(self)@
                }
            } else {
                old(self)@
            },
    {
        if width <= 0 || height <= 0 {
            return Err(ViewError::Size);
        }
        self.width = width;
        self.height_updater.set_value(height);
        self.recalculate_view();
        self.recalculate_projection();
        Ok(())
    }

    /// Sets the view to the one that follows from the camera position.
    fn recalculate_view(&mut self)
        requires
            camera_in_reach(old(self)@.camera_pos),
        ensures
            final(self)@ == old(self)@.with_camera(old(self)@.camera_pos),
            (final(self)@.view.value.0 as int, final(self)@.view.value.1 as int) == view_of(
                old(self)@.camera_pos,
            ),
    {
        let view = (-self.camera_pos.0, -self.camera_pos.1);
        self.view_updater.set_value(view);
    }

    /// Sets the projection to the one that follows from the size of the
    /// viewport and the orthographic size.
    fn recalculate_projection(&mut self)
        requires
            old(self)@.width > 0,
            old(self)@.height.value > 0,
        ensures
            final(self)@ == (ViewportView {
                projection: old(self)@.projection.set(
                    Projection {
                        half_width: projection_of(
                            old(self)@.width,
                            old(self)@.height.value as int,
                            old(self)@.orthographic_size.value as int,
                        ).0 as i64,
                        half_height: old(self)@.orthographic_size.value as i64,
                    },
                ),
                ..old(self)@
            }),
            (
                final(self)@.projection.value.half_width as int,
                final(self)@.projection.value.half_height as int,
            ) == projection_of(
                old(self)@.width,
                old(self)@.height.value as int,
                old(self)@.orthographic_size.value as int,
            ),
    {
        let projection = projection_for(self.width, self.height(), self.orthographic_size());
        self.projection_updater.set_value(projection);
    }

    /// The orthographic size after a scroll of `delta`.
    fn zoomed_size(&self, delta: i32) -> (size: u32)
        requires
            self@.valid(),
        ensures
            size == self@.zoomed_size(delta as int),
    {
        let size = self.orthographic_size() as i128;
        assert(-0x8000_0000 * 0xffff_ffff <= delta * size <= 0x8000_0000 * 0xffff_ffff)
            by (nonlinear_arith)
            requires
                -0x8000_0000 <= delta <= 0x8000_0000,
                0 <= size <= 0xffff_ffff,
        ;
        let grown = size + div_round((delta as i128) * size, ZOOM_UNIT as i128);
        if grown < self.size_min as i128 {
            self.size_min
        } else if grown > self.size_max as i128 {
            self.size_max
        } else {
            grown as u32
        }
    }

    /// Zooms about the screen point `cursor` by a scroll of `delta`: the
    /// orthographic size grows by `delta / 500` of itself, held to its
    /// range, and the camera moves so that the point of the world under the
    /// cursor stays where it is. If the camera would move out of reach, the
    /// zoom is refused and changes nothing.
    pub fn zoom(&mut self, cursor: (i32, i32), delta: i32) -> (zoomed: Result<(), ViewError>)
        requires
            old(self)@.valid(),
        ensures
            final(self)@.valid(),
            zoomed == if camera_in_reach(
                old(self)@.zoomed_camera((cursor.0 as int, cursor.1 as int), delta as int),
            ) {
                Ok::<(), ViewError>(())
            } else {
                Err(ViewError::Camera)
            },
            final(self)@ == if camera_in_reach(
                old(self)@.zoomed_camera((cursor.0 as int, cursor.1 as int), delta as int),
            ) {
                old(self)@.zoomed((cursor.0 as int, cursor.1 as int), delta as int)
            } else {
                old(self)@
            },
    {
        let size = self.zoomed_size(delta);
        let grown: i128 = size as i128 - self.orthographic_size() as i128;
        let h = self.height() as i128;
        let kx: i128 = 2 * (cursor.0 as i128) - self.width as i128;
        let ky: i128 = h - 2 * (cursor.1 as i128);
        assert(-0x2_0000_0000 * 0x1_0000_0000 <= kx * grown <= 0x2_0000_0000 * 0x1_0000_0000)
            by (nonlinear_arith)
            requires
                -0x2_0000_0000 <= kx <= 0x2_0000_0000,
                -0x1_0000_0000 <= grown <= 0x1_0000_0000,
        ;
        assert(-0x2_0000_0000 * 0x1_0000_0000 <= ky * grown <= 0x2_0000_0000 * 0x1_0000_0000)
            by (nonlinear_arith)
            requires
                -0x2_0000_0000 <= ky <= 0x2_0000_0000,
                -0x1_0000_0000 <= grown <= 0x1_0000_0000,
        ;
        let qx = div_round(kx * grown, h);
        let qy = div_round(ky * grown, h);
        proof {
            lemma_quotient_in_reach(kx * grown, h as int, qx as int);
            lemma_quotient_in_reach(ky * grown, h as int, qy as int);
        }
        let x = self.camera_pos.0 as i128 - qx;
        let y = self.camera_pos.1 as i128 - qy;
        if !within(x, CAMERA_LIMIT) || !within(y, CAMERA_LIMIT) {
            return Err(ViewError::Camera);
        }
        self.orthographic_size_updater.set_value(size);
        self.recalculate_projection();
        self.camera_pos = (x as i64, y as i64);
        self.recalculate_view();
        Ok(())
    }

    /// Drags the world by `movement` pixels: the camera moves the other
    /// way, by as much of the world as the pixels show. If the camera would
    /// move out of reach, it stays where it is.
    pub fn pan(&mut self, movement: (i32, i32)) -> (panned: Result<(), ViewError>)
        requires
            old(self)@.valid(),
        ensures
            final(self)@.valid(),
            panned == if camera_in_reach(
                old(self)@.panned_camera((movement.0 as int, movement.1 as int)),
            ) {
                Ok::<(), ViewError>(())
            } else {
                Err(ViewError::Camera)
            },
            final(self)@ == if camera_in_reach(
                old(self)@.panned_camera((movement.0 as int, movement.1 as int)),
            ) {
                old(self)@.with_camera(
                    old(self)@.panned_camera((movement.0 as int, movement.1 as int)),
                )
            } else {
                old(self)@
            },
    {
        let size = self.orthographic_size() as i128;
        let h = self.height() as i128;
        let mx: i128 = 2 * (movement.0 as i128);
        let my: i128 = 2 * (movement.1 as i128);
        assert(-0x1_0000_0000 * 0x1_0000_0000 <= mx * size <= 0x1_0000_0000 * 0x1_0000_0000)
            by (nonlinear_arith)
            requires
                -0x1_0000_0000 <= mx <= 0x1_0000_0000,
                0 <= size <= 0x1_0000_0000,
        ;
        assert(-0x1_0000_0000 * 0x1_0000_0000 <= my * size <= 0x1_0000_0000 * 0x1_0000_0000)
            by (nonlinear_arith)
            requires
                -0x1_0000_0000 <= my <= 0x1_0000_0000,
                0 <= size <= 0x1_0000_0000,
        ;
        let qx = div_round(mx * size, h);
        let qy = div_round(my * size, h);
        proof {
            lemma_quotient_in_reach(mx * size, h as int, qx as int);
            lemma_quotient_in_reach(my * size, h as int, qy as int);
        }
        let x = self.camera_pos.0 as i128 - qx;
        let y = self.camera_pos.1 as i128 + qy;
        if !within(x, CAMERA_LIMIT) || !within(y, CAMERA_LIMIT) {
            return Err(ViewError::Camera);
        }
        self.camera_pos = (x as i64, y as i64);
        self.recalculate_view();
        Ok(())
    }

    /// Tells the observers of every cell that needs an update, cell by cell:
    /// the height, the orthographic size, the view, the projection. Every
    /// observer is shown the viewport as it is when the sync begins.
    pub fn update_uniforms_in_shader(&mut self) -> (told: Told) where O: Observer<ViewState>
        ensures
            told.height@ == old(self)@.height.told(),
            told.orthographic_size@ == old(self)@.orthographic_size.told(),
            told.view@ == old(self)@.view.told(),
            told.projection@ == old(self)@.projection.told(),
            final(self)@ == (ViewportView {
                height: old(self)@.height.synced(),
                orthographic_size: old(self)@.orthographic_size.synced(),
                view: old(self)@.view.synced(),
                projection: old(self)@.projection.synced(),
                ..old(self)@
            }),
    {
        let state = self.snapshot();
        let height = self.height_updater.sync(&state);
        let orthographic_size = self.orthographic_size_updater.sync(&state);
        let view = self.view_updater.sync(&state);
        let projection = self.projection_updater.sync(&state);
        Told { height, orthographic_size, view, projection }
    }
}

/// A rounded quotient by a positive divisor is no further from zero than the
/// numerator, give or take one.
proof fn lemma_quotient_in_reach(n: int, d: int, q: int)
    requires
        d >= 1,
        2 * (q * d) <= 2 * n + d < 2 * (q * d) + 2 * d,
    ensures
        n >= 0 ==> 0 <= q <= n + 1,
        n <= 0 ==> n - 1 <= q <= 0,
{
    if q >= 1 {
        assert(q * d >= q + d - 1) by (nonlinear_arith)
            requires
                q >= 1,
                d >= 1,
        ;
    }
    if q <= -1 {
        assert(q * d <= q - d + 1) by (nonlinear_arith)
            requires
                q <= -1,
                d >= 1,
        ;
    }
}

} // verus!
