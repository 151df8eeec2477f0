//! The scheduler: game objects, the components on them, and the tick that
//! runs every component through the phases of a frame.
//!
//! A game object that is added waits in a queue and joins the live list when
//! the next tick begins, so the live list never changes while it is walked.
//! A tick runs one phase after the other, each over every component of every
//! live game object, and hands back the calls it made, in order.
//!
//! A hook is handed two things: the frame (the pointer, the screen and the
//! frame time), which it can only read, and the engine state (the queue and
//! the host's world), which it can change.

use crate::input::Input;
use crate::input::InputView;
use crate::screen::Screen;
use crate::time::Time;
use vstd::prelude::*;

verus! {

/// The hooks of a component. Each has a default that does nothing.
///
/// `S` is what the hooks may change: for the components of an [`App`], its
/// [`EngineState`].
pub trait Component<S> {
    /// Called once, when the component is added to a game object.
    fn on_add_to_game_object(&mut self, frame: &Frame, state: &mut S) {
    }

    /// Called once, in the first tick that the component lives through,
    /// before any of its other hooks.
    fn on_first_update(&mut self, frame: &Frame, state: &mut S) {
    }

    /// Called in a tick before which the screen size was set.
    fn on_resize(&mut self, frame: &Frame, state: &mut S) {
    }

    fn on_update(&mut self, frame: &Frame, state: &mut S) {
    }

    fn on_pre_render(&mut self, frame: &Frame, state: &mut S) {
    }

    fn on_render(&mut self, frame: &Frame, state: &mut S) {
    }

    fn on_late_update(&mut self, frame: &Frame, state: &mut S) {
    }
}

/// The phases of a tick, in the order in which they run.
#[derive(Clone, Copy, Debug, PartialEq, Eq, Structural)]
pub enum Phase {
    FirstUpdate,
    Resize,
    Update,
    PreRender,
    Render,
    LateUpdate,
}

impl Phase {
    /// The place of the phase in a tick.
    pub open spec fn rank(self) -> int {
        match self {
            Phase::FirstUpdate => 0,
            Phase::Resize => 1,
            Phase::Update => 2,
            Phase::PreRender => 3,
            Phase::Render => 4,
            Phase::LateUpdate => 5,
        }
    }
}

/// One call of a hook: the phase, the place of the game object in the live
/// list, and the place of the component on it.
#[derive(Clone, Copy, Debug, PartialEq, Eq, Structural)]
pub struct Call {
    pub phase: Phase,
    pub game_object: usize,
    pub component: usize,
}

/// What a [`Frame`] holds: the pointer, the size of the screen, and the
/// frame time (delta time, then unscaled time).
pub struct FrameView {
    pub input: InputView,
    pub screen: (int, int),
    pub time: (u64, u64),
}

/// What a frame brings to the hooks: the pointer, the screen and the frame
/// time.
pub struct Frame {
    input: Input,
    screen: Screen,
    time: Time,
}

impl View for Frame {
    type V = FrameView;

    closed spec fn view(&self) -> FrameView {
        FrameView { input: self.input@, screen: self.screen@, time: self.time@ }
    }
}

impl Frame {
    pub fn input(&self) -> (input: &Input)
        ensures
            input@ == self@.input,
    {
        &self.input
    }

    pub fn screen(&self) -> (screen: &Screen)
        ensures
            screen@ == self@.screen,
    {
        &self.screen
    }

    pub fn time(&self) -> (time: &Time)
        ensures
            time@ == self@.time,
    {
        &self.time
    }
}

/// The pointer once its frame has ended: the buttons and the position of the
/// frame have become the last ones.
pub open spec fn frame_ended(input: InputView) -> InputView {
    InputView {
        last_mouse_position: input.mouse_position,
        last_buttons: input.buttons,
        ..input
    }
}

/// What a [`ComponentHolder`] holds beside the component: the tag of the
/// component's kind, and whether its first update has been made.
pub struct HolderView {
    pub kind: u32,
    pub had_first_update: bool,
}

/// Whether the hook of `phase` is due for a component: always, but for the
/// first update, which is due only until it has been made.
pub open spec fn is_due(phase: Phase, holder: HolderView) -> bool {
    !(phase == Phase::FirstUpdate && holder.had_first_update)
}

/// What is kept about a component after `phase` has run over it: after the
/// first update phase, that it has had its first update.
pub open spec fn after_phase(phase: Phase, holder: HolderView) -> HolderView {
    HolderView {
        had_first_update: holder.had_first_update || phase == Phase::FirstUpdate,
        ..holder
    }
}

/// The calls that `phase` makes on the first `n` components of game object
/// number `game_object`: one for each component for which the hook is due, in
/// order.
pub open spec fn object_calls(
    phase: Phase,
    game_object: int,
    holders: Seq<HolderView>,
    n: int,
) -> Seq<Call>
    decreases n,
{
    if n <= 0 {
        Seq::empty()
    } else if is_due(phase, holders[n - 1]) {
        object_calls(phase, game_object, holders, n - 1).push(
            Call { phase, game_object: game_object as usize, component: (n - 1) as usize },
        )
    } else {
        object_calls(phase, game_object, holders, n - 1)
    }
}

/// The calls that `phase` makes on the first `m` game objects: those on each
/// of them, one game object after the other.
pub open spec fn phase_calls(phase: Phase, objects: Seq<Seq<HolderView>>, m: int) -> Seq<Call>
    decreases m,
{
    if m <= 0 {
        Seq::empty()
    } else {
        phase_calls(phase, objects, m - 1) + object_calls(
            phase,
            m - 1,
            objects[m - 1],
            objects[m - 1].len() as int,
        )
    }
}

/// What is kept about a game object after `phase` has run over it.
pub open spec fn object_after_phase(phase: Phase, holders: Seq<HolderView>) -> Seq<HolderView> {
    holders.map_values(|holder: HolderView| after_phase(phase, holder))
}

/// What is kept about the game objects after `phase` has run over them.
pub open spec fn objects_after_phase(phase: Phase, objects: Seq<Seq<HolderView>>) -> Seq<
    Seq<HolderView>,
> {
    objects.map_values(|holders: Seq<HolderView>| object_after_phase(phase, holders))
}

/// Whether the game objects and the components of each can be counted in
/// `usize`, as those that a scheduler holds always can.
pub open spec fn countable(objects: Seq<Seq<HolderView>>) -> bool {
    &&& objects.len() <= usize::MAX
    &&& forall|g: int| 0 <= g < objects.len() ==> (#[trigger] objects[g]).len() <= usize::MAX
}

/// The live list once the queue has been drained into it. The queue is
/// emptied from its end, so the game object queued last comes first.
pub open spec fn drained(live: Seq<Seq<HolderView>>, pending: Seq<Seq<HolderView>>) -> Seq<
    Seq<HolderView>,
> {
    live + pending.reverse()
}

/// The calls of one tick over `objects`, the live list as it is once the
/// queue has been drained: the first updates that are due, then, if the
/// screen size was set, the resizes, then the updates, the pre-renders, the
/// renders and the late updates. Each phase is done with every game object
/// before the next begins.
pub open spec fn tick_calls(objects: Seq<Seq<HolderView>>, resized: bool) -> Seq<Call> {
    let n = objects.len() as int;
    phase_calls(Phase::FirstUpdate, objects, n) + (if resized {
        phase_calls(Phase::Resize, objects, n)
    } else {
        Seq::empty()
    }) + phase_calls(Phase::Update, objects, n) + phase_calls(Phase::PreRender, objects, n)
        + phase_calls(Phase::Render, objects, n) + phase_calls(Phase::LateUpdate, objects, n)
}

/// A component with what the scheduler keeps about it.
pub struct ComponentHolder<C> {
    component: C,
    kind: u32,
    had_first_update: bool,
}

impl<C> View for ComponentHolder<C> {
    type V = HolderView;

    closed spec fn view(&self) -> HolderView {
        HolderView { kind: self.kind, had_first_update: self.had_first_update }
    }
}

impl<C> ComponentHolder<C> {
    pub fn new(component: C, kind: u32) -> (holder: Self)
        ensures
            holder@ == (HolderView { kind, had_first_update: false }),
    {
        Self { component, kind, had_first_update: false }
    }

    pub fn had_first_update(&self) -> (had: bool)
        ensures
            had == self@.had_first_update,
    {
        self.had_first_update
    }

    pub fn set_had_first_update(&mut self)
        ensures
            final(self)@ == (HolderView { had_first_update: true, ..old(self)@ }),
    {
        self.had_first_update = true;
    }

    pub fn kind(&self) -> (kind: u32)
        ensures
            kind == self@.kind,
    {
        self.kind
    }

    /// The component itself.
    pub closed spec fn spec_component(&self) -> C {
        self.component
    }

    pub fn component(&self) -> (component: &C)
        ensures
            *component == self.spec_component(),
    {
        &self.component
    }

    /// The component, to be changed. What is kept about it stays.
    pub fn component_mut(&mut self) -> (component: &mut C)
        ensures
            *component == old(self).spec_component(),
            final(self).spec_component() == *final(component),
            final(self)@ == old(self)@,
    {
        &mut self.component
    }

    /// Calls the hook of `phase`, unless the phase is the first update and
    /// the component has had it. Says whether the hook was called.
    pub fn run<S>(&mut self, phase: Phase, frame: &Frame, state: &mut S) -> (called: bool) where
        C: Component<S>,

        ensures
            called == is_due(phase, old(self)@),
            final(self)@ == after_phase(phase, old(self)@),
    {
        match phase {
            Phase::FirstUpdate => {
                if self.had_first_update {
                    return false;
                }
                self.component.on_first_update(frame, state);
                self.had_first_update = true;
            },
            Phase::Resize => {
                self.component.on_resize(frame, state);
            },
            Phase::Update => {
                self.component.on_update(frame, state);
            },
            Phase::PreRender => {
                self.component.on_pre_render(frame, state);
            },
            Phase::Render => {
                self.component.on_render(frame, state);
            },
            Phase::LateUpdate => {
                self.component.on_late_update(frame, state);
            },
        }
        true
    }
}

/// The holders of a list, seen as what the scheduler keeps about each.
pub open spec fn holder_views<C>(holders: Seq<ComponentHolder<C>>) -> Seq<HolderView> {
    holders.map_values(|holder: ComponentHolder<C>| holder@)
}

/// A container of components.
pub struct GameObject<C> {
    components: Vec<ComponentHolder<C>>,
}

impl<C> View for GameObject<C> {
    type V = Seq<HolderView>;

    closed spec fn view(&self) -> Seq<HolderView> {
        holder_views(self.components@)
    }
}

/// Whether `found` is what a search for the first component of kind `kind`
/// gives: the place of the first one, or nothing if there is none.
pub open spec fn is_first_of_kind(holders: Seq<HolderView>, kind: u32, found: Option<usize>) -> bool {
    match found {
        Some(i) => {
            &&& i < holders.len()
            &&& holders[i as int].kind == kind
            &&& forall|k: int| 0 <= k < i ==> (#[trigger] holders[k]).kind != kind
        },
        None => forall|k: int| 0 <= k < holders.len() ==> (#[trigger] holders[k]).kind != kind,
    }
}

impl<C> GameObject<C> {
    /// A game object without components.
    pub fn new() -> (game_object: Self)
        ensures
            game_object@ == Seq::<HolderView>::empty(),
    {
        let game_object = Self { components: Vec::new() };
        assert(game_object@ =~= Seq::<HolderView>::empty());
        game_object
    }

    /// Adds a component of kind `kind`, after its `on_add_to_game_object`
    /// hook has run.
    pub fn add_component<S>(
        &mut self,
        component: C,
        kind: u32,
        frame: &Frame,
        state: &mut S,
    ) where C: Component<S>

        ensures
            final(self)@ == old(self)@.push(HolderView { kind, had_first_update: false }),
    {
        let mut component = component;
        component.on_add_to_game_object(frame, state);
        self.components.push(ComponentHolder::new(component, kind));
        assert(self@ =~= old(self)@.push(HolderView { kind, had_first_update: false }));
    }

    /// The place of the first component of kind `kind`, if there is one.
    pub fn get_component(&self, kind: u32) -> (found: Option<usize>)
        ensures
            is_first_of_kind(self@, kind, found),
    {
        let mut i: usize = 0;
        while i < self.components.len()
            invariant
                i <= self.components.len(),
                self@.len() == self.components.len(),
                forall|k: int| 0 <= k < i ==> (#[trigger] self@[k]).kind != kind,
            decreases self.components.len() - i,
        {
            if self.components[i].kind() == kind {
                return Some(i);
            }
            i += 1;
        }
        None
    }

    /// Runs `phase` over the components, in order, as game object number
    /// `game_object`, and appends the calls made to `calls`.
    pub fn run<S>(
        &mut self,
        phase: Phase,
        game_object: usize,
        frame: &Frame,
        state: &mut S,
        calls: &mut Vec<Call>,
    ) where C: Component<S>

        ensures
            final(self)@ == object_after_phase(phase, old(self)@),
            final(calls)@ == old(calls)@ + object_calls(
                phase,
                game_object as int,
                old(self)@,
                old(self)@.len() as int,
            ),
    {
        let ghost before = self@;
        let n = self.components.len();
        let mut c: usize = 0;
        assert(calls@ =~= old(calls)@ + object_calls(phase, game_object as int, before, 0));
        while c < n
            invariant
                c <= n,
                n == self.components.len(),
                before == old(self)@,
                self@.len() == n,
                before.len() == n,
                forall|k: int| 0 <= k < c ==> #[trigger] self@[k] == after_phase(phase, before[k]),
                forall|k: int| c <= k < n ==> #[trigger] self@[k] == before[k],
                calls@ == old(calls)@ + object_calls(phase, game_object as int, before, c as int),
            decreases n - c,
        {
            let ghost views = self@;
            let ghost holders = self.components@;
            let called = self.components[c].run(phase, frame, state);
            if called {
                calls.push(Call { phase, game_object, component: c });
            }
            proof {
                assert(holders[c as int]@ == views[c as int]);
                assert(views[c as int] == before[c as int]);
                assert(self.components@.len() == n);
                assert(self.components@[c as int]@ == after_phase(phase, before[c as int]));
                assert forall|k: int| 0 <= k < n && k != c implies self.components@[k]
                    == holders[k] by {}
                assert forall|k: int| 0 <= k < n implies #[trigger] self@[k] == views.update(
                    c as int,
                    after_phase(phase, before[c as int]),
                )[k] by {
                    if k != c {
                        assert(self.components@[k] == holders[k]);
                        assert(views[k] == holders[k]@);
                    }
                }
                assert(self@ =~= views.update(c as int, after_phase(phase, before[c as int])));
                assert(calls@ =~= old(calls)@ + object_calls(
                    phase,
                    game_object as int,
                    before,
                    c + 1,
                ));
            }
            c += 1;
        }
        assert(self@ =~= object_after_phase(phase, before));
    }

    /// The components, in the order in which they were added.
    pub fn components(&self) -> (components: &Vec<ComponentHolder<C>>)
        ensures
            holder_views(components@) == self@,
    {
        &self.components
    }
}

/// The game objects of a list, seen as what the scheduler keeps about each.
pub open spec fn object_views<C>(game_objects: Seq<GameObject<C>>) -> Seq<Seq<HolderView>> {
    game_objects.map_values(|game_object: GameObject<C>| game_object@)
}

/// What the hooks may change of the engine: the queue of game objects to be
/// added, and the host's own `world`.
pub struct EngineState<W, C> {
    game_objects_to_be_added: Vec<GameObject<C>>,
    world: W,
}

impl<W, C> EngineState<W, C> {
    /// The game objects that wait to be added, in the order in which they
    /// were queued.
    pub closed spec fn pending(&self) -> Seq<Seq<HolderView>> {
        object_views(self.game_objects_to_be_added@)
    }

    pub closed spec fn spec_world(&self) -> W {
        self.world
    }

    /// Queues a game object. It joins the live list when the next tick
    /// begins.
    pub fn add_game_object(&mut self, game_object: GameObject<C>)
        ensures
            final(self).pending() == old(self).pending().push(game_object@),
            final(self).spec_world() == old(self).spec_world(),
    {
        self.game_objects_to_be_added.push(game_object);
        assert(self.pending() =~= old(self).pending().push(game_object@));
    }

    /// What the host shares among its components.
    pub fn world(&self) -> (world: &W)
        ensures
            *world == self.spec_world(),
    {
        &self.world
    }

    /// What the host shares among its components, to be changed.
    pub fn world_mut(&mut self) -> (world: &mut W)
        ensures
            *world == old(self).spec_world(),
            final(self).spec_world() == *final(world),
            final(self).pending() == old(self).pending(),
    {
        &mut self.world
    }
}

/// What an [`App`] holds beside the host's world: the live list, the queue
/// of game objects that wait to be added, whether the screen size was set
/// since the last tick, and the frame.
pub struct AppView {
    pub live: Seq<Seq<HolderView>>,
    pub pending: Seq<Seq<HolderView>>,
    pub resized: bool,
    pub frame: FrameView,
}

/// The scheduler with all it owns.
pub struct App<W, C> {
    game_objects: Vec<GameObject<C>>,
    state: EngineState<W, C>,
    frame: Frame,
    resized: bool,
}

impl<W, C> View for App<W, C> {
    type V = AppView;

    closed spec fn view(&self) -> AppView {
        AppView {
            live: object_views(self.game_objects@),
            pending: self.state.pending(),
            resized: self.resized,
            frame: self.frame@,
        }
    }
}

impl<W, C: Component<EngineState<W, C>>> App<W, C> {
    /// What the hooks may change.
    pub closed spec fn spec_state(&self) -> EngineState<W, C> {
        self.state
    }

    /// The host's world.
    pub open spec fn spec_world(&self) -> W {
        self.spec_state().spec_world()
    }

    /// An app without game objects, for a screen of `screen_size` pixels:
    /// the pointer idle, the frame time zero.
    pub fn new(world: W, screen_size: (i32, i32)) -> (app: Self)
        ensures
            app@ == (AppView {
                live: Seq::empty(),
                pending: Seq::empty(),
                resized: false,
                frame: FrameView {
                    input: InputView {
                        mouse_position: (0, 0),
                        last_mouse_position: (-1, -1),
                        buttons: 0,
                        last_buttons: 0,
                    },
                    screen: (screen_size.0 as int, screen_size.1 as int),
                    time: (0u64, 0u64),
                },
            }),
            app.spec_world() == world,
    {
        let app = Self {
            game_objects: Vec::new(),
            state: EngineState { game_objects_to_be_added: Vec::new(), world },
            frame: Frame {
                input: Input::new(),
                screen: Screen::new(screen_size),
                time: Time::new(),
            },
            resized: false,
        };
        assert(app@.live =~= Seq::<Seq<HolderView>>::empty());
        assert(app@.pending =~= Seq::<Seq<HolderView>>::empty());
        app
    }

    /// Queues a game object. It joins the live list when the next tick
    /// begins. Nothing else changes.
    pub fn add_game_object(&mut self, game_object: GameObject<C>)
        ensures
            final(self)@ == (AppView {
                pending: old(self)@.pending.push(game_object@),
                ..old(self)@
            }),
            final(self).spec_world() == old(self).spec_world(),
    {
        self.state.add_game_object(game_object);
    }

    /// Adds a component of kind `kind` to a game object that is still being
    /// put together, after its `on_add_to_game_object` hook has run. The
    /// hook may queue game objects and change the world; the live list and
    /// the frame stay as they are.
    pub fn add_component_to(&mut self, game_object: &mut GameObject<C>, component: C, kind: u32)
        ensures
            final(game_object)@ == old(game_object)@.push(
                HolderView { kind, had_first_update: false },
            ),
            final(self)@ == (AppView { pending: final(self)@.pending, ..old(self)@ }),
    {
        game_object.add_component(component, kind, &self.frame, &mut self.state);
    }

    /// What the hooks may change.
    pub fn state(&self) -> (state: &EngineState<W, C>)
        ensures
            *state == self.spec_state(),
    {
        &self.state
    }

    /// What the hooks may change, to be changed. What the caller does to the
    /// queue shows in the view; the live list and the frame stay as they
    /// are.
    pub fn state_mut(&mut self) -> (state: &mut EngineState<W, C>)
        ensures
            *state == old(self).spec_state(),
            final(self).spec_state() == *final(state),
            final(self)@ == (AppView { pending: final(state).pending(), ..old(self)@ }),
    {
        &mut self.state
    }

    /// What the hooks read.
    pub fn frame(&self) -> (frame: &Frame)
        ensures
            frame@ == self@.frame,
    {
        &self.frame
    }

    pub fn input(&self) -> (input: &Input)
        ensures
            input@ == self@.frame.input,
    {
        &self.frame.input
    }

    /// The pointer state, for the host to record events in. Nothing else
    /// changes.
    pub fn input_mut(&mut self) -> (input: &mut Input)
        ensures
            input@ == old(self)@.frame.input,
            final(self)@ == (AppView {
                frame: FrameView { input: final(input)@, ..old(self)@.frame },
                ..old(self)@
            }),
            final(self).spec_state() == old(self).spec_state(),
    {
        &mut self.frame.input
    }

    pub fn screen(&self) -> (screen: &Screen)
        ensures
            screen@ == self@.frame.screen,
    {
        &self.frame.screen
    }

    pub fn time(&self) -> (time: &Time)
        ensures
            time@ == self@.frame.time,
    {
        &self.frame.time
    }

    /// The live game objects, in the order in which they joined.
    pub fn game_objects(&self) -> (game_objects: &Vec<GameObject<C>>)
        ensures
            object_views(game_objects@) == self@.live,
    {
        &self.game_objects
    }

    /// Takes over a new screen size. The next tick runs the resize phase.
    /// Nothing else changes.
    pub fn set_screen_size(&mut self, size: (i32, i32))
        ensures
            final(self)@ == (AppView {
                resized: true,
                frame: FrameView { screen: (size.0 as int, size.1 as int), ..old(self)@.frame },
                ..old(self)@
            }),
            final(self).spec_state() == old(self).spec_state(),
    {
        self.frame.screen.set_size(size);
        self.resized = true;
    }

    /// Moves the queued game objects to the end of the live list, the one
    /// queued last first.
    fn drain(&mut self)
        ensures
            final(self)@ == (AppView {
                live: drained(old(self)@.live, old(self)@.pending),
                pending: Seq::empty(),
                ..old(self)@
            }),
            final(self).spec_world() == old(self).spec_world(),
    {
        while self.state.game_objects_to_be_added.len() > 0
            invariant
                self@.resized == old(self)@.resized,
                self@.frame == old(self)@.frame,
                self.spec_world() == old(self).spec_world(),
                drained(self@.live, self@.pending) == drained(old(self)@.live, old(self)@.pending),
            decreases self.state.game_objects_to_be_added.len(),
        {
            let ghost live = self@.live;
            let ghost pending = self@.pending;
            let game_object = self.state.game_objects_to_be_added.pop().unwrap();
            self.game_objects.push(game_object);
            proof {
                assert(self@.live =~= live.push(pending.last()));
                assert(self@.pending =~= pending.drop_last());
                assert(drained(self@.live, self@.pending) =~= drained(live, pending));
            }
        }
        assert(self@.pending =~= Seq::<Seq<HolderView>>::empty());
        assert(self@.live =~= drained(self@.live, self@.pending));
    }

    /// Runs `phase` over every live game object, in order, and appends the
    /// calls made to `calls`.
    fn run_phase(&mut self, phase: Phase, calls: &mut Vec<Call>)
        ensures
            final(self)@.live == objects_after_phase(phase, old(self)@.live),
            final(self)@.resized == old(self)@.resized,
            final(self)@.frame == old(self)@.frame,
            final(calls)@ == old(calls)@ + phase_calls(
                phase,
                old(self)@.live,
                old(self)@.live.len() as int,
            ),
    {
        let ghost before = self@.live;
        let n = self.game_objects.len();
        let mut g: usize = 0;
        assert(calls@ =~= old(calls)@ + phase_calls(phase, before, 0));
        while g < n
            invariant
                g <= n,
                n == self.game_objects.len(),
                before == old(self)@.live,
                before.len() == n,
                self@.live.len() == n,
                self@.resized == old(self)@.resized,
                self@.frame == old(self)@.frame,
                forall|k: int|
                    0 <= k < g ==> #[trigger] self@.live[k] == object_after_phase(phase, before[k]),
                forall|k: int| g <= k < n ==> #[trigger] self@.live[k] == before[k],
                calls@ == old(calls)@ + phase_calls(phase, before, g as int),
            decreases n - g,
        {
            let ghost live = self@.live;
            let ghost objects = self.game_objects@;
            self.game_objects[g].run(phase, g, &self.frame, &mut self.state, calls);
            proof {
                assert(objects[g as int]@ == live[g as int]);
                assert(live[g as int] == before[g as int]);
                assert(self.game_objects@.len() == n);
                assert(self.game_objects@[g as int]@ == object_after_phase(
                    phase,
                    before[g as int],
                ));
                assert forall|k: int| 0 <= k < n implies #[trigger] self@.live[k] == live.update(
                    g as int,
                    object_after_phase(phase, before[g as int]),
                )[k] by {
                    if k != g {
                        assert(self.game_objects@[k] == objects[k]);
                        assert(live[k] == objects[k]@);
                    }
                }
                assert(self@.live =~= live.update(
                    g as int,
                    object_after_phase(phase, before[g as int]),
                ));
                assert(calls@ =~= old(calls)@ + phase_calls(phase, before, g + 1));
            }
            g += 1;
        }
        assert(self@.live =~= objects_after_phase(phase, before));
    }

    /// One tick, at frame time `time`: the queued game objects join the live
    /// list, then the phases run, each over every live game object before
    /// the next begins, every hook reading the frame with `time` as its time.
    /// A game object that a hook queues waits for the next tick. Then the
    /// frame of the pointer ends. Hands back the calls made, in order.
    ///
    /// What the hooks leave in the queue and in the world is theirs to say.
    ///
    /// Nothing is caught: a hook that panics ends the tick where it stands,
    /// and the panic is the caller's.
    pub fn tick(&mut self, time: Time) -> (calls: Vec<Call>)
        ensures
            calls@ == tick_calls(drained(old(self)@.live, old(self)@.pending), old(self)@.resized),
            countable(drained(old(self)@.live, old(self)@.pending)),
            final(self)@.live == objects_after_phase(
                Phase::FirstUpdate,
                drained(old(self)@.live, old(self)@.pending),
            ),
            !final(self)@.resized,
            final(self)@.frame == (FrameView {
                input: frame_ended(old(self)@.frame.input),
                time: time@,
                ..old(self)@.frame
            }),
    {
        self.frame.time = time;
        self.drain();
        let ghost objects = self@.live;
        let ghost n = objects.len() as int;
        proof {
            assert(objects.len() == self.game_objects@.len());
            assert forall|g: int| 0 <= g < objects.len() implies (#[trigger] objects[g]).len()
                <= usize::MAX by {
                assert(objects[g].len() == self.game_objects@[g].components.len());
            }
            assert(objects.len() == self.game_objects.len());
            assert(countable(objects));
        }
        let mut calls: Vec<Call> = Vec::new();
        self.run_phase(Phase::FirstUpdate, &mut calls);
        let ghost updated = self@.live;
        proof {
            lemma_later_phases_keep(Phase::Resize, updated);
            lemma_later_phases_keep(Phase::Update, updated);
            lemma_later_phases_keep(Phase::PreRender, updated);
            lemma_later_phases_keep(Phase::Render, updated);
            lemma_later_phases_keep(Phase::LateUpdate, updated);
            lemma_first_update_hides_nothing(Phase::Resize, objects, n);
            lemma_first_update_hides_nothing(Phase::Update, objects, n);
            lemma_first_update_hides_nothing(Phase::PreRender, objects, n);
            lemma_first_update_hides_nothing(Phase::Render, objects, n);
            lemma_first_update_hides_nothing(Phase::LateUpdate, objects, n);
        }
        if self.resized {
            self.run_phase(Phase::Resize, &mut calls);
        }
        self.run_phase(Phase::Update, &mut calls);
        self.run_phase(Phase::PreRender, &mut calls);
        self.run_phase(Phase::Render, &mut calls);
        self.run_phase(Phase::LateUpdate, &mut calls);
        self.resized = false;
        self.frame.input.end_frame();
        proof {
            assert(calls@ =~= tick_calls(objects, old(self)@.resized));
        }
        calls
    }
}

/// A phase other than the first update leaves what is kept about the game
/// objects as it is.
pub proof fn lemma_later_phases_keep(phase: Phase, objects: Seq<Seq<HolderView>>)
    requires
        phase != Phase::FirstUpdate,
    ensures
        objects_after_phase(phase, objects) == objects,
{
    assert forall|g: int| 0 <= g < objects.len() implies #[trigger] objects_after_phase(
        phase,
        objects,
    )[g] == objects[g] by {
        assert(object_after_phase(phase, objects[g]) =~= objects[g]);
    }
    assert(objects_after_phase(phase, objects) =~= objects);
}

/// The calls of a phase other than the first update are the same before and
/// after the first updates.
pub proof fn lemma_first_update_hides_nothing(phase: Phase, objects: Seq<Seq<HolderView>>, m: int)
    requires
        phase != Phase::FirstUpdate,
        m <= objects.len(),
    ensures
        phase_calls(phase, objects_after_phase(Phase::FirstUpdate, objects), m) == phase_calls(
            phase,
            objects,
            m,
        ),
    decreases m,
{
    if m > 0 {
        lemma_first_update_hides_nothing(phase, objects, m - 1);
        lemma_object_calls_all(
            phase,
            m - 1,
            objects_after_phase(Phase::FirstUpdate, objects)[m - 1],
            objects[m - 1],
            objects[m - 1].len() as int,
        );
    }
}

/// The calls of a phase other than the first update depend only on the
/// number of components.
proof fn lemma_object_calls_all(
    phase: Phase,
    game_object: int,
    a: Seq<HolderView>,
    b: Seq<HolderView>,
    n: int,
)
    requires
        phase != Phase::FirstUpdate,
    ensures
        object_calls(phase, game_object, a, n) == object_calls(phase, game_object, b, n),
    decreases n,
{
    if n > 0 {
        lemma_object_calls_all(phase, game_object, a, b, n - 1);
    }
}

} // verus!
