//! A sparse cellular automaton on the plane of `i32` coordinates.
//!
//! Only the alive cells are stored. A cell survives a step with two or three
//! alive neighbours and a dead cell is born with exactly three; every count is
//! taken on the set as it was before the step. There is no wrap-around: the
//! plane ends where `i32` ends, and nothing lives or is born beyond it.
//!
//! Cells are kept in a `HashSet<u64>`; [`cell_key`] packs a cell into its key
//! and [`key_cell`] unpacks it, one to one.

use std::collections::HashSet;
use vstd::std_specs::iter::IteratorSpec;
use vstd::prelude::*;

verus! {

broadcast use vstd::std_specs::hash::group_hash_axioms;

/// Whether `c` is a cell of the plane.
pub open spec fn in_plane(c: (int, int)) -> bool {
    &&& i32::MIN <= c.0 <= i32::MAX
    &&& i32::MIN <= c.1 <= i32::MAX
}

/// The key under which the cell `c` of the plane is stored.
pub open spec fn key_of(c: (int, int)) -> int {
    (c.0 + 0x8000_0000) * 0x1_0000_0000 + (c.1 + 0x8000_0000)
}

/// The cell that is stored under `key`.
pub open spec fn cell_of(key: u64) -> (int, int) {
    (key as int / 0x1_0000_0000 - 0x8000_0000, key as int % 0x1_0000_0000 - 0x8000_0000)
}

/// The cells that a set of keys stands for.
pub open spec fn cells(keys: Set<u64>) -> Set<(int, int)> {
    Set::new(|c: (int, int)| in_plane(c) && keys.contains(key_of(c) as u64))
}

/// 1 if `c` is alive, else 0.
pub open spec fn alive_at(alive: Set<(int, int)>, c: (int, int)) -> int {
    if alive.contains(c) {
        1
    } else {
        0
    }
}

/// The number of alive cells among the eight cells around `c`.
pub open spec fn live_neighbours(alive: Set<(int, int)>, c: (int, int)) -> int {
    alive_at(alive, (c.0 - 1, c.1 - 1)) + alive_at(alive, (c.0 - 1, c.1)) + alive_at(
        alive,
        (c.0 - 1, c.1 + 1),
    ) + alive_at(alive, (c.0, c.1 - 1)) + alive_at(alive, (c.0, c.1 + 1)) + alive_at(
        alive,
        (c.0 + 1, c.1 - 1),
    ) + alive_at(alive, (c.0 + 1, c.1)) + alive_at(alive, (c.0 + 1, c.1 + 1))
}

/// Whether the cell `c` is alive after one step from `alive`.
pub open spec fn alive_next(alive: Set<(int, int)>, c: (int, int)) -> bool {
    let n = live_neighbours(alive, c);
    in_plane(c) && if alive.contains(c) {
        n == 2 || n == 3
    } else {
        n == 3
    }
}

/// The alive set after one step from `alive`.
pub open spec fn life_step(alive: Set<(int, int)>) -> Set<(int, int)> {
    Set::new(|c: (int, int)| alive_next(alive, c))
}

/// Whether the step has dealt with `c` once the alive cells in `done` have
/// been visited: an alive cell when it is visited itself, a dead one when one
/// of its neighbours is.
spec fn reached(alive: Set<(int, int)>, done: Set<(int, int)>, c: (int, int)) -> bool {
    if alive.contains(c) {
        done.contains(c)
    } else {
        live_neighbours(done, c) > 0
    }
}

/// Every cell of the plane has a key of its own, from which it is had back.
pub proof fn lemma_key_round_trip(c: (int, int))
    requires
        in_plane(c),
    ensures
        0 <= key_of(c) <= u64::MAX,
        cell_of(key_of(c) as u64) == c,
{
}

/// Every key is the key of one cell of the plane.
pub proof fn lemma_cell_round_trip(key: u64)
    ensures
        in_plane(cell_of(key)),
        key_of(cell_of(key)) == key,
{
}

/// Adding a key adds its cell and no other.
proof fn lemma_cells_insert(keys: Set<u64>, key: u64)
    ensures
        cells(keys.insert(key)) == cells(keys).insert(cell_of(key)),
{
    lemma_cell_round_trip(key);
    assert forall|c: (int, int)|
        cells(keys.insert(key)).contains(c) == cells(keys).insert(cell_of(key)).contains(c) by {
        if in_plane(c) {
            lemma_key_round_trip(c);
        }
    }
    assert(cells(keys.insert(key)) =~= cells(keys).insert(cell_of(key)));
}

/// The cells that a list of distinct keys stands for are as many as the
/// keys: no two keys stand for one cell.
pub proof fn lemma_cells_of_distinct_keys(keys: Seq<u64>)
    requires
        keys.no_duplicates(),
    ensures
        cells(keys.to_set()).finite(),
        cells(keys.to_set()).len() == keys.len(),
{
    let listed = keys.map_values(|key: u64| cell_of(key));
    assert forall|i: int, j: int| 0 <= i < listed.len() && 0 <= j < listed.len() && i != j implies listed[i]
        != listed[j] by {
        lemma_cell_round_trip(keys[i]);
        lemma_cell_round_trip(keys[j]);
    }
    assert forall|c: (int, int)| listed.to_set().contains(c) == cells(keys.to_set()).contains(c) by {
        if listed.to_set().contains(c) {
            let i = choose|i: int| 0 <= i < listed.len() && listed[i] == c;
            lemma_cell_round_trip(keys[i]);
            assert(keys.to_set().contains(keys[i]));
        }
        if cells(keys.to_set()).contains(c) {
            lemma_key_round_trip(c);
            let key = key_of(c) as u64;
            let i = choose|i: int| 0 <= i < keys.len() && keys[i] == key;
            assert(listed[i] == c);
        }
    }
    assert(listed.to_set() =~= cells(keys.to_set()));
    listed.unique_seq_to_set();
    vstd::seq_lib::seq_to_set_is_finite(listed);
}

/// The cells of a hash set are as many as its keys.
pub proof fn lemma_cells_of_hash_set(set: &HashSet<u64>)
    ensures
        cells(set@).finite(),
        cells(set@).len() == set@.len(),
{
    let keys = vstd::std_specs::hash::spec_hash_keys_iter(set).remaining();
    vstd::std_specs::hash::axiom_spec_hash_keys_iter(set);
    let plain = keys.unref();
    assert forall|i: int, j: int| 0 <= i < plain.len() && 0 <= j < plain.len() && i != j implies plain[i]
        != plain[j] by {
        assert(keys[i] != keys[j]);
    }
    lemma_cells_of_distinct_keys(plain);
}

/// The key of the cell `(x, y)`.
pub fn cell_key(x: i32, y: i32) -> (key: u64)
    ensures
        key == key_of((x as int, y as int)),
        cell_of(key) == (x as int, y as int),
{
    let hi: u64 = (x as i64 + 0x8000_0000i64) as u64;
    let lo: u64 = (y as i64 + 0x8000_0000i64) as u64;
    hi * 0x1_0000_0000u64 + lo
}

/// The cell of `key`.
pub fn key_cell(key: u64) -> (cell: (i32, i32))
    ensures
        (cell.0 as int, cell.1 as int) == cell_of(key),
{
    let x: i64 = (key / 0x1_0000_0000u64) as i64 - 0x8000_0000i64;
    let y: i64 = (key % 0x1_0000_0000u64) as i64 - 0x8000_0000i64;
    (x as i32, y as i32)
}

/// 1 if `(x, y)` is an alive cell of the plane, else 0.
fn count_at(alive_cells: &HashSet<u64>, x: i64, y: i64) -> (n: i32)
    ensures
        n == alive_at(cells(alive_cells@), (x as int, y as int)),
{
    if x < i32::MIN as i64 || x > i32::MAX as i64 || y < i32::MIN as i64 || y > i32::MAX as i64 {
        return 0;
    }
    let key = cell_key(x as i32, y as i32);
    if alive_cells.contains(&key) {
        1
    } else {
        0
    }
}

/// The number of alive cells around `(x, y)`.
fn count_around(alive_cells: &HashSet<u64>, x: i64, y: i64) -> (n: i32)
    requires
        i32::MIN - 1 <= x <= i32::MAX + 1,
        i32::MIN - 1 <= y <= i32::MAX + 1,
    ensures
        n == live_neighbours(cells(alive_cells@), (x as int, y as int)),
{
    count_at(alive_cells, x - 1, y - 1) + count_at(alive_cells, x - 1, y) + count_at(
        alive_cells,
        x - 1,
        y + 1,
    ) + count_at(alive_cells, x, y - 1) + count_at(alive_cells, x, y + 1) + count_at(
        alive_cells,
        x + 1,
        y - 1,
    ) + count_at(alive_cells, x + 1, y) + count_at(alive_cells, x + 1, y + 1)
}

/// The number of alive cells among the eight cells around `cell`.
pub fn get_num_neighbours(cell: &(i32, i32), alive_cells: &HashSet<u64>) -> (num_neighbours: i32)
    ensures
        num_neighbours == live_neighbours(cells(alive_cells@), (cell.0 as int, cell.1 as int)),
{
    count_around(alive_cells, cell.0 as i64, cell.1 as i64)
}

/// The keys of a set, each once, in the order in which the set hands them out.
fn keys_of(set: &HashSet<u64>) -> (keys: Vec<u64>)
    ensures
        keys@.to_set() == set@,
        keys@.no_duplicates(),
        keys@.len() == set@.len(),
{
    let mut keys: Vec<u64> = Vec::new();
    for key in it: set.iter()
        invariant
            keys@ =~= it.seq().take(it.index()).unref(),
            it.seq().unref().to_set() == set@,
            it.seq().no_duplicates(),
            it.seq().len() == set@.len(),
            it.index() == it.seq().len() ==> {
                &&& keys@.to_set() == set@
                &&& keys@.no_duplicates()
                &&& keys@.len() == set@.len()
            },
    {
        keys.push(*key);
        assert(it.index() + 1 == it.seq().len() ==> {
            &&& keys@.to_set() == set@
            &&& keys@.no_duplicates()
            &&& keys@.len() == set@.len()
        }) by {
            if it.index() + 1 == it.seq().len() {
                assert(it.seq().take(it.index() + 1) =~= it.seq());
                assert(keys@ =~= it.seq().unref());
                assert forall|i: int, j: int| 0 <= i < j < keys@.len() implies keys@[i]
                    != keys@[j] by {
                    assert(it.seq()[i] != it.seq()[j]);
                }
            }
        }
    }
    keys
}

/// Stages the dead cell `(x, y)` if it is born, and leaves `alive_cells_next`
/// as it is otherwise.
fn stage_birth(alive_cells: &HashSet<u64>, alive_cells_next: &mut HashSet<u64>, x: i64, y: i64)
    requires
        i32::MIN - 1 <= x <= i32::MAX + 1,
        i32::MIN - 1 <= y <= i32::MAX + 1,
    ensures
        cells(final(alive_cells_next)@) == if alive_next(cells(alive_cells@), (x as int, y as int))
            && !cells(alive_cells@).contains((x as int, y as int)) {
            cells(old(alive_cells_next)@).insert((x as int, y as int))
        } else {
            cells(old(alive_cells_next)@)
        },
{
    if x < i32::MIN as i64 || x > i32::MAX as i64 || y < i32::MIN as i64 || y > i32::MAX as i64 {
        return ;
    }
    let check_cell = cell_key(x as i32, y as i32);
    let is_dead = !alive_cells.contains(&check_cell);
    if is_dead && !alive_cells_next.contains(&check_cell) && count_around(alive_cells, x, y) == 3 {
        alive_cells_next.insert(check_cell);
        proof {
            lemma_cells_insert(old(alive_cells_next)@, check_cell);
        }
    } else if alive_cells_next.contains(&check_cell) {
        proof {
            lemma_key_round_trip((x as int, y as int));
            assert(cells(alive_cells_next@).insert((x as int, y as int)) =~= cells(
                alive_cells_next@,
            ));
        }
    }
}

/// Whether `c` is one of the eight cells around `c0`.
spec fn adjacent(c0: (int, int), c: (int, int)) -> bool {
    &&& c0.0 - 1 <= c.0 <= c0.0 + 1
    &&& c0.1 - 1 <= c.1 <= c0.1 + 1
    &&& c != c0
}

/// Whether visiting the alive cell `c0` stages `c`: `c0` itself if it
/// survives, a dead cell around it if it is born.
spec fn staged_by(alive: Set<(int, int)>, c0: (int, int), c: (int, int)) -> bool {
    alive_next(alive, c) && (c == c0 || (adjacent(c0, c) && !alive.contains(c)))
}

/// Visiting `c0` reaches `c0` and the dead cells around it, and nothing else.
proof fn lemma_reached_insert(
    alive: Set<(int, int)>,
    done: Set<(int, int)>,
    c0: (int, int),
    c: (int, int),
)
    requires
        alive.contains(c0),
    ensures
        reached(alive, done.insert(c0), c) <==> reached(alive, done, c) || c == c0 || (adjacent(
            c0,
            c,
        ) && !alive.contains(c)),
{
}

/// Visits the alive cell of `key`: stages it if it survives, and each dead
/// cell around it that is born.
fn visit(alive_cells: &HashSet<u64>, alive_cells_next: &mut HashSet<u64>, key: u64)
    requires
        alive_cells@.contains(key),
    ensures
        forall|c: (int, int)| #[trigger]
            cells(final(alive_cells_next)@).contains(c) <==> cells(old(alive_cells_next)@).contains(
                c,
            ) || staged_by(cells(alive_cells@), cell_of(key), c),
{
    let cell = key_cell(key);
    let x = cell.0 as i64;
    let y = cell.1 as i64;
    proof {
        lemma_cell_round_trip(key);
    }
    let num_neighbours = count_around(alive_cells, x, y);
    stage_birth(alive_cells, alive_cells_next, x - 1, y - 1);
    stage_birth(alive_cells, alive_cells_next, x - 1, y);
    stage_birth(alive_cells, alive_cells_next, x - 1, y + 1);
    stage_birth(alive_cells, alive_cells_next, x, y - 1);
    stage_birth(alive_cells, alive_cells_next, x, y + 1);
    stage_birth(alive_cells, alive_cells_next, x + 1, y - 1);
    stage_birth(alive_cells, alive_cells_next, x + 1, y);
    stage_birth(alive_cells, alive_cells_next, x + 1, y + 1);
    if num_neighbours == 2 || num_neighbours == 3 {
        let ghost staged = alive_cells_next@;
        alive_cells_next.insert(key);
        proof {
            lemma_cells_insert(staged, key);
        }
    }
}

/// One step of the automaton: clears `alive_cells_next` and fills it with the
/// cells that are alive after one step from `alive_cells`.
pub fn game_of_life_step(alive_cells: &HashSet<u64>, alive_cells_next: &mut HashSet<u64>)
    ensures
        cells(final(alive_cells_next)@) == life_step(cells(alive_cells@)),
{
    alive_cells_next.clear();
    let keys = keys_of(alive_cells);
    let ghost alive = cells(alive_cells@);
    let ghost mut done: Set<(int, int)> = Set::empty();
    let mut i: usize = 0;
    assert(cells(alive_cells_next@) =~= Set::<(int, int)>::empty());
    while i < keys.len()
        invariant
            i <= keys.len(),
            alive == cells(alive_cells@),
            keys@.to_set() == alive_cells@,
            forall|c: (int, int)| #[trigger]
                done.contains(c) <==> exists|k: int| 0 <= k < i && cell_of(#[trigger] keys@[k]) == c,
            forall|c: (int, int)| #[trigger]
                cells(alive_cells_next@).contains(c) <==> alive_next(alive, c) && reached(
                    alive,
                    done,
                    c,
                ),
        decreases keys.len() - i,
    {
        let key = keys[i];
        let ghost c0 = cell_of(key);
        let ghost before = cells(alive_cells_next@);
        proof {
            lemma_cell_round_trip(key);
            assert(keys@.to_set().contains(keys@[i as int]));
            assert(alive.contains(c0));
        }
        visit(alive_cells, alive_cells_next, key);
        proof {
            let done_next = done.insert(c0);
            assert forall|c: (int, int)| #[trigger]
                done_next.contains(c) <==> exists|k: int|
                    0 <= k < i + 1 && cell_of(#[trigger] keys@[k]) == c by {
                if done_next.contains(c) {
                    if c == c0 {
                        assert(cell_of(keys@[i as int]) == c);
                    } else {
                        let k = choose|k: int| 0 <= k < i && cell_of(#[trigger] keys@[k]) == c;
                        assert(0 <= k < i + 1 && cell_of(keys@[k]) == c);
                    }
                }
                if exists|k: int| 0 <= k < i + 1 && cell_of(#[trigger] keys@[k]) == c {
                    let k = choose|k: int| 0 <= k < i + 1 && cell_of(#[trigger] keys@[k]) == c;
                    if k < i {
                        assert(done.contains(c));
                    }
                }
            }
            assert forall|c: (int, int)| #[trigger]
                cells(alive_cells_next@).contains(c) <==> alive_next(alive, c) && reached(
                    alive,
                    done_next,
                    c,
                ) by {
                assert(before.contains(c) <==> alive_next(alive, c) && reached(alive, done, c));
                lemma_reached_insert(alive, done, c0, c);
            }
            done = done_next;
        }
        i += 1;
    }
    proof {
        assert forall|c: (int, int)| alive.contains(c) implies done.contains(c) by {
            lemma_key_round_trip(c);
            let key = key_of(c) as u64;
            assert(keys@.to_set().contains(key));
            let k = choose|k: int| 0 <= k < keys@.len() && keys@[k] == key;
            assert(cell_of(keys@[k]) == c);
        }
        assert forall|c: (int, int)| done.contains(c) implies alive.contains(c) by {
            let k = choose|k: int| 0 <= k < i && cell_of(#[trigger] keys@[k]) == c;
            assert(keys@.to_set().contains(keys@[k]));
            lemma_cell_round_trip(keys@[k]);
        }
        assert(done =~= alive);
        assert(cells(alive_cells_next@) =~= life_step(alive));
    }
}

/// The cursor after the first `n` characters of `pattern`: an `O` or a `.`
/// moves it one column to the right, a line feed moves it to the start of
/// the line below, any other character leaves it where it is.
pub open spec fn cursor(pattern: Seq<char>, n: int) -> (int, int)
    decreases n,
{
    if n <= 0 {
        (0, 0)
    } else {
        let before = cursor(pattern, n - 1);
        let c = pattern[n - 1];
        if c == '\n' {
            (0, before.1 - 1)
        } else if c == 'O' || c == '.' {
            (before.0 + 1, before.1)
        } else {
            before
        }
    }
}

/// The cell under the cursor when character `i` of `pattern` is read.
pub open spec fn cell_at(pattern: Seq<char>, offset: (int, int), i: int) -> (int, int) {
    (cursor(pattern, i).0 + offset.0, cursor(pattern, i).1 + offset.1)
}

/// Whether every `O` of `pattern` marks a cell of the plane.
pub open spec fn pattern_fits(pattern: Seq<char>, offset: (int, int)) -> bool {
    forall|i: int|
        0 <= i < pattern.len() && pattern[i] == 'O' ==> in_plane(
            #[trigger] cell_at(pattern, offset, i),
        )
}

/// The cells that the `O`s among the first `n` characters of `pattern` mark,
/// in reading order.
pub open spec fn marked_cells(pattern: Seq<char>, offset: (int, int), n: int) -> Seq<(int, int)>
    decreases n,
{
    if n <= 0 {
        Seq::empty()
    } else if pattern[n - 1] == 'O' {
        marked_cells(pattern, offset, n - 1).push(cell_at(pattern, offset, n - 1))
    } else {
        marked_cells(pattern, offset, n - 1)
    }
}

/// The cells that a sequence of keys stands for, in order.
pub open spec fn cells_of(keys: Seq<u64>) -> Seq<(int, int)> {
    keys.map_values(|key: u64| cell_of(key))
}

/// Why a pattern was refused.
#[derive(Clone, Copy, Debug, PartialEq, Eq, Structural)]
pub enum PatternError {
    /// An `O` of the pattern marks a cell beyond the `i32` plane.
    OutOfPlane,
}

/// Columns and rows are counted up to this bound; beyond it no cell can lie
/// in the plane, whatever the offset.
const CURSOR_BOUND: i64 = 0x2_0000_0000;

/// Reads a pattern: the keys of the cells that its `O`s mark, in reading
/// order, with the pattern's first character at `offset` and each further
/// line one row below. Refused if an `O` marks a cell beyond the plane.
pub fn parse_cells(pattern: &str, offset: (i32, i32)) -> (parsed: Result<Vec<u64>, PatternError>)
    ensures
        parsed is Ok <==> pattern_fits(pattern@, (offset.0 as int, offset.1 as int)),
        parsed matches Ok(keys) ==> cells_of(keys@) == marked_cells(
            pattern@,
            (offset.0 as int, offset.1 as int),
            pattern@.len() as int,
        ),
{
    let ghost off = (offset.0 as int, offset.1 as int);
    let mut keys: Vec<u64> = Vec::new();
    let mut x: i64 = 0;
    let mut y: i64 = 0;
    assert(cells_of(keys@) =~= marked_cells(pattern@, off, 0));
    for c in it: pattern.chars()
        invariant
            off == (offset.0 as int, offset.1 as int),
            it.seq() == pattern@,
            0 <= x <= CURSOR_BOUND,
            -CURSOR_BOUND <= y <= 0,
            x == if cursor(pattern@, it.index()).0 < CURSOR_BOUND {
                cursor(pattern@, it.index()).0
            } else {
                CURSOR_BOUND as int
            },
            y == if cursor(pattern@, it.index()).1 > -CURSOR_BOUND {
                cursor(pattern@, it.index()).1
            } else {
                -CURSOR_BOUND as int
            },
            cursor(pattern@, it.index()).0 >= 0,
            cursor(pattern@, it.index()).1 <= 0,
            cells_of(keys@) == marked_cells(pattern@, off, it.index()),
            forall|i: int|
                0 <= i < it.index() && pattern@[i] == 'O' ==> in_plane(
                    #[trigger] cell_at(pattern@, off, i),
                ),
            it.index() == it.seq().len() ==> {
                &&& pattern_fits(pattern@, off)
                &&& cells_of(keys@) == marked_cells(pattern@, off, pattern@.len() as int)
            },
    {
        let ghost i = it.index();
        assert(c == pattern@[i]);
        if c == 'O' {
            let cx = x + offset.0 as i64;
            let cy = y + offset.1 as i64;
            if cx < i32::MIN as i64 || cx > i32::MAX as i64 || cy < i32::MIN as i64 || cy
                > i32::MAX as i64 {
                assert(!in_plane(cell_at(pattern@, off, i)));
                return Err(PatternError::OutOfPlane);
            }
            let key = cell_key(cx as i32, cy as i32);
            let ghost before = keys@;
            keys.push(key);
            assert(cells_of(keys@) =~= cells_of(before).push(cell_of(key)));
        }
        if c == 'O' || c == '.' {
            if x < CURSOR_BOUND {
                x += 1;
            }
        }
        if c == '\n' {
            x = 0;
            if y > -CURSOR_BOUND {
                y -= 1;
            }
        }
    }
    Ok(keys)
}

/// The bytes of the vertex buffer that the alive cells are drawn from.
pub const BUFFER_SIZE: usize = 104_857_600;

/// The largest number of cells whose coordinates fit in the vertex buffer:
/// two 4-byte coordinates each.
pub open spec fn vertex_cells(alive: nat) -> nat {
    if alive <= BUFFER_SIZE / 8 {
        alive
    } else {
        (BUFFER_SIZE / 8) as nat
    }
}

/// The cell whose coordinates stand at `2 * j` and `2 * j + 1` in `vertices`.
pub open spec fn vertex_cell(vertices: Seq<i32>, j: int) -> (int, int) {
    (vertices[2 * j] as int, vertices[2 * j + 1] as int)
}

/// Whether `vertices` lists the coordinates of `n` cells of `alive`, no cell
/// twice.
pub open spec fn lists_cells(vertices: Seq<i32>, alive: Set<(int, int)>, n: nat) -> bool {
    &&& vertices.len() == 2 * n
    &&& forall|j: int| 0 <= j < n ==> alive.contains(#[trigger] vertex_cell(vertices, j))
    &&& forall|j: int, k: int|
        0 <= j < k < n ==> #[trigger] vertex_cell(vertices, j) != #[trigger] vertex_cell(vertices, k)
}

/// Whether every cell of `alive` is listed in `vertices`.
pub open spec fn lists_all(vertices: Seq<i32>, alive: Set<(int, int)>) -> bool {
    forall|c: (int, int)|
        alive.contains(c) ==> exists|j: int|
            0 <= 2 * j < vertices.len() && #[trigger] vertex_cell(vertices, j) == c
}

/// Whether `vertices` is a vertex list for `alive`: it lists as many of the
/// alive cells as the vertex buffer takes, none twice; all of them, if all
/// fit.
pub open spec fn is_vertex_list(vertices: Seq<i32>, alive: Set<(int, int)>) -> bool {
    &&& lists_cells(vertices, alive, vertex_cells(alive.len()))
    &&& vertices.len() * 4 <= BUFFER_SIZE
    &&& alive.len() <= BUFFER_SIZE / 8 ==> lists_all(vertices, alive)
}

/// The coordinates of the alive cells, as many as fit in the vertex buffer, in
/// the order in which the set hands them out.
pub fn vertex_list(alive_cells: &HashSet<u64>, vertices: &mut Vec<i32>)
    ensures
        is_vertex_list(final(vertices)@, cells(alive_cells@)),
{
    vertices.clear();
    let keys = keys_of(alive_cells);
    let mut i: usize = 0;
    while i < keys.len() && (vertices.len() + 2) * 4 <= BUFFER_SIZE
        invariant
            i <= keys.len(),
            keys@.len() == alive_cells@.len(),
            keys@.to_set() == alive_cells@,
            keys@.no_duplicates(),
            vertices@.len() == 2 * i,
            i <= BUFFER_SIZE / 8,
            forall|j: int| 0 <= j < i ==> #[trigger] vertex_cell(vertices@, j) == cell_of(keys@[j]),
        decreases keys.len() - i,
    {
        let cell = key_cell(keys[i]);
        let ghost before = vertices@;
        vertices.push(cell.0);
        vertices.push(cell.1);
        assert forall|j: int| 0 <= j < i + 1 implies #[trigger] vertex_cell(vertices@, j)
            == cell_of(keys@[j]) by {
            if j < i {
                assert(vertex_cell(before, j) == cell_of(keys@[j]));
            }
        }
        i += 1;
    }
    proof {
        let alive = cells(alive_cells@);
        lemma_cells_of_hash_set(alive_cells);
        assert(i == vertex_cells(alive.len()));
        if alive.len() <= BUFFER_SIZE / 8 {
            assert(i == keys@.len());
            assert forall|c: (int, int)| alive.contains(c) implies exists|j: int|
                0 <= 2 * j < vertices@.len() && #[trigger] vertex_cell(vertices@, j) == c by {
                lemma_key_round_trip(c);
                let key = key_of(c) as u64;
                assert(keys@.to_set().contains(key));
                let j = choose|j: int| 0 <= j < keys@.len() && keys@[j] == key;
                assert(vertex_cell(vertices@, j) == cell_of(keys@[j]));
            }
        }
        assert forall|j: int| 0 <= j < i implies alive.contains(
            #[trigger] vertex_cell(vertices@, j),
        ) by {
            assert(keys@.to_set().contains(keys@[j]));
            lemma_cell_round_trip(keys@[j]);
        }
        assert forall|j: int, k: int| 0 <= j < k < i implies #[trigger] vertex_cell(vertices@, j)
            != #[trigger] vertex_cell(vertices@, k) by {
            lemma_cell_round_trip(keys@[j]);
            lemma_cell_round_trip(keys@[k]);
        }
    }
}

/// The automaton with its start pattern, its two cell sets and the vertex
/// list that is drawn.
pub struct GameOfLife {
    start_cells: &'static str,
    start_cells_offset: (i32, i32),
    vertices: Vec<i32>,
    alive_cells: HashSet<u64>,
    alive_cells_next: HashSet<u64>,
}

impl GameOfLife {
    /// The alive cells.
    pub closed spec fn alive(&self) -> Set<(int, int)> {
        cells(self.alive_cells@)
    }

    /// The number of alive cells.
    pub open spec fn population(&self) -> nat {
        self.alive().len()
    }

    /// The vertex list as it was last built.
    pub closed spec fn spec_vertices(&self) -> Seq<i32> {
        self.vertices@
    }

    /// The start pattern and the cell of its first character.
    pub closed spec fn start(&self) -> (Seq<char>, (int, int)) {
        (
            self.start_cells@,
            (self.start_cells_offset.0 as int, self.start_cells_offset.1 as int),
        )
    }

    /// An automaton with no alive cell, which [`GameOfLife::seed`] fills from
    /// `start_cells`.
    pub fn new(start_cells: &'static str, start_cells_offset: (i32, i32)) -> (life: Self)
        ensures
            life.alive() == Set::<(int, int)>::empty(),
            life.population() == 0,
            life.spec_vertices() == Seq::<i32>::empty(),
            life.start() == (
                start_cells@,
                (start_cells_offset.0 as int, start_cells_offset.1 as int),
            ),
    {
        let life = Self {
            start_cells,
            start_cells_offset,
            vertices: Vec::new(),
            alive_cells: HashSet::new(),
            alive_cells_next: HashSet::new(),
        };
        assert(cells(life.alive_cells@) =~= Set::<(int, int)>::empty());
        life
    }

    /// The alive cells are finitely many.
    pub proof fn lemma_alive_finite(&self)
        ensures
            self.alive().finite(),
    {
        lemma_cells_of_hash_set(&self.alive_cells);
    }

    /// Makes the cells of the start pattern alive. A pattern that reaches
    /// beyond the plane is refused and changes nothing.
    pub fn seed(&mut self) -> (seeded: Result<(), PatternError>)
        ensures
            seeded is Ok <==> pattern_fits(old(self).start().0, old(self).start().1),
            seeded is Ok ==> final(self).alive() == old(self).alive().union(
                marked_cells(
                    old(self).start().0,
                    old(self).start().1,
                    old(self).start().0.len() as int,
                ).to_set(),
            ),
            seeded is Err ==> final(self).alive() == old(self).alive(),
            final(self).start() == old(self).start(),
            final(self).spec_vertices() == old(self).spec_vertices(),
    {
        let keys = match parse_cells(self.start_cells, self.start_cells_offset) {
            Ok(keys) => keys,
            Err(e) => {
                return Err(e);
            },
        };
        let ghost marked = cells_of(keys@);
        let mut i: usize = 0;
        assert(self.alive() =~= old(self).alive().union(marked.take(0).to_set()));
        while i < keys.len()
            invariant
                i <= keys.len(),
                marked == cells_of(keys@),
                self.start() == old(self).start(),
                self.spec_vertices() == old(self).spec_vertices(),
                self.alive() == old(self).alive().union(marked.take(i as int).to_set()),
            decreases keys.len() - i,
        {
            let ghost before = self.alive_cells@;
            self.alive_cells.insert(keys[i]);
            proof {
                lemma_cells_insert(before, keys@[i as int]);
                assert(marked.take(i + 1) =~= marked.take(i as int).push(marked[i as int]));
                marked.take(i as int).lemma_push_to_set_commute(marked[i as int]);
                assert(self.alive() =~= old(self).alive().union(marked.take(i + 1).to_set()));
            }
            i += 1;
        }
        assert(marked.take(keys@.len() as int) =~= marked);
        Ok(())
    }

    /// Makes the cell `(x, y)` alive.
    pub fn insert(&mut self, x: i32, y: i32)
        ensures
            final(self).alive() == old(self).alive().insert((x as int, y as int)),
            final(self).start() == old(self).start(),
            final(self).spec_vertices() == old(self).spec_vertices(),
    {
        let key = cell_key(x, y);
        let ghost before = self.alive_cells@;
        self.alive_cells.insert(key);
        proof {
            lemma_cells_insert(before, key);
        }
    }

    /// Whether the cell `(x, y)` is alive.
    pub fn is_alive(&self, x: i32, y: i32) -> (alive: bool)
        ensures
            alive == self.alive().contains((x as int, y as int)),
    {
        let key = cell_key(x, y);
        self.alive_cells.contains(&key)
    }

    /// The number of alive cells.
    pub fn alive_count(&self) -> (count: usize)
        ensures
            count == self.population(),
            self.alive().finite(),
    {
        proof {
            lemma_cells_of_hash_set(&self.alive_cells);
        }
        self.alive_cells.len()
    }

    /// The vertex list as [`GameOfLife::update`] last built it.
    pub fn vertices(&self) -> (vertices: &Vec<i32>)
        ensures
            vertices@ == self.spec_vertices(),
    {
        &self.vertices
    }

    /// One step of the automaton. The set that held the cells before the
    /// step becomes the scratch set of the next step.
    pub fn step(&mut self)
        ensures
            final(self).alive() == life_step(old(self).alive()),
            final(self).start() == old(self).start(),
            final(self).spec_vertices() == old(self).spec_vertices(),
    {
        game_of_life_step(&self.alive_cells, &mut self.alive_cells_next);
        std::mem::swap(&mut self.alive_cells, &mut self.alive_cells_next);
    }

    /// One step of the automaton, after which the vertex list is built anew
    /// from the alive cells: it lists every alive cell once, or as many as
    /// the vertex buffer takes.
    pub fn update(&mut self)
        ensures
            final(self).alive() == life_step(old(self).alive()),
            final(self).start() == old(self).start(),
            final(self).alive().finite(),
            is_vertex_list(final(self).spec_vertices(), final(self).alive()),
    {
        self.step();
        vertex_list(&self.alive_cells, &mut self.vertices);
        proof {
            lemma_cells_of_hash_set(&self.alive_cells);
        }
    }
}


} // verus!
