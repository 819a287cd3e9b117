use vstd::prelude::*;
use vstd::arithmetic::div_mod::{lemma_mod_add_multiples_vanish, lemma_mod_self_0, lemma_small_mod};
use vstd::set_lib::lemma_len_subset;
use rand::rngs::StdRng;
use crate::cell::{fresh_cell, Cell, CellType};
use crate::grid::{is_rect, GenError};
use crate::noise::{below_unit, perlin_noise, perlin_value, white_noise, UNIT};
use crate::random::draw_below;

verus! {

/// The kind of the cell at `(x, y)`.
pub open spec fn kind(m: Seq<Vec<Cell>>, x: int, y: int) -> CellType {
    m[x]@[y].cell_type
}

/// One if the cell at `(x, y)` is vegetated, else zero.
pub open spec fn veg(m: Seq<Vec<Cell>>, x: int, y: int) -> int {
    if kind(m, x, y) == CellType::Grass {
        1
    } else {
        0
    }
}

/// Coordinate `c` moved by `d` on an axis of length `n` joined end to end.
pub open spec fn wrap(c: int, d: int, n: int) -> int {
    (c + d) % n
}

/// The number of vegetated cells among the eight around `(x, y)`, with both
/// axes wrapping around.
pub open spec fn neighbour_count(m: Seq<Vec<Cell>>, x: int, y: int) -> int {
    let w = m.len() as int;
    let h = m[0]@.len() as int;
    let (xl, xr) = (wrap(x, -1, w), wrap(x, 1, w));
    let (yu, yd) = (wrap(y, -1, h), wrap(y, 1, h));
    veg(m, xl, yu) + veg(m, x, yu) + veg(m, xr, yu) + veg(m, xl, y) + veg(m, xr, y) + veg(m, xl, yd)
        + veg(m, x, yd) + veg(m, xr, yd)
}

/// Whether a cell of kind `t` with `count` vegetated neighbours is
/// vegetated after one smoothing pass.
pub open spec fn becomes_vegetated(t: CellType, count: int) -> bool {
    if t == CellType::Grass {
        count >= 4
    } else {
        count >= 5
    }
}

/// The kind of the cell at `(x, y)` after one smoothing pass over `m`.
pub open spec fn smoothed_kind(m: Seq<Vec<Cell>>, x: int, y: int) -> CellType {
    if becomes_vegetated(kind(m, x, y), neighbour_count(m, x, y)) {
        CellType::Grass
    } else {
        CellType::Water
    }
}

/// `new` has the shape of `old` and every cell keeps its intensity.
pub open spec fn same_values(old: Seq<Vec<Cell>>, new: Seq<Vec<Cell>>, w: int, h: int) -> bool {
    &&& is_rect(new, w, h)
    &&& forall|x: int, y: int|
        0 <= x < w && 0 <= y < h ==> #[trigger] new[x]@[y].value == old[x]@[y].value
}

/// Overwrites the cell at `(x, y)` and leaves every other cell as it was.
fn set_cell(map: &mut Vec<Vec<Cell>>, x: usize, y: usize, c: Cell)
    requires
        x < old(map)@.len(),
        y < old(map)@[x as int]@.len(),
    ensures
        final(map)@.len() == old(map)@.len(),
        forall|i: int|
            0 <= i < old(map)@.len() ==> #[trigger] final(map)@[i]@.len() == old(map)@[i]@.len(),
        forall|i: int, j: int|
            0 <= i < old(map)@.len() && 0 <= j < old(map)@[i]@.len() ==> #[trigger] final(map)@[i]@[j] == if i == x
                && j == y {
                c
            } else {
                old(map)@[i]@[j]
            },
{
    map[x][y] = c;
}

/// The coordinate before `c` on an axis of length `n`, wrapping around.
fn wrap_prev(c: usize, n: usize) -> (r: usize)
    requires
        c < n,
    ensures
        r == wrap(c as int, -1, n as int),
        r < n,
{
    proof {
        if c == 0 {
            lemma_mod_add_multiples_vanish(-1, n as int);
            lemma_small_mod((n - 1) as nat, n as nat);
        } else {
            lemma_small_mod((c - 1) as nat, n as nat);
        }
    }
    if c == 0 {
        n - 1
    } else {
        c - 1
    }
}

/// The coordinate after `c` on an axis of length `n`, wrapping around.
fn wrap_next(c: usize, n: usize) -> (r: usize)
    requires
        c < n,
    ensures
        r == wrap(c as int, 1, n as int),
        r < n,
{
    proof {
        if c + 1 == n {
            lemma_mod_self_0(n as int);
        } else {
            lemma_small_mod((c + 1) as nat, n as nat);
        }
    }
    if c + 1 == n {
        0
    } else {
        c + 1
    }
}

/// One if the cell at `(x, y)` is vegetated, else zero.
fn veg_at(map: &Vec<Vec<Cell>>, x: usize, y: usize) -> (r: u32)
    requires
        x < map@.len(),
        y < map@[x as int]@.len(),
    ensures
        r == veg(map@, x as int, y as int),
{
    if map[x][y].cell_type == CellType::Grass {
        1
    } else {
        0
    }
}

/// Counts the vegetated cells among the eight around `(xpos, ypos)`, with
/// both axes wrapping around.
pub fn calculate_neighbours(map: &Vec<Vec<Cell>>, xpos: usize, ypos: usize) -> (r: u32)
    requires
        map@.len() >= 1,
        is_rect(map@, map@.len() as int, map@[0]@.len() as int),
        xpos < map@.len(),
        ypos < map@[0]@.len(),
    ensures
        r == neighbour_count(map@, xpos as int, ypos as int),
        r <= 8,
{
    let width = map.len();
    let height = map[0].len();
    let xl = wrap_prev(xpos, width);
    let xr = wrap_next(xpos, width);
    let yu = wrap_prev(ypos, height);
    let yd = wrap_next(ypos, height);
    veg_at(map, xl, yu) + veg_at(map, xpos, yu) + veg_at(map, xr, yu) + veg_at(map, xl, ypos)
        + veg_at(map, xr, ypos) + veg_at(map, xl, yd) + veg_at(map, xpos, yd) + veg_at(map, xr, yd)
}

/// Whether the cell at `(x, y)` is vegetated after one smoothing pass.
pub fn smooth_logic(map: &Vec<Vec<Cell>>, x: usize, y: usize) -> (r: bool)
    requires
        map@.len() >= 1,
        is_rect(map@, map@.len() as int, map@[0]@.len() as int),
        x < map@.len(),
        y < map@[0]@.len(),
    ensures
        r == becomes_vegetated(kind(map@, x as int, y as int), neighbour_count(map@, x as int, y as int)),
{
    let count = calculate_neighbours(map, x, y);
    match map[x][y].cell_type {
        CellType::Grass => count >= 4,
        _ => count >= 5,
    }
}

/// One synchronous smoothing pass: every cell is decided from the grid as
/// it stood before the pass and becomes either vegetated or liquid.
pub fn smooth_map(map: &mut Vec<Vec<Cell>>)
    requires
        old(map)@.len() >= 1,
        old(map)@[0]@.len() >= 1,
        is_rect(old(map)@, old(map)@.len() as int, old(map)@[0]@.len() as int),
    ensures
        same_values(old(map)@, final(map)@, old(map)@.len() as int, old(map)@[0]@.len() as int),
        forall|x: int, y: int|
            0 <= x < old(map)@.len() && 0 <= y < old(map)@[0]@.len() ==> #[trigger] kind(final(map)@, x, y) == smoothed_kind(old(map)@, x, y),
        forall|x: int, y: int|
            0 <= x < old(map)@.len() && 0 <= y < old(map)@[0]@.len() ==> (#[trigger] kind(final(map)@, x, y) == CellType::Grass || kind(final(map)@, x, y) == CellType::Water),
{
    let width = map.len();
    let height = map[0].len();
    let mut out: Vec<Vec<Cell>> = Vec::new();
    let mut x: usize = 0;
    while x < width
        invariant
            width == map@.len(),
            height == map@[0]@.len(),
            width >= 1,
            is_rect(map@, width as int, height as int),
            x <= width,
            is_rect(out@, x as int, height as int),
            forall|i: int, j: int|
                0 <= i < x && 0 <= j < height ==> #[trigger] out@[i]@[j] == (Cell {
                    cell_type: smoothed_kind(map@, i, j),
                    value: map@[i]@[j].value,
                }),
        decreases width - x,
    {
        let mut row: Vec<Cell> = Vec::new();
        let mut y: usize = 0;
        while y < height
            invariant
                width == map@.len(),
                height == map@[0]@.len(),
                width >= 1,
                is_rect(map@, width as int, height as int),
                x < width,
                y <= height,
                row@.len() == y,
                forall|j: int|
                    0 <= j < y ==> #[trigger] row@[j] == (Cell {
                        cell_type: smoothed_kind(map@, x as int, j),
                        value: map@[x as int]@[j].value,
                    }),
            decreases height - y,
        {
            let t = if smooth_logic(map, x, y) {
                CellType::Grass
            } else {
                CellType::Water
            };
            row.push(Cell { cell_type: t, value: map[x][y].value });
            y = y + 1;
        }
        out.push(row);
        x = x + 1;
    }
    *map = out;
}

/// In a three by three grid joined end to end, the eight neighbours of a
/// cell are exactly the other eight cells: the count reaches across both
/// edges instead of treating cells beyond them as missing.
pub proof fn torus_neighbours_are_the_other_cells(m: Seq<Vec<Cell>>, x: int, y: int)
    requires
        is_rect(m, 3, 3),
        0 <= x < 3,
        0 <= y < 3,
    ensures
        neighbour_count(m, x, y) == veg(m, 0, 0) + veg(m, 0, 1) + veg(m, 0, 2) + veg(m, 1, 0) + veg(
            m,
            1,
            1,
        ) + veg(m, 1, 2) + veg(m, 2, 0) + veg(m, 2, 1) + veg(m, 2, 2) - veg(m, x, y),
{
    assert(m[0]@.len() == 3);
    assert(wrap(0, -1, 3) == 2);
    assert(wrap(0, 1, 3) == 1);
    assert(wrap(1, -1, 3) == 0);
    assert(wrap(1, 1, 3) == 2);
    assert(wrap(2, -1, 3) == 1);
    assert(wrap(2, 1, 3) == 0);
}

/// `c` with its kind replaced by `t`.
pub open spec fn with_kind(c: Cell, t: CellType) -> Cell {
    Cell { cell_type: t, value: c.value }
}

/// The cell `c` after painting with noise value `v`: it takes kind `target`
/// when `v` lies strictly below `threshold`.
pub open spec fn painted(c: Cell, v: u32, threshold: u32, target: CellType) -> Cell {
    if v < threshold {
        with_kind(c, target)
    } else {
        c
    }
}

/// Whether `(x, y)` lies on the outermost ring of a `w` by `h` grid.
pub open spec fn on_border(x: int, y: int, w: int, h: int) -> bool {
    x == 0 || y == 0 || x == w - 1 || y == h - 1
}

/// The number of random draws the scatter stage makes: one per hundred
/// cells, rounded down.
pub open spec fn scatter_quota(w: int, h: int) -> int {
    w * h / 100
}

/// The cells of a `w` by `h` grid whose kind differs between `old` and `new`.
pub open spec fn changed_cells(old: Seq<Vec<Cell>>, new: Seq<Vec<Cell>>, w: int, h: int) -> Set<
    (int, int),
> {
    Set::new(|p: (int, int)| 0 <= p.0 < w && 0 <= p.1 < h && kind(old, p.0, p.1) != kind(new, p.0, p.1))
}

/// The wood cells of a `w` by `h` grid.
pub open spec fn wood_cells(m: Seq<Vec<Cell>>, w: int, h: int) -> Set<(int, int)> {
    Set::new(|p: (int, int)| 0 <= p.0 < w && 0 <= p.1 < h && kind(m, p.0, p.1) == CellType::Wood)
}

/// Resets every cell to liquid at the default intensity.
pub fn generate_water(map: &mut Vec<Vec<Cell>>)
    requires
        old(map)@.len() >= 1,
        is_rect(old(map)@, old(map)@.len() as int, old(map)@[0]@.len() as int),
    ensures
        is_rect(final(map)@, old(map)@.len() as int, old(map)@[0]@.len() as int),
        forall|x: int, y: int|
            0 <= x < old(map)@.len() && 0 <= y < old(map)@[0]@.len() ==> #[trigger] final(map)@[x]@[y]
                == fresh_cell(CellType::Water),
{
    let width = map.len();
    let height = map[0].len();
    let ghost orig = map@;
    let mut x: usize = 0;
    while x < width
        invariant
            width == orig.len(),
            height == orig[0]@.len(),
            width >= 1,
            is_rect(orig, width as int, height as int),
            is_rect(map@, width as int, height as int),
            x <= width,
            forall|i: int, j: int|
                0 <= i < width && 0 <= j < height ==> #[trigger] map@[i]@[j] == if i < x {
                    fresh_cell(CellType::Water)
                } else {
                    orig[i]@[j]
                },
        decreases width - x,
    {
        let mut y: usize = 0;
        while y < height
            invariant
                width == orig.len(),
                height == orig[0]@.len(),
                width >= 1,
                is_rect(map@, width as int, height as int),
                x < width,
                y <= height,
                forall|i: int, j: int|
                    0 <= i < width && 0 <= j < height ==> #[trigger] map@[i]@[j] == if i < x || (i
                        == x && j < y) {
                        fresh_cell(CellType::Water)
                    } else {
                        orig[i]@[j]
                    },
            decreases height - y,
        {
            set_cell(map, x, y, Cell::new(CellType::Water));
            y = y + 1;
        }
        x = x + 1;
    }
}

/// Gives kind `target` to every cell whose noise value lies strictly below
/// `threshold`, and leaves the others as they were.
pub fn paint_by_threshold(
    map: &mut Vec<Vec<Cell>>,
    noise: &Vec<Vec<u32>>,
    threshold: u32,
    target: CellType,
)
    requires
        old(map)@.len() >= 1,
        is_rect(old(map)@, old(map)@.len() as int, old(map)@[0]@.len() as int),
        is_rect(noise@, old(map)@.len() as int, old(map)@[0]@.len() as int),
    ensures
        is_rect(final(map)@, old(map)@.len() as int, old(map)@[0]@.len() as int),
        forall|x: int, y: int|
            0 <= x < old(map)@.len() && 0 <= y < old(map)@[0]@.len() ==> #[trigger] final(map)@[x]@[y]
                == painted(old(map)@[x]@[y], noise@[x]@[y], threshold, target),
        threshold == 0 ==> forall|x: int, y: int|
            0 <= x < old(map)@.len() && 0 <= y < old(map)@[0]@.len() ==> #[trigger] final(map)@[x]@[y]
                == old(map)@[x]@[y],
        (threshold == UNIT && forall|x: int, y: int|
            0 <= x < old(map)@.len() && 0 <= y < old(map)@[0]@.len() ==> #[trigger] noise@[x]@[y]
                < UNIT) ==> forall|x: int, y: int|
            0 <= x < old(map)@.len() && 0 <= y < old(map)@[0]@.len() ==> #[trigger] kind(
                final(map)@,
                x,
                y,
            ) == target,
{
    let width = map.len();
    let height = map[0].len();
    let ghost orig = map@;
    let mut x: usize = 0;
    while x < width
        invariant
            width == orig.len(),
            height == orig[0]@.len(),
            width >= 1,
            is_rect(orig, width as int, height as int),
            is_rect(noise@, width as int, height as int),
            is_rect(map@, width as int, height as int),
            x <= width,
            forall|i: int, j: int|
                0 <= i < width && 0 <= j < height ==> #[trigger] map@[i]@[j] == if i < x {
                    painted(orig[i]@[j], noise@[i]@[j], threshold, target)
                } else {
                    orig[i]@[j]
                },
        decreases width - x,
    {
        let mut y: usize = 0;
        while y < height
            invariant
                width == orig.len(),
                height == orig[0]@.len(),
                width >= 1,
                is_rect(noise@, width as int, height as int),
                is_rect(map@, width as int, height as int),
                x < width,
                y <= height,
                forall|i: int, j: int|
                    0 <= i < width && 0 <= j < height ==> #[trigger] map@[i]@[j] == if i < x || (i
                        == x && j < y) {
                        painted(orig[i]@[j], noise@[i]@[j], threshold, target)
                    } else {
                        orig[i]@[j]
                    },
            decreases height - y,
        {
            if noise[x][y] < threshold {
                let c = Cell { cell_type: target, value: map[x][y].value };
                set_cell(map, x, y, c);
            }
            y = y + 1;
        }
        x = x + 1;
    }
}

/// Paints kind `convert_into` where the eight-octave composition of `base`
/// lies below `threshold` (a fraction of `UNIT`).
pub fn paint_features(
    map: &mut Vec<Vec<Cell>>,
    base: &Vec<Vec<u32>>,
    threshold: u32,
    convert_into: CellType,
)
    requires
        old(map)@.len() >= 1,
        old(map)@[0]@.len() >= 1,
        is_rect(old(map)@, old(map)@.len() as int, old(map)@[0]@.len() as int),
        is_rect(base@, old(map)@.len() as int, old(map)@[0]@.len() as int),
    ensures
        is_rect(final(map)@, old(map)@.len() as int, old(map)@[0]@.len() as int),
        forall|x: int, y: int|
            0 <= x < old(map)@.len() && 0 <= y < old(map)@[0]@.len() ==> #[trigger] final(map)@[x]@[y]
                == painted(
                old(map)@[x]@[y],
                perlin_value(base@, 8, x, y) as u32,
                threshold,
                convert_into,
            ),
        (threshold >= UNIT && below_unit(base@)) ==> forall|x: int, y: int|
            0 <= x < old(map)@.len() && 0 <= y < old(map)@[0]@.len() ==> #[trigger] kind(
                final(map)@,
                x,
                y,
            ) == convert_into,
{
    match perlin_noise(base, 8) {
        Ok(field) => {
            proof {
                if below_unit(base@) {
                    assert forall|x: int, y: int|
                        0 <= x < map@.len() && 0 <= y < map@[0]@.len() implies #[trigger] field@[x]@[y]
                        < UNIT by {
                        assert(field@[x]@.len() == map@[0]@.len());
                    }
                }
            }
            paint_by_threshold(map, &field, threshold, convert_into);
        },
        Err(_) => {},
    }
}

/// Paints kind `convert_into` where a fresh eight-octave noise field drawn
/// from `rng` lies below `threshold` (a fraction of `UNIT`).
pub fn generate_features(
    map: &mut Vec<Vec<Cell>>,
    threshold: u32,
    convert_into: CellType,
    rng: &mut StdRng,
)
    requires
        old(map)@.len() >= 1,
        old(map)@[0]@.len() >= 1,
        is_rect(old(map)@, old(map)@.len() as int, old(map)@[0]@.len() as int),
    ensures
        same_values(old(map)@, final(map)@, old(map)@.len() as int, old(map)@[0]@.len() as int),
        forall|x: int, y: int|
            0 <= x < old(map)@.len() && 0 <= y < old(map)@[0]@.len() ==> (#[trigger] kind(
                final(map)@,
                x,
                y,
            ) == kind(old(map)@, x, y) || kind(final(map)@, x, y) == convert_into),
        threshold >= UNIT ==> forall|x: int, y: int|
            0 <= x < old(map)@.len() && 0 <= y < old(map)@[0]@.len() ==> #[trigger] kind(
                final(map)@,
                x,
                y,
            ) == convert_into,
{
    let width = map.len();
    let height = map[0].len();
    let base = white_noise(width, height, rng);
    proof {
        assert forall|x: int, y: int| 0 <= x < base@.len() && 0 <= y < base@[x]@.len() implies #[trigger] base@[x]@[y]
            < UNIT by {
            assert(base@[x]@.len() == height);
        }
    }
    paint_features(map, &base, threshold, convert_into);
}

/// Sets every cell on the outermost ring to the wall kind and leaves the
/// interior as it was.
pub fn generate_walls(map: &mut Vec<Vec<Cell>>)
    requires
        old(map)@.len() >= 1,
        old(map)@[0]@.len() >= 1,
        is_rect(old(map)@, old(map)@.len() as int, old(map)@[0]@.len() as int),
    ensures
        is_rect(final(map)@, old(map)@.len() as int, old(map)@[0]@.len() as int),
        forall|x: int, y: int|
            0 <= x < old(map)@.len() && 0 <= y < old(map)@[0]@.len() ==> #[trigger] final(map)@[x]@[y]
                == if on_border(x, y, old(map)@.len() as int, old(map)@[0]@.len() as int) {
                with_kind(old(map)@[x]@[y], CellType::Structure)
            } else {
                old(map)@[x]@[y]
            },
{
    let width = map.len();
    let height = map[0].len();
    let ghost orig = map@;
    let mut i: usize = 0;
    while i < width
        invariant
            width == orig.len(),
            height == orig[0]@.len(),
            width >= 1,
            height >= 1,
            is_rect(map@, width as int, height as int),
            i <= width,
            forall|x: int, y: int|
                0 <= x < width && 0 <= y < height ==> #[trigger] map@[x]@[y] == if x < i && (y == 0
                    || y == height - 1) {
                    with_kind(orig[x]@[y], CellType::Structure)
                } else {
                    orig[x]@[y]
                },
        decreases width - i,
    {
        let c = Cell { cell_type: CellType::Structure, value: map[i][0].value };
        set_cell(map, i, 0, c);
        let c = Cell { cell_type: CellType::Structure, value: map[i][height - 1].value };
        set_cell(map, i, height - 1, c);
        i = i + 1;
    }
    let mut i: usize = 0;
    while i < height
        invariant
            width == orig.len(),
            height == orig[0]@.len(),
            width >= 1,
            height >= 1,
            is_rect(map@, width as int, height as int),
            i <= height,
            forall|x: int, y: int|
                0 <= x < width && 0 <= y < height ==> #[trigger] map@[x]@[y] == if (y == 0 || y
                    == height - 1) || (y < i && (x == 0 || x == width - 1)) {
                    with_kind(orig[x]@[y], CellType::Structure)
                } else {
                    orig[x]@[y]
                },
        decreases height - i,
    {
        let c = Cell { cell_type: CellType::Structure, value: map[0][i].value };
        set_cell(map, 0, i, c);
        let c = Cell { cell_type: CellType::Structure, value: map[width - 1][i].value };
        set_cell(map, width - 1, i, c);
        i = i + 1;
    }
}

/// Whether one of the first `n` draws names the cell `(x, y)`.
pub open spec fn drawn(draws: Seq<(usize, usize)>, n: int, x: int, y: int) -> bool {
    exists|k: int| 0 <= k < n && draws[k].0 == x && draws[k].1 == y
}

/// The kind of the cell at `(x, y)` once the first `n` draws are planted:
/// a vegetated cell that some draw names becomes wood.
pub open spec fn planted_kind(m: Seq<Vec<Cell>>, draws: Seq<(usize, usize)>, n: int, x: int, y: int) -> CellType {
    if kind(m, x, y) == CellType::Grass && drawn(draws, n, x, y) {
        CellType::Wood
    } else {
        kind(m, x, y)
    }
}

/// Plants a tree at each drawn cell `(x, y)` that is vegetated; a draw on
/// any other cell, or on a cell drawn before, has no effect.
pub fn plant_trees(map: &mut Vec<Vec<Cell>>, draws: &Vec<(usize, usize)>)
    requires
        old(map)@.len() >= 1,
        is_rect(old(map)@, old(map)@.len() as int, old(map)@[0]@.len() as int),
        forall|k: int|
            0 <= k < draws@.len() ==> #[trigger] draws@[k].0 < old(map)@.len() && draws@[k].1
                < old(map)@[0]@.len(),
    ensures
        same_values(old(map)@, final(map)@, old(map)@.len() as int, old(map)@[0]@.len() as int),
        forall|x: int, y: int|
            0 <= x < old(map)@.len() && 0 <= y < old(map)@[0]@.len() ==> #[trigger] kind(final(map)@, x, y)
                == planted_kind(old(map)@, draws@, draws@.len() as int, x, y),
        changed_cells(old(map)@, final(map)@, old(map)@.len() as int, old(map)@[0]@.len() as int).finite(),
        changed_cells(old(map)@, final(map)@, old(map)@.len() as int, old(map)@[0]@.len() as int).len()
            <= draws@.len(),
{
    let width = map.len();
    let height = map[0].len();
    let ghost orig = map@;
    let ghost mut touched: Set<(int, int)> = Set::empty();
    let mut k: usize = 0;
    while k < draws.len()
        invariant
            width == orig.len(),
            height == orig[0]@.len(),
            width >= 1,
            is_rect(orig, width as int, height as int),
            forall|i: int|
                0 <= i < draws@.len() ==> #[trigger] draws@[i].0 < width && draws@[i].1 < height,
            k <= draws@.len(),
            same_values(orig, map@, width as int, height as int),
            forall|x: int, y: int|
                0 <= x < width && 0 <= y < height ==> #[trigger] map@[x]@[y].cell_type == planted_kind(
                    orig,
                    draws@,
                    k as int,
                    x,
                    y,
                ),
            touched.finite(),
            touched.len() <= k,
            forall|x: int, y: int|
                0 <= x < width && 0 <= y < height && #[trigger] map@[x]@[y].cell_type != kind(
                    orig,
                    x,
                    y,
                ) ==> touched.contains((x, y)),
        decreases draws@.len() - k,
    {
        let (row, col) = draws[k];
        proof {
            assert forall|x: int, y: int| 0 <= x < width && 0 <= y < height implies #[trigger] drawn(
                draws@,
                k + 1,
                x,
                y,
            ) == (drawn(draws@, k as int, x, y) || (row == x && col == y)) by {
                if drawn(draws@, k + 1, x, y) && !(row == x && col == y) {
                    let i = choose|i: int| 0 <= i < k + 1 && draws@[i].0 == x && draws@[i].1 == y;
                    assert(0 <= i < k);
                }
                if row == x && col == y {
                    assert(draws@[k as int].0 == x && draws@[k as int].1 == y);
                }
            }
        }
        if map[row][col].cell_type == CellType::Grass {
            let c = Cell { cell_type: CellType::Wood, value: map[row][col].value };
            set_cell(map, row, col, c);
            proof {
                touched = touched.insert((row as int, col as int));
            }
        }
        k = k + 1;
    }
    proof {
        let changed = changed_cells(orig, map@, width as int, height as int);
        assert(changed.subset_of(touched));
        lemma_len_subset(changed, touched);
    }
}

/// Makes one random draw per hundred cells; a drawn cell that is vegetated
/// becomes wood, any other draw is spent without effect.
pub fn generate_trees(map: &mut Vec<Vec<Cell>>, rng: &mut StdRng)
    requires
        old(map)@.len() >= 1,
        old(map)@[0]@.len() >= 1,
        is_rect(old(map)@, old(map)@.len() as int, old(map)@[0]@.len() as int),
    ensures
        same_values(old(map)@, final(map)@, old(map)@.len() as int, old(map)@[0]@.len() as int),
        forall|x: int, y: int|
            0 <= x < old(map)@.len() && 0 <= y < old(map)@[0]@.len() ==> (#[trigger] kind(
                final(map)@,
                x,
                y,
            ) == kind(old(map)@, x, y) || (kind(old(map)@, x, y) == CellType::Grass && kind(
                final(map)@,
                x,
                y,
            ) == CellType::Wood)),
        changed_cells(old(map)@, final(map)@, old(map)@.len() as int, old(map)@[0]@.len() as int).finite(),
        changed_cells(old(map)@, final(map)@, old(map)@.len() as int, old(map)@[0]@.len() as int).len()
            <= scatter_quota(old(map)@.len() as int, old(map)@[0]@.len() as int),
        (scatter_quota(old(map)@.len() as int, old(map)@[0]@.len() as int) >= 1 && forall|x: int, y: int|
            0 <= x < old(map)@.len() && 0 <= y < old(map)@[0]@.len() ==> #[trigger] kind(old(map)@, x, y)
                == CellType::Grass) ==> changed_cells(
            old(map)@,
            final(map)@,
            old(map)@.len() as int,
            old(map)@[0]@.len() as int,
        ).len() >= 1,
{
    let width = map.len();
    let height = map[0].len();
    let ghost orig = map@;
    proof {
        assert(width * height <= 0xffff_ffff_ffff_ffff * 0xffff_ffff_ffff_ffff) by (nonlinear_arith)
            requires
                0 <= width <= 0xffff_ffff_ffff_ffff,
                0 <= height <= 0xffff_ffff_ffff_ffff,
        ;
    }
    let quota: u128 = (width as u128 * height as u128) / 100;
    let mut draws: Vec<(usize, usize)> = Vec::new();
    let mut k: u128 = 0;
    while k < quota
        invariant
            width >= 1,
            height >= 1,
            k <= quota,
            draws@.len() == k,
            forall|i: int| 0 <= i < k ==> #[trigger] draws@[i].0 < width && draws@[i].1 < height,
        decreases quota - k,
    {
        let col = draw_below(rng, height as u64) as usize;
        let row = draw_below(rng, width as u64) as usize;
        draws.push((row, col));
        k = k + 1;
    }
    plant_trees(map, &draws);
    proof {
        let changed = changed_cells(orig, map@, width as int, height as int);
        if quota >= 1 && forall|x: int, y: int|
            0 <= x < width && 0 <= y < height ==> #[trigger] kind(orig, x, y) == CellType::Grass {
            let (r0, c0) = draws@[0];
            assert(kind(orig, r0 as int, c0 as int) == CellType::Grass);
            assert(drawn(draws@, draws@.len() as int, r0 as int, c0 as int));
            assert(kind(map@, r0 as int, c0 as int) == CellType::Wood);
            assert(changed.contains((r0 as int, c0 as int)));
        }
    }
}

/// Builds a `map_width` by `map_height` terrain: liquid everywhere, a first
/// vegetated noise layer, one smoothing pass, a granular noise layer,
/// scattered wood and a wall ring. Fails on a zero dimension.
pub fn generate_map(map_width: usize, map_height: usize, rng: &mut StdRng) -> (r: Result<
    Vec<Vec<Cell>>,
    GenError,
>)
    ensures
        (map_width == 0 || map_height == 0) <==> r is Err,
        r is Err ==> r->Err_0 == GenError::InvalidDimensions,
        r is Ok ==> is_rect(r->Ok_0@, map_width as int, map_height as int),
        r is Ok ==> forall|x: int, y: int|
            0 <= x < map_width && 0 <= y < map_height ==> #[trigger] r->Ok_0@[x]@[y].value == 100,
        r is Ok ==> forall|x: int, y: int|
            0 <= x < map_width && 0 <= y < map_height && on_border(x, y, map_width as int, map_height as int)
                ==> #[trigger] kind(r->Ok_0@, x, y) == CellType::Structure,
        r is Ok ==> forall|x: int, y: int|
            0 <= x < map_width && 0 <= y < map_height && !on_border(x, y, map_width as int, map_height as int)
                ==> #[trigger] kind(r->Ok_0@, x, y) != CellType::Structure,
        r is Ok ==> forall|x: int, y: int|
            0 <= x < map_width && 0 <= y < map_height && !on_border(x, y, map_width as int, map_height as int)
                ==> (#[trigger] kind(r->Ok_0@, x, y) == CellType::Grass || kind(r->Ok_0@, x, y) == CellType::Water
                || kind(r->Ok_0@, x, y) == CellType::Sand || kind(r->Ok_0@, x, y) == CellType::Wood),
        r is Ok ==> wood_cells(r->Ok_0@, map_width as int, map_height as int).finite(),
        r is Ok ==> wood_cells(r->Ok_0@, map_width as int, map_height as int).len() <= scatter_quota(
            map_width as int,
            map_height as int,
        ),
{
    if map_width == 0 || map_height == 0 {
        return Err(GenError::InvalidDimensions);
    }
    let mut map: Vec<Vec<Cell>> = Vec::new();
    let mut x: usize = 0;
    while x < map_width
        invariant
            x <= map_width,
            is_rect(map@, x as int, map_height as int),
        decreases map_width - x,
    {
        let mut column: Vec<Cell> = Vec::new();
        let mut y: usize = 0;
        while y < map_height
            invariant
                y <= map_height,
                column@.len() == y,
            decreases map_height - y,
        {
            column.push(Cell::new(CellType::Empty));
            y = y + 1;
        }
        map.push(column);
        x = x + 1;
    }
    let ghost w = map_width as int;
    let ghost h = map_height as int;
    generate_water(&mut map);
    let ghost m1 = map@;
    generate_features(&mut map, 500_000, CellType::Grass, rng);
    let ghost m2 = map@;
    smooth_map(&mut map);
    let ghost m3 = map@;
    generate_features(&mut map, 570_000, CellType::Sand, rng);
    let ghost m4 = map@;
    generate_trees(&mut map, rng);
    let ghost m5 = map@;
    generate_walls(&mut map);
    proof {
        assert forall|x: int, y: int| 0 <= x < w && 0 <= y < h implies #[trigger] map@[x]@[y].value
            == 100 && (kind(map@, x, y) == CellType::Grass || kind(map@, x, y) == CellType::Water
            || kind(map@, x, y) == CellType::Sand || kind(map@, x, y) == CellType::Wood
            || on_border(x, y, w, h)) && (on_border(x, y, w, h) ==> kind(map@, x, y)
            == CellType::Structure) by {
            assert(m1[x]@[y] == fresh_cell(CellType::Water));
            assert(m2[x]@[y].value == m1[x]@[y].value);
            assert(kind(m3, x, y) == CellType::Grass || kind(m3, x, y) == CellType::Water);
            assert(m3[x]@[y].value == m2[x]@[y].value);
            assert(m4[x]@[y].value == m3[x]@[y].value);
            assert(kind(m4, x, y) == kind(m3, x, y) || kind(m4, x, y) == CellType::Sand);
            assert(m5[x]@[y].value == m4[x]@[y].value);
            assert(kind(m5, x, y) == kind(m4, x, y) || kind(m5, x, y) == CellType::Wood);
        }
        let woods = wood_cells(map@, w, h);
        let changed = changed_cells(m4, m5, w, h);
        assert forall|p: (int, int)| woods.contains(p) implies changed.contains(p) by {
            let (x, y) = p;
            assert(kind(m3, x, y) == CellType::Grass || kind(m3, x, y) == CellType::Water);
            assert(kind(m4, x, y) == kind(m3, x, y) || kind(m4, x, y) == CellType::Sand);
            assert(map@[x]@[y] == if on_border(x, y, w, h) {
                with_kind(m5[x]@[y], CellType::Structure)
            } else {
                m5[x]@[y]
            });
        }
        lemma_len_subset(woods, changed);
    }
    Ok(map)
}

} // verus!
