//! A double-buffered toroidal cellular automaton whose cells carry a hue and a
//! brightness ("light"). Cells above `DEAD` count as alive.

use vstd::prelude::*;

verus! {

/// Light of a freshly born cell.
pub const ALIVE: u8 = 100;

/// Light of a cell that just died; alive means strictly above this.
pub const DEAD: u8 = 50;

/// One grid position: a hue angle in degrees and a brightness.
#[derive(Clone, Copy, Debug, PartialEq, Eq, Structural)]
pub struct Cell {
    pub hue: u16,
    pub light: u8,
}

/// A cell is valid when its hue is an angle in `[0, 360)` and its light is at
/// most `ALIVE`.
pub open spec fn cell_ok(c: Cell) -> bool {
    c.hue < 360 && c.light <= ALIVE
}

pub open spec fn is_alive(c: Cell) -> bool {
    c.light > DEAD
}

/// Brightness of a dead cell after one step: it fades by two, but a cell that
/// was lit never goes fully dark.
pub open spec fn decay(light: u8) -> u8 {
    if light > 2 {
        (light - 2) as u8
    } else if light == 2 {
        1
    } else {
        light
    }
}

/// Result of the rule for one cell: the next cell, whether it was born and
/// whether it died.
pub open spec fn rule(c: Cell, live: nat, blended: u16) -> (Cell, bool, bool) {
    if is_alive(c) && live < 2 {
        (Cell { hue: c.hue, light: DEAD }, false, true)
    } else if is_alive(c) && live > 3 {
        (Cell { hue: c.hue, light: DEAD }, false, true)
    } else if !is_alive(c) && (live == 3 || live == 4) {
        (Cell { hue: (blended % 360) as u16, light: ALIVE }, true, false)
    } else if !is_alive(c) {
        (Cell { hue: c.hue, light: decay(c.light) }, false, false)
    } else {
        (c, false, false)
    }
}

/// Applies the rule to `c`, which has `live` alive neighbours; `blended` is the
/// hue a newborn takes (reduced into `[0, 360)`). Returns the next cell and
/// whether it was born or died.
pub fn next_cell(c: Cell, live: usize, blended: u16) -> (r: (Cell, bool, bool))
    ensures
        r == rule(c, live as nat, blended),
{
    let alive = c.light > DEAD;
    if alive && live < 2 {
        (Cell { hue: c.hue, light: DEAD }, false, true)
    } else if alive && live > 3 {
        (Cell { hue: c.hue, light: DEAD }, false, true)
    } else if !alive && (live == 3 || live == 4) {
        (Cell { hue: blended % 360, light: ALIVE }, true, false)
    } else if !alive {
        let light = if c.light > 2 {
            c.light - 2
        } else if c.light == 2 {
            1
        } else {
            c.light
        };
        (Cell { hue: c.hue, light }, false, false)
    } else {
        (c, false, false)
    }
}

/// Channel value of the full chroma `c = light / 100`, scaled to 255 and
/// truncated.
pub open spec fn chroma(light: int) -> int {
    255 * light / 100
}

/// Channel value of the secondary component
/// `x = c * (1 - |(hue / 60) mod 2 - 1|)`, scaled to 255 and truncated. With an
/// integer hue, `|(hue / 60) mod 2 - 1| = |hue mod 120 - 60| / 60`.
pub open spec fn secondary(hue: int, light: int) -> int {
    let t = hue % 120;
    let d = if t >= 60 { t - 60 } else { 60 - t };
    255 * light * (60 - d) / 6000
}

/// Six-sector HSV to RGB with saturation one and value `light / 100`; a hue
/// of 360 or more maps to black.
pub open spec fn color_of(hue: u16, light: u8) -> (u8, u8, u8) {
    let c = chroma(light as int) as u8;
    let x = secondary(hue as int, light as int) as u8;
    if hue < 60 {
        (c, x, 0)
    } else if hue < 120 {
        (x, c, 0)
    } else if hue < 180 {
        (0, c, x)
    } else if hue < 240 {
        (0, x, c)
    } else if hue < 300 {
        (x, 0, c)
    } else if hue < 360 {
        (c, 0, x)
    } else {
        (0, 0, 0)
    }
}

/// Converts a hue in degrees and a light in `[0, 100]` to an RGB triple.
pub fn hue_to_rgb(hue: u16, light: u8) -> (r: (u8, u8, u8))
    requires
        light <= ALIVE,
    ensures
        r == color_of(hue, light),
        light == 0 ==> r == (0u8, 0u8, 0u8),
{
    let l = light as u32;
    let c32 = 255 * l / 100;
    let t = (hue % 120) as u32;
    let d = if t >= 60 { t - 60 } else { 60 - t };
    assert(255 * l * (60 - d) <= 255 * 100 * 60) by (nonlinear_arith) requires l <= 100, d <= 60;
    let x32 = 255 * l * (60 - d) / 6000;
    assert(c32 <= 255) by (nonlinear_arith) requires c32 == 255 * l / 100, l <= 100;
    assert(x32 <= 255) by (nonlinear_arith) requires x32 == 255 * l * (60 - d) / 6000, l <= 100, d <= 60;
    let c = c32 as u8;
    let x = x32 as u8;
    if hue < 60 {
        (c, x, 0)
    } else if hue < 120 {
        (x, c, 0)
    } else if hue < 180 {
        (0, c, x)
    } else if hue < 240 {
        (0, x, c)
    } else if hue < 300 {
        (x, 0, c)
    } else if hue < 360 {
        (c, 0, x)
    } else {
        (0, 0, 0)
    }
}

#[verifier::external_type_specification]
#[verifier::external_body]
#[verifier::reject_recursive_types(T)]
pub struct ExHeaplessVec<T, const N: usize>(heapless::Vec<T, N>);

/// The hues held by a fixed-capacity hue list, in order.
pub uninterp spec fn hue_items(v: heapless::Vec<u16, 8>) -> Seq<u16>;

/// Relies on heapless::Vec::new: the new vector is empty.
#[verifier::external_body]
fn hue_list_new() -> (r: heapless::Vec<u16, 8>)
    ensures
        hue_items(r) == Seq::<u16>::empty(),
{
    heapless::Vec::new()
}

/// Relies on heapless::Vec::push: below capacity the item is appended and `Ok`
/// comes back; at capacity the vector is unchanged and the item is returned.
#[verifier::external_body]
fn hue_list_push(v: &mut heapless::Vec<u16, 8>, hue: u16) -> (r: Result<(), u16>)
    ensures
        hue_items(*old(v)).len() < 8 ==> r is Ok,
        hue_items(*old(v)).len() < 8 ==> hue_items(*final(v)) == hue_items(*old(v)).push(hue),
        hue_items(*old(v)).len() >= 8 ==> r is Err && r->Err_0 == hue,
        hue_items(*old(v)).len() >= 8 ==> hue_items(*final(v)) == hue_items(*old(v)),
{
    v.push(hue)
}

/// Offset of the `n`-th Moore neighbour, in the order the neighbours are
/// visited.
pub open spec fn offset(n: int) -> (int, int) {
    if n == 0 {
        (-1, -1)
    } else if n == 1 {
        (-1, 0)
    } else if n == 2 {
        (-1, 1)
    } else if n == 3 {
        (0, 1)
    } else if n == 4 {
        (0, -1)
    } else if n == 5 {
        (1, 1)
    } else if n == 6 {
        (1, -1)
    } else {
        (1, 0)
    }
}

/// Coordinate `v` wrapped onto a ring of size `size`.
pub open spec fn wrap(v: int, size: int) -> int {
    (v + size) % size
}

/// The `n`-th neighbour of `(x, y)` on a `w` by `h` torus.
pub open spec fn neighbor_of(w: int, h: int, x: int, y: int, n: int) -> (int, int) {
    (wrap(x + offset(n).0, w), wrap(y + offset(n).1, h))
}

/// Position of `(x, y)` in a generation stored column by column.
pub open spec fn cell_index(h: int, x: int, y: int) -> int {
    x * h + y
}

/// Grid sizes that the buffers and the random draws can be counted in.
pub open spec fn dims_ok(w: nat, h: nat) -> bool {
    1 <= w && 1 <= h && w * h * 4 <= usize::MAX
}

pub proof fn lemma_index_in_grid(w: int, h: int, x: int, y: int)
    requires
        0 <= x < w,
        0 <= y < h,
    ensures
        0 <= cell_index(h, x, y) < w * h,
{
    assert(0 <= x * h + y < w * h) by (nonlinear_arith)
        requires
            0 <= x < w,
            0 <= y < h,
    ;
}

pub proof fn lemma_index_split(w: int, h: int, k: int)
    requires
        0 <= k < w * h,
        1 <= h,
    ensures
        0 <= k / h < w,
        0 <= k % h < h,
        cell_index(h, k / h, k % h) == k,
{
    vstd::arithmetic::div_mod::lemma_fundamental_div_mod(k, h);
    assert(h * (k / h) == (k / h) * h) by (nonlinear_arith);
    assert(k / h < w) by (nonlinear_arith)
        requires
            0 <= k < w * h,
            1 <= h,
            k == h * (k / h) + k % h,
            0 <= k % h,
    ;
    assert(0 <= k / h) by (nonlinear_arith)
        requires
            0 <= k,
            1 <= h,
    ;
}

/// The `n`-th neighbour of `(x, y)` on a `w` by `h` torus, visited in a fixed
/// order.
pub fn neighbor(w: usize, h: usize, x: usize, y: usize, n: usize) -> (r: (usize, usize))
    requires
        dims_ok(w as nat, h as nat),
        x < w,
        y < h,
        n < 8,
    ensures
        r.0 as int == neighbor_of(w as int, h as int, x as int, y as int, n as int).0,
        r.1 as int == neighbor_of(w as int, h as int, x as int, y as int, n as int).1,
        r.0 < w,
        r.1 < h,
{
    let (dx, dy): (usize, usize) = if n == 0 {
        (0, 0)
    } else if n == 1 {
        (0, 1)
    } else if n == 2 {
        (0, 2)
    } else if n == 3 {
        (1, 2)
    } else if n == 4 {
        (1, 0)
    } else if n == 5 {
        (2, 2)
    } else if n == 6 {
        (2, 0)
    } else {
        (2, 1)
    };
    proof {
        lemma_sides_small(w as int, h as int);
    }
    ((x + w + dx - 1) % w, (y + h + dy - 1) % h)
}

pub proof fn lemma_sides_small(w: int, h: int)
    requires
        1 <= w,
        1 <= h,
        w * h * 4 <= usize::MAX,
    ensures
        w * 4 <= usize::MAX,
        h * 4 <= usize::MAX,
        w <= w * h,
        h <= w * h,
{
    assert(w <= w * h && h <= w * h) by (nonlinear_arith)
        requires
            1 <= w,
            1 <= h,
    ;
}

/// Number of consecutive balanced steps after which the grid is reseeded.
pub const STALL_LIMIT: usize = 5;

/// The hues of the alive cells among the first `n` neighbours of `(x, y)`, in
/// visiting order.
pub open spec fn live_hues(cells: Seq<Cell>, w: int, h: int, x: int, y: int, n: nat) -> Seq<u16>
    decreases n,
{
    if n == 0 {
        Seq::empty()
    } else {
        let prev = live_hues(cells, w, h, x, y, (n - 1) as nat);
        let p = neighbor_of(w, h, x, y, n - 1);
        let c = cells[cell_index(h, p.0, p.1)];
        if is_alive(c) {
            prev.push(c.hue)
        } else {
            prev
        }
    }
}

/// Number of alive neighbours of `(x, y)`.
pub open spec fn live_count(cells: Seq<Cell>, w: int, h: int, x: int, y: int) -> nat {
    live_hues(cells, w, h, x, y, 8).len()
}

/// The engine's state: grid sizes, both generations (stored column by column),
/// the index of the current one, the birth and death counts of the last step,
/// and the number of consecutive steps with as many births as deaths.
pub struct UniverseView {
    pub width: nat,
    pub height: nat,
    pub frames: Seq<Seq<Cell>>,
    pub page: nat,
    pub born: nat,
    pub died: nat,
    pub stall_count: nat,
}

impl UniverseView {
    pub open spec fn size(self) -> nat {
        self.width * self.height
    }

    pub open spec fn current(self) -> Seq<Cell> {
        self.frames[self.page as int]
    }

    pub open spec fn wf(self) -> bool {
        &&& dims_ok(self.width, self.height)
        &&& self.frames.len() == 2
        &&& self.page < 2
        &&& forall|g: int| 0 <= g < 2 ==> (#[trigger] self.frames[g]).len() == self.size()
        &&& forall|g: int, k: int|
            0 <= g < 2 && 0 <= k < self.size() ==> cell_ok(#[trigger] self.frames[g][k])
        &&& self.born <= self.size()
        &&& self.died <= self.size()
        &&& self.stall_count < STALL_LIMIT
    }
}

/// The state of a new engine: every cell dark with hue zero.
pub open spec fn blank_view(w: nat, h: nat) -> UniverseView {
    let dark = Seq::new(w * h, |k: int| Cell { hue: 0, light: 0 });
    UniverseView {
        width: w,
        height: h,
        frames: seq![dark, dark],
        page: 0,
        born: 0,
        died: 0,
        stall_count: 0,
    }
}

/// Number of seed placements: half the cells, rounded down.
pub open spec fn seed_count(w: nat, h: nat) -> nat {
    w * h / 2
}

/// Random values one reseed consumes: two hues per cell, then a column and a
/// row per seed placement.
pub open spec fn populate_draw_count(w: nat, h: nat) -> nat {
    2 * (w * h) + 2 * seed_count(w, h)
}

/// The cell index that seed placement `s` lands on.
pub open spec fn seed_target(w: nat, h: nat, draws: Seq<u32>, s: int) -> int {
    let base = 2 * (w * h) as int;
    cell_index(
        h as int,
        draws[base + 2 * s] as int % w as int,
        draws[base + 2 * s + 1] as int % h as int,
    )
}

/// Some of the first `m` seed placements land on cell `k`.
pub open spec fn seeded_before(w: nat, h: nat, draws: Seq<u32>, k: int, m: int) -> bool {
    exists|s: int| 0 <= s < m && #[trigger] seed_target(w, h, draws, s) == k
}

/// Cell `k` of generation `g` after a reseed with `draws`: its hue comes from
/// its own draw, and it is lit only in generation zero and only where a seed
/// placement landed.
pub open spec fn populated_cell(w: nat, h: nat, draws: Seq<u32>, g: int, k: int) -> Cell {
    Cell {
        hue: (draws[2 * k + g] % 360) as u16,
        light: if g == 0 && seeded_before(w, h, draws, k, seed_count(w, h) as int) {
            ALIVE
        } else {
            0
        },
    }
}

/// Cell `k` of generation zero once the first `m` seed placements are done.
spec fn partly_seeded(w: nat, h: nat, draws: Seq<u32>, k: int, m: int) -> Cell {
    Cell {
        hue: (draws[2 * k] % 360) as u16,
        light: if seeded_before(w, h, draws, k, m) {
            ALIVE
        } else {
            0
        },
    }
}

/// The state right after a reseed with `draws`.
pub open spec fn populated_view(w: nat, h: nat, draws: Seq<u32>) -> UniverseView {
    UniverseView {
        width: w,
        height: h,
        frames: seq![
            Seq::new(w * h, |k: int| populated_cell(w, h, draws, 0, k)),
            Seq::new(w * h, |k: int| populated_cell(w, h, draws, 1, k)),
        ],
        page: 0,
        born: 0,
        died: 0,
        stall_count: 0,
    }
}

/// Number of random values `populate` consumes on a `width` by `height` grid.
pub fn draws_for_populate(width: usize, height: usize) -> (r: usize)
    requires
        dims_ok(width as nat, height as nat),
    ensures
        r == populate_draw_count(width as nat, height as nat),
{
    let n = width * height;
    2 * n + 2 * (n / 2)
}

/// Number of alive cells in a generation.
pub open spec fn alive_count(cells: Seq<Cell>) -> nat
    decreases cells.len(),
{
    if cells.len() == 0 {
        0
    } else {
        alive_count(cells.drop_last()) + if is_alive(cells.last()) {
            1nat
        } else {
            0nat
        }
    }
}

pub proof fn lemma_alive_count_none(cells: Seq<Cell>)
    requires
        forall|k: int| 0 <= k < cells.len() ==> !is_alive(#[trigger] cells[k]),
    ensures
        alive_count(cells) == 0,
    decreases cells.len(),
{
    if cells.len() > 0 {
        lemma_alive_count_none(cells.drop_last());
    }
}

pub proof fn lemma_alive_count_update(cells: Seq<Cell>, i: int, c: Cell)
    requires
        0 <= i < cells.len(),
    ensures
        alive_count(cells.update(i, c)) <= alive_count(cells) + 1,
    decreases cells.len(),
{
    let u = cells.update(i, c);
    if i == cells.len() - 1 {
        assert(u.drop_last() =~= cells.drop_last());
    } else {
        lemma_alive_count_update(cells.drop_last(), i, c);
        assert(u.drop_last() =~= cells.drop_last().update(i, c));
    }
}

/// Outcome of the rule for cell `k` of `cells`, with the newborn hues
/// `blended` indexed like the cells.
pub open spec fn stepped(cells: Seq<Cell>, w: int, h: int, blended: Seq<u16>, k: int) -> (
    Cell,
    bool,
    bool,
) {
    rule(cells[k], live_count(cells, w, h, k / h, k % h), blended[k])
}

/// The generation that follows `cells`.
pub open spec fn next_generation(cells: Seq<Cell>, w: int, h: int, blended: Seq<u16>) -> Seq<
    Cell,
> {
    Seq::new((w * h) as nat, |k: int| stepped(cells, w, h, blended, k).0)
}

/// Births among the first `n` cells.
pub open spec fn births(cells: Seq<Cell>, w: int, h: int, blended: Seq<u16>, n: nat) -> nat
    decreases n,
{
    if n == 0 {
        0
    } else {
        births(cells, w, h, blended, (n - 1) as nat) + if stepped(
            cells,
            w,
            h,
            blended,
            n - 1,
        ).1 {
            1nat
        } else {
            0nat
        }
    }
}

/// Deaths among the first `n` cells.
pub open spec fn deaths(cells: Seq<Cell>, w: int, h: int, blended: Seq<u16>, n: nat) -> nat
    decreases n,
{
    if n == 0 {
        0
    } else {
        deaths(cells, w, h, blended, (n - 1) as nat) + if stepped(
            cells,
            w,
            h,
            blended,
            n - 1,
        ).2 {
            1nat
        } else {
            0nat
        }
    }
}

/// A coloured panel position handed to the display.
#[derive(Clone, Copy, Debug, PartialEq, Eq, Structural)]
pub struct Pixel {
    pub x: usize,
    pub y: usize,
    pub r: u8,
    pub g: u8,
    pub b: u8,
}

/// The pixel shown for cell `k`, whose state is `c`.
pub open spec fn pixel_at(h: int, k: int, c: Cell) -> Pixel {
    let rgb = color_of(c.hue, c.light);
    Pixel { x: (k / h) as usize, y: (k % h) as usize, r: rgb.0, g: rgb.1, b: rgb.2 }
}

/// The pixels a step from `v` shows, one per cell in storage order.
pub open spec fn frame_pixels(v: UniverseView, blended: Seq<u16>) -> Seq<Pixel> {
    let w = v.width as int;
    let h = v.height as int;
    Seq::new(v.size(), |k: int| pixel_at(h, k, stepped(v.current(), w, h, blended, k).0))
}

/// The state after one step from `v`: the next generation becomes current and
/// the stall count grows when births equal deaths; on reaching the stall limit
/// the grid is reseeded from `reseed` instead.
pub open spec fn step_view(v: UniverseView, blended: Seq<u16>, reseed: Seq<u32>) -> UniverseView {
    let w = v.width as int;
    let h = v.height as int;
    let cur = v.current();
    let b = births(cur, w, h, blended, v.size());
    let d = deaths(cur, w, h, blended, v.size());
    let stall = if b == d {
        v.stall_count + 1
    } else {
        0
    };
    if stall >= STALL_LIMIT {
        populated_view(v.width, v.height, reseed)
    } else {
        UniverseView {
            frames: v.frames.update(1 - v.page, next_generation(cur, w, h, blended)),
            page: (1 - v.page) as nat,
            born: b,
            died: d,
            stall_count: stall,
            ..v
        }
    }
}

/// The automaton with its two generations.
pub struct Universe {
    width: usize,
    height: usize,
    frame0: Vec<Cell>,
    frame1: Vec<Cell>,
    page: usize,
    born: usize,
    died: usize,
    stall_count: usize,
}

impl View for Universe {
    type V = UniverseView;

    closed spec fn view(&self) -> UniverseView {
        UniverseView {
            width: self.width as nat,
            height: self.height as nat,
            frames: seq![self.frame0@, self.frame1@],
            page: self.page as nat,
            born: self.born as nat,
            died: self.died as nat,
            stall_count: self.stall_count as nat,
        }
    }
}

impl Universe {
    pub open spec fn wf(&self) -> bool {
        self@.wf()
    }

    /// A new engine for a `width` by `height` panel, all cells dark.
    pub fn new(width: usize, height: usize) -> (r: Self)
        requires
            dims_ok(width as nat, height as nat),
        ensures
            r.wf(),
            r@ == blank_view(width as nat, height as nat),
    {
        let n = width * height;
        let mut frame: Vec<Cell> = Vec::new();
        let mut k: usize = 0;
        while k < n
            invariant
                k <= n,
                frame@ == Seq::new(k as nat, |i: int| Cell { hue: 0, light: 0 }),
            decreases n - k,
        {
            frame.push(Cell { hue: 0, light: 0 });
            k = k + 1;
            assert(frame@ =~= Seq::new(k as nat, |i: int| Cell { hue: 0, light: 0 }));
        }
        let r = Universe {
            width,
            height,
            frame0: frame.clone(),
            frame1: frame,
            page: 0,
            born: 0,
            died: 0,
            stall_count: 0,
        };
        assert(r@.frames =~= blank_view(width as nat, height as nat).frames);
        r
    }

    pub fn width(&self) -> (r: usize)
        ensures
            r == self@.width,
    {
        self.width
    }

    pub fn height(&self) -> (r: usize)
        ensures
            r == self@.height,
    {
        self.height
    }

    /// Index of the current generation.
    pub fn page(&self) -> (r: usize)
        ensures
            r == self@.page,
    {
        self.page
    }

    /// Births counted by the last step.
    pub fn born(&self) -> (r: usize)
        ensures
            r == self@.born,
    {
        self.born
    }

    /// Deaths counted by the last step.
    pub fn died(&self) -> (r: usize)
        ensures
            r == self@.died,
    {
        self.died
    }

    /// Consecutive steps, up to the last, with as many births as deaths.
    pub fn stall_count(&self) -> (r: usize)
        ensures
            r == self@.stall_count,
    {
        self.stall_count
    }

    /// The cell at `(x, y)` of generation `g`.
    pub fn cell(&self, g: usize, x: usize, y: usize) -> (r: Cell)
        requires
            self.wf(),
            g < 2,
            x < self@.width,
            y < self@.height,
        ensures
            r == self@.frames[g as int][cell_index(self@.height as int, x as int, y as int)],
    {
        proof {
            lemma_index_in_grid(self.width as int, self.height as int, x as int, y as int);
        }
        let k = x * self.height + y;
        if g == 0 {
            self.frame0[k]
        } else {
            self.frame1[k]
        }
    }

    /// The hues of the alive neighbours of `(x, y)` in the current generation,
    /// in visiting order, and how many there are.
    pub fn live_neighbors(&self, x: usize, y: usize) -> (r: (heapless::Vec<u16, 8>, usize))
        requires
            self.wf(),
            x < self@.width,
            y < self@.height,
        ensures
            hue_items(r.0) == live_hues(
                self@.current(),
                self@.width as int,
                self@.height as int,
                x as int,
                y as int,
                8,
            ),
            r.1 == live_count(
                self@.current(),
                self@.width as int,
                self@.height as int,
                x as int,
                y as int,
            ),
    {
        let ghost cur = self@.current();
        let ghost w = self.width as int;
        let ghost h = self.height as int;
        let mut hues = hue_list_new();
        let mut count: usize = 0;
        let mut n: usize = 0;
        while n < 8
            invariant
                self.wf(),
                cur == self@.current(),
                w == self@.width,
                h == self@.height,
                x < w,
                y < h,
                n <= 8,
                hue_items(hues) == live_hues(cur, w, h, x as int, y as int, n as nat),
                count == hue_items(hues).len(),
                count <= n,
            decreases 8 - n,
        {
            let (col, row) = neighbor(self.width, self.height, x, y, n);
            let c = self.cell(self.page, col, row);
            if c.light > DEAD {
                let _ = hue_list_push(&mut hues, c.hue);
                count = count + 1;
            }
            n = n + 1;
        }
        (hues, count)
    }

    /// The next state of the cell at `(x, y)` under the rule, with `blended`
    /// as the hue of a newborn.
    fn next(&self, x: usize, y: usize, blended: u16) -> (r: (Cell, bool, bool))
        requires
            self.wf(),
            x < self@.width,
            y < self@.height,
        ensures
            r == rule(
                self@.current()[cell_index(self@.height as int, x as int, y as int)],
                live_count(
                    self@.current(),
                    self@.width as int,
                    self@.height as int,
                    x as int,
                    y as int,
                ),
                blended,
            ),
    {
        let (_hues, count) = self.live_neighbors(x, y);
        let c = self.cell(self.page, x, y);
        next_cell(c, count, blended)
    }

    /// Whether the cell at `(x, y)` is born in the coming step, and if so the
    /// hues of its alive neighbours, from which its own hue is blended.
    pub fn birth_hues(&self, x: usize, y: usize) -> (r: Option<heapless::Vec<u16, 8>>)
        requires
            self.wf(),
            x < self@.width,
            y < self@.height,
        ensures
            r is Some <==> rule(
                self@.current()[cell_index(self@.height as int, x as int, y as int)],
                live_count(
                    self@.current(),
                    self@.width as int,
                    self@.height as int,
                    x as int,
                    y as int,
                ),
                0,
            ).1,
            r is Some ==> hue_items(r->Some_0) == live_hues(
                self@.current(),
                self@.width as int,
                self@.height as int,
                x as int,
                y as int,
                8,
            ),
    {
        let (hues, _count) = self.live_neighbors(x, y);
        let (_c, born, _died) = self.next(x, y, 0);
        if born {
            Some(hues)
        } else {
            None
        }
    }

    /// Reseeds the grid from `draws`: every cell of both generations takes the
    /// hue `draw % 360` of its own draw and goes dark, then half the cell count
    /// of (column, row) draws, with replacement, light cells of generation zero.
    /// Counters and the current generation go back to zero.
    pub fn populate(&mut self, draws: &Vec<u32>)
        requires
            old(self).wf(),
            draws@.len() == populate_draw_count(old(self)@.width, old(self)@.height),
        ensures
            final(self).wf(),
            final(self)@ == populated_view(old(self)@.width, old(self)@.height, draws@),
            alive_count(final(self)@.frames[0]) <= seed_count(old(self)@.width, old(self)@.height),
    {
        let w = self.width;
        let h = self.height;
        let n = w * h;
        let ghost wn = w as nat;
        let ghost hn = h as nat;
        let ghost d = draws@;
        self.page = 0;
        self.born = 0;
        self.died = 0;
        self.stall_count = 0;
        let mut k: usize = 0;
        while k < n
            invariant
                dims_ok(wn, hn),
                n == wn * hn,
                w == self.width,
                h == self.height,
                self.width == wn,
                self.height == hn,
                self.page == 0,
                self.born == 0,
                self.died == 0,
                self.stall_count == 0,
                d == draws@,
                d.len() == populate_draw_count(wn, hn),
                k <= n,
                self.frame0@.len() == n,
                self.frame1@.len() == n,
                forall|i: int|
                    0 <= i < k ==> #[trigger] self.frame0@[i] == partly_seeded(wn, hn, d, i, 0),
                forall|i: int|
                    0 <= i < k ==> #[trigger] self.frame1@[i] == populated_cell(wn, hn, d, 1, i),
            decreases n - k,
        {
            let c0 = Cell { hue: (draws[2 * k] % 360) as u16, light: 0 };
            let c1 = Cell { hue: (draws[2 * k + 1] % 360) as u16, light: 0 };
            self.frame0[k] = c0;
            self.frame1[k] = c1;
            k = k + 1;
        }
        proof {
            lemma_alive_count_none(self.frame0@);
        }
        let seeds = n / 2;
        let mut s: usize = 0;
        while s < seeds
            invariant
                dims_ok(wn, hn),
                n == wn * hn,
                seeds == seed_count(wn, hn),
                w == self.width,
                h == self.height,
                self.width == wn,
                self.height == hn,
                self.page == 0,
                self.born == 0,
                self.died == 0,
                self.stall_count == 0,
                d == draws@,
                d.len() == populate_draw_count(wn, hn),
                s <= seeds,
                self.frame0@.len() == n,
                self.frame1@.len() == n,
                forall|i: int|
                    0 <= i < n ==> #[trigger] self.frame0@[i] == partly_seeded(wn, hn, d, i, s as int),
                forall|i: int|
                    0 <= i < n ==> #[trigger] self.frame1@[i] == populated_cell(wn, hn, d, 1, i),
                alive_count(self.frame0@) <= s,
            decreases seeds - s,
        {
            let x = draws[2 * n + 2 * s] as usize % w;
            let y = draws[2 * n + 2 * s + 1] as usize % h;
            proof {
                lemma_index_in_grid(wn as int, hn as int, x as int, y as int);
            }
            let t = x * h + y;
            let ghost before = self.frame0@;
            let mut c = self.frame0[t];
            c.light = ALIVE;
            self.frame0[t] = c;
            proof {
                lemma_alive_count_update(before, t as int, c);
                assert(seed_target(wn, hn, d, s as int) == t);
                assert forall|i: int| 0 <= i < n implies #[trigger] self.frame0@[i] == partly_seeded(
                    wn,
                    hn,
                    d,
                    i,
                    s + 1,
                ) by {
                    if i == t {
                        assert(seeded_before(wn, hn, d, i, s + 1));
                    } else {
                        if seeded_before(wn, hn, d, i, s + 1) {
                            let q = choose|q: int| 0 <= q < s + 1 && #[trigger] seed_target(wn, hn, d, q) == i;
                            assert(q != s);
                            assert(seeded_before(wn, hn, d, i, s as int));
                        }
                        if seeded_before(wn, hn, d, i, s as int) {
                            let q = choose|q: int| 0 <= q < s && #[trigger] seed_target(wn, hn, d, q) == i;
                            assert(0 <= q < s + 1);
                        }
                    }
                }
            }
            s = s + 1;
        }
        proof {
            let pv = populated_view(wn, hn, d);
            assert forall|i: int| 0 <= i < n implies #[trigger] self.frame0@[i] == populated_cell(
                wn,
                hn,
                d,
                0,
                i,
            ) by {
                assert(self.frame0@[i] == partly_seeded(wn, hn, d, i, seeds as int));
            }
            assert(self.frame0@ =~= pv.frames[0]);
            assert(self.frame1@ =~= pv.frames[1]);
            assert(self@.frames =~= pv.frames);
            assert(self@ == pv);
            assert forall|g: int, i: int| 0 <= g < 2 && 0 <= i < n implies cell_ok(
                #[trigger] self@.frames[g][i],
            ) by {
                if g == 0 {
                    assert(self@.frames[g][i] == populated_cell(wn, hn, d, 0, i));
                } else {
                    assert(self@.frames[g][i] == populated_cell(wn, hn, d, 1, i));
                }
            }
        }
    }

    /// Computes the next generation from the current one, returning the pixel
    /// of every cell in storage order. `blended[k]` is the hue cell `k` takes if
    /// it is born. When births have equalled deaths for `STALL_LIMIT` steps in
    /// a row the grid is reseeded from `reseed`; otherwise the generations
    /// swap.
    pub fn step(&mut self, blended: &Vec<u16>, reseed: &Vec<u32>) -> (pixels: Vec<Pixel>)
        requires
            old(self).wf(),
            blended@.len() == old(self)@.size(),
            reseed@.len() == populate_draw_count(old(self)@.width, old(self)@.height),
        ensures
            final(self).wf(),
            final(self)@ == step_view(old(self)@, blended@, reseed@),
            pixels@ == frame_pixels(old(self)@, blended@),
    {
        let w = self.width;
        let h = self.height;
        let n = w * h;
        let ghost v = self@;
        let ghost cur = self@.current();
        let ghost bl = blended@;
        let page = self.page;
        let next_page: usize = 1 - page;
        let mut pixels: Vec<Pixel> = Vec::new();
        let mut born: usize = 0;
        let mut died: usize = 0;
        let mut k: usize = 0;
        while k < n
            invariant
                self.wf(),
                v.wf(),
                n == v.size(),
                w == v.width,
                h == v.height,
                self.width == w,
                self.height == h,
                self.page == page,
                page == v.page,
                next_page == 1 - page,
                self.born == v.born,
                self.died == v.died,
                self.stall_count == v.stall_count,
                cur == v.current(),
                self@.current() == cur,
                bl == blended@,
                bl.len() == n,
                k <= n,
                self@.frames[next_page as int].len() == n,
                forall|i: int|
                    0 <= i < k ==> #[trigger] self@.frames[next_page as int][i] == stepped(
                        cur,
                        w as int,
                        h as int,
                        bl,
                        i,
                    ).0,
                pixels@.len() == k,
                forall|i: int|
                    0 <= i < k ==> #[trigger] pixels@[i] == pixel_at(
                        h as int,
                        i,
                        stepped(cur, w as int, h as int, bl, i).0,
                    ),
                born == births(cur, w as int, h as int, bl, k as nat),
                died == deaths(cur, w as int, h as int, bl, k as nat),
                born <= k,
                died <= k,
            decreases n - k,
        {
            proof {
                lemma_index_split(w as int, h as int, k as int);
            }
            let x = k / h;
            let y = k % h;
            let (c, was_born, was_died) = self.next(x, y, blended[k]);
            assert(cell_ok(c));
            if next_page == 0 {
                self.frame0[k] = c;
            } else {
                self.frame1[k] = c;
            }
            if was_born {
                born = born + 1;
            }
            if was_died {
                died = died + 1;
            }
            let (r, g, b) = hue_to_rgb(c.hue, c.light);
            pixels.push(Pixel { x, y, r, g, b });
            k = k + 1;
        }
        let stall = if born == died {
            self.stall_count + 1
        } else {
            0
        };
        if stall >= STALL_LIMIT {
            self.populate(reseed);
        } else {
            self.born = born;
            self.died = died;
            self.stall_count = stall;
            self.page = next_page;
            proof {
                let nv = step_view(v, bl, reseed@);
                assert(self@.frames[next_page as int] =~= nv.frames[next_page as int]);
                assert(self@.frames[page as int] == nv.frames[page as int]);
                assert(self@.frames =~= nv.frames);
            }
        }
        proof {
            assert(pixels@ =~= frame_pixels(v, bl));
        }
        pixels
    }
}

} // verus!
