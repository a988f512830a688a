use crate::components::EntitySize;
use crate::game_map::{lemma_index_in_range, sizes_of, GameMap, MapError, MapInfo, RenderCell};
use vstd::prelude::*;

verus! {

/// The size from which an occupant blocks sight when the caller names no
/// other: anything larger than `Small` is opaque.
pub open spec fn spec_sight_threshold() -> EntitySize {
    EntitySize::Medium
}

/// The usual sight threshold.
#[verifier::when_used_as_spec(spec_sight_threshold)]
pub fn sight_threshold() -> (r: EntitySize)
    ensures
        r == spec_sight_threshold(),
{
    EntitySize::Medium
}

/// How far the viewer sees when the caller names no other radius.
pub open spec fn spec_sight_radius() -> u32 {
    7
}

/// The usual sight radius.
#[verifier::when_used_as_spec(spec_sight_radius)]
pub fn sight_radius() -> (r: u32)
    ensures
        r == spec_sight_radius(),
{
    7
}

/// A slope as an exact fraction with a positive denominator.
pub struct Slope {
    pub num: int,
    pub den: int,
}

impl Slope {
    /// `self` is strictly smaller than `other`.
    pub open spec fn lt(self, other: Slope) -> bool {
        self.num * other.den < other.num * self.den
    }
}

/// The slope of the near edge of the cell at depth `d` and offset `j`:
/// `(j + 1/2) / (d - 1/2)`.
pub open spec fn left_slope(d: int, j: int) -> Slope {
    Slope { num: 2 * j + 1, den: 2 * d - 1 }
}

/// The slope of the far edge of the cell at depth `d` and offset `j`:
/// `(j - 1/2) / (d + 1/2)`.
pub open spec fn right_slope(d: int, j: int) -> Slope {
    Slope { num: 2 * j - 1, den: 2 * d + 1 }
}

/// Everything a visibility pass reads: the occupant of every cell, the
/// shape of the grid, where the viewer stands, how far it sees, and the
/// size from which an occupant is opaque.
pub struct Sight {
    pub sizes: Seq<EntitySize>,
    pub columns: int,
    pub rows: int,
    pub origin: (int, int),
    pub radius: int,
    pub threshold: EntitySize,
}

impl Sight {
    /// `(x, y)` names a square of the grid.
    pub open spec fn on_grid(self, x: int, y: int) -> bool {
        0 <= x < self.columns && 0 <= y < self.rows
    }

    /// Row-major position of `(x, y)` among the cells.
    pub open spec fn index(self, x: int, y: int) -> int {
        x + self.columns * y
    }

    /// The cell at `idx` stops sight.
    pub open spec fn opaque(self, idx: int) -> bool {
        !self.sizes[idx].spec_below(self.threshold)
    }
}

/// The four multipliers `(xx, xy, yx, yy)` of octant `region`, which turn a
/// depth and an offset inside the octant into a displacement on the grid.
pub open spec fn octant(region: int) -> (int, int, int, int) {
    if region == 0 {
        (1, 0, 0, 1)
    } else if region == 1 {
        (0, 1, 1, 0)
    } else if region == 2 {
        (0, -1, 1, 0)
    } else if region == 3 {
        (-1, 0, 0, 1)
    } else if region == 4 {
        (-1, 0, 0, -1)
    } else if region == 5 {
        (0, -1, -1, 0)
    } else if region == 6 {
        (0, 1, -1, 0)
    } else {
        (1, 0, 0, -1)
    }
}

/// The grid square at depth `d` and offset `j` of octant `region`.
pub open spec fn octant_cell(s: Sight, region: int, d: int, j: int) -> (int, int) {
    let m = octant(region);
    (s.origin.0 - j * m.0 - d * m.1, s.origin.1 - j * m.2 - d * m.3)
}

/// The cells lit from the point where the scan of one window of one octant
/// stands at depth `d`, offset `j`. Offsets run from `d` down to `0`; an
/// offset of `-1` stands for the end of the row. `start` and `end` bound
/// the window, `blocked` says that the cell before was opaque, and `saved`
/// is the far edge of the latest opaque cell.
///
/// A cell off the grid, or wholly before the window, is passed over; the
/// first cell wholly behind the window ends the row. Any other cell is lit
/// if it lies within the radius. An opaque cell after a clear one opens a
/// narrower window on the next depth, up to that cell's near edge; a clear
/// cell after an opaque one moves the start of the window to the saved
/// edge. A row that ends on an opaque cell ends the scan.
pub open spec fn cast(
    s: Sight,
    region: int,
    d: int,
    j: int,
    start: Slope,
    end: Slope,
    blocked: bool,
    saved: Slope,
) -> Set<int>
    decreases s.radius + 1 - d, j + 1,
{
    if d < 1 || d > s.radius || j > d {
        Set::empty()
    } else if j < 0 {
        if blocked {
            Set::empty()
        } else {
            cast(s, region, d + 1, d + 1, start, end, false, saved)
        }
    } else {
        let (x, y) = octant_cell(s, region, d, j);
        if !s.on_grid(x, y) {
            cast(s, region, d, j - 1, start, end, blocked, saved)
        } else if start.lt(right_slope(d, j)) {
            cast(s, region, d, j - 1, start, end, blocked, saved)
        } else if left_slope(d, j).lt(end) {
            cast(s, region, d, -1, start, end, blocked, saved)
        } else {
            let idx = s.index(x, y);
            let here = if d * d + j * j <= s.radius * s.radius {
                set![idx]
            } else {
                Set::empty()
            };
            if blocked {
                if s.opaque(idx) {
                    here + cast(s, region, d, j - 1, start, end, true, right_slope(d, j))
                } else {
                    here + cast(s, region, d, j - 1, saved, end, false, saved)
                }
            } else if s.opaque(idx) && d < s.radius {
                let inner = if start.lt(left_slope(d, j)) {
                    Set::empty()
                } else {
                    cast(
                        s,
                        region,
                        d + 1,
                        d + 1,
                        start,
                        left_slope(d, j),
                        false,
                        Slope { num: -1, den: 1 },
                    )
                };
                here + inner + cast(s, region, d, j - 1, start, end, true, right_slope(d, j))
            } else {
                here + cast(s, region, d, j - 1, start, end, false, saved)
            }
        }
    }
}

/// The cells lit by scanning the window from `start` to `end` of octant
/// `region` from depth `row` outwards. An empty window lights nothing.
pub open spec fn cast_window(s: Sight, region: int, row: int, start: Slope, end: Slope) -> Set<
    int,
> {
    if start.lt(end) {
        Set::empty()
    } else {
        cast(s, region, row, row, start, end, false, Slope { num: -1, den: 1 })
    }
}

/// The cells lit by the first `n` octants, each scanned from depth one with
/// its whole window, from slope one down to slope zero.
pub open spec fn octants(s: Sight, n: int) -> Set<int>
    decreases n,
{
    if n <= 0 {
        Set::empty()
    } else {
        octants(s, n - 1) + cast_window(
            s,
            n - 1,
            1,
            Slope { num: 1, den: 1 },
            Slope { num: 0, den: 1 },
        )
    }
}

/// The cells seen from the origin: the origin's own cell and what the eight
/// octants light.
pub open spec fn visible(s: Sight) -> Set<int> {
    octants(s, 8).insert(s.index(s.origin.0, s.origin.1))
}

/// What a visibility pass over these cells reads.
pub open spec fn sight_of(
    cells: Seq<RenderCell>,
    info: MapInfo,
    origin: (usize, usize),
    radius: u32,
    threshold: EntitySize,
) -> Sight {
    Sight {
        sizes: sizes_of(cells),
        columns: info.column_count as int,
        rows: info.row_count as int,
        origin: (origin.0 as int, origin.1 as int),
        radius: radius as int,
        threshold,
    }
}

/// A cell once light has fallen on it: lit now, and seen for good.
pub open spec fn marked(c: RenderCell) -> RenderCell {
    RenderCell { lit: true, visited: true, ..c }
}

/// The cells after light has fallen on those whose place is in `on`.
pub open spec fn light(cells: Seq<RenderCell>, on: Set<int>) -> Seq<RenderCell> {
    Seq::new(
        cells.len(),
        |i: int|
            if on.contains(i) {
                marked(cells[i])
            } else {
                cells[i]
            },
    )
}

/// The cells of a map after a visibility pass from `origin`.
pub open spec fn lit_after(
    cells: Seq<RenderCell>,
    info: MapInfo,
    origin: (usize, usize),
    radius: u32,
    threshold: EntitySize,
) -> Seq<RenderCell> {
    light(cells, visible(sight_of(cells, info, origin, radius, threshold)))
}

/// A slope held as two machine integers.
#[derive(Debug, Clone, Copy)]
pub struct Ratio {
    pub num: i64,
    pub den: i64,
}

impl View for Ratio {
    type V = Slope;

    open spec fn view(&self) -> Slope {
        Slope { num: self.num as int, den: self.den as int }
    }
}

impl Ratio {
    /// Decides whether `self` is strictly smaller than `other`.
    pub fn lt(&self, other: &Ratio) -> (r: bool)
        ensures
            r == self@.lt(other@),
    {
        let a: i128 = self.num as i128;
        let b: i128 = other.den as i128;
        let c: i128 = other.num as i128;
        let d: i128 = self.den as i128;
        assert(-0x4000_0000_0000_0000_0000_0000_0000_0000 <= a * b
            <= 0x4000_0000_0000_0000_0000_0000_0000_0000) by (nonlinear_arith)
            requires
                -0x8000_0000_0000_0000 <= a <= 0x8000_0000_0000_0000,
                -0x8000_0000_0000_0000 <= b <= 0x8000_0000_0000_0000,
        ;
        assert(-0x4000_0000_0000_0000_0000_0000_0000_0000 <= c * d
            <= 0x4000_0000_0000_0000_0000_0000_0000_0000) by (nonlinear_arith)
            requires
                -0x8000_0000_0000_0000 <= c <= 0x8000_0000_0000_0000,
                -0x8000_0000_0000_0000 <= d <= 0x8000_0000_0000_0000,
        ;
        a * b < c * d
    }

    /// The near edge of the cell at depth `d` and offset `j`, where both of
    /// its parts fit.
    pub fn left(d: i64, j: i64) -> (r: Ratio)
        requires
            i64::MIN <= 2 * j + 1 <= i64::MAX,
            i64::MIN <= 2 * d - 1 <= i64::MAX,
        ensures
            r@ == left_slope(d as int, j as int),
    {
        Ratio { num: (2 * (j as i128) + 1) as i64, den: (2 * (d as i128) - 1) as i64 }
    }

    /// The far edge of the cell at depth `d` and offset `j`, where both of
    /// its parts fit.
    pub fn right(d: i64, j: i64) -> (r: Ratio)
        requires
            i64::MIN <= 2 * j - 1 <= i64::MAX,
            i64::MIN <= 2 * d + 1 <= i64::MAX,
        ensures
            r@ == right_slope(d as int, j as int),
    {
        Ratio { num: (2 * (j as i128) - 1) as i64, den: (2 * (d as i128) + 1) as i64 }
    }
}

/// What one octant scan carries along: the radius, the octant's four
/// multipliers, the viewer's square and the shape of the grid.
struct ShadowData {
    radius: i64,
    xx: i64,
    xy: i64,
    yx: i64,
    yy: i64,
    view_x: i64,
    view_y: i64,
    column_count: i64,
    row_count: i64,
    threshold: EntitySize,
}

impl ShadowData {
    /// The fields say what `s` and `region` say.
    spec fn matches(&self, s: Sight, region: int) -> bool {
        &&& 0 <= region < 8
        &&& 1 <= self.radius <= u32::MAX
        &&& self.radius == s.radius
        &&& (self.xx as int, self.xy as int, self.yx as int, self.yy as int) == octant(region)
        &&& self.view_x == s.origin.0
        &&& self.view_y == s.origin.1
        &&& self.column_count == s.columns
        &&& self.row_count == s.rows
        &&& self.threshold == s.threshold
        &&& s.on_grid(s.origin.0, s.origin.1)
    }
}

/// The multipliers of octant `region`.
fn octant_multipliers(region: usize) -> (m: (i64, i64, i64, i64))
    requires
        region < 8,
    ensures
        (m.0 as int, m.1 as int, m.2 as int, m.3 as int) == octant(region as int),
{
    if region == 0 {
        (1, 0, 0, 1)
    } else if region == 1 {
        (0, 1, 1, 0)
    } else if region == 2 {
        (0, -1, 1, 0)
    } else if region == 3 {
        (-1, 0, 0, 1)
    } else if region == 4 {
        (-1, 0, 0, -1)
    } else if region == 5 {
        (0, -1, -1, 0)
    } else if region == 6 {
        (0, 1, -1, 0)
    } else {
        (1, 0, 0, -1)
    }
}

/// `v` times a multiplier that is `-1`, `0` or `1`.
fn scaled(v: i64, m: i64) -> (r: i64)
    requires
        -1 <= m <= 1,
        v > i64::MIN,
    ensures
        r == v * m,
{
    assert(v * 1 == v && v * 0 == 0 && v * (-1) == -v) by (nonlinear_arith);
    if m == 1 {
        v
    } else if m == 0 {
        0
    } else {
        -v
    }
}

/// Lighting a set of cells leaves every occupant as it was.
pub proof fn lemma_light_keeps_sizes(
    cells: Seq<RenderCell>,
    on: Set<int>,
    info: MapInfo,
    origin: (usize, usize),
    radius: u32,
    threshold: EntitySize,
)
    ensures
        sight_of(light(cells, on), info, origin, radius, threshold) == sight_of(
            cells,
            info,
            origin,
            radius,
            threshold,
        ),
{
    assert(sight_of(light(cells, on), info, origin, radius, threshold).sizes =~= sight_of(
        cells,
        info,
        origin,
        radius,
        threshold,
    ).sizes);
}

/// Lighting two sets in turn is lighting their union.
pub proof fn lemma_light_twice(cells: Seq<RenderCell>, a: Set<int>, b: Set<int>)
    ensures
        light(light(cells, a), b) == light(cells, a + b),
{
    assert(light(light(cells, a), b) =~= light(cells, a + b));
}

/// Scans the window from `start` to `end` of one octant from depth `row`
/// outwards and lights what it sees.
#[verifier::rlimit(40)]
fn recursive_shadowcasting(
    game_map: &mut GameMap,
    shadow_data: &ShadowData,
    row: i64,
    start: Ratio,
    end: Ratio,
    Ghost(s): Ghost<Sight>,
    Ghost(region): Ghost<int>,
)
    requires
        old(game_map).well_formed(),
        shadow_data.matches(s, region),
        s.sizes == old(game_map).sizes(),
        s.columns == old(game_map).map_info.column_count,
        s.rows == old(game_map).map_info.row_count,
        1 <= row <= shadow_data.radius,
    ensures
        final(game_map).map_info == old(game_map).map_info,
        final(game_map).terrain_map == old(game_map).terrain_map,
        final(game_map).render_map@ == light(
            old(game_map).render_map@,
            cast_window(s, region, row as int, start@, end@),
        ),
    decreases shadow_data.radius - row,
{
    let ghost cells0 = game_map.render_map@;
    if start.lt(&end) {
        assert(light(cells0, Set::<int>::empty()) =~= cells0);
        return ;
    }
    let ghost total = cast(s, region, row as int, row as int, start@, end@, false, Slope { num: -1, den: 1 });
    let ghost mut done: Set<int> = Set::empty();
    let mut left_view_slope: Ratio = start;
    let mut prev_was_blocked: bool = false;
    let mut saved_right_slope: Ratio = Ratio { num: -1, den: 1 };
    let mut cur_col: i64 = row;
    assert(light(cells0, done) =~= cells0);
    while cur_col <= shadow_data.radius && !prev_was_blocked
        invariant
            game_map.well_formed(),
            game_map.map_info == old(game_map).map_info,
            game_map.terrain_map == old(game_map).terrain_map,
            shadow_data.matches(s, region),
            s.sizes == sizes_of(cells0),
            s.columns == game_map.map_info.column_count,
            s.rows == game_map.map_info.row_count,
            1 <= row <= cur_col <= shadow_data.radius + 1,
            game_map.render_map@ == light(cells0, done),
            done + (if prev_was_blocked {
                Set::<int>::empty()
            } else {
                cast(
                    s,
                    region,
                    cur_col as int,
                    cur_col as int,
                    left_view_slope@,
                    end@,
                    false,
                    saved_right_slope@,
                )
            }) == total,
        decreases shadow_data.radius + 1 - cur_col,
    {
        let mut j: i64 = cur_col;
        while j >= 0
            invariant
                game_map.well_formed(),
                game_map.map_info == old(game_map).map_info,
                game_map.terrain_map == old(game_map).terrain_map,
                shadow_data.matches(s, region),
                s.sizes == sizes_of(cells0),
                s.columns == game_map.map_info.column_count,
                s.rows == game_map.map_info.row_count,
                1 <= row <= cur_col <= shadow_data.radius,
                -1 <= j <= cur_col,
                game_map.render_map@ == light(cells0, done),
                done + cast(
                    s,
                    region,
                    cur_col as int,
                    j as int,
                    left_view_slope@,
                    end@,
                    prev_was_blocked,
                    saved_right_slope@,
                ) == total,
            decreases j + 1,
        {
            let grid_x: i128 = shadow_data.view_x as i128 - scaled(j, shadow_data.xx) as i128
                - scaled(cur_col, shadow_data.xy) as i128;
            let grid_y: i128 = shadow_data.view_y as i128 - scaled(j, shadow_data.yx) as i128
                - scaled(cur_col, shadow_data.yy) as i128;
            assert((grid_x as int, grid_y as int) == octant_cell(s, region, cur_col as int, j as int));
            if grid_x < 0 || grid_x >= shadow_data.column_count as i128 || grid_y < 0 || grid_y
                >= shadow_data.row_count as i128 {
                j = j - 1;
            } else {
                let left_block_slope = Ratio::left(cur_col, j);
                let right_block_slope = Ratio::right(cur_col, j);
                if left_view_slope.lt(&right_block_slope) {
                    j = j - 1;
                } else if left_block_slope.lt(&end) {
                    j = -1;
                } else {
                    proof {
                        lemma_index_in_range(game_map, grid_x as int, grid_y as int);
                        assert(shadow_data.column_count * grid_y >= 0) by (nonlinear_arith)
                            requires
                                shadow_data.column_count >= 0,
                                grid_y >= 0,
                        ;
                    }
                    let cel_ind: usize = (grid_x + shadow_data.column_count as i128 * grid_y) as usize;
                    let wide_col: i128 = cur_col as i128;
                    let wide_j: i128 = j as i128;
                    let wide_radius: i128 = shadow_data.radius as i128;
                    assert(0 <= wide_col * wide_col <= 0x1_0000_0000_0000_0000) by (nonlinear_arith)
                        requires
                            0 <= wide_col <= 0xffff_ffff,
                    ;
                    assert(0 <= wide_j * wide_j <= 0x1_0000_0000_0000_0000) by (nonlinear_arith)
                        requires
                            0 <= wide_j <= 0xffff_ffff,
                    ;
                    assert(0 <= wide_radius * wide_radius <= 0x1_0000_0000_0000_0000)
                        by (nonlinear_arith)
                        requires
                            0 <= wide_radius <= 0xffff_ffff,
                    ;
                    let distance_squared: i128 = wide_col * wide_col + wide_j * wide_j;
                    if distance_squared <= wide_radius * wide_radius {
                        let cell: RenderCell = game_map.render_map[cel_ind];
                        game_map.render_map.set(
                            cel_ind,
                            RenderCell { lit: true, visited: true, ..cell },
                        );
                        proof {
                            assert(game_map.render_map@ =~= light(cells0, done.insert(cel_ind as int)));
                            done = done.insert(cel_ind as int);
                        }
                    }
                    let cur_blocked: bool = !game_map.render_map[cel_ind].ent_size.below(
                        shadow_data.threshold,
                    );
                    assert(cur_blocked == s.opaque(cel_ind as int));
                    if prev_was_blocked {
                        if cur_blocked {
                            saved_right_slope = right_block_slope;
                        } else {
                            prev_was_blocked = false;
                            left_view_slope = saved_right_slope;
                        }
                    } else {
                        if cur_blocked && cur_col < shadow_data.radius {
                            proof {
                                assert(sizes_of(game_map.render_map@) =~= sizes_of(cells0));
                            }
                            recursive_shadowcasting(
                                game_map,
                                shadow_data,
                                cur_col + 1,
                                left_view_slope,
                                left_block_slope,
                                Ghost(s),
                                Ghost(region),
                            );
                            proof {
                                let inner = cast_window(
                                    s,
                                    region,
                                    cur_col + 1,
                                    left_view_slope@,
                                    left_block_slope@,
                                );
                                lemma_light_twice(cells0, done, inner);
                                done = done + inner;
                            }
                            prev_was_blocked = true;
                            saved_right_slope = right_block_slope;
                        }
                    }
                    j = j - 1;
                }
            }
        }
        cur_col = cur_col + 1;
    }
    assert(done =~= total);
}

/// Lights every cell that can be seen from `origin` within `radius`, and
/// marks it as visited. Light is only ever added: a cell that was lit or
/// visited before stays so, and nothing else about any cell changes.
///
/// A map that is not well formed, an origin off the grid, or a radius of
/// zero is refused, and the map is then left as it was.
pub fn compute_visibility(
    game_map: &mut GameMap,
    origin: (usize, usize),
    radius: u32,
    threshold: EntitySize,
) -> (r: Result<(), MapError>)
    ensures
        final(game_map).map_info == old(game_map).map_info,
        final(game_map).terrain_map == old(game_map).terrain_map,
        final(game_map).render_map@.len() == old(game_map).render_map@.len(),
        !old(game_map).well_formed() ==> r == Err::<(), MapError>(MapError::MalformedMap),
        old(game_map).well_formed() && !old(game_map).spec_in_bounds(
            origin.0 as int,
            origin.1 as int,
        ) ==> r == Err::<(), MapError>(MapError::OutOfBounds),
        old(game_map).well_formed() && old(game_map).spec_in_bounds(
            origin.0 as int,
            origin.1 as int,
        ) && radius == 0 ==> r == Err::<(), MapError>(MapError::InvalidRadius),
        old(game_map).well_formed() && old(game_map).spec_in_bounds(
            origin.0 as int,
            origin.1 as int,
        ) && radius >= 1 ==> r == Ok::<(), MapError>(()),
        r is Err ==> final(game_map).render_map@ == old(game_map).render_map@,
        r is Ok ==> final(game_map).render_map@ == lit_after(
            old(game_map).render_map@,
            old(game_map).map_info,
            origin,
            radius,
            threshold,
        ),
        forall|i: int|
            0 <= i < old(game_map).render_map@.len() && (#[trigger] old(
                game_map,
            ).render_map@[i]).visited ==> final(game_map).render_map@[i].visited,
{
    if !game_map.is_well_formed() {
        return Err(MapError::MalformedMap);
    }
    if origin.0 >= game_map.map_info.column_count || origin.1 >= game_map.map_info.row_count {
        return Err(MapError::OutOfBounds);
    }
    if radius == 0 {
        return Err(MapError::InvalidRadius);
    }
    let ghost cells0 = game_map.render_map@;
    let ghost s = sight_of(cells0, game_map.map_info, origin, radius, threshold);
    proof {
        lemma_index_in_range(game_map, origin.0 as int, origin.1 as int);
        assert(game_map.map_info.column_count * origin.1 >= 0) by (nonlinear_arith);
    }
    let ind: usize = origin.0 + game_map.map_info.column_count * origin.1;
    let cell: RenderCell = game_map.render_map[ind];
    game_map.render_map.set(ind, RenderCell { lit: true, visited: true, ..cell });
    assert(game_map.render_map@ =~= light(cells0, Set::<int>::empty().insert(ind as int)));
    let mut region: usize = 0;
    while region < 8
        invariant
            region <= 8,
            radius >= 1,
            game_map.well_formed(),
            game_map.map_info == old(game_map).map_info,
            game_map.terrain_map == old(game_map).terrain_map,
            s == sight_of(cells0, game_map.map_info, origin, radius, threshold),
            s.on_grid(origin.0 as int, origin.1 as int),
            ind == s.index(s.origin.0, s.origin.1),
            game_map.render_map@ == light(cells0, octants(s, region as int).insert(ind as int)),
        decreases 8 - region,
    {
        proof {
            lemma_index_in_range(game_map, origin.0 as int, origin.1 as int);
        }
        let m = octant_multipliers(region);
        let shadow_data = ShadowData {
            radius: radius as i64,
            xx: m.0,
            xy: m.1,
            yx: m.2,
            yy: m.3,
            view_x: origin.0 as i64,
            view_y: origin.1 as i64,
            column_count: game_map.map_info.column_count as i64,
            row_count: game_map.map_info.row_count as i64,
            threshold,
        };
        let ghost lit_so_far = octants(s, region as int).insert(ind as int);
        let ghost window = cast_window(
            s,
            region as int,
            1,
            Slope { num: 1, den: 1 },
            Slope { num: 0, den: 1 },
        );
        proof {
            assert(sizes_of(game_map.render_map@) =~= sizes_of(cells0));
        }
        recursive_shadowcasting(
            game_map,
            &shadow_data,
            1,
            Ratio { num: 1, den: 1 },
            Ratio { num: 0, den: 1 },
            Ghost(s),
            Ghost(region as int),
        );
        proof {
            lemma_light_twice(cells0, lit_so_far, window);
            assert(lit_so_far + window =~= octants(s, region + 1).insert(ind as int));
        }
        region = region + 1;
    }
    Ok(())
}

/// Lights what can be seen from `view_point` at the usual radius, past
/// everything larger than `Small`: `compute_visibility` with the usual
/// radius and sight threshold.
pub fn fov(game_map: &mut GameMap, view_point: (usize, usize)) -> (r: Result<(), MapError>)
    ensures
        final(game_map).map_info == old(game_map).map_info,
        final(game_map).terrain_map == old(game_map).terrain_map,
        !old(game_map).well_formed() ==> r == Err::<(), MapError>(MapError::MalformedMap),
        old(game_map).well_formed() && !old(game_map).spec_in_bounds(
            view_point.0 as int,
            view_point.1 as int,
        ) ==> r == Err::<(), MapError>(MapError::OutOfBounds),
        old(game_map).well_formed() && old(game_map).spec_in_bounds(
            view_point.0 as int,
            view_point.1 as int,
        ) ==> r == Ok::<(), MapError>(()),
        r is Err ==> final(game_map).render_map@ == old(game_map).render_map@,
        r is Ok ==> final(game_map).render_map@ == lit_after(
            old(game_map).render_map@,
            old(game_map).map_info,
            view_point,
            sight_radius(),
            sight_threshold(),
        ),
{
    compute_visibility(game_map, view_point, sight_radius(), sight_threshold())
}

/// A second visibility pass with the same origin, radius and threshold
/// changes nothing: the cells after two passes are the cells after one.
pub proof fn lemma_visibility_idempotent(
    cells: Seq<RenderCell>,
    info: MapInfo,
    origin: (usize, usize),
    radius: u32,
    threshold: EntitySize,
)
    ensures
        lit_after(lit_after(cells, info, origin, radius, threshold), info, origin, radius, threshold)
            == lit_after(cells, info, origin, radius, threshold),
{
    let seen = visible(sight_of(cells, info, origin, radius, threshold));
    lemma_light_keeps_sizes(cells, seen, info, origin, radius, threshold);
    lemma_light_twice(cells, seen, seen);
    assert(seen + seen =~= seen);
}

/// What a pass lights depends on the occupants alone: two maps of one shape
/// whose cells hold the same occupants, whatever was lit or visited on
/// either, have the same cells lit once no light is left over from before.
pub proof fn lemma_lit_set_is_determined(
    a: Seq<RenderCell>,
    b: Seq<RenderCell>,
    info: MapInfo,
    origin: (usize, usize),
    radius: u32,
    threshold: EntitySize,
)
    requires
        sizes_of(a) == sizes_of(b),
        forall|i: int| 0 <= i < a.len() ==> !(#[trigger] a[i]).lit,
        forall|i: int| 0 <= i < b.len() ==> !(#[trigger] b[i]).lit,
    ensures
        a.len() == b.len(),
        forall|i: int|
            0 <= i < a.len() ==> (#[trigger] lit_after(a, info, origin, radius, threshold)[i]).lit
                == lit_after(b, info, origin, radius, threshold)[i].lit,
        forall|i: int|
            0 <= i < a.len() ==> (#[trigger] lit_after(a, info, origin, radius, threshold)[i]).lit
                == visible(sight_of(a, info, origin, radius, threshold)).contains(i),
{
    assert(sizes_of(a).len() == a.len());
    assert(sizes_of(b).len() == b.len());
}

/// A visibility pass never takes anything back: every cell that was lit
/// stays lit, every cell that was visited stays visited, and every cell
/// that is lit afterwards is visited.
pub proof fn lemma_visited_only_grows(
    cells: Seq<RenderCell>,
    info: MapInfo,
    origin: (usize, usize),
    radius: u32,
    threshold: EntitySize,
)
    ensures
        lit_after(cells, info, origin, radius, threshold).len() == cells.len(),
        forall|i: int|
            0 <= i < cells.len() && (#[trigger] cells[i]).visited ==> lit_after(
                cells,
                info,
                origin,
                radius,
                threshold,
            )[i].visited,
        forall|i: int|
            0 <= i < cells.len() && (#[trigger] cells[i]).lit ==> lit_after(
                cells,
                info,
                origin,
                radius,
                threshold,
            )[i].lit,
        forall|i: int|
            0 <= i < cells.len() && (#[trigger] lit_after(
                cells,
                info,
                origin,
                radius,
                threshold,
            )[i]).lit && !cells[i].lit ==> lit_after(cells, info, origin, radius, threshold)[i].visited,
{
}

/// The sight is that of a grid: the grid has a positive shape and one size
/// per cell, the viewer stands on it, and the radius is not negative.
pub open spec fn shaped(s: Sight) -> bool {
    &&& s.columns > 0
    &&& s.rows > 0
    &&& s.sizes.len() == s.columns * s.rows
    &&& s.on_grid(s.origin.0, s.origin.1)
    &&& s.radius >= 0
}

/// The cell at `idx` is a cell of the grid no further from the viewer than
/// the radius, measured in a straight line.
pub open spec fn in_disc(s: Sight, idx: int) -> bool {
    let x = idx % s.columns;
    let y = idx / s.columns;
    &&& 0 <= idx < s.columns * s.rows
    &&& (x - s.origin.0) * (x - s.origin.0) + (y - s.origin.1) * (y - s.origin.1) <= s.radius
        * s.radius
}

/// Nothing on the grid stops sight.
pub open spec fn clear(s: Sight) -> bool {
    forall|idx: int| 0 <= idx < s.sizes.len() ==> !#[trigger] s.opaque(idx)
}

/// A square of the grid and its place in the row-major storage name each
/// other.
proof fn lemma_grid_index(s: Sight, x: int, y: int)
    requires
        s.columns > 0,
        s.rows > 0,
        s.on_grid(x, y),
    ensures
        0 <= s.index(x, y) < s.columns * s.rows,
        s.index(x, y) % s.columns == x,
        s.index(x, y) / s.columns == y,
{
    let c = s.columns;
    let r = s.rows;
    assert(c * y <= c * (r - 1)) by (nonlinear_arith)
        requires
            0 <= y <= r - 1,
            c > 0,
    ;
    assert(c * (r - 1) == c * r - c) by (nonlinear_arith);
    assert(0 <= c * y) by (nonlinear_arith)
        requires
            0 <= y,
            c > 0,
    ;
    vstd::arithmetic::div_mod::lemma_fundamental_div_mod_converse(x + c * y, c, y, x);
}

/// A place in the storage of the grid names a square of the grid.
proof fn lemma_index_grid(s: Sight, idx: int)
    requires
        s.columns > 0,
        s.rows > 0,
        0 <= idx < s.columns * s.rows,
    ensures
        s.on_grid(idx % s.columns, idx / s.columns),
        s.index(idx % s.columns, idx / s.columns) == idx,
{
    let c = s.columns;
    let r = s.rows;
    vstd::arithmetic::div_mod::lemma_fundamental_div_mod(idx, c);
    vstd::arithmetic::div_mod::lemma_mod_bound(idx, c);
    if idx / c >= r {
        assert(c * (idx / c) >= c * r) by (nonlinear_arith)
            requires
                idx / c >= r,
                c > 0,
        ;
    }
    if idx / c < 0 {
        assert(c * (idx / c) <= -c) by (nonlinear_arith)
            requires
                idx / c <= -1,
                c > 0,
        ;
    }
}

/// The square at depth `d` and offset `j` of an octant lies `d` squares from
/// the viewer along one axis and `j` along the other.
proof fn lemma_octant_distance(s: Sight, region: int, d: int, j: int)
    ensures
        ({
            let (x, y) = octant_cell(s, region, d, j);
            (x - s.origin.0) * (x - s.origin.0) + (y - s.origin.1) * (y - s.origin.1) == d * d + j
                * j
        }),
{
    let (x, y) = octant_cell(s, region, d, j);
    let dx = x - s.origin.0;
    let dy = y - s.origin.1;
    assert((-j) * (-j) == j * j) by (nonlinear_arith);
    assert((-d) * (-d) == d * d) by (nonlinear_arith);
    let m = octant(region);
    assert(j * 1 == j && j * 0 == 0 && j * (-1) == -j && d * 1 == d && d * 0 == 0 && d * (-1)
        == -d) by (nonlinear_arith);
    if region == 1 || region == 2 || region == 5 || region == 6 {
        assert(dx == d || dx == -d);
        assert(dy == j || dy == -j);
        assert(dx * dx == d * d);
        assert(dy * dy == j * j);
    } else {
        assert(dx == j || dx == -j);
        assert(dy == d || dy == -d);
        assert(dx * dx == j * j);
        assert(dy * dy == d * d);
    }
}

/// Whatever a scan lights is a cell of the grid within the radius.
pub proof fn lemma_cast_in_disc(
    s: Sight,
    region: int,
    d: int,
    j: int,
    start: Slope,
    end: Slope,
    blocked: bool,
    saved: Slope,
)
    requires
        shaped(s),
    ensures
        forall|idx: int|
            cast(s, region, d, j, start, end, blocked, saved).contains(idx) ==> in_disc(s, idx),
    decreases s.radius + 1 - d, j + 1,
{
    if d < 1 || d > s.radius || j > d {
    } else if j < 0 {
        if !blocked {
            lemma_cast_in_disc(s, region, d + 1, d + 1, start, end, false, saved);
        }
    } else {
        let (x, y) = octant_cell(s, region, d, j);
        if !s.on_grid(x, y) {
            lemma_cast_in_disc(s, region, d, j - 1, start, end, blocked, saved);
        } else if start.lt(right_slope(d, j)) {
            lemma_cast_in_disc(s, region, d, j - 1, start, end, blocked, saved);
        } else if left_slope(d, j).lt(end) {
            lemma_cast_in_disc(s, region, d, -1, start, end, blocked, saved);
        } else {
            let idx = s.index(x, y);
            lemma_grid_index(s, x, y);
            lemma_octant_distance(s, region, d, j);
            if blocked {
                if s.opaque(idx) {
                    lemma_cast_in_disc(s, region, d, j - 1, start, end, true, right_slope(d, j));
                } else {
                    lemma_cast_in_disc(s, region, d, j - 1, saved, end, false, saved);
                }
            } else if s.opaque(idx) && d < s.radius {
                if !start.lt(left_slope(d, j)) {
                    lemma_cast_in_disc(
                        s,
                        region,
                        d + 1,
                        d + 1,
                        start,
                        left_slope(d, j),
                        false,
                        Slope { num: -1, den: 1 },
                    );
                }
                lemma_cast_in_disc(s, region, d, j - 1, start, end, true, right_slope(d, j));
            } else {
                lemma_cast_in_disc(s, region, d, j - 1, start, end, false, saved);
            }
        }
    }
}

/// Whatever the first `n` octants light is a cell of the grid within the
/// radius.
proof fn lemma_octants_in_disc(s: Sight, n: int)
    requires
        shaped(s),
    ensures
        forall|idx: int| octants(s, n).contains(idx) ==> in_disc(s, idx),
    decreases n,
{
    if n > 0 {
        lemma_octants_in_disc(s, n - 1);
        lemma_cast_in_disc(
            s,
            n - 1,
            1,
            1,
            Slope { num: 1, den: 1 },
            Slope { num: 0, den: 1 },
            false,
            Slope { num: -1, den: 1 },
        );
    }
}

/// Sight never reaches beyond the radius or off the grid: every cell seen
/// is a cell of the grid no further from the viewer than the radius.
pub proof fn lemma_visible_in_disc(s: Sight)
    requires
        shaped(s),
    ensures
        forall|idx: int| visible(s).contains(idx) ==> in_disc(s, idx),
{
    lemma_octants_in_disc(s, 8);
    lemma_grid_index(s, s.origin.0, s.origin.1);
    assert(0 <= s.radius * s.radius) by (nonlinear_arith);
}

/// The cell at depth `d2`, offset `j2` comes at or after the cell at depth
/// `d`, offset `j` in the order in which a scan visits the cells of an
/// octant out to the radius.
pub open spec fn scanned_from(s: Sight, d: int, j: int, d2: int, j2: int) -> bool {
    ||| d2 == d && 0 <= j2 <= j
    ||| d < d2 <= s.radius && 0 <= j2 <= d2
}

/// On a grid where nothing stops sight, a scan with the whole window open
/// lights every cell of the grid within the radius that it has yet to
/// visit.
proof fn lemma_cast_clear(s: Sight, region: int, d: int, j: int, saved: Slope)
    requires
        shaped(s),
        clear(s),
        1 <= d <= s.radius,
        -1 <= j <= d,
    ensures
        forall|d2: int, j2: int|
            #![trigger octant_cell(s, region, d2, j2)]
            scanned_from(s, d, j, d2, j2) && s.on_grid(
                octant_cell(s, region, d2, j2).0,
                octant_cell(s, region, d2, j2).1,
            ) && d2 * d2 + j2 * j2 <= s.radius * s.radius ==> cast(
                s,
                region,
                d,
                j,
                Slope { num: 1, den: 1 },
                Slope { num: 0, den: 1 },
                false,
                saved,
            ).contains(
                s.index(octant_cell(s, region, d2, j2).0, octant_cell(s, region, d2, j2).1),
            ),
    decreases s.radius + 1 - d, j + 1,
{
    let one = Slope { num: 1, den: 1 };
    let zero = Slope { num: 0, den: 1 };
    if j < 0 {
        if d + 1 <= s.radius {
            lemma_cast_clear(s, region, d + 1, d + 1, saved);
        }
    } else {
        let (x, y) = octant_cell(s, region, d, j);
        lemma_cast_clear(s, region, d, j - 1, saved);
        assert(!one.lt(right_slope(d, j)));
        assert(!left_slope(d, j).lt(zero));
        if s.on_grid(x, y) {
            lemma_grid_index(s, x, y);
            assert(!s.opaque(s.index(x, y)));
        }
        assert forall|d2: int, j2: int|
            #![trigger octant_cell(s, region, d2, j2)]
            scanned_from(s, d, j, d2, j2) && s.on_grid(
                octant_cell(s, region, d2, j2).0,
                octant_cell(s, region, d2, j2).1,
            ) && d2 * d2 + j2 * j2 <= s.radius * s.radius implies cast(
            s,
            region,
            d,
            j,
            one,
            zero,
            false,
            saved,
        ).contains(
            s.index(octant_cell(s, region, d2, j2).0, octant_cell(s, region, d2, j2).1),
        ) by {
            if d2 == d && j2 == j {
            } else {
                assert(scanned_from(s, d, j - 1, d2, j2));
            }
        }
    }
}

/// Each octant's share is part of what the octants light together.
proof fn lemma_octants_hold(s: Sight, n: int, region: int)
    requires
        0 <= region < n,
    ensures
        forall|idx: int|
            cast_window(s, region, 1, Slope { num: 1, den: 1 }, Slope { num: 0, den: 1 }).contains(
                idx,
            ) ==> octants(s, n).contains(idx),
    decreases n,
{
    let one = Slope { num: 1, den: 1 };
    let zero = Slope { num: 0, den: 1 };
    if region < n - 1 {
        lemma_octants_hold(s, n - 1, region);
    }
    assert(octants(s, n) == octants(s, n - 1) + cast_window(s, n - 1, 1, one, zero));
    assert forall|idx: int| cast_window(s, region, 1, one, zero).contains(idx) implies octants(
        s,
        n,
    ).contains(idx) by {
        if region < n - 1 {
            assert(octants(s, n - 1).contains(idx));
        }
    }
}

/// Some octant holds the square that lies `dx` across and `dy` down from
/// the viewer, at the depth of the longer of the two and the offset of the
/// shorter.
proof fn lemma_octant_covers(s: Sight, dx: int, dy: int) -> (r: (int, int, int))
    requires
        dx != 0 || dy != 0,
    ensures
        0 <= r.0 < 8,
        1 <= r.1,
        0 <= r.2 <= r.1,
        octant_cell(s, r.0, r.1, r.2) == (s.origin.0 + dx, s.origin.1 + dy),
        r.1 * r.1 + r.2 * r.2 == dx * dx + dy * dy,
{
    let ax = if dx < 0 {
        -dx
    } else {
        dx
    };
    let ay = if dy < 0 {
        -dy
    } else {
        dy
    };
    assert(ax * ax == dx * dx) by (nonlinear_arith)
        requires
            ax == dx || ax == -dx,
    ;
    assert(ay * ay == dy * dy) by (nonlinear_arith)
        requires
            ay == dy || ay == -dy,
    ;
    let steep = ay >= ax;
    let d = if steep {
        ay
    } else {
        ax
    };
    let j = if steep {
        ax
    } else {
        ay
    };
    let region: int = if steep {
        if dy < 0 {
            if dx <= 0 {
                0
            } else {
                3
            }
        } else {
            if dx <= 0 {
                7
            } else {
                4
            }
        }
    } else {
        if dx < 0 {
            if dy <= 0 {
                1
            } else {
                6
            }
        } else {
            if dy <= 0 {
                2
            } else {
                5
            }
        }
    };
    assert(j * 1 == j && j * 0 == 0 && j * (-1) == -j && d * 1 == d && d * 0 == 0 && d * (-1)
        == -d) by (nonlinear_arith);
    (region, d, j)
}

/// On a grid where nothing stops sight, everything within the radius is
/// seen: the cells seen are exactly the cells of the grid no further from
/// the viewer than the radius.
pub proof fn lemma_clear_grid_is_seen(s: Sight)
    requires
        shaped(s),
        clear(s),
        s.radius >= 1,
    ensures
        forall|idx: int| visible(s).contains(idx) <==> in_disc(s, idx),
{
    lemma_visible_in_disc(s);
    let one = Slope { num: 1, den: 1 };
    let zero = Slope { num: 0, den: 1 };
    assert forall|idx: int| in_disc(s, idx) implies visible(s).contains(idx) by {
        let x = idx % s.columns;
        let y = idx / s.columns;
        lemma_index_grid(s, idx);
        let dx = x - s.origin.0;
        let dy = y - s.origin.1;
        if dx != 0 || dy != 0 {
            let (region, d, j) = lemma_octant_covers(s, dx, dy);
            assert(d <= s.radius) by (nonlinear_arith)
                requires
                    d * d + j * j <= s.radius * s.radius,
                    d >= 1,
                    s.radius >= 1,
            ;
            lemma_cast_clear(s, region, 1, 1, Slope { num: -1, den: 1 });
            assert(scanned_from(s, 1, 1, d, j));
            assert(octant_cell(s, region, d, j) == (x, y));
            assert(cast(s, region, 1, 1, one, zero, false, Slope { num: -1, den: 1 }).contains(
                s.index(octant_cell(s, region, d, j).0, octant_cell(s, region, d, j).1),
            ));
            assert(!one.lt(zero));
            assert(cast_window(s, region, 1, one, zero).contains(idx));
            lemma_octants_hold(s, 8, region);
        }
    }
}

/// The sight over the cells of a well-formed map from a square of its grid
/// is that of a grid.
pub proof fn lemma_sight_is_shaped(
    map: &GameMap,
    origin: (usize, usize),
    radius: u32,
    threshold: EntitySize,
)
    requires
        map.well_formed(),
        map.spec_in_bounds(origin.0 as int, origin.1 as int),
    ensures
        shaped(sight_of(map.render_map@, map.map_info, origin, radius, threshold)),
{
}

/// The cell at `idx` is a cell of the grid that octant `region` holds at
/// some depth, off the octant's straight edge if `strict` is set.
pub open spec fn reached(s: Sight, region: int, idx: int, strict: bool) -> bool {
    exists|d: int, j: int|
        #![trigger octant_cell(s, region, d, j)]
        1 <= d && (if strict {
            1int
        } else {
            0int
        }) <= j <= d && s.on_grid(octant_cell(s, region, d, j).0, octant_cell(s, region, d, j).1)
            && idx == s.index(octant_cell(s, region, d, j).0, octant_cell(s, region, d, j).1)
}

/// The depth and offset at which an octant holds a cell that it reaches.
proof fn lemma_reached_at(s: Sight, region: int, idx: int, strict: bool) -> (r: (int, int))
    requires
        reached(s, region, idx, strict),
    ensures
        1 <= r.0,
        0 <= r.1 <= r.0,
        strict ==> 1 <= r.1,
        s.on_grid(octant_cell(s, region, r.0, r.1).0, octant_cell(s, region, r.0, r.1).1),
        idx == s.index(octant_cell(s, region, r.0, r.1).0, octant_cell(s, region, r.0, r.1).1),
{
    choose|d: int, j: int|
        #![trigger octant_cell(s, region, d, j)]
        1 <= d && (if strict {
            1int
        } else {
            0int
        }) <= j <= d && s.on_grid(octant_cell(s, region, d, j).0, octant_cell(s, region, d, j).1)
            && idx == s.index(octant_cell(s, region, d, j).0, octant_cell(s, region, d, j).1)
}

/// A window ends above the straight edge of the octant from depth `d` on:
/// the near edge of every cell at offset zero lies below the window.
pub open spec fn ends_above_edge(end: Slope, d: int) -> bool {
    end.den > 0 && end.num * (2 * d - 1) > end.den
}

/// Whatever a scan lights is a cell of its octant. A scan from the second
/// depth on whose window ends above the straight edge of the octant lights
/// nothing on that edge, and neither does any scan that it opens.
proof fn lemma_cast_reaches(
    s: Sight,
    region: int,
    d: int,
    j: int,
    start: Slope,
    end: Slope,
    blocked: bool,
    saved: Slope,
    strict: bool,
)
    requires
        strict ==> d >= 2 && ends_above_edge(end, d),
    ensures
        forall|idx: int|
            cast(s, region, d, j, start, end, blocked, saved).contains(idx) ==> reached(
                s,
                region,
                idx,
                strict,
            ),
    decreases s.radius + 1 - d, j + 1,
{
    if d < 1 || d > s.radius || j > d {
    } else {
        if strict {
            assert(end.num > 0) by (nonlinear_arith)
                requires
                    end.num * (2 * d - 1) > end.den,
                    end.den > 0,
                    d >= 2,
            ;
            assert(ends_above_edge(end, d + 1)) by (nonlinear_arith)
                requires
                    end.num * (2 * d - 1) > end.den,
                    end.den > 0,
                    end.num > 0,
            ;
        }
        if j < 0 {
            if !blocked {
                lemma_cast_reaches(s, region, d + 1, d + 1, start, end, false, saved, strict);
            }
        } else {
            let (x, y) = octant_cell(s, region, d, j);
            if !s.on_grid(x, y) {
                lemma_cast_reaches(s, region, d, j - 1, start, end, blocked, saved, strict);
            } else if start.lt(right_slope(d, j)) {
                lemma_cast_reaches(s, region, d, j - 1, start, end, blocked, saved, strict);
            } else if left_slope(d, j).lt(end) {
                lemma_cast_reaches(s, region, d, -1, start, end, blocked, saved, strict);
            } else {
                let idx = s.index(x, y);
                if strict {
                    if j == 0 {
                        assert((2 * 0 + 1) * end.den == end.den) by (nonlinear_arith);
                        assert(left_slope(d, 0).lt(end));
                    }
                    assert(j >= 1);
                    assert(ends_above_edge(left_slope(d, j), d + 1)) by (nonlinear_arith)
                        requires
                            j >= 1,
                            d >= 2,
                            left_slope(d, j).num == 2 * j + 1,
                            left_slope(d, j).den == 2 * d - 1,
                    ;
                }
                assert(reached(s, region, idx, strict)) by {
                    assert(s.on_grid(octant_cell(s, region, d, j).0, octant_cell(s, region, d, j).1));
                }
                if blocked {
                    if s.opaque(idx) {
                        lemma_cast_reaches(
                            s,
                            region,
                            d,
                            j - 1,
                            start,
                            end,
                            true,
                            right_slope(d, j),
                            strict,
                        );
                    } else {
                        lemma_cast_reaches(s, region, d, j - 1, saved, end, false, saved, strict);
                    }
                } else if s.opaque(idx) && d < s.radius {
                    if !start.lt(left_slope(d, j)) {
                        lemma_cast_reaches(
                            s,
                            region,
                            d + 1,
                            d + 1,
                            start,
                            left_slope(d, j),
                            false,
                            Slope { num: -1, den: 1 },
                            strict,
                        );
                    }
                    lemma_cast_reaches(
                        s,
                        region,
                        d,
                        j - 1,
                        start,
                        end,
                        true,
                        right_slope(d, j),
                        strict,
                    );
                } else {
                    lemma_cast_reaches(s, region, d, j - 1, start, end, false, saved, strict);
                }
            }
        }
    }
}

/// Where the cell next to the viewer on the straight edge of an octant is
/// opaque, the octant lights that cell and no other cell of the edge.
proof fn lemma_wall_on_edge(s: Sight, region: int)
    requires
        s.on_grid(octant_cell(s, region, 1, 0).0, octant_cell(s, region, 1, 0).1),
        s.opaque(s.index(octant_cell(s, region, 1, 0).0, octant_cell(s, region, 1, 0).1)),
    ensures
        forall|idx: int|
            cast_window(s, region, 1, Slope { num: 1, den: 1 }, Slope { num: 0, den: 1 }).contains(
                idx,
            ) ==> idx == s.index(octant_cell(s, region, 1, 0).0, octant_cell(s, region, 1, 0).1)
                || reached(s, region, idx, true),
{
    let one = Slope { num: 1, den: 1 };
    let zero = Slope { num: 0, den: 1 };
    let below = Slope { num: -1, den: 1 };
    let wall = s.index(octant_cell(s, region, 1, 0).0, octant_cell(s, region, 1, 0).1);
    let corner = s.index(octant_cell(s, region, 1, 1).0, octant_cell(s, region, 1, 1).1);
    if s.radius >= 1 {
        assert(right_slope(1, 0) == Slope { num: -1, den: 3 });
        assert(1 * 3 == 3 && (-1) * 1 == -1) by (nonlinear_arith);
        assert(!one.lt(right_slope(1, 0)));
        assert(!left_slope(1, 0).lt(zero));
        assert(!one.lt(right_slope(1, 1)));
        assert(!left_slope(1, 1).lt(zero));
        assert(one.lt(left_slope(1, 1)));
        assert(!one.lt(left_slope(1, 0)));
        assert(ends_above_edge(left_slope(1, 0), 2));
        lemma_cast_reaches(s, region, 2, 2, one, left_slope(1, 0), false, below, true);
        // The row ends on the opaque cell, lit or not by what came before.
        assert forall|before: bool, saved: Slope, idx: int| #[trigger]
            cast(s, region, 1, 0, one, zero, before, saved).contains(idx) implies idx == wall
            || reached(s, region, idx, true) by {
            assert(cast(s, region, 1, -1, one, zero, true, right_slope(1, 0)) =~= Set::<
                int,
            >::empty());
            if !before && s.radius == 1 {
                assert(cast(s, region, 1, -1, one, zero, false, saved) =~= cast(
                    s,
                    region,
                    2,
                    2,
                    one,
                    zero,
                    false,
                    saved,
                ));
                assert(cast(s, region, 2, 2, one, zero, false, saved) =~= Set::<int>::empty());
            }
        }
        let (x, y) = octant_cell(s, region, 1, 1);
        if s.on_grid(x, y) {
            assert(reached(s, region, corner, true)) by {
                assert(s.on_grid(octant_cell(s, region, 1, 1).0, octant_cell(s, region, 1, 1).1));
            }
        }
        assert forall|idx: int| cast(s, region, 1, 1, one, zero, false, below).contains(
            idx,
        ) implies idx == wall || reached(s, region, idx, true) by {
            if !s.on_grid(x, y) {
                assert(cast(s, region, 1, 0, one, zero, false, below).contains(idx));
            } else if s.opaque(corner) && 1 < s.radius {
                assert(idx == corner || cast(
                    s,
                    region,
                    1,
                    0,
                    one,
                    zero,
                    true,
                    right_slope(1, 1),
                ).contains(idx));
            } else {
                assert(idx == corner || cast(s, region, 1, 0, one, zero, false, below).contains(
                    idx,
                ));
            }
        }
    }
}

/// A cell on the straight edge of an octant, two or more squares from the
/// viewer, is no cell that any octant holds off that edge, and no cell of
/// an octant that looks another way.
proof fn lemma_edge_cell_differs(s: Sight, region: int, d: int, other: int, d2: int, j2: int)
    requires
        0 <= region < 8,
        0 <= other < 8,
        d >= 2,
        d2 >= 1,
        0 <= j2 <= d2,
        octant(region).1 == octant(other).1 && octant(region).3 == octant(other).3 ==> j2 >= 1
            || d2 == 1,
    ensures
        octant_cell(s, region, d, 0) != octant_cell(s, other, d2, j2),
{
    assert(j2 * 1 == j2 && j2 * 0 == 0 && j2 * (-1) == -j2 && d2 * 1 == d2 && d2 * 0 == 0 && d2 * (
    -1) == -d2 && d * 1 == d && d * 0 == 0 && d * (-1) == -d && 0 * 1 == 0 && 0 * 0 == 0 && 0
        * (-1) == 0) by (nonlinear_arith);
}

/// Whatever the first `n` octants light is lit by one of them.
proof fn lemma_octants_split(s: Sight, n: int, idx: int) -> (region: int)
    requires
        octants(s, n).contains(idx),
    ensures
        0 <= region < n,
        cast_window(s, region, 1, Slope { num: 1, den: 1 }, Slope { num: 0, den: 1 }).contains(
            idx,
        ),
    decreases n,
{
    if n <= 0 {
        0
    } else if cast_window(s, n - 1, 1, Slope { num: 1, den: 1 }, Slope { num: 0, den: 1 }).contains(
        idx,
    ) {
        n - 1
    } else {
        lemma_octants_split(s, n - 1, idx)
    }
}

/// A wall next to the viewer hides what lies straight behind it: where the
/// cell one step from the viewer on the straight edge of an octant, which
/// runs north, south, east or west, is opaque, no cell further along that
/// edge is seen.
pub proof fn lemma_wall_hides_the_cells_behind(s: Sight, region: int, d: int)
    requires
        shaped(s),
        0 <= region < 8,
        s.on_grid(octant_cell(s, region, 1, 0).0, octant_cell(s, region, 1, 0).1),
        s.opaque(s.index(octant_cell(s, region, 1, 0).0, octant_cell(s, region, 1, 0).1)),
        d >= 2,
        s.on_grid(octant_cell(s, region, d, 0).0, octant_cell(s, region, d, 0).1),
    ensures
        !visible(s).contains(s.index(octant_cell(s, region, d, 0).0, octant_cell(s, region, d, 0).1)),
{
    let target = octant_cell(s, region, d, 0);
    let idx = s.index(target.0, target.1);
    let one = Slope { num: 1, den: 1 };
    let zero = Slope { num: 0, den: 1 };
    lemma_grid_index(s, target.0, target.1);
    lemma_grid_index(s, s.origin.0, s.origin.1);
    assert(d * 1 == d && d * 0 == 0 && d * (-1) == -d && 0 * 1 == 0 && 0 * 0 == 0 && 0 * (-1)
        == 0) by (nonlinear_arith);
    assert(target != s.origin);
    if octants(s, 8).contains(idx) {
        let other = lemma_octants_split(s, 8, idx);
        let same_way = octant(region).1 == octant(other).1 && octant(region).3 == octant(other).3;
        assert(!one.lt(zero));
        if same_way {
            assert(1 * 1 == 1 && 1 * 0 == 0 && 1 * (-1) == -1) by (nonlinear_arith);
            assert(octant_cell(s, other, 1, 0) == octant_cell(s, region, 1, 0));
            lemma_wall_on_edge(s, other);
            let wall = octant_cell(s, other, 1, 0);
            if idx == s.index(wall.0, wall.1) {
                lemma_grid_index(s, wall.0, wall.1);
                lemma_edge_cell_differs(s, region, d, other, 1, 0);
            } else {
                let (d2, j2) = lemma_reached_at(s, other, idx, true);
                let cell = octant_cell(s, other, d2, j2);
                lemma_grid_index(s, cell.0, cell.1);
                lemma_edge_cell_differs(s, region, d, other, d2, j2);
            }
        } else {
            lemma_cast_reaches(s, other, 1, 1, one, zero, false, Slope { num: -1, den: 1 }, false);
            let (d2, j2) = lemma_reached_at(s, other, idx, false);
            let cell = octant_cell(s, other, d2, j2);
            lemma_grid_index(s, cell.0, cell.1);
            lemma_edge_cell_differs(s, region, d, other, d2, j2);
        }
    }
}

} // verus!
