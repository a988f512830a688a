use crate::components::Health;
use crate::game_map::{GameMap, RenderCell};
use crate::tileset::{last_column, last_row, lemma_tile_within};
use vstd::prelude::*;

verus! {

/// One lit cell to draw: where its tile goes on screen, and the character
/// to draw on the lit background, if the cell holds one.
#[derive(Debug, Clone, Copy, PartialEq, Eq, Structural)]
pub struct DrawCell {
    pub x: i32,
    pub y: i32,
    pub glyph: Option<char>,
}

/// How the map is laid out on screen: tiles of `tile_width` by
/// `tile_height` pixels in rows of `column_count`, the first at `start_x`.
#[derive(Debug, Clone, Copy, PartialEq, Eq, Structural)]
pub struct Layout {
    pub column_count: usize,
    pub tile_width: u32,
    pub tile_height: u32,
    pub start_x: i32,
}

impl Layout {
    /// A map of `count` cells can be laid out without leaving the range of
    /// screen coordinates: unless it holds no cell at all, its rows hold
    /// some, and the corner of the tile in the last column and of the tile
    /// in the last row fit.
    pub open spec fn holds(&self, count: int) -> bool {
        count > 0 ==> self.column_count > 0 && self.start_x + last_column(
            self.column_count as int,
            count,
        ) * self.tile_width <= i32::MAX && last_row(self.column_count as int, count)
            * self.tile_height <= i32::MAX
    }

    /// Where the tile of cell `i` goes.
    pub open spec fn origin(&self, i: int) -> (int, int) {
        (
            self.start_x + (i % self.column_count as int) * self.tile_width,
            (i / self.column_count as int) * self.tile_height,
        )
    }

    /// The drawing of cell `i`.
    pub open spec fn draw(&self, i: int, cell: RenderCell) -> DrawCell {
        DrawCell {
            x: self.origin(i).0 as i32,
            y: self.origin(i).1 as i32,
            glyph: if cell.ent_char != ' ' {
                Some(cell.ent_char)
            } else {
                None
            },
        }
    }

    /// The drawings of the lit cells among the first `n`, in order.
    pub open spec fn plan(&self, cells: Seq<RenderCell>, n: int) -> Seq<DrawCell>
        decreases n,
    {
        if n <= 0 {
            Seq::empty()
        } else if cells[n - 1].lit {
            self.plan(cells, n - 1).push(self.draw(n - 1, cells[n - 1]))
        } else {
            self.plan(cells, n - 1)
        }
    }
}

/// Decides whether `a * b + c` stays at or below `limit`.
fn product_within(a: usize, b: u32, c: i32, limit: i32) -> (r: bool)
    ensures
        r == (a * b + c <= limit),
{
    let wide: u128 = a as u128;
    assert(wide * b >= 0 && wide * b <= 0x1_0000_0000_0000_0000 * 0x1_0000_0000)
        by (nonlinear_arith)
        requires
            0 <= wide < 0x1_0000_0000_0000_0000,
            0 <= b < 0x1_0000_0000,
    ;
    let product: u128 = wide * b as u128;
    (product as i128) + (c as i128) <= limit as i128
}

impl Layout {
    /// Decides whether a map of `count` cells can be laid out.
    pub fn can_hold(&self, count: usize) -> (r: bool)
        ensures
            r == self.holds(count as int),
    {
        if count == 0 {
            return true;
        }
        if self.column_count == 0 {
            return false;
        }
        let across: usize = (if count < self.column_count {
            count
        } else {
            self.column_count
        }) - 1;
        let down: usize = (count - 1) / self.column_count;
        product_within(across, self.tile_width, self.start_x, i32::MAX) && product_within(
            down,
            self.tile_height,
            0,
            i32::MAX,
        )
    }
}

/// Lists what is to be drawn of the map: every lit cell, in storage order,
/// each at its place on screen.
pub fn map_plan(game_map: &GameMap, layout: &Layout) -> (plan: Vec<DrawCell>)
    requires
        layout.holds(game_map.render_map@.len() as int),
    ensures
        plan@ == layout.plan(game_map.render_map@, game_map.render_map@.len() as int),
{
    let mut plan: Vec<DrawCell> = Vec::new();
    let count: usize = game_map.render_map.len();
    let mut i: usize = 0;
    while i < count
        invariant
            i <= count,
            count == game_map.render_map@.len(),
            layout.holds(count as int),
            plan@ == layout.plan(game_map.render_map@, i as int),
        decreases count - i,
    {
        let render_cell: RenderCell = game_map.render_map[i];
        if render_cell.lit {
            let column: usize = i % layout.column_count;
            let row: usize = i / layout.column_count;
            proof {
                let pr = layout.column_count as int;
                let c = column as int;
                let r = row as int;
                let w = layout.tile_width as int;
                let h = layout.tile_height as int;
                lemma_tile_within(i as int, pr, count as int);
                assert(0 <= c * w <= last_column(pr, count as int) * w) by (nonlinear_arith)
                    requires
                        0 <= c <= last_column(pr, count as int),
                        0 <= w,
                ;
                assert(0 <= r * h <= last_row(pr, count as int) * h) by (nonlinear_arith)
                    requires
                        0 <= r <= last_row(pr, count as int),
                        0 <= h,
                ;
            }
            let x: i128 = layout.start_x as i128 + column as i128 * layout.tile_width as i128;
            let y: i128 = row as i128 * layout.tile_height as i128;
            let glyph: Option<char> = if render_cell.ent_char != ' ' {
                Some(render_cell.ent_char)
            } else {
                None
            };
            plan.push(DrawCell { x: x as i32, y: y as i32, glyph });
        }
        i = i + 1;
    }
    plan
}

/// The whole number of times that `b` goes into `a`, rounded towards zero.
pub open spec fn quotient(a: int, b: int) -> int {
    let times = (if a < 0 {
        -a
    } else {
        a
    }) / (if b < 0 {
        -b
    } else {
        b
    });
    if (a < 0) == (b < 0) {
        times
    } else {
        -times
    }
}

/// The health as a percentage: a hundred times the whole number of times
/// that the points now held go into the most that can be held.
pub open spec fn percent(health: Health) -> int {
    quotient(health.max_value as int, health.cur_value as int) * 100
}

/// The percentage as the bar holds it, in 32 bits without a sign.
pub open spec fn percent_bits(health: Health) -> int {
    percent(health) % 0x1_0000_0000
}

/// Width in pixels of the filled part of a health bar that is 240 pixels
/// wide when full: the percentage, as the bar holds it, of that width.
pub open spec fn spec_health_bar(health: Health) -> int {
    (percent_bits(health) * 240) / 100
}

/// The health can be shown as a bar: some number of points other than zero
/// is held, the percentage fits a signed machine integer, and 240 times
/// the percentage, as the bar holds it, fits 32 bits.
pub open spec fn showable(health: Health) -> bool {
    &&& health.cur_value != 0
    &&& isize::MIN <= percent(health) <= isize::MAX
    &&& percent_bits(health) * 240 <= u32::MAX
}

/// Computes the percentage as the bar holds it, where some number of points
/// other than zero is held and the percentage fits a signed machine
/// integer.
fn bar_percent(health: &Health) -> (r: Option<u32>)
    ensures
        r is Some <==> health.cur_value != 0 && isize::MIN <= percent(*health) <= isize::MAX,
        r matches Some(bits) ==> bits == percent_bits(*health),
{
    let max: i128 = health.max_value as i128;
    let cur: i128 = health.cur_value as i128;
    if cur == 0 {
        return None;
    }
    let most: u128 = if max < 0 {
        (-max) as u128
    } else {
        max as u128
    };
    let held: u128 = if cur < 0 {
        (-cur) as u128
    } else {
        cur as u128
    };
    let times: u128 = most / held;
    let negative: bool = (max < 0) != (cur < 0);
    let size: u128 = times * 100;
    let limit: u128 = isize::MAX as u128;
    if size > limit + 1 || (size > limit && !negative) {
        return None;
    }
    let span: u128 = 0x1_0000_0000;
    let rest: u128 = size % span;
    let bits: u128 = if !negative || rest == 0 {
        rest
    } else {
        span - rest
    };
    proof {
        let whole = (size / span) as int;
        vstd::arithmetic::div_mod::lemma_fundamental_div_mod(size as int, span as int);
        if negative {
            assert(percent(*health) == -(size as int));
            if rest == 0 {
                vstd::arithmetic::div_mod::lemma_fundamental_div_mod_converse(
                    -(size as int),
                    span as int,
                    -whole,
                    0,
                );
            } else {
                vstd::arithmetic::div_mod::lemma_fundamental_div_mod_converse(
                    -(size as int),
                    span as int,
                    -whole - 1,
                    span - rest,
                );
            }
        } else {
            assert(percent(*health) == size as int);
        }
    }
    Some(bits as u32)
}

/// Decides whether the health can be shown as a bar.
pub fn is_showable(health: &Health) -> (r: bool)
    ensures
        r == showable(*health),
{
    match bar_percent(health) {
        Some(bits) => bits as u64 * 240 <= u32::MAX as u64,
        None => false,
    }
}

/// Computes the width of the filled part of the health bar.
pub fn health_bar(health: &Health) -> (width: u32)
    requires
        showable(*health),
    ensures
        width == spec_health_bar(*health),
{
    let max_bar_value: u64 = 240;
    match bar_percent(health) {
        Some(bits) => ((bits as u64 * max_bar_value) / 100) as u32,
        None => 0,
    }
}

/// Where the side panel begins: five pixels to the right of the map and
/// five pixels down.
pub fn ui_origin(start_x: i32, column_count: usize, tile_width: u32) -> (r: (i32, i32))
    requires
        start_x + column_count * tile_width + 5 <= i32::MAX,
        start_x + column_count * tile_width + 5 >= i32::MIN,
    ensures
        r.0 == start_x + column_count * tile_width + 5,
        r.1 == 5,
{
    let across: i128 = column_count as i128 * tile_width as i128;
    assert(across == column_count * tile_width) by (nonlinear_arith)
        requires
            across == (column_count as i128) * (tile_width as i128),
    ;
    ((start_x as i128 + across + 5) as i32, 5)
}

} // verus!
