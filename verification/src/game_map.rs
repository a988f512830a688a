use crate::components::{Ai, AiType, ComponentStore, EntitySize, Render};
use crate::entitys::Entitys;
use vstd::prelude::*;

verus! {

broadcast use vstd::std_specs::hash::group_hash_axioms;

/// One square of the map: what stands on it and whether it has been seen.
#[derive(Debug, Clone, Copy, PartialEq, Eq, Structural)]
pub struct RenderCell {
    /// Seen by the latest visibility pass.
    pub lit: bool,
    /// Something in the cell is to be drawn.
    pub visible: bool,
    /// Lit at some point in the past; never cleared.
    pub visited: bool,
    /// Size of the largest thing now in the cell.
    pub ent_size: EntitySize,
    pub ent_char: char,
    /// Size of the terrain alone.
    pub terrain_size: EntitySize,
    pub terrain_char: char,
}

/// Dimensions of a map. A consistent value has
/// `total_count == column_count * row_count`, small enough that every
/// coordinate and every cell position fits a signed machine integer.
#[derive(Debug, Clone, Copy, PartialEq, Eq, Structural)]
pub struct MapInfo {
    pub column_count: usize,
    pub row_count: usize,
    pub total_count: usize,
}

/// A rectangular grid of cells stored row by row: the cell at `(x, y)` is
/// `render_map[x + column_count * y]`.
pub struct GameMap {
    pub terrain_map: Vec<usize>,
    pub render_map: Vec<RenderCell>,
    pub map_info: MapInfo,
}

/// Why a query on a map was refused.
#[derive(Debug, Clone, Copy, PartialEq, Eq, Structural)]
pub enum MapError {
    /// A dimension is zero, the dimensions do not multiply to the cell
    /// count, the count exceeds `isize::MAX`, or the cell storage has
    /// another length.
    MalformedMap,
    /// A coordinate handed to the query lies outside the grid.
    OutOfBounds,
    /// A sight radius of zero was asked for.
    InvalidRadius,
}

/// The occupant size of every cell, in storage order.
pub open spec fn sizes_of(cells: Seq<RenderCell>) -> Seq<EntitySize> {
    Seq::new(cells.len(), |i: int| cells[i].ent_size)
}

impl MapInfo {
    /// Both dimensions are positive and multiply to the cell count, which
    /// does not exceed `isize::MAX`.
    pub open spec fn consistent(&self) -> bool {
        &&& self.column_count > 0
        &&& self.row_count > 0
        &&& self.total_count == self.column_count * self.row_count
        &&& self.total_count <= isize::MAX
    }

    /// Decides `consistent` without overflowing.
    pub fn is_consistent(&self) -> (r: bool)
        ensures
            r == self.consistent(),
    {
        if self.column_count == 0 || self.row_count == 0 {
            return false;
        }
        match self.column_count.checked_mul(self.row_count) {
            Some(n) => n == self.total_count && n <= isize::MAX as usize,
            None => false,
        }
    }
}

impl GameMap {
    /// The dimensions are consistent and there is exactly one stored cell
    /// per grid square.
    pub open spec fn well_formed(&self) -> bool {
        &&& self.map_info.consistent()
        &&& self.render_map@.len() == self.map_info.total_count
    }

    /// `(x, y)` names a square of the grid.
    pub open spec fn spec_in_bounds(&self, x: int, y: int) -> bool {
        &&& 0 <= x < self.map_info.column_count
        &&& 0 <= y < self.map_info.row_count
    }

    /// Row-major position of `(x, y)` in the cell storage.
    pub open spec fn spec_index(&self, x: int, y: int) -> int {
        x + self.map_info.column_count * y
    }

    /// The occupant size of every cell, in storage order.
    pub open spec fn sizes(&self) -> Seq<EntitySize> {
        sizes_of(self.render_map@)
    }

    /// `(x, y)` is on the grid, has a stored cell, and what stands there is
    /// smaller than `threshold`.
    pub open spec fn spec_passable(&self, x: int, y: int, threshold: EntitySize) -> bool {
        &&& self.spec_in_bounds(x, y)
        &&& self.spec_index(x, y) < self.render_map@.len()
        &&& self.render_map@[self.spec_index(x, y)].ent_size.spec_below(threshold)
    }

    /// A map of the given dimensions that holds no cells yet. Dimensions
    /// that are not consistent are refused, and no map is made.
    pub fn new(map_info: MapInfo) -> (r: Result<Self, MapError>)
        ensures
            !map_info.consistent() ==> r matches Err(MapError::MalformedMap),
            map_info.consistent() ==> (r matches Ok(m) && m.map_info == map_info
                && m.render_map@.len() == 0 && m.terrain_map@.len() == 0),
    {
        if !map_info.is_consistent() {
            return Err(MapError::MalformedMap);
        }
        Ok(Self { terrain_map: Vec::new(), render_map: Vec::new(), map_info })
    }

    /// Decides `well_formed`.
    pub fn is_well_formed(&self) -> (r: bool)
        ensures
            r == self.well_formed(),
    {
        self.map_info.is_consistent() && self.render_map.len() == self.map_info.total_count
    }

    /// Decides whether `pos` names a square of the grid.
    pub fn in_bounds(&self, pos: (isize, isize)) -> (r: bool)
        ensures
            r == self.spec_in_bounds(pos.0 as int, pos.1 as int),
    {
        pos.0 >= 0 && pos.1 >= 0 && (pos.0 as usize) < self.map_info.column_count && (
        pos.1 as usize) < self.map_info.row_count
    }

    /// Decides whether something may enter `pos`: the square is on the grid
    /// and its occupant is smaller than `threshold`.
    pub fn passable(&self, pos: (isize, isize), threshold: EntitySize) -> (r: bool)
        ensures
            r == self.spec_passable(pos.0 as int, pos.1 as int, threshold),
    {
        if !self.in_bounds(pos) {
            return false;
        }
        let x: usize = pos.0 as usize;
        let y: usize = pos.1 as usize;
        let stored: usize = self.render_map.len();
        assert(self.map_info.column_count * y >= 0) by (nonlinear_arith);
        let offset = match self.map_info.column_count.checked_mul(y) {
            Some(o) => o,
            None => {
                return false;
            },
        };
        let index = match x.checked_add(offset) {
            Some(i) => i,
            None => {
                return false;
            },
        };
        if index >= stored {
            return false;
        }
        self.render_map[index].ent_size.below(threshold)
    }
}

/// On a well-formed map every square of the grid has a stored cell, and
/// distinct squares have distinct cells.
pub proof fn lemma_index_in_range(map: &GameMap, x: int, y: int)
    requires
        map.well_formed(),
        map.spec_in_bounds(x, y),
    ensures
        0 <= map.spec_index(x, y) < map.render_map@.len(),
        map.map_info.column_count <= map.map_info.total_count,
        map.map_info.row_count <= map.map_info.total_count,
        map.spec_index(x, y) % (map.map_info.column_count as int) == x,
        map.spec_index(x, y) / (map.map_info.column_count as int) == y,
{
    let c = map.map_info.column_count as int;
    let r = map.map_info.row_count as int;
    assert(c * y <= c * (r - 1)) by (nonlinear_arith)
        requires
            0 <= y <= r - 1,
            c > 0,
    ;
    assert(c * (r - 1) == c * r - c) by (nonlinear_arith);
    assert(c * r >= c && c * r >= r) by (nonlinear_arith)
        requires
            c >= 1,
            r >= 1,
    ;
    assert(0 <= c * y) by (nonlinear_arith)
        requires
            0 <= y,
            c > 0,
    ;
    vstd::arithmetic::div_mod::lemma_fundamental_div_mod_converse(x + c * y, c, y, x);
}

/// The map character stands for a zombie.
pub open spec fn spec_is_zombie(c: char) -> bool {
    c == 'Z' || c == 'z'
}

/// Decides whether the map character stands for a zombie.
#[verifier::when_used_as_spec(spec_is_zombie)]
pub fn is_zombie(c: char) -> (r: bool)
    ensures
        r == spec_is_zombie(c),
{
    c == 'Z' || c == 'z'
}

/// The cell a map character stands for: a zombie's square is clear ground
/// that something is drawn on, a blank is clear ground, and any other
/// character is terrain of medium size drawn as itself.
pub open spec fn cell_for(c: char) -> RenderCell {
    if spec_is_zombie(c) {
        RenderCell {
            lit: false,
            visible: true,
            visited: false,
            ent_size: EntitySize::Nothing,
            ent_char: ' ',
            terrain_size: EntitySize::Nothing,
            terrain_char: ' ',
        }
    } else if c != ' ' {
        RenderCell {
            lit: false,
            visible: true,
            visited: false,
            ent_size: EntitySize::Medium,
            ent_char: c,
            terrain_size: EntitySize::Medium,
            terrain_char: c,
        }
    } else {
        RenderCell {
            lit: false,
            visible: false,
            visited: false,
            ent_size: EntitySize::Nothing,
            ent_char: ' ',
            terrain_size: EntitySize::Nothing,
            terrain_char: ' ',
        }
    }
}

/// How many of the first `n` map characters stand for a zombie.
pub open spec fn zombies_before(chars: Seq<char>, n: int) -> int
    decreases n,
{
    if n <= 0 {
        0
    } else {
        zombies_before(chars, n - 1) + if spec_is_zombie(chars[n - 1]) {
            1int
        } else {
            0int
        }
    }
}

/// The identifier given to the terrain of square `i` when identifiers are
/// handed out from `base`: one per square, and one more per zombie met on
/// the way.
pub open spec fn terrain_id(base: int, chars: Seq<char>, i: int) -> int {
    base + i + zombies_before(chars, i)
}

/// The cells that a character map stands for, in order.
pub open spec fn cells_for(chars: Seq<char>) -> Seq<RenderCell> {
    Seq::new(chars.len(), |i: int| cell_for(chars[i]))
}

/// The terrain identifiers of the squares of a character map, in order,
/// when identifiers are handed out from `base`.
pub open spec fn terrain_ids(base: int, chars: Seq<char>) -> Seq<usize> {
    Seq::new(chars.len(), |i: int| terrain_id(base, chars, i) as usize)
}

/// The AI table once the zombies among the first `n` squares have joined.
pub open spec fn spawned_ai(ai: Map<usize, Ai>, base: int, chars: Seq<char>, n: int) -> Map<
    usize,
    Ai,
>
    decreases n,
{
    if n <= 0 {
        ai
    } else if spec_is_zombie(chars[n - 1]) {
        spawned_ai(ai, base, chars, n - 1).insert(
            (terrain_id(base, chars, n - 1) + 1) as usize,
            Ai { ai_type: AiType::Basic },
        )
    } else {
        spawned_ai(ai, base, chars, n - 1)
    }
}

/// The render table once the zombies among the first `n` squares have
/// joined, each standing on its square.
pub open spec fn spawned_render(
    render: Map<usize, Render>,
    base: int,
    chars: Seq<char>,
    n: int,
) -> Map<usize, Render>
    decreases n,
{
    if n <= 0 {
        render
    } else if spec_is_zombie(chars[n - 1]) {
        spawned_render(render, base, chars, n - 1).insert(
            (terrain_id(base, chars, n - 1) + 1) as usize,
            Render {
                index: (n - 1) as usize,
                size: EntitySize::Medium,
                reper_char: 'Z',
                visible: true,
            },
        )
    } else {
        spawned_render(render, base, chars, n - 1)
    }
}

/// No more zombies than squares.
pub proof fn lemma_zombies_before_bounds(chars: Seq<char>, n: int)
    requires
        0 <= n,
    ensures
        0 <= zombies_before(chars, n) <= n,
    decreases n,
{
    if n > 0 {
        lemma_zombies_before_bounds(chars, n - 1);
    }
}

/// The count of zombies never shrinks as more squares are looked at.
pub proof fn lemma_zombies_before_grows(chars: Seq<char>, m: int, n: int)
    requires
        0 <= m <= n,
    ensures
        zombies_before(chars, m) <= zombies_before(chars, n),
    decreases n - m,
{
    if m < n {
        lemma_zombies_before_grows(chars, m, n - 1);
    }
}

/// The zombies that join the render table stand on squares of the
/// character map: if every entity stood below `limit` before, and the map
/// has no more than `limit` characters, every entity does so afterwards.
pub proof fn lemma_spawned_render_indices(
    render: Map<usize, Render>,
    base: int,
    chars: Seq<char>,
    n: int,
    limit: int,
)
    requires
        0 <= n <= limit,
        forall|k: usize| render.contains_key(k) ==> (#[trigger] render[k]).index < limit,
    ensures
        forall|k: usize|
            spawned_render(render, base, chars, n).contains_key(k) ==> (#[trigger] spawned_render(
                render,
                base,
                chars,
                n,
            )[k]).index < limit,
    decreases n,
{
    if n > 0 {
        lemma_spawned_render_indices(render, base, chars, n - 1, limit);
    }
}

impl GameMap {
    /// Appends one cell per map character, in order. Every square takes a
    /// fresh identifier for its terrain; a zombie's square takes a second
    /// one for the zombie, which joins the AI table and the render table.
    pub fn init_map(
        &mut self,
        components: &mut ComponentStore,
        entitys: &mut Entitys,
        char_map: Vec<char>,
    )
        requires
            old(entitys).next_id + char_map@.len() + zombies_before(
                char_map@,
                char_map@.len() as int,
            ) <= usize::MAX,
        ensures
            final(self).map_info == old(self).map_info,
            final(self).render_map@ == old(self).render_map@ + cells_for(char_map@),
            final(self).terrain_map@ == old(self).terrain_map@ + terrain_ids(
                old(entitys).next_id as int,
                char_map@,
            ),
            final(entitys).next_id == old(entitys).next_id + char_map@.len() + zombies_before(
                char_map@,
                char_map@.len() as int,
            ),
            final(components).ai@ == spawned_ai(
                old(components).ai@,
                old(entitys).next_id as int,
                char_map@,
                char_map@.len() as int,
            ),
            final(components).render@ == spawned_render(
                old(components).render@,
                old(entitys).next_id as int,
                char_map@,
                char_map@.len() as int,
            ),
            final(components).health@ == old(components).health@,
            final(components).selected@ == old(components).selected@,
            final(components).name@ == old(components).name@,
    {
        let ghost base = entitys.next_id as int;
        let ghost chars = char_map@;
        let ghost cells0 = self.render_map@;
        let ghost terrain0 = self.terrain_map@;
        let mut index: usize = 0;
        while index < char_map.len()
            invariant
                index <= chars.len(),
                chars == char_map@,
                base + chars.len() + zombies_before(chars, chars.len() as int) <= usize::MAX,
                self.map_info == old(self).map_info,
                entitys.next_id == terrain_id(base, chars, index as int),
                self.render_map@ == cells0 + Seq::new(index as nat, |i: int| cell_for(chars[i])),
                self.terrain_map@ == terrain0 + Seq::new(
                    index as nat,
                    |i: int| terrain_id(base, chars, i) as usize,
                ),
                components.ai@ == spawned_ai(old(components).ai@, base, chars, index as int),
                components.render@ == spawned_render(
                    old(components).render@,
                    base,
                    chars,
                    index as int,
                ),
                components.health@ == old(components).health@,
                components.selected@ == old(components).selected@,
                components.name@ == old(components).name@,
            decreases chars.len() - index,
        {
            let map_char: char = char_map[index];
            proof {
                lemma_zombies_before_grows(chars, index + 1, chars.len() as int);
                lemma_zombies_before_bounds(chars, index as int);
            }
            let terrain_id: usize = entitys.new_id();
            let mut render_cell = RenderCell {
                visited: false,
                lit: false,
                visible: false,
                ent_size: EntitySize::Nothing,
                terrain_size: EntitySize::Nothing,
                ent_char: ' ',
                terrain_char: ' ',
            };
            if is_zombie(map_char) {
                let zombie_id: usize = entitys.new_id();
                render_cell.visible = true;
                components.ai.insert(zombie_id, Ai { ai_type: AiType::Basic });
                components.render.insert(
                    zombie_id,
                    Render { index, size: EntitySize::Medium, reper_char: 'Z', visible: true },
                );
            } else if map_char != ' ' {
                render_cell.terrain_char = map_char;
                render_cell.terrain_size = EntitySize::Medium;
                render_cell.ent_char = map_char;
                render_cell.ent_size = EntitySize::Medium;
                render_cell.visible = true;
            }
            self.terrain_map.push(terrain_id);
            self.render_map.push(render_cell);
            proof {
                assert(render_cell == cell_for(map_char));
                assert(self.render_map@ =~= cells0 + Seq::new(
                    (index + 1) as nat,
                    |i: int| cell_for(chars[i]),
                ));
                assert(self.terrain_map@ =~= terrain0 + Seq::new(
                    (index + 1) as nat,
                    |i: int| crate::game_map::terrain_id(base, chars, i) as usize,
                ));
            }
            index = index + 1;
        }
        proof {
            assert(self.render_map@ =~= cells0 + cells_for(chars));
            assert(self.terrain_map@ =~= terrain0 + terrain_ids(base, chars));
        }
    }
}

} // verus!
