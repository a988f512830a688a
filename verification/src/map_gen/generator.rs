use crate::components::ComponentStore;
use crate::entitys::Entitys;
use crate::game_map::{
    cells_for, lemma_zombies_before_bounds, spawned_ai, spawned_render, terrain_ids,
    zombies_before, GameMap, MapInfo,
};
use crate::map_gen::basic_dungeon::{basic_gen, generated, local_rng};
use vstd::prelude::*;

verus! {

/// A rectangle of map squares, from `(x1, y1)` to `(x2, y2)`, both
/// included.
#[derive(Debug, Clone, Copy, PartialEq, Eq, Structural)]
pub struct MapRect {
    pub x1: usize,
    pub y1: usize,
    pub x2: usize,
    pub y2: usize,
}

impl MapRect {
    /// The middle square, rounded towards the first corner.
    pub open spec fn spec_center(&self) -> (usize, usize) {
        (((self.x1 + self.x2) / 2) as usize, ((self.y1 + self.y2) / 2) as usize)
    }

    /// The two rectangles share a square, or touch along an edge or at a
    /// corner.
    pub open spec fn spec_intersects(&self, other: &MapRect) -> bool {
        self.x1 <= other.x2 && self.x2 >= other.x1 && self.y1 <= other.y2 && self.y2 >= other.y1
    }

    /// The square `(x, y)` lies in the rectangle.
    pub open spec fn covers(&self, x: int, y: int) -> bool {
        self.x1 <= x <= self.x2 && self.y1 <= y <= self.y2
    }

    /// The rectangle whose first corner is `(x1, y1)` and whose far corner
    /// lies `w` to the right and `h` below.
    pub fn new(x1: usize, y1: usize, w: usize, h: usize) -> (r: Self)
        requires
            x1 + w <= usize::MAX,
            y1 + h <= usize::MAX,
        ensures
            r == (MapRect { x1, y1, x2: (x1 + w) as usize, y2: (y1 + h) as usize }),
    {
        Self { x1, y1, x2: x1 + w, y2: y1 + h }
    }

    /// Computes the middle square without overflowing.
    #[verifier::when_used_as_spec(spec_center)]
    pub fn center(&self) -> (c: (usize, usize))
        ensures
            c == self.spec_center(),
    {
        (midpoint(self.x1, self.x2), midpoint(self.y1, self.y2))
    }

    /// Decides whether the two rectangles share a square or touch.
    #[verifier::when_used_as_spec(spec_intersects)]
    pub fn intersects(&self, other: &MapRect) -> (r: bool)
        ensures
            r == self.spec_intersects(other),
    {
        self.x1 <= other.x2 && self.x2 >= other.x1 && self.y1 <= other.y2 && self.y2 >= other.y1
    }
}

/// Half the sum of two numbers, rounded down, without overflowing.
fn midpoint(a: usize, b: usize) -> (m: usize)
    ensures
        m == (a + b) / 2,
{
    a / 2 + b / 2 + (a % 2 + b % 2) / 2
}

/// The kinds of map that can be generated.
#[derive(Debug, Clone, Copy, PartialEq, Eq, Structural)]
pub enum MapType {
    Basic,
}

/// A map generator: the kind of map to make and its dimensions.
pub struct MapGen {
    pub map_type: MapType,
    pub map_info: MapInfo,
}

impl MapGen {
    /// A generator of maps of the given kind and dimensions.
    pub fn new(map_type: MapType, map_info: MapInfo) -> (r: Self)
        ensures
            r.map_type == map_type,
            r.map_info == map_info,
    {
        Self { map_type, map_info }
    }

    /// Generates a map of the generator's kind and dimensions, and returns
    /// it with the square on which the player starts. The map is drawn at
    /// random: what is promised holds of every map that can come out. There
    /// is some character map of rock and carved squares, carved where the
    /// player starts, from which the cells, the terrain identifiers and the
    /// zombies are made as `GameMap::init_map` makes them.
    pub fn make_map(&self, components: &mut ComponentStore, entitys: &mut Entitys) -> (r: (
        GameMap,
        (usize, usize),
    ))
        requires
            self.map_info.consistent(),
            self.map_info.column_count > 5,
            self.map_info.row_count > 5,
            old(entitys).next_id + 2 * self.map_info.total_count <= usize::MAX,
        ensures
            r.0.well_formed(),
            r.0.map_info == self.map_info,
            r.0.spec_in_bounds(r.1.0 as int, r.1.1 as int),
            final(components).health@ == old(components).health@,
            final(components).selected@ == old(components).selected@,
            final(components).name@ == old(components).name@,
            exists|chars: Seq<char>|
                {
                    &&& #[trigger] generated(
                        chars,
                        self.map_info.column_count as int,
                        self.map_info.row_count as int,
                        r.1,
                    )
                    &&& r.0.render_map@ == cells_for(chars)
                    &&& r.0.terrain_map@ == terrain_ids(old(entitys).next_id as int, chars)
                    &&& final(entitys).next_id == old(entitys).next_id + chars.len()
                        + zombies_before(chars, chars.len() as int)
                    &&& final(components).ai@ == spawned_ai(
                        old(components).ai@,
                        old(entitys).next_id as int,
                        chars,
                        chars.len() as int,
                    )
                    &&& final(components).render@ == spawned_render(
                        old(components).render@,
                        old(entitys).next_id as int,
                        chars,
                        chars.len() as int,
                    )
                },
    {
        let mut rng = local_rng();
        let mut game_map = match GameMap::new(self.map_info) {
            Ok(game_map) => game_map,
            Err(_) => vstd::pervasive::unreached(),
        };
        let (sprite_map, center) = match self.map_type {
            MapType::Basic => basic_gen(
                &mut rng,
                game_map.map_info.column_count,
                game_map.map_info.row_count,
                game_map.map_info.total_count,
            ),
        };
        let ghost chars = sprite_map@;
        proof {
            lemma_zombies_before_bounds(chars, chars.len() as int);
        }
        game_map.init_map(components, entitys, sprite_map);
        proof {
            assert(game_map.render_map@ =~= cells_for(chars));
            assert(game_map.terrain_map@ =~= terrain_ids(old(entitys).next_id as int, chars));
            assert(generated(
                chars,
                self.map_info.column_count as int,
                self.map_info.row_count as int,
                center,
            ));
        }
        (game_map, center)
    }
}

} // verus!
