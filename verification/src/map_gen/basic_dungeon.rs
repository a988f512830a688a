use crate::map_gen::generator::MapRect;
use rand::rngs::ThreadRng;
use rand::Rng;
use vstd::prelude::*;

verus! {

/// The random number generator of the current thread, as `rand` keeps it.
#[verifier::external_type_specification]
#[verifier::external_body]
pub struct ExThreadRng(ThreadRng);

/// Fetches the generator of the current thread through `rand::thread_rng`.
#[verifier::external_body]
pub(crate) fn local_rng() -> ThreadRng {
    rand::thread_rng()
}

/// Draws a number through `Rng::gen_range`, which returns a value of the
/// half-open range from `low` to `high` and panics where that range is
/// empty.
#[verifier::external_body]
fn random_below(rng: &mut ThreadRng, low: usize, high: usize) -> (r: usize)
    requires
        low < high,
    ensures
        low <= r < high,
{
    rng.gen_range(low, high)
}

/// Tosses a coin through `Rng::gen`. Nothing is known of the outcome.
#[verifier::external_body]
fn random_flip(rng: &mut ThreadRng) -> bool {
    rng.gen()
}

/// Draws a yes or no through `Rng::gen_ratio`, which panics on a zero
/// denominator and on a numerator above the denominator, always says yes
/// where the two are equal, and always says no on a numerator of zero.
#[verifier::external_body]
fn random_ratio(rng: &mut ThreadRng, numerator: u32, denominator: u32) -> (r: bool)
    requires
        denominator > 0,
        numerator <= denominator,
    ensures
        numerator == denominator ==> r,
        numerator == 0 ==> !r,
{
    rng.gen_ratio(numerator, denominator)
}

/// The character of solid rock.
pub open spec fn spec_rock() -> char {
    '#'
}

/// The character that carving leaves behind.
pub open spec fn spec_carved_mark() -> char {
    'Z'
}

/// The character of solid rock.
#[verifier::when_used_as_spec(spec_rock)]
pub fn rock() -> (c: char)
    ensures
        c == spec_rock(),
{
    '#'
}

/// The character that carving leaves behind.
#[verifier::when_used_as_spec(spec_carved_mark)]
pub fn carved_mark() -> (c: char)
    ensures
        c == spec_carved_mark(),
{
    'Z'
}

/// The rectangle lies on a grid of the given shape and keeps one square
/// away from its right and lower edge.
pub open spec fn fits(room: &MapRect, column_count: int, row_count: int) -> bool {
    &&& room.x1 <= room.x2 < column_count - 1
    &&& room.y1 <= room.y2 < row_count - 1
}

/// The character map after every square of `room` has been carved.
pub open spec fn carved(chars: Seq<char>, room: &MapRect, column_count: int) -> Seq<char> {
    Seq::new(
        chars.len(),
        |i: int|
            if room.covers(i % column_count, i / column_count) {
                spec_carved_mark()
            } else {
                chars[i]
            },
    )
}

/// Every character is rock or the mark of carving.
pub open spec fn rock_or_carved(chars: Seq<char>) -> bool {
    forall|i: int|
        0 <= i < chars.len() ==> (#[trigger] chars[i]) == spec_rock() || chars[i]
            == spec_carved_mark()
}

/// A square of the grid and its place in a row-major map name each other.
proof fn lemma_square_index(x: int, y: int, column_count: int, row_count: int)
    requires
        0 <= x < column_count,
        0 <= y < row_count,
    ensures
        0 <= x + column_count * y < column_count * row_count,
        (x + column_count * y) % column_count == x,
        (x + column_count * y) / column_count == y,
{
    assert(column_count * y <= column_count * (row_count - 1)) by (nonlinear_arith)
        requires
            0 <= y <= row_count - 1,
            column_count > 0,
    ;
    assert(column_count * (row_count - 1) == column_count * row_count - column_count)
        by (nonlinear_arith);
    assert(0 <= column_count * y) by (nonlinear_arith)
        requires
            0 <= y,
            column_count > 0,
    ;
    vstd::arithmetic::div_mod::lemma_fundamental_div_mod_converse(
        x + column_count * y,
        column_count,
        y,
        x,
    );
}

/// Only one place of a row-major map lies in column `x` of row `y`.
proof fn lemma_index_square(i: int, column_count: int)
    requires
        column_count > 0,
    ensures
        i == i % column_count + column_count * (i / column_count),
{
    vstd::arithmetic::div_mod::lemma_fundamental_div_mod(i, column_count);
}

/// Draws a room between `min_room` and `max_room` squares wide and high,
/// `max_room` not included, somewhere on the grid.
fn new_room(
    rng: &mut ThreadRng,
    min_room: usize,
    max_room: usize,
    column_count: usize,
    row_count: usize,
) -> (room: MapRect)
    requires
        min_room < max_room,
        max_room < column_count,
        max_room < row_count,
    ensures
        fits(&room, column_count as int, row_count as int),
        min_room <= room.x2 - room.x1 < max_room,
        min_room <= room.y2 - room.y1 < max_room,
{
    let w: usize = random_below(rng, min_room, max_room);
    let h: usize = random_below(rng, min_room, max_room);
    let x: usize = random_below(rng, 0, column_count - w - 1);
    let y: usize = random_below(rng, 0, row_count - h - 1);
    MapRect::new(x, y, w, h)
}

/// Carves every square of `room` into the character map. A room whose far
/// corner lies before its first corner has no squares.
pub fn carve_room(room: &MapRect, char_map: &mut Vec<char>, column_count: usize)
    requires
        room.x1 <= room.x2 && room.y1 <= room.y2 ==> room.x2 < column_count && room.x2
            + column_count * room.y2 < old(char_map)@.len(),
    ensures
        final(char_map)@ == carved(old(char_map)@, room, column_count as int),
{
    let ghost chars0 = char_map@;
    if room.x1 > room.x2 || room.y1 > room.y2 {
        assert(char_map@ =~= carved(chars0, room, column_count as int));
        return ;
    }
    let ghost columns = column_count as int;
    let stored: usize = char_map.len();
    let mut x: usize = room.x1;
    while x <= room.x2
        invariant
            room.x1 <= x <= room.x2 + 1,
            room.x2 < column_count,
            columns == column_count,
            room.y1 <= room.y2,
            room.x2 + column_count * room.y2 < chars0.len(),
            chars0.len() == stored,
            char_map@.len() == chars0.len(),
            forall|i: int|
                0 <= i < chars0.len() ==> (#[trigger] char_map@[i]) == (if room.x1 <= i % columns
                    < x && room.y1 <= i / columns <= room.y2 {
                    spec_carved_mark()
                } else {
                    chars0[i]
                }),
        decreases room.x2 + 1 - x,
    {
        let mut y: usize = room.y1;
        while y <= room.y2
            invariant
                room.x1 <= x <= room.x2,
                room.x2 < column_count,
                columns == column_count,
                room.y1 <= y <= room.y2 + 1,
                room.x2 + column_count * room.y2 < chars0.len(),
                chars0.len() == stored,
                char_map@.len() == chars0.len(),
                forall|i: int|
                    0 <= i < chars0.len() ==> (#[trigger] char_map@[i]) == (if (room.x1 <= i
                        % columns < x && room.y1 <= i / columns <= room.y2) || (i % columns == x
                        && room.y1 <= i / columns < y) {
                        spec_carved_mark()
                    } else {
                        chars0[i]
                    }),
            decreases room.y2 + 1 - y,
        {
            proof {
                assert(column_count * y <= column_count * room.y2) by (nonlinear_arith)
                    requires
                        y <= room.y2,
                        column_count >= 0,
                ;
                assert(0 <= column_count * y) by (nonlinear_arith);
                vstd::arithmetic::div_mod::lemma_fundamental_div_mod_converse(
                    x + columns * y,
                    columns,
                    y as int,
                    x as int,
                );
            }
            let i: usize = x + (column_count * y);
            let ghost before = char_map@;
            if char_map[i] != carved_mark() {
                char_map.set(i, carved_mark());
            }
            proof {
                assert forall|k: int| 0 <= k < chars0.len() implies (#[trigger] char_map@[k]) == (
                if (room.x1 <= k % columns < x && room.y1 <= k / columns <= room.y2) || (k
                    % columns == x && room.y1 <= k / columns < y + 1) {
                    spec_carved_mark()
                } else {
                    chars0[k]
                }) by {
                    lemma_index_square(k, columns);
                    if k != i {
                        assert(char_map@[k] == before[k]);
                    }
                }
            }
            y = y + 1;
        }
        x = x + 1;
    }
    assert(char_map@ =~= carved(chars0, room, columns));
}

/// The two straight corridors that join the centres of two rooms: one along
/// a row and one along a column, meeting at a corner. `flip` picks which of
/// the two possible corners is used.
pub open spec fn corridors(past_room: &MapRect, cur_room: &MapRect, flip: bool) -> (
    MapRect,
    MapRect,
) {
    let p = past_room.spec_center();
    let c = cur_room.spec_center();
    let (sx, sy) = if flip {
        (c.0, p.1)
    } else {
        (p.0, c.1)
    };
    let min_x = if p.0 <= c.0 {
        p.0
    } else {
        c.0
    };
    let max_x = if p.0 <= c.0 {
        c.0
    } else {
        p.0
    };
    let min_y = if p.1 <= c.1 {
        p.1
    } else {
        c.1
    };
    let max_y = if p.1 <= c.1 {
        c.1
    } else {
        p.1
    };
    (MapRect { x1: min_x, y1: sy, x2: max_x, y2: sy }, MapRect { x1: sx, y1: min_y, x2: sx, y2: max_y })
}

/// Carves the two corridors that join the centres of two rooms, first the
/// one along the row, then the one along the column.
pub fn carve_corridors(
    past_room: &MapRect,
    cur_room: &MapRect,
    flip: bool,
    char_map: &mut Vec<char>,
    column_count: usize,
)
    requires
        past_room.spec_center().0 < column_count,
        cur_room.spec_center().0 < column_count,
        column_count + column_count * past_room.spec_center().1 <= old(char_map)@.len(),
        column_count + column_count * cur_room.spec_center().1 <= old(char_map)@.len(),
    ensures
        final(char_map)@ == carved(
            carved(old(char_map)@, &corridors(past_room, cur_room, flip).0, column_count as int),
            &corridors(past_room, cur_room, flip).1,
            column_count as int,
        ),
{
    let p_center = past_room.center();
    let c_center = cur_room.center();
    let (sx, sy) = if flip {
        (c_center.0, p_center.1)
    } else {
        (p_center.0, c_center.1)
    };
    let min_x: usize = if p_center.0 <= c_center.0 {
        p_center.0
    } else {
        c_center.0
    };
    let max_x: usize = if p_center.0 <= c_center.0 {
        c_center.0
    } else {
        p_center.0
    };
    let min_y: usize = if p_center.1 <= c_center.1 {
        p_center.1
    } else {
        c_center.1
    };
    let max_y: usize = if p_center.1 <= c_center.1 {
        c_center.1
    } else {
        p_center.1
    };
    let along_row = MapRect { x1: min_x, y1: sy, x2: max_x, y2: sy };
    let along_column = MapRect { x1: sx, y1: min_y, x2: sx, y2: max_y };
    carve_room(&along_row, char_map, column_count);
    carve_room(&along_column, char_map, column_count);
}

/// Carves the corridors between two rooms, with the corner picked at
/// random.
fn carve_hallways(
    rng: &mut ThreadRng,
    past_room: &MapRect,
    cur_room: &MapRect,
    char_map: &mut Vec<char>,
    column_count: usize,
)
    requires
        past_room.spec_center().0 < column_count,
        cur_room.spec_center().0 < column_count,
        column_count + column_count * past_room.spec_center().1 <= old(char_map)@.len(),
        column_count + column_count * cur_room.spec_center().1 <= old(char_map)@.len(),
    ensures
        exists|flip: bool|
            final(char_map)@ == carved(
                carved(
                    old(char_map)@,
                    &#[trigger] corridors(past_room, cur_room, flip).0,
                    column_count as int,
                ),
                &corridors(past_room, cur_room, flip).1,
                column_count as int,
            ),
{
    let flip: bool = random_flip(rng);
    carve_corridors(past_room, cur_room, flip, char_map, column_count);
}

/// Carving turns rock into carved squares and nothing else: the map keeps
/// its length, what was carved stays carved, and a map of rock and carved
/// squares stays one.
pub proof fn lemma_carved(chars: Seq<char>, room: &MapRect, column_count: int)
    ensures
        carved(chars, room, column_count).len() == chars.len(),
        forall|i: int|
            0 <= i < chars.len() && chars[i] == spec_carved_mark() ==> (#[trigger] carved(
                chars,
                room,
                column_count,
            )[i]) == spec_carved_mark(),
        rock_or_carved(chars) ==> rock_or_carved(carved(chars, room, column_count)),
{
}

/// Nothing is carved in the last column or in the last row.
pub open spec fn walled(chars: Seq<char>, column_count: int, row_count: int) -> bool {
    forall|i: int|
        0 <= i < chars.len() && (#[trigger] chars[i]) == spec_carved_mark() ==> i % column_count
            < column_count - 1 && i / column_count < row_count - 1
}

/// Every square of `room` is carved.
pub open spec fn hollow(chars: Seq<char>, room: &MapRect, column_count: int) -> bool {
    forall|x: int, y: int|
        room.covers(x, y) ==> #[trigger] chars[x + column_count * y] == spec_carved_mark()
}

/// The character map of the dungeon made of the first `n` of `rooms`:
/// solid rock, out of which the rooms are carved one after the other, each
/// room after the first followed by the two corridors that join it to the
/// room before it, with the corner that its entry in `flips` picks.
pub open spec fn dug(
    rooms: Seq<MapRect>,
    flips: Seq<bool>,
    column_count: int,
    total: int,
    n: int,
) -> Seq<char>
    decreases n,
{
    if n <= 0 {
        Seq::new(total as nat, |i: int| spec_rock())
    } else if n == 1 {
        carved(dug(rooms, flips, column_count, total, 0), &rooms[0], column_count)
    } else {
        let halls = corridors(&rooms[n - 2], &rooms[n - 1], flips[n - 1]);
        carved(
            carved(
                carved(dug(rooms, flips, column_count, total, n - 1), &rooms[n - 1], column_count),
                &halls.0,
                column_count,
            ),
            &halls.1,
            column_count,
        )
    }
}

/// The character map `chars` is the dungeon of `rooms` and `flips`: there
/// are between one and fifty-one rooms, each four or five squares each way
/// and clear of the last column and row, no room meets or touches a room
/// made before it, and the map is what carving the rooms and their
/// corridors in turn leaves of solid rock. `center` is the middle of the
/// first room.
pub open spec fn laid_out(
    rooms: Seq<MapRect>,
    flips: Seq<bool>,
    column_count: int,
    row_count: int,
    chars: Seq<char>,
    center: (usize, usize),
) -> bool {
    &&& 1 <= rooms.len() <= 51
    &&& flips.len() == rooms.len()
    &&& forall|k: int|
        0 <= k < rooms.len() ==> fits(&#[trigger] rooms[k], column_count, row_count) && 3
            <= rooms[k].x2 - rooms[k].x1 < 5 && 3 <= rooms[k].y2 - rooms[k].y1 < 5
    &&& forall|a: int, b: int|
        #![trigger rooms[a], rooms[b]]
        0 <= a < b < rooms.len() ==> !rooms[b].spec_intersects(&rooms[a])
    &&& chars == dug(rooms, flips, column_count, column_count * row_count, rooms.len() as int)
    &&& center == rooms[0].spec_center()
}

/// What holds of every generated dungeon. There are rooms and corners of
/// corridors of which the character map is the dungeon, so every room is
/// carved whole and joined to the room before it by a corridor along a row
/// and a corridor along a column. The map has one character per square,
/// each rock or carved, with nothing carved in the last column or row, and
/// `center` is the middle of the first room.
pub open spec fn generated(
    chars: Seq<char>,
    column_count: int,
    row_count: int,
    center: (usize, usize),
) -> bool {
    &&& chars.len() == column_count * row_count
    &&& rock_or_carved(chars)
    &&& walled(chars, column_count, row_count)
    &&& center.0 < column_count
    &&& center.1 < row_count
    &&& chars[center.0 + column_count * center.1] == spec_carved_mark()
    &&& exists|rooms: Seq<MapRect>, flips: Seq<bool>| #[trigger]
        laid_out(rooms, flips, column_count, row_count, chars, center)
}

/// A dungeon depends on no more rooms and corners than it is made of.
pub proof fn lemma_dug_prefix(
    rooms: Seq<MapRect>,
    flips: Seq<bool>,
    more_rooms: Seq<MapRect>,
    more_flips: Seq<bool>,
    column_count: int,
    total: int,
    n: int,
)
    requires
        0 <= n <= rooms.len() <= more_rooms.len(),
        n <= flips.len() <= more_flips.len(),
        forall|i: int| 0 <= i < n ==> rooms[i] == more_rooms[i] && flips[i] == more_flips[i],
    ensures
        dug(rooms, flips, column_count, total, n) == dug(
            more_rooms,
            more_flips,
            column_count,
            total,
            n,
        ),
    decreases n,
{
    if n > 0 {
        lemma_dug_prefix(rooms, flips, more_rooms, more_flips, column_count, total, n - 1);
        if n == 1 {
            lemma_dug_prefix(rooms, flips, more_rooms, more_flips, column_count, total, 0);
        }
    } else {
        assert(dug(rooms, flips, column_count, total, n) =~= dug(
            more_rooms,
            more_flips,
            column_count,
            total,
            n,
        ));
    }
}

/// Carving a room that keeps away from the last column and row leaves them
/// uncarved, and leaves hollow what was hollow.
pub proof fn lemma_carved_inside(
    chars: Seq<char>,
    room: &MapRect,
    column_count: int,
    row_count: int,
    first: &MapRect,
)
    requires
        walled(chars, column_count, row_count),
        room.x2 < column_count - 1,
        room.y2 < row_count - 1,
    ensures
        walled(carved(chars, room, column_count), column_count, row_count),
        fits(first, column_count, row_count) && hollow(chars, first, column_count) && chars.len()
            == column_count * row_count ==> hollow(
            carved(chars, room, column_count),
            first,
            column_count,
        ),
{
    let after = carved(chars, room, column_count);
    assert forall|i: int| 0 <= i < after.len() && (#[trigger] after[i])
        == spec_carved_mark() implies i % column_count < column_count - 1 && i / column_count
        < row_count - 1 by {
        if !room.covers(i % column_count, i / column_count) {
            assert(chars[i] == spec_carved_mark());
        }
    }
    if fits(first, column_count, row_count) && hollow(chars, first, column_count) && chars.len()
        == column_count * row_count {
        assert forall|x: int, y: int| first.covers(x, y) implies #[trigger] after[x + column_count
            * y] == spec_carved_mark() by {
            lemma_square_index(x, y, column_count, row_count);
            assert(chars[x + column_count * y] == spec_carved_mark());
        }
    }
}

/// Decides whether `room` meets any of `rooms`.
fn meets_any(room: &MapRect, rooms: &Vec<MapRect>) -> (r: bool)
    ensures
        r == (exists|i: int| 0 <= i < rooms@.len() && room.spec_intersects(&#[trigger] rooms@[i])),
{
    let mut i: usize = 0;
    while i < rooms.len()
        invariant
            i <= rooms@.len(),
            forall|k: int| 0 <= k < i ==> !room.spec_intersects(&#[trigger] rooms@[k]),
        decreases rooms@.len() - i,
    {
        if room.intersects(&rooms[i]) {
            return true;
        }
        i = i + 1;
    }
    false
}

/// Generates a dungeon of rooms and corridors carved out of rock: a first
/// room, then up to fifty more, each kept only if it meets no room made
/// before and then joined to the room before it. Returns the character map
/// and the centre of the first room.
pub fn basic_gen(
    rng: &mut ThreadRng,
    column_count: usize,
    row_count: usize,
    total_tiles: usize,
) -> (r: (Vec<char>, (usize, usize)))
    requires
        column_count > 5,
        row_count > 5,
        total_tiles == column_count * row_count,
    ensures
        generated(r.0@, column_count as int, row_count as int, r.1),
{
    let mut char_map: Vec<char> = Vec::new();
    let mut n: usize = 0;
    while n < total_tiles
        invariant
            n <= total_tiles,
            char_map@.len() == n,
            forall|i: int| 0 <= i < n ==> (#[trigger] char_map@[i]) == spec_rock(),
        decreases total_tiles - n,
    {
        char_map.push(rock());
        n = n + 1;
    }
    let mut rooms: Vec<MapRect> = Vec::new();
    let max_trys: usize = 50;
    let min_room: usize = 3;
    let max_room: usize = 5;
    let first = new_room(rng, min_room, max_room, column_count, row_count);
    let ghost columns = column_count as int;
    let ghost row_total = row_count as int;
    let ghost blank = char_map@;
    proof {
        lemma_square_index(first.x2 as int, first.y2 as int, columns, row_total);
        lemma_carved(blank, &first, columns);
        lemma_square_index(
            first.spec_center().0 as int,
            first.spec_center().1 as int,
            columns,
            row_total,
        );
        assert(walled(blank, columns, row_total));
        lemma_carved_inside(blank, &first, columns, row_total, &first);
        assert forall|x: int, y: int| first.covers(x, y) implies #[trigger] carved(
            blank,
            &first,
            columns,
        )[x + columns * y] == spec_carved_mark() by {
            lemma_square_index(x, y, columns, row_total);
        }
    }
    carve_room(&first, &mut char_map, column_count);
    rooms.push(first);
    let ghost mut flips: Seq<bool> = seq![false];
    proof {
        assert(blank =~= dug(rooms@, flips, columns, columns * row_total, 0));
        assert(char_map@ == dug(rooms@, flips, columns, columns * row_total, 1));
    }
    let ghost middle = first.spec_center().0 + columns * first.spec_center().1;
    let mut tries: usize = 0;
    while tries < max_trys
        invariant
            tries <= max_trys,
            column_count > 5,
            row_count > 5,
            columns == column_count,
            row_total == row_count,
            min_room == 3,
            max_room == 5,
            total_tiles == column_count * row_count,
            char_map@.len() == total_tiles,
            rock_or_carved(char_map@),
            walled(char_map@, columns, row_total),
            hollow(char_map@, &first, columns),
            3 <= first.x2 - first.x1 < 5,
            3 <= first.y2 - first.y1 < 5,
            1 <= rooms@.len() <= tries + 1,
            rooms@[0] == first,
            flips.len() == rooms@.len(),
            forall|i: int|
                0 <= i < rooms@.len() ==> fits(&#[trigger] rooms@[i], columns, row_total) && 3
                    <= rooms@[i].x2 - rooms@[i].x1 < 5 && 3 <= rooms@[i].y2 - rooms@[i].y1 < 5,
            forall|a: int, b: int|
                #![trigger rooms@[a], rooms@[b]]
                0 <= a < b < rooms@.len() ==> !rooms@[b].spec_intersects(&rooms@[a]),
            char_map@ == dug(rooms@, flips, columns, columns * row_total, rooms@.len() as int),
            middle == first.spec_center().0 + columns * first.spec_center().1,
            0 <= middle < total_tiles,
            char_map@[middle] == spec_carved_mark(),
        decreases max_trys - tries,
    {
        tries = tries + 1;
        let new_room = new_room(rng, min_room, max_room, column_count, row_count);
        if !meets_any(&new_room, &rooms) {
            let past_room: MapRect = rooms[rooms.len() - 1];
            let ghost before = char_map@;
            proof {
                lemma_square_index(new_room.x2 as int, new_room.y2 as int, columns, row_total);
                lemma_carved(before, &new_room, columns);
                lemma_carved_inside(before, &new_room, columns, row_total, &first);
            }
            carve_room(&new_room, &mut char_map, column_count);
            let ghost roomed = char_map@;
            proof {
                assert(fits(&past_room, columns, row_total));
                assert(columns + columns * past_room.spec_center().1 <= columns * row_total)
                    by (nonlinear_arith)
                    requires
                        past_room.spec_center().1 + 1 <= row_total,
                        columns > 0,
                ;
                assert(columns + columns * new_room.spec_center().1 <= columns * row_total)
                    by (nonlinear_arith)
                    requires
                        new_room.spec_center().1 + 1 <= row_total,
                        columns > 0,
                ;
            }
            carve_hallways(rng, &past_room, &new_room, &mut char_map, column_count);
            let ghost flip = choose|flip: bool|
                char_map@ == carved(
                    carved(roomed, &#[trigger] corridors(&past_room, &new_room, flip).0, columns),
                    &corridors(&past_room, &new_room, flip).1,
                    columns,
                );
            let ghost joined = char_map@;
            proof {
                let halls = corridors(&past_room, &new_room, flip);
                lemma_carved(roomed, &halls.0, columns);
                lemma_carved(carved(roomed, &halls.0, columns), &halls.1, columns);
                lemma_carved_inside(roomed, &halls.0, columns, row_total, &first);
                lemma_carved_inside(
                    carved(roomed, &halls.0, columns),
                    &halls.1,
                    columns,
                    row_total,
                    &first,
                );
            }
            if random_ratio(rng, 2, 3) {
                let center = new_room.center();
                proof {
                    lemma_square_index(center.0 as int, center.1 as int, columns, row_total);
                }
                let i: usize = center.0 + (column_count * center.1);
                char_map.set(i, carved_mark());
                proof {
                    // The middle of the room was carved with the room.
                    assert(roomed[i as int] == spec_carved_mark());
                    assert(joined[i as int] == spec_carved_mark());
                    assert(char_map@ =~= joined);
                }
            }
            let ghost old_rooms = rooms@;
            let ghost old_flips = flips;
            rooms.push(new_room);
            proof {
                flips = flips.push(flip);
                let total = columns * row_total;
                let n = old_rooms.len() as int;
                lemma_dug_prefix(old_rooms, old_flips, rooms@, flips, columns, total, n);
                assert(rooms@[n - 1] == past_room);
                assert(rooms@[n] == new_room);
                assert(flips[n] == flip);
                assert(char_map@ == dug(rooms@, flips, columns, total, n + 1));
                assert forall|a: int, b: int|
                    #![trigger rooms@[a], rooms@[b]]
                    0 <= a < b < rooms@.len() implies !rooms@[b].spec_intersects(&rooms@[a]) by {
                    if b < n {
                        assert(!old_rooms[b].spec_intersects(&old_rooms[a]));
                    } else {
                        assert(!new_room.spec_intersects(&old_rooms[a]));
                    }
                }
            }
        }
    }
    proof {
        assert(laid_out(rooms@, flips, columns, row_total, char_map@, first.spec_center()));
    }
    (char_map, rooms[0].center())
}

/// The square `(x, y)` is a carved square of the grid.
pub open spec fn carved_at(chars: Seq<char>, column_count: int, row_count: int, x: int, y: int) -> bool {
    &&& 0 <= x < column_count
    &&& 0 <= y < row_count
    &&& chars[x + column_count * y] == spec_carved_mark()
}

/// The two squares lie next to each other along a row or along a column.
pub open spec fn beside(p: (int, int), q: (int, int)) -> bool {
    ||| p.1 == q.1 && (p.0 - q.0 == 1 || q.0 - p.0 == 1)
    ||| p.0 == q.0 && (p.1 - q.1 == 1 || q.1 - p.1 == 1)
}

/// The squares of `walk` are carved, and each lies next to the one before
/// it along a row or a column.
pub open spec fn is_walk(
    chars: Seq<char>,
    column_count: int,
    row_count: int,
    walk: Seq<(int, int)>,
) -> bool {
    &&& walk.len() > 0
    &&& forall|i: int|
        0 <= i < walk.len() ==> carved_at(
            chars,
            column_count,
            row_count,
            (#[trigger] walk[i]).0,
            walk[i].1,
        )
    &&& forall|i: int| 0 <= i < walk.len() - 1 ==> beside(#[trigger] walk[i], walk[i + 1])
}

/// One can get from `p` to `q` over carved squares, moving along rows and
/// columns.
pub open spec fn linked(
    chars: Seq<char>,
    column_count: int,
    row_count: int,
    p: (int, int),
    q: (int, int),
) -> bool {
    exists|walk: Seq<(int, int)>|
        #[trigger] is_walk(chars, column_count, row_count, walk) && walk[0] == p && walk[walk.len()
            - 1] == q
}

/// Every carved square can be reached from `hub`.
pub open spec fn joined_to(chars: Seq<char>, column_count: int, row_count: int, hub: (int, int)) -> bool {
    forall|x: int, y: int| #[trigger]
        carved_at(chars, column_count, row_count, x, y) ==> linked(
            chars,
            column_count,
            row_count,
            hub,
            (x, y),
        )
}

/// Two walks that meet make one walk.
proof fn lemma_linked_on(
    chars: Seq<char>,
    column_count: int,
    row_count: int,
    p: (int, int),
    q: (int, int),
    r: (int, int),
)
    requires
        linked(chars, column_count, row_count, p, q),
        linked(chars, column_count, row_count, q, r),
    ensures
        linked(chars, column_count, row_count, p, r),
{
    let first = choose|walk: Seq<(int, int)>|
        #[trigger] is_walk(chars, column_count, row_count, walk) && walk[0] == p && walk[walk.len()
            - 1] == q;
    let second = choose|walk: Seq<(int, int)>|
        #[trigger] is_walk(chars, column_count, row_count, walk) && walk[0] == q && walk[walk.len()
            - 1] == r;
    let rest = second.subrange(1, second.len() as int);
    let whole = first + rest;
    assert forall|i: int| 0 <= i < whole.len() implies carved_at(
        chars,
        column_count,
        row_count,
        (#[trigger] whole[i]).0,
        whole[i].1,
    ) by {
        if i < first.len() {
            assert(whole[i] == first[i]);
        } else {
            assert(whole[i] == second[i - first.len() + 1]);
        }
    }
    assert forall|i: int| 0 <= i < whole.len() - 1 implies beside(
        #[trigger] whole[i],
        whole[i + 1],
    ) by {
        if i < first.len() - 1 {
            assert(whole[i] == first[i]);
            assert(whole[i + 1] == first[i + 1]);
        } else if i == first.len() - 1 {
            assert(whole[i] == second[0]);
            assert(whole[i + 1] == second[1]);
        } else {
            assert(whole[i] == second[i - first.len() + 1]);
            assert(whole[i + 1] == second[i - first.len() + 2]);
        }
    }
    assert(is_walk(chars, column_count, row_count, whole));
    if rest.len() == 0 {
        assert(whole[whole.len() - 1] == first[first.len() - 1]);
    } else {
        assert(whole[whole.len() - 1] == second[second.len() - 1]);
    }
}

/// A walk stays a walk when more is carved.
proof fn lemma_linked_still(
    chars: Seq<char>,
    more: Seq<char>,
    column_count: int,
    row_count: int,
    p: (int, int),
    q: (int, int),
)
    requires
        linked(chars, column_count, row_count, p, q),
        forall|x: int, y: int| #[trigger]
            carved_at(chars, column_count, row_count, x, y) ==> carved_at(
                more,
                column_count,
                row_count,
                x,
                y,
            ),
    ensures
        linked(more, column_count, row_count, p, q),
{
    let walk = choose|walk: Seq<(int, int)>|
        #[trigger] is_walk(chars, column_count, row_count, walk) && walk[0] == p && walk[walk.len()
            - 1] == q;
    assert(is_walk(more, column_count, row_count, walk));
}

/// Any two squares of a room that is carved whole can be reached from each
/// other.
proof fn lemma_room_is_linked(
    chars: Seq<char>,
    column_count: int,
    row_count: int,
    room: &MapRect,
    p: (int, int),
    q: (int, int),
)
    requires
        room.x2 < column_count,
        room.y2 < row_count,
        hollow(chars, room, column_count),
        room.covers(p.0, p.1),
        room.covers(q.0, q.1),
    ensures
        linked(chars, column_count, row_count, p, q),
    decreases
        (if p.0 < q.0 {
            q.0 - p.0
        } else {
            p.0 - q.0
        }) + (if p.1 < q.1 {
            q.1 - p.1
        } else {
            p.1 - q.1
        }),
{
    assert(carved_at(chars, column_count, row_count, p.0, p.1));
    if p == q {
        let walk = seq![p];
        assert(is_walk(chars, column_count, row_count, walk));
        assert(walk[0] == p && walk[walk.len() - 1] == q);
    } else {
        let next = if p.0 < q.0 {
            (p.0 + 1, p.1)
        } else if p.0 > q.0 {
            (p.0 - 1, p.1)
        } else if p.1 < q.1 {
            (p.0, p.1 + 1)
        } else {
            (p.0, p.1 - 1)
        };
        assert(room.covers(next.0, next.1));
        assert(carved_at(chars, column_count, row_count, next.0, next.1));
        let walk = seq![p, next];
        assert(is_walk(chars, column_count, row_count, walk));
        assert(walk[0] == p && walk[walk.len() - 1] == next);
        lemma_room_is_linked(chars, column_count, row_count, room, next, q);
        lemma_linked_on(chars, column_count, row_count, p, next, q);
    }
}

/// Carving a room that holds a square carved before keeps every carved
/// square within reach of `hub`, and makes the room hollow.
proof fn lemma_carving_stays_joined(
    chars: Seq<char>,
    column_count: int,
    row_count: int,
    room: &MapRect,
    hub: (int, int),
    anchor: (int, int),
)
    requires
        chars.len() == column_count * row_count,
        room.x2 < column_count,
        room.y2 < row_count,
        joined_to(chars, column_count, row_count, hub),
        room.covers(anchor.0, anchor.1),
        carved_at(chars, column_count, row_count, anchor.0, anchor.1),
    ensures
        joined_to(carved(chars, room, column_count), column_count, row_count, hub),
        hollow(carved(chars, room, column_count), room, column_count),
        forall|x: int, y: int| #[trigger]
            carved_at(chars, column_count, row_count, x, y) ==> carved_at(
                carved(chars, room, column_count),
                column_count,
                row_count,
                x,
                y,
            ),
{
    let more = carved(chars, room, column_count);
    assert forall|x: int, y: int| #[trigger]
        carved_at(chars, column_count, row_count, x, y) implies carved_at(
        more,
        column_count,
        row_count,
        x,
        y,
    ) by {
        lemma_square_index(x, y, column_count, row_count);
    }
    assert forall|x: int, y: int| room.covers(x, y) implies #[trigger] more[x + column_count * y]
        == spec_carved_mark() by {
        lemma_square_index(x, y, column_count, row_count);
    }
    lemma_linked_still(chars, more, column_count, row_count, hub, anchor);
    assert forall|x: int, y: int| #[trigger]
        carved_at(more, column_count, row_count, x, y) implies linked(
        more,
        column_count,
        row_count,
        hub,
        (x, y),
    ) by {
        lemma_square_index(x, y, column_count, row_count);
        if room.covers(x, y) {
            lemma_room_is_linked(more, column_count, row_count, room, anchor, (x, y));
            lemma_linked_on(more, column_count, row_count, hub, anchor, (x, y));
        } else {
            assert(carved_at(chars, column_count, row_count, x, y));
            lemma_linked_still(chars, more, column_count, row_count, hub, (x, y));
        }
    }
}

/// The dungeon of the first `n` rooms is of one piece: every carved square
/// can be reached from the middle of the first room, and the room made last
/// is carved whole.
proof fn lemma_dug_is_joined(
    rooms: Seq<MapRect>,
    flips: Seq<bool>,
    column_count: int,
    row_count: int,
    n: int,
)
    requires
        1 <= n <= rooms.len(),
        forall|k: int| 0 <= k < rooms.len() ==> fits(&#[trigger] rooms[k], column_count, row_count),
    ensures
        dug(rooms, flips, column_count, column_count * row_count, n).len() == column_count
            * row_count,
        hollow(
            dug(rooms, flips, column_count, column_count * row_count, n),
            &rooms[n - 1],
            column_count,
        ),
        joined_to(
            dug(rooms, flips, column_count, column_count * row_count, n),
            column_count,
            row_count,
            (rooms[0].spec_center().0 as int, rooms[0].spec_center().1 as int),
        ),
    decreases n,
{
    let total = column_count * row_count;
    let hub = (rooms[0].spec_center().0 as int, rooms[0].spec_center().1 as int);
    let now = dug(rooms, flips, column_count, total, n);
    assert(fits(&rooms[0], column_count, row_count));
    assert(fits(&rooms[n - 1], column_count, row_count));
    assert(total >= 0) by (nonlinear_arith)
        requires
            column_count >= 0,
            row_count >= 0,
            total == column_count * row_count,
    ;
    if n == 1 {
        let blank = dug(rooms, flips, column_count, total, 0);
        let room = rooms[0];
        assert forall|x: int, y: int| room.covers(x, y) implies #[trigger] now[x + column_count
            * y] == spec_carved_mark() by {
            lemma_square_index(x, y, column_count, row_count);
        }
        assert forall|x: int, y: int| #[trigger]
            carved_at(now, column_count, row_count, x, y) implies linked(
            now,
            column_count,
            row_count,
            hub,
            (x, y),
        ) by {
            lemma_square_index(x, y, column_count, row_count);
            assert(room.covers(x, y));
            lemma_room_is_linked(now, column_count, row_count, &room, hub, (x, y));
        }
    } else {
        lemma_dug_is_joined(rooms, flips, column_count, row_count, n - 1);
        let before = dug(rooms, flips, column_count, total, n - 1);
        let past = rooms[n - 2];
        let room = rooms[n - 1];
        assert(fits(&past, column_count, row_count));
        let flip = flips[n - 1];
        let halls = corridors(&past, &room, flip);
        let from = (past.spec_center().0 as int, past.spec_center().1 as int);
        let to = (room.spec_center().0 as int, room.spec_center().1 as int);
        let corner = if flip {
            (to.0, from.1)
        } else {
            (from.0, to.1)
        };
        let near = if flip {
            halls.0
        } else {
            halls.1
        };
        let far = if flip {
            halls.1
        } else {
            halls.0
        };
        assert(past.covers(from.0, from.1));
        assert(room.covers(to.0, to.1));
        assert(near.covers(from.0, from.1) && near.covers(corner.0, corner.1));
        assert(far.covers(corner.0, corner.1) && far.covers(to.0, to.1));
        lemma_square_index(from.0, from.1, column_count, row_count);
        assert(carved_at(before, column_count, row_count, from.0, from.1));
        lemma_carving_stays_joined(before, column_count, row_count, &near, hub, from);
        let one = carved(before, &near, column_count);
        lemma_square_index(corner.0, corner.1, column_count, row_count);
        assert(carved_at(one, column_count, row_count, corner.0, corner.1));
        lemma_carving_stays_joined(one, column_count, row_count, &far, hub, corner);
        let two = carved(one, &far, column_count);
        lemma_square_index(to.0, to.1, column_count, row_count);
        assert(carved_at(two, column_count, row_count, to.0, to.1));
        lemma_carving_stays_joined(two, column_count, row_count, &room, hub, to);
        let three = carved(two, &room, column_count);
        assert(now =~= three);
    }
}

/// A generated dungeon is of one piece: every carved square can be reached
/// from `center`, the middle of the first room, over carved squares along
/// rows and columns.
pub proof fn lemma_generated_is_joined(
    chars: Seq<char>,
    column_count: int,
    row_count: int,
    center: (usize, usize),
)
    requires
        generated(chars, column_count, row_count, center),
    ensures
        joined_to(chars, column_count, row_count, (center.0 as int, center.1 as int)),
{
    let (rooms, flips) = choose|rooms: Seq<MapRect>, flips: Seq<bool>| #[trigger]
        laid_out(rooms, flips, column_count, row_count, chars, center);
    lemma_dug_is_joined(rooms, flips, column_count, row_count, rooms.len() as int);
}

} // verus!
