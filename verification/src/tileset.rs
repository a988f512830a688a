use std::collections::HashMap;
use vstd::prelude::*;
use vstd::std_specs::iter::IteratorSpec;

verus! {

broadcast use {vstd::std_specs::hash::group_hash_axioms, vstd::string::axiom_spec_iter};

/// The characters of the tile sheet in the order in which their tiles
/// stand on it, row by row.
pub const EXTENDED_ASCII: &'static str = " ☺☻♥♦♣♠•◘○◙♂♀♪♫☼►◄↕‼¶§▬↨↑↓→←∟↔▲▼ !\"#$%&'\
()*+,-./0123456789:;<=>?@ABCDEFGHIJKLMNOPQRSTUVWXYZ\
[\\]^_`abcdefghijklmnopqrstuvwxyz{|}~⌂ÇüéâäàåçêëèïîìÄÅÉæÆôöòûùÿÖÜ¢£¥₧ƒáíóúñÑªº\
¿⌐¬½¼¡«»░▒▓│┤╡╢╖╕╣║╗╝╜╛┐└┴┬├─┼╞╟╚╔╩╦╠═╬╧╨╤╥╙╘╒╓╫╪┘┌█▄▌▐▀\
αßΓπΣσµτΦΘΩδ∞φε∩≡±≥≤⌠⌡÷≈°∙·√ⁿ²■";

/// The sheet names 255 tiles.
pub proof fn lemma_sheet_length()
    ensures
        EXTENDED_ASCII@.len() == 255,
{
    reveal_strlit(" ☺☻♥♦♣♠•◘○◙♂♀♪♫☼►◄↕‼¶§▬↨↑↓→←∟↔▲▼ !\"#$%&'\
()*+,-./0123456789:;<=>?@ABCDEFGHIJKLMNOPQRSTUVWXYZ\
[\\]^_`abcdefghijklmnopqrstuvwxyz{|}~⌂ÇüéâäàåçêëèïîìÄÅÉæÆôöòûùÿÖÜ¢£¥₧ƒáíóúñÑªº\
¿⌐¬½¼¡«»░▒▓│┤╡╢╖╕╣║╗╝╜╛┐└┴┬├─┼╞╟╚╔╩╦╠═╬╧╨╤╥╙╘╒╓╫╪┘┌█▄▌▐▀\
αßΓπΣσµτΦΘΩδ∞φε∩≡±≥≤⌠⌡÷≈°∙·√ⁿ²■");
}

/// The layout of a tile sheet: how many tiles it holds, how many stand in a
/// row, and the size of a tile on screen and on the sheet.
#[derive(Debug, Clone, Copy, PartialEq, Eq, Structural)]
pub struct TileInfo {
    pub total_count: u32,
    pub col_count: u32,
    pub width: u32,
    pub height: u32,
    pub orig_w: u32,
    pub orig_h: u32,
}

/// A rectangle of pixels on a tile sheet.
#[derive(Debug, Clone, Copy, PartialEq, Eq, Structural)]
pub struct TileRect {
    pub x: i32,
    pub y: i32,
    pub w: u32,
    pub h: u32,
}

/// The rectangle of the tile that stands at place `i` of a sheet with
/// `per_row` tiles in a row, each `w` wide and `h` high.
pub open spec fn tile_at(i: int, per_row: int, w: u32, h: u32) -> TileRect {
    TileRect { x: ((i % per_row) * w) as i32, y: ((i / per_row) * h) as i32, w, h }
}

/// The last column in which any of `count` tiles stands, in rows of
/// `per_row`, columns counted from zero.
pub open spec fn last_column(per_row: int, count: int) -> int {
    (if count < per_row {
        count
    } else {
        per_row
    }) - 1
}

/// The last row in which any of `count` tiles stands, in rows of `per_row`,
/// rows counted from zero.
pub open spec fn last_row(per_row: int, count: int) -> int {
    (count - 1) / per_row
}

/// A sheet of `count` tiles with this layout can be cut up without leaving
/// the range of pixel coordinates: unless it holds no tile at all, its rows
/// hold some, and the corner of the tile in the last column and of the tile
/// in the last row fit.
pub open spec fn cuttable(per_row: int, w: u32, h: u32, count: int) -> bool {
    count > 0 ==> per_row > 0 && last_column(per_row, count) * w <= i32::MAX && last_row(
        per_row,
        count,
    ) * h <= i32::MAX
}

/// Decides whether a sheet of `count` tiles with this layout can be cut up.
pub fn can_cut(per_row: u32, w: u32, h: u32, count: u32) -> (r: bool)
    ensures
        r == cuttable(per_row as int, w, h, count as int),
{
    if count == 0 {
        return true;
    }
    if per_row == 0 {
        return false;
    }
    let limit: u64 = 0x7fff_ffff;
    let across: u64 = (if count < per_row {
        count
    } else {
        per_row
    }) as u64 - 1;
    let down: u64 = ((count - 1) / per_row) as u64;
    assert(across * w <= 0xffff_ffff * 0xffff_ffff) by (nonlinear_arith)
        requires
            0 <= across <= 0xffff_ffff,
            0 <= w <= 0xffff_ffff,
    ;
    assert(down * h <= 0xffff_ffff * 0xffff_ffff) by (nonlinear_arith)
        requires
            0 <= down <= 0xffff_ffff,
            0 <= h <= 0xffff_ffff,
    ;
    across * (w as u64) <= limit && down * (h as u64) <= limit
}

/// No tile of a sheet stands beyond the last column or the last row.
pub proof fn lemma_tile_within(i: int, per_row: int, count: int)
    requires
        0 <= i < count,
        per_row > 0,
    ensures
        0 <= i % per_row <= last_column(per_row, count),
        0 <= i / per_row <= last_row(per_row, count),
{
    vstd::arithmetic::div_mod::lemma_mod_bound(i, per_row);
    vstd::arithmetic::div_mod::lemma_fundamental_div_mod(i, per_row);
    vstd::arithmetic::div_mod::lemma_div_is_ordered(i, count - 1, per_row);
    vstd::arithmetic::div_mod::lemma_div_is_ordered(0, i, per_row);
    assert(0int / per_row == 0) by {
        vstd::arithmetic::div_mod::lemma_fundamental_div_mod_converse(0, per_row, 0, 0);
    }
    assert(per_row * (i / per_row) >= 0) by (nonlinear_arith)
        requires
            per_row > 0,
            i / per_row >= 0,
    ;
}

/// Computes `tile_at`.
pub(crate) fn cut_tile(i: usize, per_row: usize, w: u32, h: u32, Ghost(count): Ghost<int>) -> (r:
    TileRect)
    requires
        cuttable(per_row as int, w, h, count),
        i < count,
    ensures
        r == tile_at(i as int, per_row as int, w, h),
{
    assert(per_row > 0);
    let column: usize = i % per_row;
    let row: usize = i / per_row;
    proof {
        let c = column as int;
        let r = row as int;
        let ww = w as int;
        let hh = h as int;
        lemma_tile_within(i as int, per_row as int, count);
        assert(0 <= c * ww <= last_column(per_row as int, count) * ww) by (nonlinear_arith)
            requires
                0 <= c <= last_column(per_row as int, count),
                0 <= ww,
        ;
        assert(0 <= r * hh <= last_row(per_row as int, count) * hh) by (nonlinear_arith)
            requires
                0 <= r <= last_row(per_row as int, count),
                0 <= hh,
        ;
    }
    let x: u64 = column as u64 * w as u64;
    let y: u64 = row as u64 * h as u64;
    TileRect { x: x as i32, y: y as i32, w, h }
}

/// The table of tiles once the first `n` characters of `sheet` have been
/// given theirs. The blank is given the first tile of the sheet and keeps
/// it; any other character takes the tile at its place, a later place
/// winning over an earlier one. Characters are filed under their code
/// points.
pub open spec fn tiles_upto(info: TileInfo, sheet: Seq<char>, n: int) -> Map<u32, TileRect>
    decreases n,
{
    if n <= 0 {
        Map::<u32, TileRect>::empty().insert(
            ' ' as u32,
            TileRect { x: 0, y: 0, w: info.orig_w, h: info.orig_h },
        )
    } else if sheet[n - 1] != ' ' {
        tiles_upto(info, sheet, n - 1).insert(
            sheet[n - 1] as u32,
            tile_at(n - 1, info.col_count as int, info.orig_w, info.orig_h),
        )
    } else {
        tiles_upto(info, sheet, n - 1)
    }
}

/// Cuts the sheet up: finds for every character of `EXTENDED_ASCII` the
/// rectangle of its tile.
pub fn make_tile_codes(tile_map: &TileInfo) -> (tile_rects: HashMap<u32, TileRect>)
    requires
        cuttable(
            tile_map.col_count as int,
            tile_map.orig_w,
            tile_map.orig_h,
            EXTENDED_ASCII@.len() as int,
        ),
    ensures
        tile_rects@ == tiles_upto(*tile_map, EXTENDED_ASCII@, EXTENDED_ASCII@.len() as int),
{
    let mut tile_rects: HashMap<u32, TileRect> = HashMap::new();
    let per_row: usize = tile_map.col_count as usize;
    let new_r = TileRect { x: 0, y: 0, w: tile_map.orig_w, h: tile_map.orig_h };
    tile_rects.insert(' ' as u32, new_r);
    let ghost sheet = EXTENDED_ASCII@;
    let mut i: usize = 0;
    for to_add in it: EXTENDED_ASCII.chars()
        invariant
            it.seq() == sheet,
            sheet == EXTENDED_ASCII@,
            i == it.index(),
            per_row == tile_map.col_count,
            cuttable(per_row as int, tile_map.orig_w, tile_map.orig_h, sheet.len() as int),
            tile_rects@ == tiles_upto(*tile_map, sheet, i as int),
    {
        if to_add != ' ' {
            let new_r = cut_tile(
                i,
                per_row,
                tile_map.orig_w,
                tile_map.orig_h,
                Ghost(sheet.len() as int),
            );
            tile_rects.insert(to_add as u32, new_r);
        }
        proof {
            lemma_sheet_length();
        }
        i = i + 1;
    }
    tile_rects
}

/// A tile sheet cut up by character.
pub struct Tileset {
    pub tile_rects: HashMap<u32, TileRect>,
    pub tile_info: TileInfo,
}

impl Tileset {
    /// Cuts up a sheet with the given layout.
    pub fn new(tile_info: TileInfo) -> (r: Self)
        requires
            cuttable(
                tile_info.col_count as int,
                tile_info.orig_w,
                tile_info.orig_h,
                EXTENDED_ASCII@.len() as int,
            ),
        ensures
            r.tile_info == tile_info,
            r.tile_rects@ == tiles_upto(tile_info, EXTENDED_ASCII@, EXTENDED_ASCII@.len() as int),
    {
        let tile_rects = make_tile_codes(&tile_info);
        Self { tile_rects, tile_info }
    }

    /// The rectangle of the tile of a character that the sheet holds.
    pub fn get_char(&self, to_get: char) -> (r: &TileRect)
        requires
            self.tile_rects@.contains_key(to_get as u32),
        ensures
            *r == self.tile_rects@[to_get as u32],
    {
        let code: u32 = to_get as u32;
        self.tile_rects.get(&code).unwrap()
    }
}

} // verus!
