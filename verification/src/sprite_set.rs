use crate::tileset::{cut_tile, cuttable, tile_at, TileRect};
use vstd::prelude::*;

verus! {

/// The sprites of the sheet, in the order in which their tiles stand on it.
#[derive(Debug, Clone, Copy, PartialEq, Eq, PartialOrd, Structural)]
pub enum SpriteCode {
    Building10,
    Building11,
    Building12,
    Building1,
    Building2,
    Building3,
    Building4,
    Building5,
    Building6,
    Building7,
    Building8,
    Building9,
    Charf10,
    Charf11,
    Charf12,
    Charf13,
    Charf1,
    Charf2,
    Charf3,
    Charf4,
    Charf5,
    Charf6,
    Charf7,
    Charf8,
    Charf9,
    Charm10,
    Charm11,
    Charm12,
    Charm13,
    Charm1,
    Charm2,
    Charm3,
    Charm4,
    Charm5,
    Charm6,
    Charm7,
    Charm8,
    Charm9,
    Charo1,
    Charo2,
    Charo3,
    Charo4,
    Charo5,
    Charo6,
    Charo7,
    Creature1,
    Creature2,
    Creature3,
    Creature4,
    Creature5,
    Creature6,
    Creature7,
    Creature8,
    Exploration10,
    Exploration11,
    Exploration12,
    Exploration13,
    Exploration14,
    Exploration15,
    Exploration16,
    Exploration17,
    Exploration18,
    Exploration19,
    Exploration1,
    Exploration20,
    Exploration21,
    Exploration2,
    Exploration3,
    Exploration4,
    Exploration5,
    Exploration6,
    Exploration7,
    Exploration8,
    Exploration9,
    Fauna10,
    Fauna11,
    Fauna12,
    Fauna13,
    Fauna1,
    Fauna2,
    Fauna3,
    Fauna4,
    Fauna5,
    Fauna6,
    Fauna7,
    Fauna8,
    Fauna9,
    Food10,
    Food11,
    Food12,
    Food13,
    Food14,
    Food15,
    Food16,
    Food17,
    Food18,
    Food19,
    Food1,
    Food20,
    Food21,
    Food22,
    Food2,
    Food3,
    Food4,
    Food5,
    Food6,
    Food7,
    Food8,
    Food9,
    Furniture10,
    Furniture11,
    Furniture1,
    Furniture2,
    Furniture3,
    Furniture4,
    Furniture5,
    Furniture6,
    Furniture7,
    Furniture8,
    Furniture9,
    Magic10,
    Magic11,
    Magic12,
    Magic13,
    Magic14,
    Magic15,
    Magic1,
    Magic2,
    Magic3,
    Magic4,
    Magic5,
    Magic6,
    Magic7,
    Magic8,
    Magic9,
    Outfit10,
    Outfit11,
    Outfit12,
    Outfit13,
    Outfit14,
    Outfit15,
    Outfit16,
    Outfit17,
    Outfit18,
    Outfit19,
    Outfit1,
    Outfit20,
    Outfit21,
    Outfit22,
    Outfit23,
    Outfit24,
    Outfit25,
    Outfit26,
    Outfit27,
    Outfit2,
    Outfit3,
    Outfit4,
    Outfit5,
    Outfit6,
    Outfit7,
    Outfit8,
    Outfit9,
    Overworld10,
    Overworld11,
    Overworld12,
    Overworld13,
    Overworld1,
    Overworld2,
    Overworld3,
    Overworld4,
    Overworld5,
    Overworld6,
    Overworld7,
    Overworld8,
    Overworld9,
    Symbol10,
    Symbol11,
    Symbol12,
    Symbol13,
    Symbol14,
    Symbol15,
    Symbol16,
    Symbol17,
    Symbol18,
    Symbol19,
    Symbol1,
    Symbol20,
    Symbol21,
    Symbol22,
    Symbol23,
    Symbol2,
    Symbol3,
    Symbol4,
    Symbol5,
    Symbol6,
    Symbol7,
    Symbol8,
    Symbol9,
    Trap1,
    Trap2,
    Trap3a,
    Trap3b,
    Trap4a,
    Trap4b,
    Trap5,
    Trap6,
    Trap7a,
    Trap7b,
    Trap8a,
    Trap8b,
    Troll1,
    Troll2,
    Troll3,
    Troll4,
    Unliving1,
    Unliving2,
    Unliving3,
    Unliving4,
    Unliving5,
    Unliving6,
    Unliving7,
    Unliving8,
    Wall10,
    Wall11,
    Wall12,
    Wall1,
    Wall2,
    Wall3,
    Wall4,
    Wall5,
    Wall6,
    Wall7,
    Wall8,
    Wall9,
    Cursor,
    NoSprite,
}

impl SpriteCode {
    /// The place of the sprite's tile on the sheet, counted from zero.
    pub open spec fn spec_index(self) -> int {
        match self {
            SpriteCode::Building10 => 0int,
            SpriteCode::Building11 => 1int,
            SpriteCode::Building12 => 2int,
            SpriteCode::Building1 => 3int,
            SpriteCode::Building2 => 4int,
            SpriteCode::Building3 => 5int,
            SpriteCode::Building4 => 6int,
            SpriteCode::Building5 => 7int,
            SpriteCode::Building6 => 8int,
            SpriteCode::Building7 => 9int,
            SpriteCode::Building8 => 10int,
            SpriteCode::Building9 => 11int,
            SpriteCode::Charf10 => 12int,
            SpriteCode::Charf11 => 13int,
            SpriteCode::Charf12 => 14int,
            SpriteCode::Charf13 => 15int,
            SpriteCode::Charf1 => 16int,
            SpriteCode::Charf2 => 17int,
            SpriteCode::Charf3 => 18int,
            SpriteCode::Charf4 => 19int,
            SpriteCode::Charf5 => 20int,
            SpriteCode::Charf6 => 21int,
            SpriteCode::Charf7 => 22int,
            SpriteCode::Charf8 => 23int,
            SpriteCode::Charf9 => 24int,
            SpriteCode::Charm10 => 25int,
            SpriteCode::Charm11 => 26int,
            SpriteCode::Charm12 => 27int,
            SpriteCode::Charm13 => 28int,
            SpriteCode::Charm1 => 29int,
            SpriteCode::Charm2 => 30int,
            SpriteCode::Charm3 => 31int,
            SpriteCode::Charm4 => 32int,
            SpriteCode::Charm5 => 33int,
            SpriteCode::Charm6 => 34int,
            SpriteCode::Charm7 => 35int,
            SpriteCode::Charm8 => 36int,
            SpriteCode::Charm9 => 37int,
            SpriteCode::Charo1 => 38int,
            SpriteCode::Charo2 => 39int,
            SpriteCode::Charo3 => 40int,
            SpriteCode::Charo4 => 41int,
            SpriteCode::Charo5 => 42int,
            SpriteCode::Charo6 => 43int,
            SpriteCode::Charo7 => 44int,
            SpriteCode::Creature1 => 45int,
            SpriteCode::Creature2 => 46int,
            SpriteCode::Creature3 => 47int,
            SpriteCode::Creature4 => 48int,
            SpriteCode::Creature5 => 49int,
            SpriteCode::Creature6 => 50int,
            SpriteCode::Creature7 => 51int,
            SpriteCode::Creature8 => 52int,
            SpriteCode::Exploration10 => 53int,
            SpriteCode::Exploration11 => 54int,
            SpriteCode::Exploration12 => 55int,
            SpriteCode::Exploration13 => 56int,
            SpriteCode::Exploration14 => 57int,
            SpriteCode::Exploration15 => 58int,
            SpriteCode::Exploration16 => 59int,
            SpriteCode::Exploration17 => 60int,
            SpriteCode::Exploration18 => 61int,
            SpriteCode::Exploration19 => 62int,
            SpriteCode::Exploration1 => 63int,
            SpriteCode::Exploration20 => 64int,
            SpriteCode::Exploration21 => 65int,
            SpriteCode::Exploration2 => 66int,
            SpriteCode::Exploration3 => 67int,
            SpriteCode::Exploration4 => 68int,
            SpriteCode::Exploration5 => 69int,
            SpriteCode::Exploration6 => 70int,
            SpriteCode::Exploration7 => 71int,
            SpriteCode::Exploration8 => 72int,
            SpriteCode::Exploration9 => 73int,
            SpriteCode::Fauna10 => 74int,
            SpriteCode::Fauna11 => 75int,
            SpriteCode::Fauna12 => 76int,
            SpriteCode::Fauna13 => 77int,
            SpriteCode::Fauna1 => 78int,
            SpriteCode::Fauna2 => 79int,
            SpriteCode::Fauna3 => 80int,
            SpriteCode::Fauna4 => 81int,
            SpriteCode::Fauna5 => 82int,
            SpriteCode::Fauna6 => 83int,
            SpriteCode::Fauna7 => 84int,
            SpriteCode::Fauna8 => 85int,
            SpriteCode::Fauna9 => 86int,
            SpriteCode::Food10 => 87int,
            SpriteCode::Food11 => 88int,
            SpriteCode::Food12 => 89int,
            SpriteCode::Food13 => 90int,
            SpriteCode::Food14 => 91int,
            SpriteCode::Food15 => 92int,
            SpriteCode::Food16 => 93int,
            SpriteCode::Food17 => 94int,
            SpriteCode::Food18 => 95int,
            SpriteCode::Food19 => 96int,
            SpriteCode::Food1 => 97int,
            SpriteCode::Food20 => 98int,
            SpriteCode::Food21 => 99int,
            SpriteCode::Food22 => 100int,
            SpriteCode::Food2 => 101int,
            SpriteCode::Food3 => 102int,
            SpriteCode::Food4 => 103int,
            SpriteCode::Food5 => 104int,
            SpriteCode::Food6 => 105int,
            SpriteCode::Food7 => 106int,
            SpriteCode::Food8 => 107int,
            SpriteCode::Food9 => 108int,
            SpriteCode::Furniture10 => 109int,
            SpriteCode::Furniture11 => 110int,
            SpriteCode::Furniture1 => 111int,
            SpriteCode::Furniture2 => 112int,
            SpriteCode::Furniture3 => 113int,
            SpriteCode::Furniture4 => 114int,
            SpriteCode::Furniture5 => 115int,
            SpriteCode::Furniture6 => 116int,
            SpriteCode::Furniture7 => 117int,
            SpriteCode::Furniture8 => 118int,
            SpriteCode::Furniture9 => 119int,
            SpriteCode::Magic10 => 120int,
            SpriteCode::Magic11 => 121int,
            SpriteCode::Magic12 => 122int,
            SpriteCode::Magic13 => 123int,
            SpriteCode::Magic14 => 124int,
            SpriteCode::Magic15 => 125int,
            SpriteCode::Magic1 => 126int,
            SpriteCode::Magic2 => 127int,
            SpriteCode::Magic3 => 128int,
            SpriteCode::Magic4 => 129int,
            SpriteCode::Magic5 => 130int,
            SpriteCode::Magic6 => 131int,
            SpriteCode::Magic7 => 132int,
            SpriteCode::Magic8 => 133int,
            SpriteCode::Magic9 => 134int,
            SpriteCode::Outfit10 => 135int,
            SpriteCode::Outfit11 => 136int,
            SpriteCode::Outfit12 => 137int,
            SpriteCode::Outfit13 => 138int,
            SpriteCode::Outfit14 => 139int,
            SpriteCode::Outfit15 => 140int,
            SpriteCode::Outfit16 => 141int,
            SpriteCode::Outfit17 => 142int,
            SpriteCode::Outfit18 => 143int,
            SpriteCode::Outfit19 => 144int,
            SpriteCode::Outfit1 => 145int,
            SpriteCode::Outfit20 => 146int,
            SpriteCode::Outfit21 => 147int,
            SpriteCode::Outfit22 => 148int,
            SpriteCode::Outfit23 => 149int,
            SpriteCode::Outfit24 => 150int,
            SpriteCode::Outfit25 => 151int,
            SpriteCode::Outfit26 => 152int,
            SpriteCode::Outfit27 => 153int,
            SpriteCode::Outfit2 => 154int,
            SpriteCode::Outfit3 => 155int,
            SpriteCode::Outfit4 => 156int,
            SpriteCode::Outfit5 => 157int,
            SpriteCode::Outfit6 => 158int,
            SpriteCode::Outfit7 => 159int,
            SpriteCode::Outfit8 => 160int,
            SpriteCode::Outfit9 => 161int,
            SpriteCode::Overworld10 => 162int,
            SpriteCode::Overworld11 => 163int,
            SpriteCode::Overworld12 => 164int,
            SpriteCode::Overworld13 => 165int,
            SpriteCode::Overworld1 => 166int,
            SpriteCode::Overworld2 => 167int,
            SpriteCode::Overworld3 => 168int,
            SpriteCode::Overworld4 => 169int,
            SpriteCode::Overworld5 => 170int,
            SpriteCode::Overworld6 => 171int,
            SpriteCode::Overworld7 => 172int,
            SpriteCode::Overworld8 => 173int,
            SpriteCode::Overworld9 => 174int,
            SpriteCode::Symbol10 => 175int,
            SpriteCode::Symbol11 => 176int,
            SpriteCode::Symbol12 => 177int,
            SpriteCode::Symbol13 => 178int,
            SpriteCode::Symbol14 => 179int,
            SpriteCode::Symbol15 => 180int,
            SpriteCode::Symbol16 => 181int,
            SpriteCode::Symbol17 => 182int,
            SpriteCode::Symbol18 => 183int,
            SpriteCode::Symbol19 => 184int,
            SpriteCode::Symbol1 => 185int,
            SpriteCode::Symbol20 => 186int,
            SpriteCode::Symbol21 => 187int,
            SpriteCode::Symbol22 => 188int,
            SpriteCode::Symbol23 => 189int,
            SpriteCode::Symbol2 => 190int,
            SpriteCode::Symbol3 => 191int,
            SpriteCode::Symbol4 => 192int,
            SpriteCode::Symbol5 => 193int,
            SpriteCode::Symbol6 => 194int,
            SpriteCode::Symbol7 => 195int,
            SpriteCode::Symbol8 => 196int,
            SpriteCode::Symbol9 => 197int,
            SpriteCode::Trap1 => 198int,
            SpriteCode::Trap2 => 199int,
            SpriteCode::Trap3a => 200int,
            SpriteCode::Trap3b => 201int,
            SpriteCode::Trap4a => 202int,
            SpriteCode::Trap4b => 203int,
            SpriteCode::Trap5 => 204int,
            SpriteCode::Trap6 => 205int,
            SpriteCode::Trap7a => 206int,
            SpriteCode::Trap7b => 207int,
            SpriteCode::Trap8a => 208int,
            SpriteCode::Trap8b => 209int,
            SpriteCode::Troll1 => 210int,
            SpriteCode::Troll2 => 211int,
            SpriteCode::Troll3 => 212int,
            SpriteCode::Troll4 => 213int,
            SpriteCode::Unliving1 => 214int,
            SpriteCode::Unliving2 => 215int,
            SpriteCode::Unliving3 => 216int,
            SpriteCode::Unliving4 => 217int,
            SpriteCode::Unliving5 => 218int,
            SpriteCode::Unliving6 => 219int,
            SpriteCode::Unliving7 => 220int,
            SpriteCode::Unliving8 => 221int,
            SpriteCode::Wall10 => 222int,
            SpriteCode::Wall11 => 223int,
            SpriteCode::Wall12 => 224int,
            SpriteCode::Wall1 => 225int,
            SpriteCode::Wall2 => 226int,
            SpriteCode::Wall3 => 227int,
            SpriteCode::Wall4 => 228int,
            SpriteCode::Wall5 => 229int,
            SpriteCode::Wall6 => 230int,
            SpriteCode::Wall7 => 231int,
            SpriteCode::Wall8 => 232int,
            SpriteCode::Wall9 => 233int,
            SpriteCode::Cursor => 234int,
            SpriteCode::NoSprite => 235int,
        }
    }

    /// Computes the place of the sprite's tile on the sheet.
    pub fn index(self) -> (r: usize)
        ensures
            r == self.spec_index(),
            r < 236,
    {
        match self {
            SpriteCode::Building10 => 0,
            SpriteCode::Building11 => 1,
            SpriteCode::Building12 => 2,
            SpriteCode::Building1 => 3,
            SpriteCode::Building2 => 4,
            SpriteCode::Building3 => 5,
            SpriteCode::Building4 => 6,
            SpriteCode::Building5 => 7,
            SpriteCode::Building6 => 8,
            SpriteCode::Building7 => 9,
            SpriteCode::Building8 => 10,
            SpriteCode::Building9 => 11,
            SpriteCode::Charf10 => 12,
            SpriteCode::Charf11 => 13,
            SpriteCode::Charf12 => 14,
            SpriteCode::Charf13 => 15,
            SpriteCode::Charf1 => 16,
            SpriteCode::Charf2 => 17,
            SpriteCode::Charf3 => 18,
            SpriteCode::Charf4 => 19,
            SpriteCode::Charf5 => 20,
            SpriteCode::Charf6 => 21,
            SpriteCode::Charf7 => 22,
            SpriteCode::Charf8 => 23,
            SpriteCode::Charf9 => 24,
            SpriteCode::Charm10 => 25,
            SpriteCode::Charm11 => 26,
            SpriteCode::Charm12 => 27,
            SpriteCode::Charm13 => 28,
            SpriteCode::Charm1 => 29,
            SpriteCode::Charm2 => 30,
            SpriteCode::Charm3 => 31,
            SpriteCode::Charm4 => 32,
            SpriteCode::Charm5 => 33,
            SpriteCode::Charm6 => 34,
            SpriteCode::Charm7 => 35,
            SpriteCode::Charm8 => 36,
            SpriteCode::Charm9 => 37,
            SpriteCode::Charo1 => 38,
            SpriteCode::Charo2 => 39,
            SpriteCode::Charo3 => 40,
            SpriteCode::Charo4 => 41,
            SpriteCode::Charo5 => 42,
            SpriteCode::Charo6 => 43,
            SpriteCode::Charo7 => 44,
            SpriteCode::Creature1 => 45,
            SpriteCode::Creature2 => 46,
            SpriteCode::Creature3 => 47,
            SpriteCode::Creature4 => 48,
            SpriteCode::Creature5 => 49,
            SpriteCode::Creature6 => 50,
            SpriteCode::Creature7 => 51,
            SpriteCode::Creature8 => 52,
            SpriteCode::Exploration10 => 53,
            SpriteCode::Exploration11 => 54,
            SpriteCode::Exploration12 => 55,
            SpriteCode::Exploration13 => 56,
            SpriteCode::Exploration14 => 57,
            SpriteCode::Exploration15 => 58,
            SpriteCode::Exploration16 => 59,
            SpriteCode::Exploration17 => 60,
            SpriteCode::Exploration18 => 61,
            SpriteCode::Exploration19 => 62,
            SpriteCode::Exploration1 => 63,
            SpriteCode::Exploration20 => 64,
            SpriteCode::Exploration21 => 65,
            SpriteCode::Exploration2 => 66,
            SpriteCode::Exploration3 => 67,
            SpriteCode::Exploration4 => 68,
            SpriteCode::Exploration5 => 69,
            SpriteCode::Exploration6 => 70,
            SpriteCode::Exploration7 => 71,
            SpriteCode::Exploration8 => 72,
            SpriteCode::Exploration9 => 73,
            SpriteCode::Fauna10 => 74,
            SpriteCode::Fauna11 => 75,
            SpriteCode::Fauna12 => 76,
            SpriteCode::Fauna13 => 77,
            SpriteCode::Fauna1 => 78,
            SpriteCode::Fauna2 => 79,
            SpriteCode::Fauna3 => 80,
            SpriteCode::Fauna4 => 81,
            SpriteCode::Fauna5 => 82,
            SpriteCode::Fauna6 => 83,
            SpriteCode::Fauna7 => 84,
            SpriteCode::Fauna8 => 85,
            SpriteCode::Fauna9 => 86,
            SpriteCode::Food10 => 87,
            SpriteCode::Food11 => 88,
            SpriteCode::Food12 => 89,
            SpriteCode::Food13 => 90,
            SpriteCode::Food14 => 91,
            SpriteCode::Food15 => 92,
            SpriteCode::Food16 => 93,
            SpriteCode::Food17 => 94,
            SpriteCode::Food18 => 95,
            SpriteCode::Food19 => 96,
            SpriteCode::Food1 => 97,
            SpriteCode::Food20 => 98,
            SpriteCode::Food21 => 99,
            SpriteCode::Food22 => 100,
            SpriteCode::Food2 => 101,
            SpriteCode::Food3 => 102,
            SpriteCode::Food4 => 103,
            SpriteCode::Food5 => 104,
            SpriteCode::Food6 => 105,
            SpriteCode::Food7 => 106,
            SpriteCode::Food8 => 107,
            SpriteCode::Food9 => 108,
            SpriteCode::Furniture10 => 109,
            SpriteCode::Furniture11 => 110,
            SpriteCode::Furniture1 => 111,
            SpriteCode::Furniture2 => 112,
            SpriteCode::Furniture3 => 113,
            SpriteCode::Furniture4 => 114,
            SpriteCode::Furniture5 => 115,
            SpriteCode::Furniture6 => 116,
            SpriteCode::Furniture7 => 117,
            SpriteCode::Furniture8 => 118,
            SpriteCode::Furniture9 => 119,
            SpriteCode::Magic10 => 120,
            SpriteCode::Magic11 => 121,
            SpriteCode::Magic12 => 122,
            SpriteCode::Magic13 => 123,
            SpriteCode::Magic14 => 124,
            SpriteCode::Magic15 => 125,
            SpriteCode::Magic1 => 126,
            SpriteCode::Magic2 => 127,
            SpriteCode::Magic3 => 128,
            SpriteCode::Magic4 => 129,
            SpriteCode::Magic5 => 130,
            SpriteCode::Magic6 => 131,
            SpriteCode::Magic7 => 132,
            SpriteCode::Magic8 => 133,
            SpriteCode::Magic9 => 134,
            SpriteCode::Outfit10 => 135,
            SpriteCode::Outfit11 => 136,
            SpriteCode::Outfit12 => 137,
            SpriteCode::Outfit13 => 138,
            SpriteCode::Outfit14 => 139,
            SpriteCode::Outfit15 => 140,
            SpriteCode::Outfit16 => 141,
            SpriteCode::Outfit17 => 142,
            SpriteCode::Outfit18 => 143,
            SpriteCode::Outfit19 => 144,
            SpriteCode::Outfit1 => 145,
            SpriteCode::Outfit20 => 146,
            SpriteCode::Outfit21 => 147,
            SpriteCode::Outfit22 => 148,
            SpriteCode::Outfit23 => 149,
            SpriteCode::Outfit24 => 150,
            SpriteCode::Outfit25 => 151,
            SpriteCode::Outfit26 => 152,
            SpriteCode::Outfit27 => 153,
            SpriteCode::Outfit2 => 154,
            SpriteCode::Outfit3 => 155,
            SpriteCode::Outfit4 => 156,
            SpriteCode::Outfit5 => 157,
            SpriteCode::Outfit6 => 158,
            SpriteCode::Outfit7 => 159,
            SpriteCode::Outfit8 => 160,
            SpriteCode::Outfit9 => 161,
            SpriteCode::Overworld10 => 162,
            SpriteCode::Overworld11 => 163,
            SpriteCode::Overworld12 => 164,
            SpriteCode::Overworld13 => 165,
            SpriteCode::Overworld1 => 166,
            SpriteCode::Overworld2 => 167,
            SpriteCode::Overworld3 => 168,
            SpriteCode::Overworld4 => 169,
            SpriteCode::Overworld5 => 170,
            SpriteCode::Overworld6 => 171,
            SpriteCode::Overworld7 => 172,
            SpriteCode::Overworld8 => 173,
            SpriteCode::Overworld9 => 174,
            SpriteCode::Symbol10 => 175,
            SpriteCode::Symbol11 => 176,
            SpriteCode::Symbol12 => 177,
            SpriteCode::Symbol13 => 178,
            SpriteCode::Symbol14 => 179,
            SpriteCode::Symbol15 => 180,
            SpriteCode::Symbol16 => 181,
            SpriteCode::Symbol17 => 182,
            SpriteCode::Symbol18 => 183,
            SpriteCode::Symbol19 => 184,
            SpriteCode::Symbol1 => 185,
            SpriteCode::Symbol20 => 186,
            SpriteCode::Symbol21 => 187,
            SpriteCode::Symbol22 => 188,
            SpriteCode::Symbol23 => 189,
            SpriteCode::Symbol2 => 190,
            SpriteCode::Symbol3 => 191,
            SpriteCode::Symbol4 => 192,
            SpriteCode::Symbol5 => 193,
            SpriteCode::Symbol6 => 194,
            SpriteCode::Symbol7 => 195,
            SpriteCode::Symbol8 => 196,
            SpriteCode::Symbol9 => 197,
            SpriteCode::Trap1 => 198,
            SpriteCode::Trap2 => 199,
            SpriteCode::Trap3a => 200,
            SpriteCode::Trap3b => 201,
            SpriteCode::Trap4a => 202,
            SpriteCode::Trap4b => 203,
            SpriteCode::Trap5 => 204,
            SpriteCode::Trap6 => 205,
            SpriteCode::Trap7a => 206,
            SpriteCode::Trap7b => 207,
            SpriteCode::Trap8a => 208,
            SpriteCode::Trap8b => 209,
            SpriteCode::Troll1 => 210,
            SpriteCode::Troll2 => 211,
            SpriteCode::Troll3 => 212,
            SpriteCode::Troll4 => 213,
            SpriteCode::Unliving1 => 214,
            SpriteCode::Unliving2 => 215,
            SpriteCode::Unliving3 => 216,
            SpriteCode::Unliving4 => 217,
            SpriteCode::Unliving5 => 218,
            SpriteCode::Unliving6 => 219,
            SpriteCode::Unliving7 => 220,
            SpriteCode::Unliving8 => 221,
            SpriteCode::Wall10 => 222,
            SpriteCode::Wall11 => 223,
            SpriteCode::Wall12 => 224,
            SpriteCode::Wall1 => 225,
            SpriteCode::Wall2 => 226,
            SpriteCode::Wall3 => 227,
            SpriteCode::Wall4 => 228,
            SpriteCode::Wall5 => 229,
            SpriteCode::Wall6 => 230,
            SpriteCode::Wall7 => 231,
            SpriteCode::Wall8 => 232,
            SpriteCode::Wall9 => 233,
            SpriteCode::Cursor => 234,
            SpriteCode::NoSprite => 235,
        }
    }
}

/// The layout of a sprite sheet: how many tiles it holds, how many stand in
/// a row, and the size of a tile on screen and on the sheet.
#[derive(Debug, Clone, Copy, PartialEq, Eq, Structural)]
pub struct TileInfo {
    pub total_count: u32,
    pub row_count: u32,
    pub width: u32,
    pub height: u32,
    pub orig_w: u32,
    pub orig_h: u32,
}

/// Cuts the sheet up: finds the rectangle of every tile on it, in order.
pub fn make_tile_codes(tile_map: &TileInfo) -> (tile_codes: Vec<TileRect>)
    requires
        cuttable(
            tile_map.row_count as int,
            tile_map.orig_w,
            tile_map.orig_h,
            tile_map.total_count as int,
        ),
    ensures
        tile_codes@.len() == tile_map.total_count,
        forall|i: int|
            0 <= i < tile_codes@.len() ==> #[trigger] tile_codes@[i] == tile_at(
                i,
                tile_map.row_count as int,
                tile_map.orig_w,
                tile_map.orig_h,
            ),
{
    let mut tile_codes: Vec<TileRect> = Vec::new();
    let total_count: usize = tile_map.total_count as usize;
    let row_count: usize = tile_map.row_count as usize;
    let mut i: usize = 0;
    while i < total_count
        invariant
            i <= total_count,
            total_count == tile_map.total_count,
            row_count == tile_map.row_count,
            cuttable(row_count as int, tile_map.orig_w, tile_map.orig_h, total_count as int),
            tile_codes@.len() == i,
            forall|k: int|
                0 <= k < i ==> #[trigger] tile_codes@[k] == tile_at(
                    k,
                    row_count as int,
                    tile_map.orig_w,
                    tile_map.orig_h,
                ),
        decreases total_count - i,
    {
        let new_r = cut_tile(
            i,
            row_count,
            tile_map.orig_w,
            tile_map.orig_h,
            Ghost(total_count as int),
        );
        tile_codes.push(new_r);
        i = i + 1;
    }
    tile_codes
}

/// The rectangle of a sprite's tile on a sheet that holds it.
pub fn sprite_tile(tile_codes: &Vec<TileRect>, code: SpriteCode) -> (r: &TileRect)
    requires
        code.spec_index() < tile_codes@.len(),
    ensures
        *r == tile_codes@[code.spec_index()],
{
    &tile_codes[code.index()]
}

} // verus!
