use vstd::prelude::*;

use crate::UNIT;

verus! {

/// The surface classification of a terrain cell; it selects the cell's tile in
/// the texture atlas. Carved road cells are `Rock`.
#[derive(Clone, Copy, Debug, PartialEq, Eq, Structural, Hash)]
pub enum TextureSections {
    Grass,
    Grass2,
    Gravel,
    Rock,
    Snow,
}

/// Upper bounds (exclusive) of the height bands, lowest first; heights at or
/// above the last bound are `Snow`.
pub const GRASS_BELOW: i32 = -5 * UNIT;
pub const GRASS2_BELOW: i32 = 0;
pub const GRAVEL_BELOW: i32 = 5 * UNIT;
pub const ROCK_BELOW: i32 = 7 * UNIT;

/// The section a freshly generated cell of the given height gets.
pub open spec fn section_of(height: int) -> TextureSections {
    if height < GRASS_BELOW {
        TextureSections::Grass
    } else if height < GRASS2_BELOW {
        TextureSections::Grass2
    } else if height < GRAVEL_BELOW {
        TextureSections::Gravel
    } else if height < ROCK_BELOW {
        TextureSections::Rock
    } else {
        TextureSections::Snow
    }
}

/// The section a carved road cell gets.
pub open spec fn road_section() -> TextureSections {
    TextureSections::Rock
}

/// Position of a section in the atlas strip.
pub open spec fn section_slot(s: TextureSections) -> nat {
    match s {
        TextureSections::Grass => 0,
        TextureSections::Grass2 => 1,
        TextureSections::Gravel => 2,
        TextureSections::Rock => 3,
        TextureSections::Snow => 4,
    }
}

/// Number of sections, hence of tiles in the atlas strip.
pub const SECTION_COUNT: u32 = 5;

/// Classifies a height by scanning the band table from the lowest band up.
pub fn to_texture(height: i32) -> (r: TextureSections)
    ensures
        r == section_of(height as int),
{
    let bands: [(i32, TextureSections); 4] = [
        (GRASS_BELOW, TextureSections::Grass),
        (GRASS2_BELOW, TextureSections::Grass2),
        (GRAVEL_BELOW, TextureSections::Gravel),
        (ROCK_BELOW, TextureSections::Rock),
    ];
    let mut i: usize = 0;
    while i < 4
        invariant
            0 <= i <= 4,
            bands@ == seq![
                (GRASS_BELOW, TextureSections::Grass),
                (GRASS2_BELOW, TextureSections::Grass2),
                (GRAVEL_BELOW, TextureSections::Gravel),
                (ROCK_BELOW, TextureSections::Rock),
            ],
            forall|j: int| 0 <= j < i ==> height >= #[trigger] bands@[j].0,
        decreases 4 - i,
    {
        if height < bands[i].0 {
            proof {
                assert(GRASS_BELOW == -5000 && GRASS2_BELOW == 0 && GRAVEL_BELOW == 5000 && ROCK_BELOW == 7000);
                assert(i == 0 || i == 1 || i == 2 || i == 3);
                if i >= 1 {
                    assert(height >= bands@[0].0);
                }
                if i >= 2 {
                    assert(height >= bands@[1].0);
                }
                if i >= 3 {
                    assert(height >= bands@[2].0);
                }
            }
            return bands[i].1;
        }
        i = i + 1;
    }
    assert(height >= bands@[3].0);
    TextureSections::Snow
}

/// A rectangle of the texture atlas, in texels.
#[derive(Clone, Copy, Debug, PartialEq, Eq, Structural)]
pub struct UvCoords {
    pub top: u32,
    pub bottom: u32,
    pub left: u32,
    pub right: u32,
}

/// The atlas lookup: one rectangle per section.
pub struct TextureAtlas {
    rects: [UvCoords; 5],
}

impl View for TextureAtlas {
    type V = Seq<UvCoords>;

    closed spec fn view(&self) -> Seq<UvCoords> {
        self.rects@
    }
}

impl TextureAtlas {
    /// The rectangle that `lookup` returns for a section.
    pub open spec fn rect(&self, s: TextureSections) -> UvCoords {
        self@[section_slot(s) as int]
    }

    /// An atlas whose rectangles are given in section order.
    pub fn new(grass: UvCoords, grass2: UvCoords, gravel: UvCoords, rock: UvCoords, snow: UvCoords) -> (r: Self)
        ensures
            r@.len() == 5,
            r.rect(TextureSections::Grass) == grass,
            r.rect(TextureSections::Grass2) == grass2,
            r.rect(TextureSections::Gravel) == gravel,
            r.rect(TextureSections::Rock) == rock,
            r.rect(TextureSections::Snow) == snow,
    {
        TextureAtlas { rects: [grass, grass2, gravel, rock, snow] }
    }

    /// The atlas of a horizontal strip of square tiles of `tile` texels, one
    /// per section in section order.
    pub fn strip(tile: u32) -> (r: Self)
        requires
            tile * SECTION_COUNT <= u32::MAX,
        ensures
            r@.len() == 5,
            forall|s: TextureSections| #[trigger] r.rect(s) == (UvCoords {
                top: tile,
                bottom: 0,
                left: (section_slot(s) * tile) as u32,
                right: ((section_slot(s) + 1) * tile) as u32,
            }),
    {
        let mut rects: [UvCoords; 5] = [UvCoords { top: tile, bottom: 0, left: 0, right: tile }; 5];
        let mut i: u32 = 0;
        while i < SECTION_COUNT
            invariant
                0 <= i <= SECTION_COUNT,
                tile * SECTION_COUNT <= u32::MAX,
                rects@.len() == 5,
                forall|j: int| 0 <= j < i ==> #[trigger] rects@[j] == (UvCoords {
                    top: tile,
                    bottom: 0,
                    left: (j * tile) as u32,
                    right: ((j + 1) * tile) as u32,
                }),
            decreases SECTION_COUNT - i,
        {
            proof {
                assert(i * tile <= (i + 1) * tile <= SECTION_COUNT * tile) by (nonlinear_arith)
                    requires
                        i < SECTION_COUNT,
                ;
            }
            rects.set(i as usize, UvCoords { top: tile, bottom: 0, left: i * tile, right: (i + 1) * tile });
            i = i + 1;
        }
        let r = TextureAtlas { rects };
        assert forall|s: TextureSections| #[trigger] r.rect(s) == (UvCoords {
            top: tile,
            bottom: 0,
            left: (section_slot(s) * tile) as u32,
            right: ((section_slot(s) + 1) * tile) as u32,
        }) by {
            assert(section_slot(s) < 5);
        }
        r
    }

    /// The rectangle of a section.
    pub fn lookup(&self, s: TextureSections) -> (r: UvCoords)
        ensures
            r == self.rect(s),
    {
        proof {
            assert(self.rects@.len() == 5);
        }
        match s {
            TextureSections::Grass => self.rects[0],
            TextureSections::Grass2 => self.rects[1],
            TextureSections::Gravel => self.rects[2],
            TextureSections::Rock => self.rects[3],
            TextureSections::Snow => self.rects[4],
        }
    }
}

} // verus!
