//! Tile semantics: biomes, traversal costs, resources and the assembled
//! tile record.
//!
//! Elevation and moisture are taken in hundredths: an input of `15` stands
//! for a level of 0.15. Every classification threshold is an exact multiple
//! of one hundredth, so the integer decision tables below are exact.

use vstd::prelude::*;

verus! {

/// Terrain category of one tile. The biome alone decides the traversal
/// cost; Mountain and DeepWater are impassable.
#[derive(Clone, Copy, Debug, PartialEq, Eq, Structural)]
pub enum Biome {
    Mountain,
    Plains,
    Forest,
    Desert,
    ShallowWater,
    DeepWater,
    Snow,
}

impl Biome {
    /// The fixed traversal-cost table: `None` for the impassable biomes,
    /// a strictly increasing positive cost for the rest.
    pub open spec fn spec_cost(self) -> Option<u32> {
        match self {
            Biome::Mountain => None,
            Biome::Plains => Some(1u32),
            Biome::Forest => Some(5u32),
            Biome::Desert => Some(10u32),
            Biome::ShallowWater => Some(12u32),
            Biome::DeepWater => None,
            Biome::Snow => Some(13u32),
        }
    }

    /// Traversal cost of this biome; `None` means impassable.
    pub fn cost(&self) -> (r: Option<u32>)
        ensures
            r == self.spec_cost(),
    {
        match self {
            Biome::Mountain => None,
            Biome::Plains => Some(1),
            Biome::Forest => Some(5),
            Biome::Desert => Some(10),
            Biome::ShallowWater => Some(12),
            Biome::DeepWater => None,
            Biome::Snow => Some(13),
        }
    }

    /// The terrain decision table: elevation bands at 0, 0.10, 0.20, 0.30
    /// and 0.40 (in hundredths: 0, 10, 20, 30, 40), each split by its own
    /// moisture cutoffs. High ground is always Mountain; low and dry is
    /// water; low and wet trends through plains toward forest. The uneven
    /// moisture cutoffs across bands are part of the fixed table.
    pub open spec fn spec_from_elevation_and_moisture(elevation: int, moisture: int) -> Biome {
        if elevation < 0 {
            if moisture < 10 {
                Biome::DeepWater
            } else if moisture < 20 {
                Biome::ShallowWater
            } else {
                Biome::Plains
            }
        } else if elevation < 10 {
            if moisture < 33 {
                Biome::ShallowWater
            } else if moisture < 66 {
                Biome::Plains
            } else {
                Biome::Forest
            }
        } else if elevation < 20 {
            if moisture < 16 {
                Biome::ShallowWater
            } else if moisture < 33 {
                Biome::Plains
            } else if moisture < 66 {
                Biome::Forest
            } else {
                Biome::Mountain
            }
        } else if elevation < 30 {
            if moisture < 16 {
                Biome::Plains
            } else if moisture < 33 {
                Biome::Forest
            } else {
                Biome::Mountain
            }
        } else if elevation < 40 {
            if moisture < 16 {
                Biome::Forest
            } else {
                Biome::Mountain
            }
        } else {
            Biome::Mountain
        }
    }

    /// Classify a tile from its elevation and moisture, both given in
    /// hundredths (an input of 15 stands for 0.15).
    pub fn from_elevation_and_moisture(elevation: i32, moisture: i32) -> (r: Biome)
        ensures
            r == Self::spec_from_elevation_and_moisture(elevation as int, moisture as int),
    {
        if elevation < 0 {
            if moisture < 10 {
                Biome::DeepWater
            } else if moisture < 20 {
                Biome::ShallowWater
            } else {
                Biome::Plains
            }
        } else if elevation < 10 {
            if moisture < 33 {
                Biome::ShallowWater
            } else if moisture < 66 {
                Biome::Plains
            } else {
                Biome::Forest
            }
        } else if elevation < 20 {
            if moisture < 16 {
                Biome::ShallowWater
            } else if moisture < 33 {
                Biome::Plains
            } else if moisture < 66 {
                Biome::Forest
            } else {
                Biome::Mountain
            }
        } else if elevation < 30 {
            if moisture < 16 {
                Biome::Plains
            } else if moisture < 33 {
                Biome::Forest
            } else {
                Biome::Mountain
            }
        } else if elevation < 40 {
            if moisture < 16 {
                Biome::Forest
            } else {
                Biome::Mountain
            }
        } else {
            Biome::Mountain
        }
    }

    /// The coarse single-scalar ladder: cutoffs at 0.10, 0.20, 0.30 and
    /// 0.40 (in hundredths: 10, 20, 30, 40).
    pub open spec fn spec_simple_biome(value: int) -> Biome {
        if value < 10 {
            Biome::Plains
        } else if value < 20 {
            Biome::Forest
        } else if value < 30 {
            Biome::Desert
        } else if value < 40 {
            Biome::Mountain
        } else {
            Biome::Snow
        }
    }

    /// Classify a tile from one scalar, given in hundredths.
    pub fn simple_biome(value: i32) -> (r: Biome)
        ensures
            r == Self::spec_simple_biome(value as int),
    {
        if value < 10 {
            Biome::Plains
        } else if value < 20 {
            Biome::Forest
        } else if value < 30 {
            Biome::Desert
        } else if value < 40 {
            Biome::Mountain
        } else {
            Biome::Snow
        }
    }
}

/// The eighteen resource kinds a tile can carry, in table order.
#[derive(Clone, Copy, Debug, PartialEq, Eq, Structural)]
pub enum TileResource {
    Wood,
    Stone,
    Iron,
    Nitre,
    Coal,
    Oil,
    Uranium,
    Tea,
    Marble,
    Salt,
    Copper,
    Diamond,
    Ivory,
    Banana,
    Wheat,
    Rice,
    Sugar,
    Spices,
}

impl TileResource {
    /// The resource selected by index `n`: table order for 0 through 17,
    /// no resource for any other integer.
    pub open spec fn spec_from_number(n: int) -> Option<TileResource> {
        if n == 0 {
            Some(TileResource::Wood)
        } else if n == 1 {
            Some(TileResource::Stone)
        } else if n == 2 {
            Some(TileResource::Iron)
        } else if n == 3 {
            Some(TileResource::Nitre)
        } else if n == 4 {
            Some(TileResource::Coal)
        } else if n == 5 {
            Some(TileResource::Oil)
        } else if n == 6 {
            Some(TileResource::Uranium)
        } else if n == 7 {
            Some(TileResource::Tea)
        } else if n == 8 {
            Some(TileResource::Marble)
        } else if n == 9 {
            Some(TileResource::Salt)
        } else if n == 10 {
            Some(TileResource::Copper)
        } else if n == 11 {
            Some(TileResource::Diamond)
        } else if n == 12 {
            Some(TileResource::Ivory)
        } else if n == 13 {
            Some(TileResource::Banana)
        } else if n == 14 {
            Some(TileResource::Wheat)
        } else if n == 15 {
            Some(TileResource::Rice)
        } else if n == 16 {
            Some(TileResource::Sugar)
        } else if n == 17 {
            Some(TileResource::Spices)
        } else {
            None
        }
    }

    /// Select a resource kind by its index; an index outside 0..=17 yields
    /// no resource. The index is drawn by the world-generation layer.
    pub fn get_from_number(number: i32) -> (r: Option<Self>)
        ensures
            r == Self::spec_from_number(number as int),
    {
        match number {
            0 => Some(Self::Wood),
            1 => Some(Self::Stone),
            2 => Some(Self::Iron),
            3 => Some(Self::Nitre),
            4 => Some(Self::Coal),
            5 => Some(Self::Oil),
            6 => Some(Self::Uranium),
            7 => Some(Self::Tea),
            8 => Some(Self::Marble),
            9 => Some(Self::Salt),
            10 => Some(Self::Copper),
            11 => Some(Self::Diamond),
            12 => Some(Self::Ivory),
            13 => Some(Self::Banana),
            14 => Some(Self::Wheat),
            15 => Some(Self::Rice),
            16 => Some(Self::Sugar),
            17 => Some(Self::Spices),
            _ => None,
        }
    }
}

/// Independent per-tile scores, all defaulting to zero.
#[derive(Clone, Copy, Debug, PartialEq, Eq, Structural)]
pub struct TileAttributes {
    pub production: i32,
    pub science: i32,
    pub attractiveness: i32,
}

impl TileAttributes {
    /// The production score.
    pub fn production(&self) -> (r: i32)
        ensures
            r == self.production,
    {
        self.production
    }

    /// The science score.
    pub fn science(&self) -> (r: i32)
        ensures
            r == self.science,
    {
        self.science
    }

    /// The attractiveness score.
    pub fn attractiveness(&self) -> (r: i32)
        ensures
            r == self.attractiveness,
    {
        self.attractiveness
    }
}

impl Default for TileAttributes {
    /// All scores start at zero.
    fn default() -> (r: Self)
        ensures
            r == (TileAttributes { production: 0, science: 0, attractiveness: 0 }),
    {
        Self { production: 0, science: 0, attractiveness: 0 }
    }
}

/// One classified world tile: a biome, its scores, and at most one
/// strategic and one trade resource. Fixed once created; the traversal
/// cost is derived entirely from the biome.
#[derive(Clone, Copy, Debug, PartialEq, Eq, Structural)]
pub struct Tile {
    pub biome: Biome,
    pub attributes: TileAttributes,
    pub strategic_resource: Option<TileResource>,
    pub trade_resource: Option<TileResource>,
}

impl Default for Tile {
    /// A plain tile: Plains, zero scores, no resources.
    fn default() -> (r: Self)
        ensures
            r.biome == Biome::Plains,
            r.attributes == (TileAttributes { production: 0, science: 0, attractiveness: 0 }),
            r.strategic_resource is None,
            r.trade_resource is None,
    {
        Self {
            biome: Biome::Plains,
            attributes: TileAttributes { production: 0, science: 0, attractiveness: 0 },
            strategic_resource: None,
            trade_resource: None,
        }
    }
}

impl Tile {
    /// Assemble a tile from its classification results.
    pub fn new(
        biome: Biome,
        production: i32,
        science: i32,
        attractiveness: i32,
        special_resource: Option<TileResource>,
        trade_resource: Option<TileResource>,
    ) -> (r: Self)
        ensures
            r.biome == biome,
            r.attributes == (TileAttributes { production, science, attractiveness }),
            r.strategic_resource == special_resource,
            r.trade_resource == trade_resource,
    {
        Self {
            biome,
            attributes: TileAttributes { production, science, attractiveness },
            strategic_resource: special_resource,
            trade_resource,
        }
    }

    /// Traversal cost of this tile, decided by its biome alone.
    pub fn cost(&self) -> (r: Option<u32>)
        ensures
            r == self.biome.spec_cost(),
    {
        self.biome.cost()
    }
}

} // verus!
