//! Biomes: a temperature/humidity grid of named biomes.

use vstd::prelude::*;
use vstd::string::StringExecFns;

verus! {

/// The number of temperature bands.
pub const TEMPERATURE_COUNT: u8 = 6;

/// The number of humidity bands.
pub const HUMIDITY_COUNT: u8 = 8;

/// A temperature band, from coldest to warmest.
#[derive(Debug, Copy, Clone, PartialEq, Eq, Structural)]
pub enum BiomeTemperature {
    AlvarPolar,
    Alpine,
    SubAlpine,
    Montane,
    LowerMontane,
    PreMontane,
}

impl Default for BiomeTemperature {
    fn default() -> (r: Self)
        ensures
            r == BiomeTemperature::AlvarPolar,
    {
        BiomeTemperature::AlvarPolar
    }
}

impl BiomeTemperature {
    /// The band's index, coldest first.
    pub open spec fn index_spec(self) -> u8 {
        match self {
            BiomeTemperature::AlvarPolar => 0,
            BiomeTemperature::Alpine => 1,
            BiomeTemperature::SubAlpine => 2,
            BiomeTemperature::Montane => 3,
            BiomeTemperature::LowerMontane => 4,
            BiomeTemperature::PreMontane => 5,
        }
    }

    pub fn index(self) -> (r: u8)
        ensures
            r == self.index_spec(),
            r < TEMPERATURE_COUNT,
    {
        match self {
            BiomeTemperature::AlvarPolar => 0,
            BiomeTemperature::Alpine => 1,
            BiomeTemperature::SubAlpine => 2,
            BiomeTemperature::Montane => 3,
            BiomeTemperature::LowerMontane => 4,
            BiomeTemperature::PreMontane => 5,
        }
    }

    /// The band holding the given index, counting coldest first; indices
    /// past the warmest band saturate to the coldest, mirroring a
    /// wrapping default.
    pub fn from_index(i: u8) -> (r: Self)
        ensures
            i < TEMPERATURE_COUNT ==> r.index_spec() == i,
            i >= TEMPERATURE_COUNT ==> r == BiomeTemperature::AlvarPolar,
    {
        match i {
            0u8 => BiomeTemperature::AlvarPolar,
            1u8 => BiomeTemperature::Alpine,
            2u8 => BiomeTemperature::SubAlpine,
            3u8 => BiomeTemperature::Montane,
            4u8 => BiomeTemperature::LowerMontane,
            5u8 => BiomeTemperature::PreMontane,
            _ => BiomeTemperature::AlvarPolar,
        }
    }

    /// The band's display label.
    pub fn label(self) -> (r: String)
        ensures
            r@ == self.label_spec(),
    {
        match self {
            BiomeTemperature::AlvarPolar => "Polar".to_owned(),
            BiomeTemperature::Alpine => "SubPolar".to_owned(),
            BiomeTemperature::SubAlpine => "Boreal".to_owned(),
            BiomeTemperature::Montane => "Coolville".to_owned(),
            BiomeTemperature::LowerMontane => "Temperate".to_owned(),
            BiomeTemperature::PreMontane => "Tropical".to_owned(),
        }
    }

    pub open spec fn label_spec(self) -> Seq<char> {
        match self {
            BiomeTemperature::AlvarPolar => "Polar"@,
            BiomeTemperature::Alpine => "SubPolar"@,
            BiomeTemperature::SubAlpine => "Boreal"@,
            BiomeTemperature::Montane => "Coolville"@,
            BiomeTemperature::LowerMontane => "Temperate"@,
            BiomeTemperature::PreMontane => "Tropical"@,
        }
    }
}

/// A humidity band, from driest to wettest.
#[derive(Debug, Copy, Clone, PartialEq, Eq, Structural)]
pub enum BiomeHumidity {
    SuperArid,
    PerArid,
    Arid,
    SemiArid,
    SubHumid,
    Humid,
    PerHumid,
    SuperHumid,
}

impl Default for BiomeHumidity {
    fn default() -> (r: Self)
        ensures
            r == BiomeHumidity::SuperArid,
    {
        BiomeHumidity::SuperArid
    }
}

impl BiomeHumidity {
    /// The band's index, driest first.
    pub open spec fn index_spec(self) -> u8 {
        match self {
            BiomeHumidity::SuperArid => 0,
            BiomeHumidity::PerArid => 1,
            BiomeHumidity::Arid => 2,
            BiomeHumidity::SemiArid => 3,
            BiomeHumidity::SubHumid => 4,
            BiomeHumidity::Humid => 5,
            BiomeHumidity::PerHumid => 6,
            BiomeHumidity::SuperHumid => 7,
        }
    }

    pub fn index(self) -> (r: u8)
        ensures
            r == self.index_spec(),
            r < HUMIDITY_COUNT,
    {
        match self {
            BiomeHumidity::SuperArid => 0,
            BiomeHumidity::PerArid => 1,
            BiomeHumidity::Arid => 2,
            BiomeHumidity::SemiArid => 3,
            BiomeHumidity::SubHumid => 4,
            BiomeHumidity::Humid => 5,
            BiomeHumidity::PerHumid => 6,
            BiomeHumidity::SuperHumid => 7,
        }
    }

    /// The band holding the given index, driest first; indices past the
    /// wettest band saturate to the driest.
    pub fn from_index(i: u8) -> (r: Self)
        ensures
            i < HUMIDITY_COUNT ==> r.index_spec() == i,
            i >= HUMIDITY_COUNT ==> r == BiomeHumidity::SuperArid,
    {
        match i {
            0u8 => BiomeHumidity::SuperArid,
            1u8 => BiomeHumidity::PerArid,
            2u8 => BiomeHumidity::Arid,
            3u8 => BiomeHumidity::SemiArid,
            4u8 => BiomeHumidity::SubHumid,
            5u8 => BiomeHumidity::Humid,
            6u8 => BiomeHumidity::PerHumid,
            7u8 => BiomeHumidity::SuperHumid,
            _ => BiomeHumidity::SuperArid,
        }
    }

    /// The band's display label.
    pub fn label(self) -> (r: String)
        ensures
            r@ == self.label_spec(),
    {
        match self {
            BiomeHumidity::SuperArid => "SuperArid".to_owned(),
            BiomeHumidity::PerArid => "PerArid".to_owned(),
            BiomeHumidity::Arid => "Arid".to_owned(),
            BiomeHumidity::SemiArid => "SemiArid".to_owned(),
            BiomeHumidity::SubHumid => "SubHumid".to_owned(),
            BiomeHumidity::Humid => "Humid".to_owned(),
            BiomeHumidity::PerHumid => "PerHumid".to_owned(),
            BiomeHumidity::SuperHumid => "SuperHumid".to_owned(),
        }
    }

    pub open spec fn label_spec(self) -> Seq<char> {
        match self {
            BiomeHumidity::SuperArid => "SuperArid"@,
            BiomeHumidity::PerArid => "PerArid"@,
            BiomeHumidity::Arid => "Arid"@,
            BiomeHumidity::SemiArid => "SemiArid"@,
            BiomeHumidity::SubHumid => "SubHumid"@,
            BiomeHumidity::Humid => "Humid"@,
            BiomeHumidity::PerHumid => "PerHumid"@,
            BiomeHumidity::SuperHumid => "SuperHumid"@,
        }
    }
}

/// A named biome at one temperature/humidity cell.
#[derive(Debug, Clone)]
pub struct Biome {
    pub name: String,
    pub temperature: BiomeTemperature,
    pub humidity: BiomeHumidity,
}

/// The placeholder name of an unnamed biome cell.
pub open spec fn empty_biome_name(t: BiomeTemperature, h: BiomeHumidity) -> Seq<char> {
    t.label_spec() + " "@ + h.label_spec() + " Place"@
}

impl Biome {
    pub open spec fn name_spec(self) -> Seq<char> {
        self.name@
    }

    pub open spec fn temperature_spec(self) -> BiomeTemperature {
        self.temperature
    }

    pub open spec fn humidity_spec(self) -> BiomeHumidity {
        self.humidity
    }

    pub fn new(name: &str, temperature: BiomeTemperature, humidity: BiomeHumidity) -> (r: Self)
        ensures
            r.name_spec() == name@,
            r.temperature_spec() == temperature,
            r.humidity_spec() == humidity,
    {
        Biome { name: name.to_owned(), temperature, humidity }
    }

    /// An unnamed biome for a cell, labeled after its climate.
    pub fn empty_at(temperature: BiomeTemperature, humidity: BiomeHumidity) -> (r: Self)
        ensures
            r.name_spec() == empty_biome_name(temperature, humidity),
            r.temperature_spec() == temperature,
            r.humidity_spec() == humidity,
    {
        let mut name = temperature.label();
        name.append(" ");
        let hl = humidity.label();
        name.append(hl.as_str());
        name.append(" Place");
        Biome { name, temperature, humidity }
    }

    pub fn name(&self) -> (r: &str)
        ensures
            r@ == self.name_spec(),
    {
        self.name.as_str()
    }

    pub fn temperature(&self) -> (r: BiomeTemperature)
        ensures
            r == self.temperature_spec(),
    {
        self.temperature
    }

    pub fn humidity(&self) -> (r: BiomeHumidity)
        ensures
            r == self.humidity_spec(),
    {
        self.humidity
    }
}

/// A dense temperature-by-humidity grid of biomes.
#[derive(Debug, Clone)]
pub struct BiomeTable {
    pub biomes: Vec<Biome>,
    pub temperature_max: u8,
    pub humidity_max: u8,
}

impl BiomeTable {
    /// One biome per climate cell, humidity-major.
    pub open spec fn wf(self) -> bool {
        &&& self.biomes@.len() == TEMPERATURE_COUNT * HUMIDITY_COUNT
        &&& self.temperature_max == TEMPERATURE_COUNT
        &&& self.humidity_max == HUMIDITY_COUNT
    }

    pub open spec fn biome_at(self, t: int, h: int) -> Biome {
        self.biomes@[t * HUMIDITY_COUNT + h]
    }

    /// A table with every cell holding its placeholder biome.
    pub fn new() -> (r: Self)
        ensures
            r.wf(),
    {
        let mut biomes: Vec<Biome> = Vec::new();
        let mut t: u8 = 0;
        while t < TEMPERATURE_COUNT
            invariant
                t <= TEMPERATURE_COUNT,
                biomes@.len() == t * HUMIDITY_COUNT,
            decreases TEMPERATURE_COUNT - t,
        {
            let mut h: u8 = 0;
            while h < HUMIDITY_COUNT
                invariant
                    t < TEMPERATURE_COUNT,
                    h <= HUMIDITY_COUNT,
                    biomes@.len() == t * HUMIDITY_COUNT + h,
                decreases HUMIDITY_COUNT - h,
            {
                biomes.push(
                    Biome::empty_at(
                        BiomeTemperature::from_index(t),
                        BiomeHumidity::from_index(h),
                    ),
                );
                h += 1;
            }
            t += 1;
        }
        BiomeTable {
            biomes,
            temperature_max: TEMPERATURE_COUNT,
            humidity_max: HUMIDITY_COUNT,
        }
    }

    /// Stores a biome at its own climate cell, overwriting what was
    /// there. Out-of-range cells cannot occur: every band indexes within
    /// the table.
    pub fn insert(&mut self, biome: Biome)
        requires
            old(self).wf(),
        ensures
            final(self).wf(),
            final(self).biomes@ == old(self).biomes@.update(
                biome.temperature_spec().index_spec() * HUMIDITY_COUNT
                    + biome.humidity_spec().index_spec(),
                biome,
            ),
    {
        let temp = biome.temperature().index();
        let humid = biome.humidity().index();
        if temp < self.temperature_max && humid < self.humidity_max {
            let index = (temp as usize) * (self.humidity_max as usize) + (humid as usize);
            self.biomes.set(index, biome);
        } else {
            proof {
                assert(false);
            }
        }
    }
}

} // verus!
