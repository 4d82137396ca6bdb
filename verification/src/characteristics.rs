//! Object colors, types and combat keywords, creature characteristics, and
//! the data-only continuous effects of the layer system.

use vstd::prelude::*;

use crate::ids::{ContinuousEffectId, ObjectId, PlayerId};

verus! {

/// Object colors represented by the layer engine.
#[derive(Clone, Copy, Debug, PartialEq, Eq, Structural, Hash)]
pub struct ObjectColors {
    pub white: bool,
    pub blue: bool,
    pub black: bool,
    pub red: bool,
    pub green: bool,
}

impl ObjectColors {
    /// Creates an empty set.
    pub fn none() -> (r: Self)
        ensures
            !r.white,
            !r.blue,
            !r.black,
            !r.red,
            !r.green,
    {
        ObjectColors {
            white: false,
            blue: false,
            black: false,
            red: false,
            green: false,
        }
    }

    /// Returns this set with white enabled.
    pub fn with_white(self) -> (r: Self)
        ensures
            r == (Self { white: true, ..self }),
    {
        let mut r = self;
        r.white = true;
        r
    }
    /// Returns this set with blue enabled.
    pub fn with_blue(self) -> (r: Self)
        ensures
            r == (Self { blue: true, ..self }),
    {
        let mut r = self;
        r.blue = true;
        r
    }
    /// Returns this set with black enabled.
    pub fn with_black(self) -> (r: Self)
        ensures
            r == (Self { black: true, ..self }),
    {
        let mut r = self;
        r.black = true;
        r
    }
    /// Returns this set with red enabled.
    pub fn with_red(self) -> (r: Self)
        ensures
            r == (Self { red: true, ..self }),
    {
        let mut r = self;
        r.red = true;
        r
    }
    /// Returns this set with green enabled.
    pub fn with_green(self) -> (r: Self)
        ensures
            r == (Self { green: true, ..self }),
    {
        let mut r = self;
        r.green = true;
        r
    }
    /// Returns true if white is present.
    pub fn white(self) -> (r: bool)
        ensures
            r == self.white,
    {
        self.white
    }
    /// Returns true if blue is present.
    pub fn blue(self) -> (r: bool)
        ensures
            r == self.blue,
    {
        self.blue
    }
    /// Returns true if black is present.
    pub fn black(self) -> (r: bool)
        ensures
            r == self.black,
    {
        self.black
    }
    /// Returns true if red is present.
    pub fn red(self) -> (r: bool)
        ensures
            r == self.red,
    {
        self.red
    }
    /// Returns true if green is present.
    pub fn green(self) -> (r: bool)
        ensures
            r == self.green,
    {
        self.green
    }
    /// Returns this set with every member of `remove` taken out.
    pub(crate) fn without(self, remove: Self) -> (r: Self)
        ensures
            r.white == (self.white && !remove.white),
            r.blue == (self.blue && !remove.blue),
            r.black == (self.black && !remove.black),
            r.red == (self.red && !remove.red),
            r.green == (self.green && !remove.green),
    {
        ObjectColors {
            white: self.white && !remove.white,
            blue: self.blue && !remove.blue,
            black: self.black && !remove.black,
            red: self.red && !remove.red,
            green: self.green && !remove.green,
        }
    }

    /// Returns the union of two sets.
    pub(crate) fn union(self, add: Self) -> (r: Self)
        ensures
            r.white == (self.white || add.white),
            r.blue == (self.blue || add.blue),
            r.black == (self.black || add.black),
            r.red == (self.red || add.red),
            r.green == (self.green || add.green),
    {
        ObjectColors {
            white: self.white || add.white,
            blue: self.blue || add.blue,
            black: self.black || add.black,
            red: self.red || add.red,
            green: self.green || add.green,
        }
    }

    /// The set packed into bits, one per member in declaration order.
    pub open spec fn spec_canonical_bits(self) -> int {
        (if self.white { 1int } else { 0int }) + (if self.blue { 2int } else { 0int }) + (if self.black { 4int } else { 0int }) + (if self.red { 8int } else { 0int }) + (if self.green { 16int } else { 0int })
    }

    /// Packs the set into bits, one per member in declaration order.
    pub(crate) fn canonical_bits(self) -> (r: u8)
        ensures
            r == self.spec_canonical_bits(),
    {
        (if self.white { 1u8 } else { 0u8 }) + (if self.blue { 2u8 } else { 0u8 }) + (if self.black { 4u8 } else { 0u8 }) + (if self.red { 8u8 } else { 0u8 }) + (if self.green { 16u8 } else { 0u8 })
    }
}

impl ObjectColors {
    /// Returns true when no colors are present.
    pub fn colorless(self) -> (r: bool)
        ensures
            r == (!self.white && !self.blue && !self.black && !self.red && !self.green),
    {
        !self.white && !self.blue && !self.black && !self.red && !self.green
    }
}

/// Object card types represented by the layer engine.
#[derive(Clone, Copy, Debug, PartialEq, Eq, Structural, Hash)]
pub struct ObjectTypes {
    pub artifact: bool,
    pub creature: bool,
    pub enchantment: bool,
    pub instant: bool,
    pub land: bool,
    pub planeswalker: bool,
    pub sorcery: bool,
}

impl ObjectTypes {
    /// Creates an empty set.
    pub fn none() -> (r: Self)
        ensures
            !r.artifact,
            !r.creature,
            !r.enchantment,
            !r.instant,
            !r.land,
            !r.planeswalker,
            !r.sorcery,
    {
        ObjectTypes {
            artifact: false,
            creature: false,
            enchantment: false,
            instant: false,
            land: false,
            planeswalker: false,
            sorcery: false,
        }
    }

    /// Returns this set with artifact enabled.
    pub fn with_artifact(self) -> (r: Self)
        ensures
            r == (Self { artifact: true, ..self }),
    {
        let mut r = self;
        r.artifact = true;
        r
    }
    /// Returns this set with creature enabled.
    pub fn with_creature(self) -> (r: Self)
        ensures
            r == (Self { creature: true, ..self }),
    {
        let mut r = self;
        r.creature = true;
        r
    }
    /// Returns this set with enchantment enabled.
    pub fn with_enchantment(self) -> (r: Self)
        ensures
            r == (Self { enchantment: true, ..self }),
    {
        let mut r = self;
        r.enchantment = true;
        r
    }
    /// Returns this set with instant enabled.
    pub fn with_instant(self) -> (r: Self)
        ensures
            r == (Self { instant: true, ..self }),
    {
        let mut r = self;
        r.instant = true;
        r
    }
    /// Returns this set with land enabled.
    pub fn with_land(self) -> (r: Self)
        ensures
            r == (Self { land: true, ..self }),
    {
        let mut r = self;
        r.land = true;
        r
    }
    /// Returns this set with planeswalker enabled.
    pub fn with_planeswalker(self) -> (r: Self)
        ensures
            r == (Self { planeswalker: true, ..self }),
    {
        let mut r = self;
        r.planeswalker = true;
        r
    }
    /// Returns this set with sorcery enabled.
    pub fn with_sorcery(self) -> (r: Self)
        ensures
            r == (Self { sorcery: true, ..self }),
    {
        let mut r = self;
        r.sorcery = true;
        r
    }
    /// Returns true if artifact is present.
    pub fn artifact(self) -> (r: bool)
        ensures
            r == self.artifact,
    {
        self.artifact
    }
    /// Returns true if creature is present.
    pub fn creature(self) -> (r: bool)
        ensures
            r == self.creature,
    {
        self.creature
    }
    /// Returns true if enchantment is present.
    pub fn enchantment(self) -> (r: bool)
        ensures
            r == self.enchantment,
    {
        self.enchantment
    }
    /// Returns true if instant is present.
    pub fn instant(self) -> (r: bool)
        ensures
            r == self.instant,
    {
        self.instant
    }
    /// Returns true if land is present.
    pub fn land(self) -> (r: bool)
        ensures
            r == self.land,
    {
        self.land
    }
    /// Returns true if planeswalker is present.
    pub fn planeswalker(self) -> (r: bool)
        ensures
            r == self.planeswalker,
    {
        self.planeswalker
    }
    /// Returns true if sorcery is present.
    pub fn sorcery(self) -> (r: bool)
        ensures
            r == self.sorcery,
    {
        self.sorcery
    }
    /// Returns this set with every member of `remove` taken out.
    pub(crate) fn without(self, remove: Self) -> (r: Self)
        ensures
            r.artifact == (self.artifact && !remove.artifact),
            r.creature == (self.creature && !remove.creature),
            r.enchantment == (self.enchantment && !remove.enchantment),
            r.instant == (self.instant && !remove.instant),
            r.land == (self.land && !remove.land),
            r.planeswalker == (self.planeswalker && !remove.planeswalker),
            r.sorcery == (self.sorcery && !remove.sorcery),
    {
        ObjectTypes {
            artifact: self.artifact && !remove.artifact,
            creature: self.creature && !remove.creature,
            enchantment: self.enchantment && !remove.enchantment,
            instant: self.instant && !remove.instant,
            land: self.land && !remove.land,
            planeswalker: self.planeswalker && !remove.planeswalker,
            sorcery: self.sorcery && !remove.sorcery,
        }
    }

    /// Returns the union of two sets.
    pub(crate) fn union(self, add: Self) -> (r: Self)
        ensures
            r.artifact == (self.artifact || add.artifact),
            r.creature == (self.creature || add.creature),
            r.enchantment == (self.enchantment || add.enchantment),
            r.instant == (self.instant || add.instant),
            r.land == (self.land || add.land),
            r.planeswalker == (self.planeswalker || add.planeswalker),
            r.sorcery == (self.sorcery || add.sorcery),
    {
        ObjectTypes {
            artifact: self.artifact || add.artifact,
            creature: self.creature || add.creature,
            enchantment: self.enchantment || add.enchantment,
            instant: self.instant || add.instant,
            land: self.land || add.land,
            planeswalker: self.planeswalker || add.planeswalker,
            sorcery: self.sorcery || add.sorcery,
        }
    }

    /// The set packed into bits, one per member in declaration order.
    pub open spec fn spec_canonical_bits(self) -> int {
        (if self.artifact { 1int } else { 0int }) + (if self.creature { 2int } else { 0int }) + (if self.enchantment { 4int } else { 0int }) + (if self.instant { 8int } else { 0int }) + (if self.land { 16int } else { 0int }) + (if self.planeswalker { 32int } else { 0int }) + (if self.sorcery { 64int } else { 0int })
    }

    /// Packs the set into bits, one per member in declaration order.
    pub(crate) fn canonical_bits(self) -> (r: u8)
        ensures
            r == self.spec_canonical_bits(),
    {
        (if self.artifact { 1u8 } else { 0u8 }) + (if self.creature { 2u8 } else { 0u8 }) + (if self.enchantment { 4u8 } else { 0u8 }) + (if self.instant { 8u8 } else { 0u8 }) + (if self.land { 16u8 } else { 0u8 }) + (if self.planeswalker { 32u8 } else { 0u8 }) + (if self.sorcery { 64u8 } else { 0u8 })
    }
}

/// Combat-relevant static keywords.
#[derive(Clone, Copy, Debug, PartialEq, Eq, Structural, Hash)]
pub struct CreatureKeywords {
    pub first_strike: bool,
    pub double_strike: bool,
    pub trample: bool,
    pub deathtouch: bool,
    pub lifelink: bool,
    pub flying: bool,
    pub reach: bool,
    pub menace: bool,
    pub vigilance: bool,
    pub haste: bool,
}

impl CreatureKeywords {
    /// Creates an empty set.
    pub fn none() -> (r: Self)
        ensures
            !r.first_strike,
            !r.double_strike,
            !r.trample,
            !r.deathtouch,
            !r.lifelink,
            !r.flying,
            !r.reach,
            !r.menace,
            !r.vigilance,
            !r.haste,
    {
        CreatureKeywords {
            first_strike: false,
            double_strike: false,
            trample: false,
            deathtouch: false,
            lifelink: false,
            flying: false,
            reach: false,
            menace: false,
            vigilance: false,
            haste: false,
        }
    }

    /// Returns this set with first strike enabled.
    pub fn with_first_strike(self) -> (r: Self)
        ensures
            r == (Self { first_strike: true, ..self }),
    {
        let mut r = self;
        r.first_strike = true;
        r
    }
    /// Returns this set with double strike enabled.
    pub fn with_double_strike(self) -> (r: Self)
        ensures
            r == (Self { double_strike: true, ..self }),
    {
        let mut r = self;
        r.double_strike = true;
        r
    }
    /// Returns this set with trample enabled.
    pub fn with_trample(self) -> (r: Self)
        ensures
            r == (Self { trample: true, ..self }),
    {
        let mut r = self;
        r.trample = true;
        r
    }
    /// Returns this set with deathtouch enabled.
    pub fn with_deathtouch(self) -> (r: Self)
        ensures
            r == (Self { deathtouch: true, ..self }),
    {
        let mut r = self;
        r.deathtouch = true;
        r
    }
    /// Returns this set with lifelink enabled.
    pub fn with_lifelink(self) -> (r: Self)
        ensures
            r == (Self { lifelink: true, ..self }),
    {
        let mut r = self;
        r.lifelink = true;
        r
    }
    /// Returns this set with flying enabled.
    pub fn with_flying(self) -> (r: Self)
        ensures
            r == (Self { flying: true, ..self }),
    {
        let mut r = self;
        r.flying = true;
        r
    }
    /// Returns this set with reach enabled.
    pub fn with_reach(self) -> (r: Self)
        ensures
            r == (Self { reach: true, ..self }),
    {
        let mut r = self;
        r.reach = true;
        r
    }
    /// Returns this set with menace enabled.
    pub fn with_menace(self) -> (r: Self)
        ensures
            r == (Self { menace: true, ..self }),
    {
        let mut r = self;
        r.menace = true;
        r
    }
    /// Returns this set with vigilance enabled.
    pub fn with_vigilance(self) -> (r: Self)
        ensures
            r == (Self { vigilance: true, ..self }),
    {
        let mut r = self;
        r.vigilance = true;
        r
    }
    /// Returns this set with haste enabled.
    pub fn with_haste(self) -> (r: Self)
        ensures
            r == (Self { haste: true, ..self }),
    {
        let mut r = self;
        r.haste = true;
        r
    }
    /// Returns true if first strike is present.
    pub fn first_strike(self) -> (r: bool)
        ensures
            r == self.first_strike,
    {
        self.first_strike
    }
    /// Returns true if double strike is present.
    pub fn double_strike(self) -> (r: bool)
        ensures
            r == self.double_strike,
    {
        self.double_strike
    }
    /// Returns true if trample is present.
    pub fn trample(self) -> (r: bool)
        ensures
            r == self.trample,
    {
        self.trample
    }
    /// Returns true if deathtouch is present.
    pub fn deathtouch(self) -> (r: bool)
        ensures
            r == self.deathtouch,
    {
        self.deathtouch
    }
    /// Returns true if lifelink is present.
    pub fn lifelink(self) -> (r: bool)
        ensures
            r == self.lifelink,
    {
        self.lifelink
    }
    /// Returns true if flying is present.
    pub fn flying(self) -> (r: bool)
        ensures
            r == self.flying,
    {
        self.flying
    }
    /// Returns true if reach is present.
    pub fn reach(self) -> (r: bool)
        ensures
            r == self.reach,
    {
        self.reach
    }
    /// Returns true if menace is present.
    pub fn menace(self) -> (r: bool)
        ensures
            r == self.menace,
    {
        self.menace
    }
    /// Returns true if vigilance is present.
    pub fn vigilance(self) -> (r: bool)
        ensures
            r == self.vigilance,
    {
        self.vigilance
    }
    /// Returns true if haste is present.
    pub fn haste(self) -> (r: bool)
        ensures
            r == self.haste,
    {
        self.haste
    }
    /// Returns this set with every member of `remove` taken out.
    pub(crate) fn without(self, remove: Self) -> (r: Self)
        ensures
            r.first_strike == (self.first_strike && !remove.first_strike),
            r.double_strike == (self.double_strike && !remove.double_strike),
            r.trample == (self.trample && !remove.trample),
            r.deathtouch == (self.deathtouch && !remove.deathtouch),
            r.lifelink == (self.lifelink && !remove.lifelink),
            r.flying == (self.flying && !remove.flying),
            r.reach == (self.reach && !remove.reach),
            r.menace == (self.menace && !remove.menace),
            r.vigilance == (self.vigilance && !remove.vigilance),
            r.haste == (self.haste && !remove.haste),
    {
        CreatureKeywords {
            first_strike: self.first_strike && !remove.first_strike,
            double_strike: self.double_strike && !remove.double_strike,
            trample: self.trample && !remove.trample,
            deathtouch: self.deathtouch && !remove.deathtouch,
            lifelink: self.lifelink && !remove.lifelink,
            flying: self.flying && !remove.flying,
            reach: self.reach && !remove.reach,
            menace: self.menace && !remove.menace,
            vigilance: self.vigilance && !remove.vigilance,
            haste: self.haste && !remove.haste,
        }
    }

    /// Returns the union of two sets.
    pub(crate) fn union(self, add: Self) -> (r: Self)
        ensures
            r.first_strike == (self.first_strike || add.first_strike),
            r.double_strike == (self.double_strike || add.double_strike),
            r.trample == (self.trample || add.trample),
            r.deathtouch == (self.deathtouch || add.deathtouch),
            r.lifelink == (self.lifelink || add.lifelink),
            r.flying == (self.flying || add.flying),
            r.reach == (self.reach || add.reach),
            r.menace == (self.menace || add.menace),
            r.vigilance == (self.vigilance || add.vigilance),
            r.haste == (self.haste || add.haste),
    {
        CreatureKeywords {
            first_strike: self.first_strike || add.first_strike,
            double_strike: self.double_strike || add.double_strike,
            trample: self.trample || add.trample,
            deathtouch: self.deathtouch || add.deathtouch,
            lifelink: self.lifelink || add.lifelink,
            flying: self.flying || add.flying,
            reach: self.reach || add.reach,
            menace: self.menace || add.menace,
            vigilance: self.vigilance || add.vigilance,
            haste: self.haste || add.haste,
        }
    }

    /// The set packed into bits, one per member in declaration order.
    pub open spec fn spec_canonical_bits(self) -> int {
        (if self.first_strike { 1int } else { 0int }) + (if self.double_strike { 2int } else { 0int }) + (if self.trample { 4int } else { 0int }) + (if self.deathtouch { 8int } else { 0int }) + (if self.lifelink { 16int } else { 0int }) + (if self.flying { 32int } else { 0int }) + (if self.reach { 64int } else { 0int }) + (if self.menace { 128int } else { 0int }) + (if self.vigilance { 256int } else { 0int }) + (if self.haste { 512int } else { 0int })
    }

    /// Packs the set into bits, one per member in declaration order.
    #[verifier::rlimit(60)]
    pub(crate) fn canonical_bits(self) -> (r: u16)
        ensures
            r == self.spec_canonical_bits(),
    {
        (if self.first_strike { 1u16 } else { 0u16 }) + (if self.double_strike { 2u16 } else { 0u16 }) + (if self.trample { 4u16 } else { 0u16 }) + (if self.deathtouch { 8u16 } else { 0u16 }) + (if self.lifelink { 16u16 } else { 0u16 }) + (if self.flying { 32u16 } else { 0u16 }) + (if self.reach { 64u16 } else { 0u16 }) + (if self.menace { 128u16 } else { 0u16 }) + (if self.vigilance { 256u16 } else { 0u16 }) + (if self.haste { 512u16 } else { 0u16 })
    }
}

impl CreatureKeywords {
    /// The empty keyword set.
    pub open spec fn none_spec() -> CreatureKeywords {
        CreatureKeywords {
            first_strike: false,
            double_strike: false,
            trample: false,
            deathtouch: false,
            lifelink: false,
            flying: false,
            reach: false,
            menace: false,
            vigilance: false,
            haste: false,
        }
    }
}

/// Derived power, toughness, and combat keywords for a creature object.
#[derive(Clone, Copy, Debug, PartialEq, Eq, Structural, Hash)]
pub struct CreatureCharacteristics {
    pub power: i32,
    pub toughness: i32,
    pub keywords: CreatureKeywords,
}

impl CreatureCharacteristics {
    /// Creates creature characteristics with no keywords.
    pub fn new(power: i32, toughness: i32) -> (r: Self)
        ensures
            r.power == power && r.toughness == toughness && r.keywords == CreatureKeywords::none_spec(),
    {
        CreatureCharacteristics { power, toughness, keywords: CreatureKeywords::none() }
    }

    /// Returns this value with the provided keyword set.
    pub fn with_keywords(self, keywords: CreatureKeywords) -> (r: Self)
        ensures
            r == (CreatureCharacteristics { keywords, ..self }),
    {
        let mut r = self;
        r.keywords = keywords;
        r
    }

    /// Returns the power.
    pub fn power(self) -> (r: i32)
        ensures
            r == self.power,
    {
        self.power
    }
    /// Returns the toughness.
    pub fn toughness(self) -> (r: i32)
        ensures
            r == self.toughness,
    {
        self.toughness
    }
    /// Returns the combat keywords.
    pub fn keywords(self) -> (r: CreatureKeywords)
        ensures
            r == self.keywords,
    {
        self.keywords
    }
}

/// Base printed creature characteristics before continuous effects.
#[derive(Clone, Copy, Debug, PartialEq, Eq, Structural, Hash)]
pub struct BaseCreatureCharacteristics {
    pub power: i32,
    pub toughness: i32,
    pub keywords: CreatureKeywords,
}

impl BaseCreatureCharacteristics {
    /// Creates base printed creature characteristics with no keywords.
    pub fn new(power: i32, toughness: i32) -> (r: Self)
        ensures
            r.power == power && r.toughness == toughness && r.keywords == CreatureKeywords::none_spec(),
    {
        BaseCreatureCharacteristics { power, toughness, keywords: CreatureKeywords::none() }
    }

    /// Returns this value with the provided keyword set.
    pub fn with_keywords(self, keywords: CreatureKeywords) -> (r: Self)
        ensures
            r == (BaseCreatureCharacteristics { keywords, ..self }),
    {
        let mut r = self;
        r.keywords = keywords;
        r
    }

    /// Returns the power.
    pub fn power(self) -> (r: i32)
        ensures
            r == self.power,
    {
        self.power
    }
    /// Returns the toughness.
    pub fn toughness(self) -> (r: i32)
        ensures
            r == self.toughness,
    {
        self.toughness
    }
    /// Returns the combat keywords.
    pub fn keywords(self) -> (r: CreatureKeywords)
        ensures
            r == self.keywords,
    {
        self.keywords
    }
    /// Returns these base values as derived characteristics.
    pub(crate) fn derived(self) -> (r: CreatureCharacteristics)
        ensures
            r.power == self.power && r.toughness == self.toughness && r.keywords == self.keywords,
    {
        CreatureCharacteristics {
            power: self.power,
            toughness: self.toughness,
            keywords: self.keywords,
        }
    }
}

/// Effective object characteristics after continuous effects.
#[derive(Clone, Copy, Debug, PartialEq, Eq, Structural, Hash)]
pub struct ObjectCharacteristics {
    pub controller: PlayerId,
    pub colors: ObjectColors,
    pub types: ObjectTypes,
    pub creature: Option<CreatureCharacteristics>,
    pub text_marker: u32,
}

impl ObjectCharacteristics {
    /// Creates base characteristics from one stored object record.
    pub fn new(
        controller: PlayerId,
        colors: ObjectColors,
        types: ObjectTypes,
        creature: Option<CreatureCharacteristics>,
    ) -> (r: Self)
        ensures
            r.controller == controller && r.colors == colors && r.types == types,
            r.creature == creature && r.text_marker == 0,
    {
        ObjectCharacteristics { controller, colors, types, creature, text_marker: 0 }
    }

    /// Returns the effective controller after the control layer.
    pub fn controller(self) -> (r: PlayerId)
        ensures
            r == self.controller,
    {
        self.controller
    }
    /// Returns the effective colors after the color layer.
    pub fn colors(self) -> (r: ObjectColors)
        ensures
            r == self.colors,
    {
        self.colors
    }
    /// Returns the effective types after the type layer.
    pub fn types(self) -> (r: ObjectTypes)
        ensures
            r == self.types,
    {
        self.types
    }
    /// Returns effective creature characteristics, if this object is a creature.
    pub fn creature(self) -> (r: Option<CreatureCharacteristics>)
        ensures
            r == self.creature,
    {
        self.creature
    }
    /// Returns the deterministic text-effect marker after the text layer.
    pub fn text_marker(self) -> (r: u32)
        ensures
            r == self.text_marker,
    {
        self.text_marker
    }
    /// Returns true if this object is currently a creature.
    pub fn is_creature(self) -> (r: bool)
        ensures
            r == self.types.creature,
    {
        self.types.creature()
    }

    /// Keeps creature values present exactly when the creature type is.
    pub(crate) fn sync_creature_type(&mut self)
        ensures
            final(self).types == old(self).types,
            final(self).controller == old(self).controller,
            final(self).colors == old(self).colors,
            final(self).text_marker == old(self).text_marker,
            final(self).types.creature ==> final(self).creature == (if old(self).creature is Some {
                old(self).creature
            } else {
                Some(CreatureCharacteristics { power: 0, toughness: 0, keywords: CreatureKeywords::none_spec() })
            }),
            !final(self).types.creature ==> final(self).creature is None,
    {
        if self.types.creature() && self.creature.is_none() {
            self.creature = Some(CreatureCharacteristics::new(0, 0));
        }
        if !self.types.creature() {
            self.creature = None;
        }
    }
}

/// Which objects a continuous effect can affect.
#[derive(Clone, Copy, Debug, PartialEq, Eq, Structural, Hash)]
pub enum ContinuousEffectTarget {
    /// Only the named object is affected.
    Object(ObjectId),
    /// Every object is affected.
    AllObjects,
}

impl ContinuousEffectTarget {
    /// Returns true when this target covers `object`.
    pub(crate) fn matches(self, object: ObjectId) -> (r: bool)
        ensures
            r == match self {
                ContinuousEffectTarget::Object(target) => target == object,
                ContinuousEffectTarget::AllObjects => true,
            },
    {
        match self {
            ContinuousEffectTarget::Object(target) => target == object,
            ContinuousEffectTarget::AllObjects => true,
        }
    }

    /// Stable numeric code used by canonical encodings.
    pub open spec fn spec_canonical_code(self) -> u8 {
        match self {
            ContinuousEffectTarget::Object(_) => 0,
            ContinuousEffectTarget::AllObjects => 1,
        }
    }

    /// Returns the stable numeric code used by canonical encodings.
    pub(crate) fn canonical_code(self) -> (r: u8)
        ensures
            r == self.spec_canonical_code(),
    {
        match self {
            ContinuousEffectTarget::Object(_) => 0,
            ContinuousEffectTarget::AllObjects => 1,
        }
    }
}

/// The layer or sublayer of a continuous effect operation.
#[derive(Clone, Copy, Debug, PartialEq, Eq, Structural, Hash, PartialOrd, Ord)]
pub enum ContinuousEffectLayer {
    /// Layer 1: copy effects.
    Copy,
    /// Layer 2: control-changing effects.
    Control,
    /// Layer 3: text-changing effects.
    Text,
    /// Layer 4: type-changing effects.
    Type,
    /// Layer 5: color-changing effects.
    Color,
    /// Layer 6: ability-adding/removing effects.
    Ability,
    /// Layer 7a: characteristic-defining power/toughness effects.
    PowerToughnessCda,
    /// Layer 7b: power/toughness set effects.
    PowerToughnessSet,
    /// Layer 7c: power/toughness modify effects.
    PowerToughnessModify,
    /// Layer 7d: power/toughness switch effects.
    PowerToughnessSwitch,
}

impl ContinuousEffectLayer {
    /// Stable numeric code used by canonical encodings.
    pub open spec fn spec_canonical_code(self) -> u8 {
        match self {
            ContinuousEffectLayer::Copy => 1,
            ContinuousEffectLayer::Control => 2,
            ContinuousEffectLayer::Text => 3,
            ContinuousEffectLayer::Type => 4,
            ContinuousEffectLayer::Color => 5,
            ContinuousEffectLayer::Ability => 6,
            ContinuousEffectLayer::PowerToughnessCda => 70,
            ContinuousEffectLayer::PowerToughnessSet => 71,
            ContinuousEffectLayer::PowerToughnessModify => 72,
            ContinuousEffectLayer::PowerToughnessSwitch => 73,
        }
    }

    /// Returns the stable numeric code used by canonical encodings.
    pub(crate) fn canonical_code(self) -> (r: u8)
        ensures
            r == self.spec_canonical_code(),
    {
        match self {
            ContinuousEffectLayer::Copy => 1,
            ContinuousEffectLayer::Control => 2,
            ContinuousEffectLayer::Text => 3,
            ContinuousEffectLayer::Type => 4,
            ContinuousEffectLayer::Color => 5,
            ContinuousEffectLayer::Ability => 6,
            ContinuousEffectLayer::PowerToughnessCda => 70,
            ContinuousEffectLayer::PowerToughnessSet => 71,
            ContinuousEffectLayer::PowerToughnessModify => 72,
            ContinuousEffectLayer::PowerToughnessSwitch => 73,
        }
    }

    /// The layer at position `i` of the fixed application order.
    pub(crate) fn at(i: usize) -> (r: ContinuousEffectLayer)
        requires
            i < 10,
        ensures
            r == crate::layers::layer_at(i as int),
    {
        if i == 0 {
            ContinuousEffectLayer::Copy
        } else if i == 1 {
            ContinuousEffectLayer::Control
        } else if i == 2 {
            ContinuousEffectLayer::Text
        } else if i == 3 {
            ContinuousEffectLayer::Type
        } else if i == 4 {
            ContinuousEffectLayer::Color
        } else if i == 5 {
            ContinuousEffectLayer::Ability
        } else if i == 6 {
            ContinuousEffectLayer::PowerToughnessCda
        } else if i == 7 {
            ContinuousEffectLayer::PowerToughnessSet
        } else if i == 8 {
            ContinuousEffectLayer::PowerToughnessModify
        } else {
            ContinuousEffectLayer::PowerToughnessSwitch
        }
    }
}

/// One data-only continuous-effect operation.
#[derive(Clone, Copy, Debug, PartialEq, Eq, Structural, Hash)]
pub enum ContinuousEffectOperation {
    /// Layer 1: copy base creature copiable values from another object.
    CopyBaseCreature {
        /// Source object whose base creature values are copied.
        from: ObjectId,
    },
    /// Layer 2: change effective controller.
    ChangeController {
        /// New effective controller.
        controller: PlayerId,
    },
    /// Layer 3: set a deterministic text marker.
    SetTextMarker {
        /// Deterministic marker standing in for text-changing output.
        marker: u32,
    },
    /// Layer 4: replace all represented object types.
    SetTypes {
        /// Replacement type set.
        types: ObjectTypes,
    },
    /// Layer 4: add represented object types.
    AddTypes {
        /// Types to add.
        types: ObjectTypes,
    },
    /// Layer 4: remove represented object types.
    RemoveTypes {
        /// Types to remove.
        types: ObjectTypes,
    },
    /// Layer 5: replace colors.
    SetColors {
        /// Replacement color set.
        colors: ObjectColors,
    },
    /// Layer 6: add combat keywords.
    AddKeywords {
        /// Keywords to add.
        keywords: CreatureKeywords,
    },
    /// Layer 6: remove combat keywords.
    RemoveKeywords {
        /// Keywords to remove.
        keywords: CreatureKeywords,
    },
    /// Layer 7a: set characteristic-defining power/toughness.
    SetBasePowerToughness {
        /// Characteristic-defining power.
        power: i32,
        /// Characteristic-defining toughness.
        toughness: i32,
    },
    /// Layer 7b: set power/toughness.
    SetPowerToughness {
        /// Set power.
        power: i32,
        /// Set toughness.
        toughness: i32,
    },
    /// Layer 7c: modify power/toughness.
    ModifyPowerToughness {
        /// Power delta.
        power: i32,
        /// Toughness delta.
        toughness: i32,
    },
    /// Layer 7d: switch power and toughness.
    SwitchPowerToughness,
}

impl ContinuousEffectOperation {
    /// The layer an operation applies in.
    pub open spec fn spec_layer(self) -> ContinuousEffectLayer {
        match self {
            ContinuousEffectOperation::CopyBaseCreature { .. } => ContinuousEffectLayer::Copy,
            ContinuousEffectOperation::ChangeController { .. } => ContinuousEffectLayer::Control,
            ContinuousEffectOperation::SetTextMarker { .. } => ContinuousEffectLayer::Text,
            ContinuousEffectOperation::SetTypes { .. }
            | ContinuousEffectOperation::AddTypes { .. }
            | ContinuousEffectOperation::RemoveTypes { .. } => ContinuousEffectLayer::Type,
            ContinuousEffectOperation::SetColors { .. } => ContinuousEffectLayer::Color,
            ContinuousEffectOperation::AddKeywords { .. }
            | ContinuousEffectOperation::RemoveKeywords { .. } => ContinuousEffectLayer::Ability,
            ContinuousEffectOperation::SetBasePowerToughness { .. } => ContinuousEffectLayer::PowerToughnessCda,
            ContinuousEffectOperation::SetPowerToughness { .. } => ContinuousEffectLayer::PowerToughnessSet,
            ContinuousEffectOperation::ModifyPowerToughness { .. } => ContinuousEffectLayer::PowerToughnessModify,
            ContinuousEffectOperation::SwitchPowerToughness => ContinuousEffectLayer::PowerToughnessSwitch,
        }
    }

    /// Returns the layer or sublayer of this operation.
    pub(crate) fn layer(self) -> (r: ContinuousEffectLayer)
        ensures
            r == self.spec_layer(),
    {
        match self {
            ContinuousEffectOperation::CopyBaseCreature { .. } => ContinuousEffectLayer::Copy,
            ContinuousEffectOperation::ChangeController { .. } => ContinuousEffectLayer::Control,
            ContinuousEffectOperation::SetTextMarker { .. } => ContinuousEffectLayer::Text,
            ContinuousEffectOperation::SetTypes { .. }
            | ContinuousEffectOperation::AddTypes { .. }
            | ContinuousEffectOperation::RemoveTypes { .. } => ContinuousEffectLayer::Type,
            ContinuousEffectOperation::SetColors { .. } => ContinuousEffectLayer::Color,
            ContinuousEffectOperation::AddKeywords { .. }
            | ContinuousEffectOperation::RemoveKeywords { .. } => ContinuousEffectLayer::Ability,
            ContinuousEffectOperation::SetBasePowerToughness { .. } => ContinuousEffectLayer::PowerToughnessCda,
            ContinuousEffectOperation::SetPowerToughness { .. } => ContinuousEffectLayer::PowerToughnessSet,
            ContinuousEffectOperation::ModifyPowerToughness { .. } => ContinuousEffectLayer::PowerToughnessModify,
            ContinuousEffectOperation::SwitchPowerToughness => ContinuousEffectLayer::PowerToughnessSwitch,
        }
    }

    /// Stable numeric code used by canonical encodings.
    pub open spec fn spec_canonical_code(self) -> u8 {
        match self {
            ContinuousEffectOperation::CopyBaseCreature { .. } => 0,
            ContinuousEffectOperation::ChangeController { .. } => 1,
            ContinuousEffectOperation::SetTextMarker { .. } => 2,
            ContinuousEffectOperation::SetTypes { .. } => 3,
            ContinuousEffectOperation::AddTypes { .. } => 4,
            ContinuousEffectOperation::RemoveTypes { .. } => 5,
            ContinuousEffectOperation::SetColors { .. } => 6,
            ContinuousEffectOperation::AddKeywords { .. } => 7,
            ContinuousEffectOperation::RemoveKeywords { .. } => 8,
            ContinuousEffectOperation::SetBasePowerToughness { .. } => 9,
            ContinuousEffectOperation::SetPowerToughness { .. } => 10,
            ContinuousEffectOperation::ModifyPowerToughness { .. } => 11,
            ContinuousEffectOperation::SwitchPowerToughness => 12,
        }
    }

    /// Returns the stable numeric code used by canonical encodings.
    pub(crate) fn canonical_code(self) -> (r: u8)
        ensures
            r == self.spec_canonical_code(),
    {
        match self {
            ContinuousEffectOperation::CopyBaseCreature { .. } => 0,
            ContinuousEffectOperation::ChangeController { .. } => 1,
            ContinuousEffectOperation::SetTextMarker { .. } => 2,
            ContinuousEffectOperation::SetTypes { .. } => 3,
            ContinuousEffectOperation::AddTypes { .. } => 4,
            ContinuousEffectOperation::RemoveTypes { .. } => 5,
            ContinuousEffectOperation::SetColors { .. } => 6,
            ContinuousEffectOperation::AddKeywords { .. } => 7,
            ContinuousEffectOperation::RemoveKeywords { .. } => 8,
            ContinuousEffectOperation::SetBasePowerToughness { .. } => 9,
            ContinuousEffectOperation::SetPowerToughness { .. } => 10,
            ContinuousEffectOperation::ModifyPowerToughness { .. } => 11,
            ContinuousEffectOperation::SwitchPowerToughness => 12,
        }
    }
}

/// Duration for a continuous effect.
#[derive(Clone, Copy, Debug, PartialEq, Eq, Structural, Hash)]
pub enum ContinuousEffectDuration {
    /// The effect remains until explicitly absent from state.
    Persistent,
}

impl ContinuousEffectDuration {
    /// Stable numeric code used by canonical encodings.
    pub open spec fn spec_canonical_code(self) -> u8 {
        match self {
            ContinuousEffectDuration::Persistent => 0,
        }
    }

    /// Returns the stable numeric code used by canonical encodings.
    pub(crate) fn canonical_code(self) -> (r: u8)
        ensures
            r == self.spec_canonical_code(),
    {
        match self {
            ContinuousEffectDuration::Persistent => 0,
        }
    }
}

/// Declarative continuous-effect definition consumed by the layer engine.
#[derive(Clone, Debug, PartialEq, Eq, Hash)]
pub struct ContinuousEffectDefinition {
    pub controller: PlayerId,
    pub source: Option<ObjectId>,
    pub target: ContinuousEffectTarget,
    pub operation: ContinuousEffectOperation,
    pub duration: ContinuousEffectDuration,
    pub timestamp: u64,
    pub dependencies: Vec<ContinuousEffectId>,
}

impl ContinuousEffectDefinition {
    /// Creates a persistent continuous effect with no source or dependencies.
    pub fn new(
        controller: PlayerId,
        target: ContinuousEffectTarget,
        operation: ContinuousEffectOperation,
    ) -> (r: Self)
        ensures
            r.controller == controller && r.source is None && r.target == target,
            r.operation == operation && r.duration == ContinuousEffectDuration::Persistent,
            r.timestamp == 0 && r.dependencies@.len() == 0,
    {
        ContinuousEffectDefinition {
            controller,
            source: None,
            target,
            operation,
            duration: ContinuousEffectDuration::Persistent,
            timestamp: 0,
            dependencies: Vec::new(),
        }
    }

    /// Returns this definition with a source object.
    pub fn with_source(self, source: ObjectId) -> (r: Self)
        ensures
            r.source == Some(source) && r.controller == self.controller && r.target == self.target,
            r.operation == self.operation && r.duration == self.duration,
            r.timestamp == self.timestamp && r.dependencies@ == self.dependencies@,
    {
        let mut r = self;
        r.source = Some(source);
        r
    }

    /// Returns this definition with an explicit timestamp.
    pub fn with_timestamp(self, timestamp: u64) -> (r: Self)
        ensures
            r.timestamp == timestamp && r.controller == self.controller && r.target == self.target,
            r.operation == self.operation && r.duration == self.duration,
            r.source == self.source && r.dependencies@ == self.dependencies@,
    {
        let mut r = self;
        r.timestamp = timestamp;
        r
    }

    /// Returns this definition with explicit dependency edges.
    pub fn with_dependencies(self, dependencies: Vec<ContinuousEffectId>) -> (r: Self)
        ensures
            r.dependencies@ == dependencies@ && r.controller == self.controller,
            r.target == self.target && r.operation == self.operation,
            r.duration == self.duration && r.source == self.source && r.timestamp == self.timestamp,
    {
        let mut r = self;
        r.dependencies = dependencies;
        r
    }

    /// Returns the controller of the effect.
    pub fn controller(&self) -> (r: PlayerId)
        ensures
            r == self.controller,
    {
        self.controller
    }
    /// Returns the source object, if any.
    pub fn source(&self) -> (r: Option<ObjectId>)
        ensures
            r == self.source,
    {
        self.source
    }
    /// Returns the target filter.
    pub fn target(&self) -> (r: ContinuousEffectTarget)
        ensures
            r == self.target,
    {
        self.target
    }
    /// Returns the operation.
    pub fn operation(&self) -> (r: ContinuousEffectOperation)
        ensures
            r == self.operation,
    {
        self.operation
    }
    /// Returns the duration.
    pub fn duration(&self) -> (r: ContinuousEffectDuration)
        ensures
            r == self.duration,
    {
        self.duration
    }
    /// Returns the timestamp; zero means registration order assigns it.
    pub fn timestamp(&self) -> (r: u64)
        ensures
            r == self.timestamp,
    {
        self.timestamp
    }
    /// Returns explicit dependency edges.
    pub fn dependencies(&self) -> (r: &[ContinuousEffectId])
        ensures
            r@ == self.dependencies@,
    {
        self.dependencies.as_slice()
    }
}

impl Default for ObjectColors {
    /// No colors.
    fn default() -> (r: Self)
        ensures
            !r.white && !r.blue && !r.black && !r.red && !r.green,
    {
        ObjectColors::none()
    }
}

impl Default for ObjectTypes {
    /// No card types.
    fn default() -> (r: Self)
        ensures
            !r.artifact && !r.creature && !r.enchantment && !r.instant && !r.land && !r.planeswalker
                && !r.sorcery,
    {
        ObjectTypes::none()
    }
}

impl Default for CreatureKeywords {
    /// No keywords.
    fn default() -> (r: Self)
        ensures
            r == CreatureKeywords::none_spec(),
    {
        CreatureKeywords::none()
    }
}

} // verus!
