use vstd::prelude::*;

verus! {

/// The distance units an archive can record, in increasing order of magnitude.
#[derive(Clone, Copy, Debug, PartialEq, Eq, Structural, PartialOrd, Ord, Hash)]
pub enum DistanceUnit {
    Micrometer,
    Millimeter,
    Meter,
    Kilometer,
    Megameter,
}

/// Position of a unit in the order of magnitude, starting at zero.
pub open spec fn rank(u: DistanceUnit) -> int {
    match u {
        DistanceUnit::Micrometer => 0,
        DistanceUnit::Millimeter => 1,
        DistanceUnit::Meter => 2,
        DistanceUnit::Kilometer => 3,
        DistanceUnit::Megameter => 4,
    }
}

/// One of the unit is `10^meters_exp(u)` meters.
pub open spec fn meters_exp(u: DistanceUnit) -> int {
    3 * rank(u) - 6
}

/// The canonical byte of each unit.
pub open spec fn byte_of(u: DistanceUnit) -> u8 {
    rank(u) as u8
}

/// The unit a byte stands for: the canonical codes map back to their unit,
/// every other byte (3 among them) reads as a kilometer.
pub open spec fn unit_of(b: u8) -> DistanceUnit {
    if b == 0 {
        DistanceUnit::Micrometer
    } else if b == 1 {
        DistanceUnit::Millimeter
    } else if b == 2 {
        DistanceUnit::Meter
    } else if b == 4 {
        DistanceUnit::Megameter
    } else {
        DistanceUnit::Kilometer
    }
}

/// The short symbol of each unit.
pub open spec fn symbol_of(u: DistanceUnit) -> Seq<char> {
    match u {
        DistanceUnit::Micrometer => seq!['u', 'm'],
        DistanceUnit::Millimeter => seq!['m', 'm'],
        DistanceUnit::Meter => seq!['m'],
        DistanceUnit::Kilometer => seq!['k', 'm'],
        DistanceUnit::Megameter => seq!['M', 'm'],
    }
}

impl DistanceUnit {
    /// The power of ten by which a quantity in this unit is multiplied to
    /// give meters: a kilometer is `10^3` meters.
    pub fn in_meters_exponent(&self) -> (r: i8)
        ensures
            r == meters_exp(*self),
    {
        match self {
            DistanceUnit::Micrometer => -6,
            DistanceUnit::Millimeter => -3,
            DistanceUnit::Meter => 0,
            DistanceUnit::Kilometer => 3,
            DistanceUnit::Megameter => 6,
        }
    }

    /// The power of ten by which a quantity in meters is multiplied to give
    /// this unit: one meter is `10^-3` kilometers.
    pub fn from_meters_exponent(&self) -> (r: i8)
        ensures
            r == -meters_exp(*self),
    {
        let e = self.in_meters_exponent();
        -e
    }

    /// Whether this unit is strictly smaller than `other`.
    pub fn is_smaller_than(&self, other: &DistanceUnit) -> (r: bool)
        ensures
            r == (rank(*self) < rank(*other)),
    {
        u8::from(*self) < u8::from(*other)
    }

    /// The unit's short symbol (`um`, `mm`, `m`, `km`, `Mm`).
    pub fn symbol(&self) -> (r: &'static str)
        ensures
            r@ == symbol_of(*self),
    {
        match self {
            DistanceUnit::Micrometer => {
                proof { reveal_strlit("um"); }
                "um"
            },
            DistanceUnit::Millimeter => {
                proof { reveal_strlit("mm"); }
                "mm"
            },
            DistanceUnit::Meter => {
                proof { reveal_strlit("m"); }
                "m"
            },
            DistanceUnit::Kilometer => {
                proof { reveal_strlit("km"); }
                "km"
            },
            DistanceUnit::Megameter => {
                proof { reveal_strlit("Mm"); }
                "Mm"
            },
        }
    }
}

impl Default for DistanceUnit {
    /// Archives store distances in kilometers unless they say otherwise.
    fn default() -> (r: DistanceUnit)
        ensures
            r == DistanceUnit::Kilometer,
    {
        DistanceUnit::Kilometer
    }
}

/// Encoding of a unit as its canonical byte:
/// Micrometer 0, Millimeter 1, Meter 2, Kilometer 3, Megameter 4.
impl From<DistanceUnit> for u8 {
    fn from(dist: DistanceUnit) -> (r: u8) {
        match dist {
            DistanceUnit::Micrometer => 0,
            DistanceUnit::Millimeter => 1,
            DistanceUnit::Meter => 2,
            DistanceUnit::Kilometer => 3,
            DistanceUnit::Megameter => 4,
        }
    }
}

impl vstd::std_specs::convert::FromSpecImpl<DistanceUnit> for u8 {
    open spec fn obeys_from_spec() -> bool {
        true
    }

    open spec fn from_spec(dist: DistanceUnit) -> u8 {
        byte_of(dist)
    }
}

/// Encoding of a borrowed unit, the same byte as for the unit itself.
impl From<&DistanceUnit> for u8 {
    fn from(dist: &DistanceUnit) -> (r: u8) {
        u8::from(*dist)
    }
}

impl vstd::std_specs::convert::FromSpecImpl<&DistanceUnit> for u8 {
    open spec fn obeys_from_spec() -> bool {
        true
    }

    open spec fn from_spec(dist: &DistanceUnit) -> u8 {
        byte_of(*dist)
    }
}

/// Decoding of a byte: 0, 1, 2 and 4 give their unit, any other byte a kilometer.
impl From<u8> for DistanceUnit {
    fn from(val: u8) -> (r: DistanceUnit) {
        match val {
            0 => DistanceUnit::Micrometer,
            1 => DistanceUnit::Millimeter,
            2 => DistanceUnit::Meter,
            4 => DistanceUnit::Megameter,
            _ => DistanceUnit::Kilometer,
        }
    }
}

impl vstd::std_specs::convert::FromSpecImpl<u8> for DistanceUnit {
    open spec fn obeys_from_spec() -> bool {
        true
    }

    open spec fn from_spec(val: u8) -> DistanceUnit {
        unit_of(val)
    }
}

/// Converting to meters and back is the identity: the two exponents of a
/// unit cancel, so the factors `10^e` and `10^-e` multiply to one.
pub proof fn lemma_meter_factors_cancel(u: DistanceUnit)
    ensures
        meters_exp(u) + (-meters_exp(u)) == 0,
        -6 <= meters_exp(u) <= 6,
{
}

/// Encoding after decoding gives the byte back on the five canonical codes,
/// and every other byte decodes to a kilometer.
pub proof fn lemma_byte_round_trip(b: u8)
    ensures
        b <= 4 ==> byte_of(unit_of(b)) == b,
        b > 4 ==> unit_of(b) == DistanceUnit::Kilometer,
        b == 3 ==> unit_of(b) == DistanceUnit::Kilometer,
{
}

/// Decoding after encoding gives every unit back.
pub proof fn lemma_unit_round_trip(u: DistanceUnit)
    ensures
        unit_of(byte_of(u)) == u,
{
}

/// Order of magnitude agrees with the order of the canonical bytes.
pub proof fn lemma_byte_order(u: DistanceUnit, v: DistanceUnit)
    ensures
        (rank(u) < rank(v)) == (byte_of(u) < byte_of(v)),
        (u == v) == (byte_of(u) == byte_of(v)),
{
}

} // verus!
