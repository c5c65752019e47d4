//! Display units for lengths and masses.
use vstd::prelude::*;

verus! {

/// Unit in which lengths are shown and entered.
#[derive(Clone, Copy, Debug, PartialEq, Eq, Structural)]
pub enum LengthUnit {
    Meter,
    Angstrom,
    Nanometer,
    Picometer,
}

/// Unit in which masses are shown and entered.
#[derive(Clone, Copy, Debug, PartialEq, Eq, Structural)]
pub enum MassUnit {
    Dalton,
    Kilogram,
}

impl LengthUnit {
    /// The symbol that a label carries for this unit.
    pub open spec fn symbol(self) -> Seq<char> {
        match self {
            LengthUnit::Meter => "m"@,
            LengthUnit::Angstrom => "Å"@,
            LengthUnit::Nanometer => "nm"@,
            LengthUnit::Picometer => "pm"@,
        }
    }

    /// Short symbol of the unit, for labels.
    pub fn name(&self) -> (r: &'static str)
        ensures
            r@ == self.symbol(),
    {
        match self {
            LengthUnit::Meter => "m",
            LengthUnit::Angstrom => "Å",
            LengthUnit::Nanometer => "nm",
            LengthUnit::Picometer => "pm",
        }
    }
}

} // verus!
