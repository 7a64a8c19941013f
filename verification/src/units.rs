//! Units of the quantities that parameters most often have.
use crate::text::{leaf, leaf_of, same_text};
use vstd::prelude::*;

verus! {

/// The unit of the quantity type named `leaf`, where it is one of the common
/// ones.
pub open spec fn unit_of_quantity(leaf: Seq<char>) -> Option<Seq<char>> {
    if leaf == "Torque"@ {
        Some("N.m"@)
    } else if leaf == "Inertia"@ {
        Some("kg.m2"@)
    } else if leaf == "Mass"@ {
        Some("kg"@)
    } else if leaf == "Length"@ {
        Some("m"@)
    } else if leaf == "Distance"@ {
        Some("m"@)
    } else if leaf == "Time"@ {
        Some("s"@)
    } else if leaf == "Angle"@ {
        Some("rad"@)
    } else if leaf == "AngularVelocity"@ {
        Some("rad/s"@)
    } else if leaf == "AngularAcceleration"@ {
        Some("rad/s2"@)
    } else if leaf == "Velocity"@ {
        Some("m/s"@)
    } else if leaf == "Acceleration"@ {
        Some("m/s2"@)
    } else if leaf == "Force"@ {
        Some("N"@)
    } else if leaf == "Power"@ {
        Some("W"@)
    } else if leaf == "Energy"@ {
        Some("J"@)
    } else if leaf == "Frequency"@ {
        Some("Hz"@)
    } else if leaf == "Temperature"@ {
        Some("K"@)
    } else if leaf == "ThermodynamicTemperature"@ {
        Some("K"@)
    } else if leaf == "Voltage"@ {
        Some("V"@)
    } else if leaf == "Current"@ {
        Some("A"@)
    } else if leaf == "Resistance"@ {
        Some("Ohm"@)
    } else if leaf == "Capacitance"@ {
        Some("F"@)
    } else if leaf == "Inductance"@ {
        Some("H"@)
    } else if leaf == "RotationalSpringConstant"@ {
        Some("N.m/rad"@)
    } else if leaf == "TranslationalSpringConstant"@ {
        Some("N.m/rad"@)
    } else if leaf == "RotationalDampingConstant"@ {
        Some("N.m.s/rad"@)
    } else if leaf == "TranslationalDampingConstant"@ {
        Some("N.m.s/rad"@)
    } else {
        None
    }
}

/// The unit of a parameter of type `param_type`, a dotted path whose last part
/// names the quantity.
pub fn si_unit_suffix(param_type: &str) -> (r: Option<&'static str>)
    ensures
        match r {
            Some(unit) => unit_of_quantity(leaf(param_type@)) == Some(unit@),
            None => unit_of_quantity(leaf(param_type@)) is None,
        },
{
    let last = leaf_of(param_type);
    let l: &str = last.as_str();
    if same_text(l, "Torque") {
        Some("N.m")
    } else if same_text(l, "Inertia") {
        Some("kg.m2")
    } else if same_text(l, "Mass") {
        Some("kg")
    } else if same_text(l, "Length") {
        Some("m")
    } else if same_text(l, "Distance") {
        Some("m")
    } else if same_text(l, "Time") {
        Some("s")
    } else if same_text(l, "Angle") {
        Some("rad")
    } else if same_text(l, "AngularVelocity") {
        Some("rad/s")
    } else if same_text(l, "AngularAcceleration") {
        Some("rad/s2")
    } else if same_text(l, "Velocity") {
        Some("m/s")
    } else if same_text(l, "Acceleration") {
        Some("m/s2")
    } else if same_text(l, "Force") {
        Some("N")
    } else if same_text(l, "Power") {
        Some("W")
    } else if same_text(l, "Energy") {
        Some("J")
    } else if same_text(l, "Frequency") {
        Some("Hz")
    } else if same_text(l, "Temperature") {
        Some("K")
    } else if same_text(l, "ThermodynamicTemperature") {
        Some("K")
    } else if same_text(l, "Voltage") {
        Some("V")
    } else if same_text(l, "Current") {
        Some("A")
    } else if same_text(l, "Resistance") {
        Some("Ohm")
    } else if same_text(l, "Capacitance") {
        Some("F")
    } else if same_text(l, "Inductance") {
        Some("H")
    } else if same_text(l, "RotationalSpringConstant") {
        Some("N.m/rad")
    } else if same_text(l, "TranslationalSpringConstant") {
        Some("N.m/rad")
    } else if same_text(l, "RotationalDampingConstant") {
        Some("N.m.s/rad")
    } else if same_text(l, "TranslationalDampingConstant") {
        Some("N.m.s/rad")
    } else {
        None
    }
}

/// A unit is never empty.
pub proof fn law_units_are_not_empty(quantity: Seq<char>)
    ensures
        unit_of_quantity(quantity) matches Some(u) ==> u.len() > 0,
{
    reveal_strlit("N.m");
    reveal_strlit("kg.m2");
    reveal_strlit("kg");
    reveal_strlit("m");
    reveal_strlit("s");
    reveal_strlit("rad");
    reveal_strlit("rad/s");
    reveal_strlit("rad/s2");
    reveal_strlit("m/s");
    reveal_strlit("m/s2");
    reveal_strlit("N");
    reveal_strlit("W");
    reveal_strlit("J");
    reveal_strlit("Hz");
    reveal_strlit("K");
    reveal_strlit("V");
    reveal_strlit("A");
    reveal_strlit("Ohm");
    reveal_strlit("F");
    reveal_strlit("H");
    reveal_strlit("N.m/rad");
    reveal_strlit("N.m.s/rad");
}

} // verus!
