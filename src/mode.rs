//! The informational aggregation mode flag.
use vstd::prelude::*;

verus! {

/// Which pipeline the operator intends to use. The flag gates nothing.
#[derive(Clone, Copy, Debug, PartialEq, Eq, Structural)]
pub enum AggregationMode {
    Plain,
    SMPC,
}

impl Default for AggregationMode {
    fn default() -> (r: Self)
        ensures
            r == AggregationMode::Plain,
    {
        AggregationMode::Plain
    }
}

/// `c` turns into the upper-case ASCII letter `upper` under ASCII upper-casing.
pub open spec fn upcases_to(c: char, upper: char) -> bool {
    c == upper || c as u32 == upper as u32 + 32
}

/// `name`, upper-cased in ASCII, reads `SMPC`.
pub open spec fn names_smpc(name: Seq<char>) -> bool {
    &&& name.len() == 4
    &&& upcases_to(name[0], 'S')
    &&& upcases_to(name[1], 'M')
    &&& upcases_to(name[2], 'P')
    &&& upcases_to(name[3], 'C')
}

/// The mode that a textual name selects: `SMPC` in any ASCII case, otherwise `Plain`.
pub open spec fn mode_of_name(name: Seq<char>) -> AggregationMode {
    if names_smpc(name) {
        AggregationMode::SMPC
    } else {
        AggregationMode::Plain
    }
}

/// The textual name under which a mode is reported.
pub open spec fn name_of_mode(m: AggregationMode) -> Seq<char> {
    match m {
        AggregationMode::Plain => seq!['P', 'L', 'A', 'I', 'N'],
        AggregationMode::SMPC => seq!['S', 'M', 'P', 'C'],
    }
}

fn char_upcases_to(c: char, upper: char) -> (r: bool)
    requires
        'A' <= upper <= 'Z',
    ensures
        r == upcases_to(c, upper),
{
    let cu = c as u32;
    let uu = upper as u32;
    cu == uu || cu == uu + 32
}

/// Parses a mode name; anything but `SMPC` (any ASCII case) falls back to `Plain`.
pub fn mode_from_name(name: &str) -> (r: AggregationMode)
    ensures
        r == mode_of_name(name@),
{
    let n = name.unicode_len();
    if n != 4 {
        return AggregationMode::Plain;
    }
    if char_upcases_to(name.get_char(0), 'S') && char_upcases_to(name.get_char(1), 'M')
        && char_upcases_to(name.get_char(2), 'P') && char_upcases_to(name.get_char(3), 'C') {
        AggregationMode::SMPC
    } else {
        AggregationMode::Plain
    }
}

/// The name under which a mode is reported: `PLAIN` or `SMPC`.
pub fn mode_name(m: AggregationMode) -> (r: String)
    ensures
        r@ == name_of_mode(m),
{
    broadcast use vstd::string::group_string_axioms;
    match m {
        AggregationMode::Plain => {
            let s = "PLAIN";
            proof { reveal_strlit("PLAIN"); }
            assert(s@ =~= name_of_mode(m));
            s.to_string()
        },
        AggregationMode::SMPC => {
            let s = "SMPC";
            proof { reveal_strlit("SMPC"); }
            assert(s@ =~= name_of_mode(m));
            s.to_string()
        },
    }
}

} // verus!
