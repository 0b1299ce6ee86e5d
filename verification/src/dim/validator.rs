//! The kinds of quantities, and the check that a quantity is of a kind.
//!
//! Two quantities are of one kind if the unit library can add them. The
//! library is asked outside this crate; here the question is put together
//! and the answer is judged.

use crate::dim::error::DimError;
use crate::dim::types::UnitParseResult;
use crate::text::{join2, join3};
use vstd::prelude::*;

verus! {

/// One unit of the kind `dimension`, to add other quantities to.
pub open spec fn reference_quantity(dimension: Seq<char>) -> Option<Seq<char>> {
    if dimension == "pressure"@ {
        Some("1 Pa"@)
    } else if dimension == "length"@ {
        Some("1 m"@)
    } else if dimension == "temperature"@ {
        Some("1 K"@)
    } else if dimension == "time"@ {
        Some("1 s"@)
    } else if dimension == "mass"@ {
        Some("1 kg"@)
    } else if dimension == "energy"@ {
        Some("1 J"@)
    } else if dimension == "power"@ {
        Some("1 W"@)
    } else if dimension == "flow_rate"@ {
        Some("1 m³/s"@)
    } else if dimension == "velocity"@ {
        Some("1 m/s"@)
    } else if dimension == "force"@ {
        Some("1 N"@)
    } else if dimension == "volume"@ {
        Some("1 m³"@)
    } else if dimension == "area"@ {
        Some("1 m²"@)
    } else if dimension == "density"@ {
        Some("1 kg/m³"@)
    } else {
        None
    }
}

/// One unit of the kind `dimension`.
pub fn get_reference_unit_for_dimension(dimension: &str) -> (r: Option<&'static str>)
    ensures
        match r {
            Some(unit) => reference_quantity(dimension@) == Some(unit@),
            None => reference_quantity(dimension@) is None,
        },
{
    let d = dimension.to_owned();
    if d == "pressure".to_owned() {
        Some("1 Pa")
    } else if d == "length".to_owned() {
        Some("1 m")
    } else if d == "temperature".to_owned() {
        Some("1 K")
    } else if d == "time".to_owned() {
        Some("1 s")
    } else if d == "mass".to_owned() {
        Some("1 kg")
    } else if d == "energy".to_owned() {
        Some("1 J")
    } else if d == "power".to_owned() {
        Some("1 W")
    } else if d == "flow_rate".to_owned() {
        Some("1 m³/s")
    } else if d == "velocity".to_owned() {
        Some("1 m/s")
    } else if d == "force".to_owned() {
        Some("1 N")
    } else if d == "volume".to_owned() {
        Some("1 m³")
    } else if d == "area".to_owned() {
        Some("1 m²")
    } else if d == "density".to_owned() {
        Some("1 kg/m³")
    } else {
        None
    }
}

/// The sum that the unit library is asked to evaluate to learn whether two
/// quantities are of one kind.
pub fn compatibility_expression(expr: &str, target: &str) -> (s: String)
    ensures
        s@ == expr@ + " + "@ + target@,
{
    join3(expr, " + ", target)
}

/// Whether two quantities are of one kind, given whether the unit library
/// could evaluate their sum.
pub fn check_unit_compatibility(sum_evaluated: bool) -> (r: Result<bool, DimError>)
    ensures
        r == Ok::<bool, DimError>(sum_evaluated),
{
    Ok(sum_evaluated)
}

/// The error for a kind of quantity that is not known.
pub open spec fn unknown_dimension_message(expected: Seq<char>) -> Seq<char> {
    "Unknown dimension type: "@ + expected
}

/// The error for a quantity of another kind than expected.
pub open spec fn mismatch_message(
    expected: Seq<char>,
    original: Seq<char>,
    reference: Seq<char>,
) -> Seq<char> {
    "Dimension mismatch: expected '"@ + expected + "', but parsed unit '"@ + original
        + "' is not compatible with reference unit '"@ + reference + "'"@
}

/// Whether a quantity is of the expected kind. `compatible` tells whether
/// the unit library could add the quantity to one unit of that kind; it
/// does not count where the kind is not known.
pub fn validate_dimension(
    parse_result: &UnitParseResult,
    expected_dimension: &str,
    compatible: bool,
) -> (r: Result<(), DimError>)
    ensures
        match reference_quantity(expected_dimension@) {
            None => match r {
                Err(DimError::ParseError(msg)) => msg@ == unknown_dimension_message(
                    expected_dimension@,
                ),
                _ => false,
            },
            Some(reference) => if compatible {
                r is Ok
            } else {
                match r {
                    Err(DimError::ParseError(msg)) => msg@ == mismatch_message(
                        expected_dimension@,
                        parse_result.original@,
                        reference,
                    ),
                    _ => false,
                }
            },
        },
{
    let reference = match get_reference_unit_for_dimension(expected_dimension) {
        Some(unit) => unit,
        None => {
            return Err(
                DimError::ParseError(join2("Unknown dimension type: ", expected_dimension)),
            );
        },
    };
    if !compatible {
        let mut message = join3(
            "Dimension mismatch: expected '",
            expected_dimension,
            "', but parsed unit '",
        );
        message.append(parse_result.original.as_str());
        message.append("' is not compatible with reference unit '");
        message.append(reference);
        message.append("'");
        return Err(DimError::ParseError(message));
    }
    Ok(())
}

/// The kinds of quantities, in the order in which they are tried.
pub open spec fn dimension_names() -> Seq<Seq<char>> {
    seq![
        "pressure"@,
        "length"@,
        "temperature"@,
        "time"@,
        "mass"@,
        "energy"@,
        "power"@,
        "flow_rate"@,
        "velocity"@,
        "force"@,
        "volume"@,
        "area"@,
        "density"@,
    ]
}

/// The kinds of quantities, in the order in which they are tried.
pub fn dimensions() -> (r: Vec<&'static str>)
    ensures
        r.len() == 13,
        r@.map_values(|s: &'static str| s@) == dimension_names(),
{
    let mut r: Vec<&'static str> = Vec::new();
    r.push("pressure");
    r.push("length");
    r.push("temperature");
    r.push("time");
    r.push("mass");
    r.push("energy");
    r.push("power");
    r.push("flow_rate");
    r.push("velocity");
    r.push("force");
    r.push("volume");
    r.push("area");
    r.push("density");
    assert(r@.map_values(|s: &'static str| s@) =~= dimension_names());
    r
}

/// The index of the first true answer at or after `from`, or the number
/// of answers.
pub open spec fn first_true(answers: Seq<bool>, from: int) -> int
    decreases answers.len() - from,
{
    if from < 0 || from >= answers.len() {
        answers.len() as int
    } else if answers[from] {
        from
    } else {
        first_true(answers, from + 1)
    }
}

/// The kind of a quantity, given for every kind in the order of
/// `dimensions` whether the quantity is of that kind: the first kind that
/// it is of. Answers beyond the known kinds do not count.
pub fn get_dimension(compatible: &Vec<bool>) -> (r: Option<String>)
    ensures
        ({
            let i = first_true(compatible@, 0);
            match r {
                Some(name) => i < 13 && i < compatible.len() && name@ == dimension_names()[i],
                None => i >= 13 || i >= compatible.len(),
            }
        }),
{
    let names = dimensions();
    let mut i: usize = 0;
    while i < compatible.len() && i < names.len()
        invariant
            i <= compatible.len(),
            i <= names.len(),
            names.len() == 13,
            names@.map_values(|s: &'static str| s@) == dimension_names(),
            first_true(compatible@, 0) == first_true(compatible@, i as int),
        decreases compatible.len() - i,
    {
        if compatible[i] {
            assert(names@.map_values(|s: &'static str| s@)[i as int] == names[i as int]@);
            return Some(names[i].to_owned());
        }
        i += 1;
    }
    proof {
        lemma_first_true_bounds(compatible@, i as int);
    }
    None
}

/// `first_true` answers with an index from `from` on.
pub proof fn lemma_first_true_bounds(answers: Seq<bool>, from: int)
    requires
        0 <= from <= answers.len(),
    ensures
        from <= first_true(answers, from) <= answers.len(),
    decreases answers.len() - from,
{
    if from < answers.len() && !answers[from] {
        lemma_first_true_bounds(answers, from + 1);
    }
}

} // verus!
