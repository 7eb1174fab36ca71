use vstd::prelude::*;
use vstd::string::{StrSliceExecFns, StringExecFns};

verus! {

/// The two kinds of number literal.
#[derive(Debug, Clone, Copy, PartialEq, Eq, Structural)]
pub enum NumberKind {
    /// An integer literal, such as `12` or `12usize`.
    Int,
    /// A floating-point literal, such as `1.5` or `1.5f32`.
    Float,
}

/// The suffix names a floating-point type.
pub open spec fn is_float_suffix(suffix: Seq<char>) -> bool {
    suffix == "f32"@ || suffix == "f64"@
}

/// The literal without its suffix. An integer literal with the suffix of
/// a floating-point type becomes a floating-point literal. The digits of
/// a floating-point literal that hold no point get `.0` at their end.
pub open spec fn unsuffixed_literal(kind: NumberKind, digits: Seq<char>, suffix: Seq<char>) -> (
    NumberKind,
    Seq<char>,
) {
    match kind {
        NumberKind::Int => if is_float_suffix(suffix) {
            (NumberKind::Float, digits + ".0"@)
        } else {
            (NumberKind::Int, digits)
        },
        NumberKind::Float => if digits.contains('.') {
            (NumberKind::Float, digits)
        } else {
            (NumberKind::Float, digits + ".0"@)
        },
    }
}

/// Every floating-point literal that comes out holds a point, and an
/// integer literal that stays one keeps its digits.
pub proof fn lemma_unsuffixed_float_has_point(kind: NumberKind, digits: Seq<char>, suffix: Seq<char>)
    ensures
        unsuffixed_literal(kind, digits, suffix).0 == NumberKind::Float ==> unsuffixed_literal(
            kind,
            digits,
            suffix,
        ).1.contains('.'),
        unsuffixed_literal(kind, digits, suffix).0 == NumberKind::Int ==> kind == NumberKind::Int
            && unsuffixed_literal(kind, digits, suffix).1 == digits,
{
    reveal_strlit(".0");
    let with_point = digits + ".0"@;
    assert(with_point[digits.len() as int] == '.');
}

/// What comes out has no suffix left to take off: the rule changes
/// nothing when it is applied again.
pub proof fn lemma_unsuffixed_twice(kind: NumberKind, digits: Seq<char>, suffix: Seq<char>)
    ensures
        unsuffixed_literal(
            unsuffixed_literal(kind, digits, suffix).0,
            unsuffixed_literal(kind, digits, suffix).1,
            ""@,
        ) == unsuffixed_literal(kind, digits, suffix),
{
    lemma_unsuffixed_float_has_point(kind, digits, suffix);
    reveal_strlit("");
    reveal_strlit("f32");
    reveal_strlit("f64");
    assert(""@.len() == 0);
    assert("f32"@.len() == 3);
    assert("f64"@.len() == 3);
}

/// Rewrites number literals of Rust source into the form that WGSL
/// accepts: without a type suffix, and with a point in every
/// floating-point number.
pub struct NumberReplace;

impl NumberReplace {
    /// What takes the place of a number literal, given its kind, its
    /// digits in base ten and its suffix.
    pub fn unsuffixed(&self, kind: NumberKind, digits: &str, suffix: &str) -> (literal: (
        NumberKind,
        String,
    ))
        ensures
            (literal.0, literal.1@) == unsuffixed_literal(kind, digits@, suffix@),
    {
        match kind {
            NumberKind::Int => if has_float_suffix(suffix) {
                (NumberKind::Float, String::from_str(digits).concat(".0"))
            } else {
                (NumberKind::Int, String::from_str(digits))
            },
            NumberKind::Float => if has_point(digits) {
                (NumberKind::Float, String::from_str(digits))
            } else {
                (NumberKind::Float, String::from_str(digits).concat(".0"))
            },
        }
    }
}

/// Whether the suffix names a floating-point type.
fn has_float_suffix(suffix: &str) -> (float: bool)
    ensures
        float == is_float_suffix(suffix@),
{
    let given = String::from_str(suffix);
    given == String::from_str("f32") || given == String::from_str("f64")
}

/// Whether the digits hold a point.
fn has_point(digits: &str) -> (found: bool)
    ensures
        found == digits@.contains('.'),
{
    let len = digits.unicode_len();
    let mut i: usize = 0;
    while i < len
        invariant
            len == digits@.len(),
            i <= len,
            forall|j: int| 0 <= j < i ==> digits@[j] != '.',
        decreases len - i,
    {
        if digits.get_char(i) == '.' {
            return true;
        }
        i += 1;
    }
    false
}

} // verus!
