//! Numbers for display.
use vstd::prelude::*;

verus! {

/// How many decimals show a number with `digits` digits before the point to `figures`
/// significant figures. A number below 0.1 has a negative count of digits: its leading zeros.
pub open spec fn decimals_of(figures: usize, digits: i32) -> int {
    if figures > digits {
        figures - digits
    } else {
        0
    }
}

/// How many decimals show a number to `figures` significant figures.
pub fn decimals(figures: usize, digits: i32) -> (count: usize)
    requires
        figures <= 0x7fff_ffff,
    ensures
        count == decimals_of(figures, digits),
{
    let wanted: i64 = figures as i64 - digits as i64;
    if wanted > 0 {
        wanted as usize
    } else {
        0
    }
}

/// The decimals for a number to `figures` significant figures. `digits` are those of the
/// number, `rounded_digits` those of the number rounded to the decimals for `digits`, where
/// it is not zero: rounding up may add a digit, which takes a decimal away.
pub fn format_sig_figs(figures: usize, digits: i32, rounded_digits: Option<i32>) -> (count: usize)
    requires
        figures <= 0x7fff_ffff,
    ensures
        count == (match rounded_digits {
            Some(rounded) => decimals_of(figures, rounded),
            None => decimals_of(figures, digits),
        }),
{
    match rounded_digits {
        Some(rounded) => if rounded != digits {
            decimals(figures, rounded)
        } else {
            decimals(figures, digits)
        },
        None => decimals(figures, digits),
    }
}

/// The decimals for zero, and for what is not a finite number, to `figures` significant
/// figures: one fewer than the figures.
pub fn zero_decimals(figures: usize) -> (count: usize)
    requires
        figures > 0,
    ensures
        count == figures - 1,
{
    figures - 1
}

/// The digits before the point and the decimals make up the significant figures, unless there
/// are as many digits as figures or more; then there are no decimals.
pub proof fn law_figures_add_up(figures: usize, digits: i32)
    ensures
        digits < figures ==> digits + decimals_of(figures, digits) == figures,
        digits >= figures ==> decimals_of(figures, digits) == 0,
{
}

} // verus!
