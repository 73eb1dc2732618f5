//! Error messages that embed numbers.
use vstd::prelude::*;

verus! {

/// The decimal digits of `n`, most significant first, as Rust's `Display`
/// for unsigned integers writes them.
pub open spec fn decimal(n: nat) -> Seq<char>
    decreases n,
{
    if n < 10 {
        seq![((n + 48) as char)]
    } else {
        decimal(n / 10).push((((n % 10) + 48) as char))
    }
}

/// The message for a task index that is out of range: `"<role> index <index>
/// out of range (num_tasks = <num_tasks>)"`.
pub open spec fn out_of_range_text(role: Seq<char>, index: usize, num_tasks: usize) -> Seq<char> {
    role + " index "@ + decimal(index as nat) + " out of range (num_tasks = "@ + decimal(num_tasks as nat) + ")"@
}

/// Builds the out-of-range message with `format!`. Trusted: `format!` writes
/// `role` verbatim and each `usize` in decimal, as `Display` is documented
/// to do.
#[verifier::external_body]
pub(crate) fn out_of_range_message(role: &str, index: usize, num_tasks: usize) -> (r: String)
    ensures
        r@ == out_of_range_text(role@, index, num_tasks),
{
    format!("{} index {} out of range (num_tasks = {})", role, index, num_tasks)
}

/// The message for a tile with a color outside `0..num_colors`:
/// `"Tile <index> has color(s) out of range 0..<num_colors>"`.
pub open spec fn tile_color_text(index: usize, num_colors: usize) -> Seq<char> {
    "Tile "@ + decimal(index as nat) + " has color(s) out of range 0.."@ + decimal(num_colors as nat)
}

/// Builds the tile color message with `format!`. Trusted: `format!` writes
/// each `usize` in decimal, as `Display` is documented to do.
#[verifier::external_body]
pub(crate) fn tile_color_message(index: usize, num_colors: usize) -> (r: String)
    ensures
        r@ == tile_color_text(index, num_colors),
{
    format!("Tile {} has color(s) out of range 0..{}", index, num_colors)
}

} // verus!
