//! Layout arithmetic for the status-block grid. The rendering itself is
//! presentation glue and lives outside the library; these helpers decide the
//! block geometry from the available width and the selected time range.

use vstd::prelude::*;
use crate::app::TimeRange;

verus! {

/// Block width, block height, and blocks per row for the status grid.
/// Every current time range uses 1x1 blocks separated by one column, so a row
/// holds `available_width / 2` blocks, and always at least one.
pub fn calculate_block_dimensions(available_width: usize, time_range: &TimeRange) -> (r: (
    usize,
    usize,
    usize,
))
    ensures
        r.0 == 1,
        r.1 == 1,
        r.2 == if available_width / 2 >= 1 {
            available_width / 2
        } else {
            1
        },
{
    match time_range {
        TimeRange::Minutes(60) => {
            let block_width: usize = 1;
            let block_height: usize = 1;
            let blocks_per_row: usize = available_width / (block_width + 1);
            (block_width, block_height, if blocks_per_row >= 1 {
                blocks_per_row
            } else {
                1
            })
        },
        _ => {
            let block_width: usize = 1;
            let block_height: usize = 1;
            let blocks_per_row: usize = available_width / (block_width + 1);
            (block_width, block_height, if blocks_per_row >= 1 {
                blocks_per_row
            } else {
                1
            })
        },
    }
}

/// The character a status block is drawn with, for a given block width.
pub fn get_block_char(width: usize) -> (r: &'static str)
    ensures
        r@ == "█"@,
{
    match width {
        1 => "█",
        _ => "█",
    }
}

} // verus!
