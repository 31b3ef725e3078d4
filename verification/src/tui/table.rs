//! Row selection arithmetic for the live table view.
//!
//! The renderer highlights one row of the service table; moving the
//! selection wraps around at both ends.  Only this index arithmetic is
//! decided here — drawing is a pure consumer of a snapshot value and lives
//! outside the library.

use vstd::prelude::*;

verus! {

/// The row selected after moving down: one further, wrapping to the top
/// past the last row; the first row when nothing was selected.
pub fn next_row_index(selected: Option<usize>, len: usize) -> (r: usize)
    requires
        len > 0,
    ensures
        r == (match selected {
            Some(i) => if i >= len - 1 {
                0usize
            } else {
                (i + 1) as usize
            },
            None => 0usize,
        }),
        r < len,
{
    match selected {
        Some(i) => {
            if i >= len - 1 {
                0
            } else {
                i + 1
            }
        },
        None => 0,
    }
}

/// The row selected after moving up: one back, wrapping to the bottom from
/// the first row; the first row when nothing was selected.
pub fn previous_row_index(selected: Option<usize>, len: usize) -> (r: usize)
    requires
        len > 0,
    ensures
        r == (match selected {
            Some(i) => if i == 0 {
                (len - 1) as usize
            } else {
                (i - 1) as usize
            },
            None => 0usize,
        }),
        r < len || (selected matches Some(i) && i >= len),
{
    match selected {
        Some(i) => {
            if i == 0 {
                len - 1
            } else {
                i - 1
            }
        },
        None => 0,
    }
}

} // verus!
