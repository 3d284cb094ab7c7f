//! When a search sends its progress: updates are spaced by a least time
//! between them, so that they do not flood the receiver.

use vstd::prelude::*;

verus! {

/// Whether a message goes out now. With no least time between messages, or
/// none sent yet, it does; otherwise only once more than that time (in
/// nanoseconds) has passed since the last one went out.
pub fn should_send(min_time_between: Option<u128>, since_last: Option<u128>) -> (r: bool)
    ensures
        r == (min_time_between is None || since_last is None
            || since_last.unwrap() > min_time_between.unwrap()),
{
    match (min_time_between, since_last) {
        (Some(min), Some(elapsed)) => elapsed > min,
        _ => true,
    }
}

} // verus!
