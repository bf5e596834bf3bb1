//! How the state of a slot is shown.
use vstd::prelude::*;
use crate::model::SlotType;

verus! {

/// The fill colour of a slot with `n` connections whose template is of type
/// `t` and allows between `min` and `max` connections: white for incoming
/// slots; below the minimum, red when empty and orange otherwise; at or above
/// the minimum, light green while more connections fit and green when full;
/// purple when the minimum cannot be reached below the maximum.
pub open spec fn slot_fill(t: SlotType, n: usize, min: usize, max: Option<usize>) -> Seq<char> {
    let below_min = n < min;
    let below_max = match max {
        Some(m) => n < m,
        None => n < usize::MAX,
    };
    if t == SlotType::Incoming {
        "#fff"@
    } else if n == 0 && below_min && below_max {
        "red"@
    } else if n != 0 && below_min && below_max {
        "orange"@
    } else if !below_min && below_max {
        "lightgreen"@
    } else if !below_min && !below_max {
        "green"@
    } else {
        "purple"@
    }
}

/// The fill colour of a slot, as `slot_fill` describes it.
pub fn slot_fill_color(t: SlotType, n: usize, min: usize, max: Option<usize>) -> (r: &'static str)
    ensures
        r@ == slot_fill(t, n, min, max),
{
    let limit = match max {
        Some(m) => m,
        None => usize::MAX,
    };
    let below_min = n < min;
    let below_max = n < limit;
    match t {
        SlotType::Incoming => "#fff",
        SlotType::Outgoing => {
            if n == 0 && below_min && below_max {
                "red"
            } else if n != 0 && below_min && below_max {
                "orange"
            } else if !below_min && below_max {
                "lightgreen"
            } else if !below_min && !below_max {
                "green"
            } else {
                "purple"
            }
        },
    }
}

} // verus!
