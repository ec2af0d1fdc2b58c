//! Where a digital clock draws each of its six digits.
use vstd::prelude::*;

verus! {

/// The column and the digit of each of the six places of `hh:mm:ss`, left
/// to right, all drawn on row four.
pub open spec fn clock_layout(hour: int, minute: int, second: int) -> Seq<(u16, u16, i32)> {
    seq![
        (4u16, 4u16, (hour / 10) as i32),
        (8u16, 4u16, (hour % 10) as i32),
        (14u16, 4u16, (minute / 10) as i32),
        (18u16, 4u16, (minute % 10) as i32),
        (24u16, 4u16, (second / 10) as i32),
        (28u16, 4u16, (second % 10) as i32),
    ]
}

/// The position and the digit of each place of the time shown.
pub fn display_time(hour: i32, minute: i32, second: i32) -> (r: Vec<(u16, u16, i32)>)
    requires
        0 <= hour < 100,
        0 <= minute < 100,
        0 <= second < 100,
    ensures
        r@ == clock_layout(hour as int, minute as int, second as int),
        forall|i: int| 0 <= i < 6 ==> 0 <= #[trigger] r@[i].2 < 10,
{
    let r = vec![
        (4u16, 4u16, hour / 10),
        (8u16, 4u16, hour % 10),
        (14u16, 4u16, minute / 10),
        (18u16, 4u16, minute % 10),
        (24u16, 4u16, second / 10),
        (28u16, 4u16, second % 10),
    ];
    assert(r@ =~= clock_layout(hour as int, minute as int, second as int));
    r
}

} // verus!
