//! Mouse motion planning. Curved paths are produced by an outside generator;
//! this module decides when to use them, guarantees the exact landing point,
//! chooses the button, and fixes the scroll direction convention.

use vstd::prelude::*;

verus! {

/// One step of a mouse path: a position and how long to rest there.
#[derive(Debug, Clone, Copy, PartialEq, Eq, Structural)]
pub struct Waypoint {
    pub x: i32,
    pub y: i32,
    pub wait_ms: u32,
}

/// A mouse button.
#[derive(Debug, Clone, Copy, PartialEq, Eq, Structural)]
pub enum MouseButton {
    Left,
    Right,
    Middle,
}

/// A move of under three pixels teleports straight to the target.
pub open spec fn short_hop(cur_x: int, cur_y: int, x: int, y: int) -> bool {
    (x - cur_x) * (x - cur_x) + (y - cur_y) * (y - cur_y) < 9
}

/// The path actually followed from `(cur_x, cur_y)` to `(x, y)` given a
/// generated curve: the curve followed by an exact landing on the target,
/// or only the landing for a short hop.
pub open spec fn spec_path(
    cur_x: int,
    cur_y: int,
    x: int,
    y: int,
    curve: Seq<Waypoint>,
    landing: Waypoint,
) -> Seq<Waypoint> {
    if short_hop(cur_x, cur_y, x, y) {
        seq![landing]
    } else {
        curve.push(landing)
    }
}

/// Assemble the waypoints for a move from `(cur_x, cur_y)` to `(x, y)`.
/// `curve` is a generated human-like path toward the target; whatever it
/// holds, the last emitted waypoint is exactly the target with no rest.
pub fn plan_path(cur_x: i32, cur_y: i32, x: i32, y: i32, curve: Vec<Waypoint>) -> (r: Vec<
    Waypoint,
>)
    ensures
        r@ == spec_path(
            cur_x as int,
            cur_y as int,
            x as int,
            y as int,
            curve@,
            Waypoint { x, y, wait_ms: 0 },
        ),
        r@.len() > 0,
        r@.last() == (Waypoint { x, y, wait_ms: 0 }),
{
    let dx: i64 = (x as i64) - (cur_x as i64);
    let dy: i64 = (y as i64) - (cur_y as i64);
    let adx: i64 = if dx < 0 {
        -dx
    } else {
        dx
    };
    let ady: i64 = if dy < 0 {
        -dy
    } else {
        dy
    };
    let landing = Waypoint { x, y, wait_ms: 0 };
    let mut tiny = false;
    if adx <= 2 && ady <= 2 {
        proof {
            assert(adx * adx <= 4 && ady * ady <= 4) by (nonlinear_arith)
                requires
                    0 <= adx <= 2,
                    0 <= ady <= 2,
            ;
        }
        tiny = adx * adx + ady * ady < 9;
    }
    proof {
        assert(adx * adx == (x - cur_x) * (x - cur_x)) by (nonlinear_arith)
            requires
                adx == if x - cur_x < 0 {
                    -(x - cur_x)
                } else {
                    x - cur_x
                },
        ;
        assert(ady * ady == (y - cur_y) * (y - cur_y)) by (nonlinear_arith)
            requires
                ady == if y - cur_y < 0 {
                    -(y - cur_y)
                } else {
                    y - cur_y
                },
        ;
        if !(adx <= 2 && ady <= 2) {
            assert(adx * adx + ady * ady >= 9) by (nonlinear_arith)
                requires
                    adx >= 0,
                    ady >= 0,
                    adx > 2 || ady > 2,
            ;
        }
    }
    if tiny {
        let mut out: Vec<Waypoint> = Vec::new();
        out.push(landing);
        proof {
            assert(out@ =~= seq![landing]);
        }
        out
    } else {
        let mut out = curve;
        out.push(landing);
        out
    }
}

/// The wheel clicks a scroll request delivers: scrolling "up" negates the
/// requested amount (clamped into the `i32` range at its one unreachable
/// extreme), any other direction keeps it.
pub open spec fn spec_scroll_clicks(direction: Seq<char>, amount: int) -> int {
    if direction == "up"@ {
        crate::action::sat_i32(-amount)
    } else {
        amount
    }
}

/// Turn a scroll direction and amount into a signed wheel click count.
pub fn scroll_click_count(direction: &str, amount: i32) -> (clicks: i32)
    ensures
        clicks as int == spec_scroll_clicks(direction@, amount as int),
{
    if crate::text::str_eq(direction, "up") {
        if amount == i32::MIN {
            i32::MAX
        } else {
            -amount
        }
    } else {
        amount
    }
}

/// The button denoted by a name: "right" and "middle" are themselves, any
/// other name is the left button.
pub open spec fn spec_button(name: Seq<char>) -> MouseButton {
    if name == "right"@ {
        MouseButton::Right
    } else if name == "middle"@ {
        MouseButton::Middle
    } else {
        MouseButton::Left
    }
}

/// Resolve a button name.
pub fn button_from_name(name: &str) -> (r: MouseButton)
    ensures
        r == spec_button(name@),
{
    if crate::text::str_eq(name, "right") {
        MouseButton::Right
    } else if crate::text::str_eq(name, "middle") {
        MouseButton::Middle
    } else {
        MouseButton::Left
    }
}

} // verus!
