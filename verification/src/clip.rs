use vstd::prelude::*;

verus! {

// Region codes of Cohen-Sutherland line clipping: one bit per side of the box
// that a point lies beyond.
pub const INSIDE: u8 = 0;
pub const LEFT: u8 = 1;
pub const RIGHT: u8 = 2;
pub const BOTTOM: u8 = 4;
pub const TOP: u8 = 8;

/// The region code of a point from where it lies relative to the box: left
/// of it or (otherwise) right of it, below it or (otherwise) above it.
pub open spec fn outcode_of(left_of: bool, right_of: bool, below: bool, above: bool) -> u8 {
    ((if left_of {
        LEFT
    } else if right_of {
        RIGHT
    } else {
        INSIDE
    }) | (if below {
        BOTTOM
    } else if above {
        TOP
    } else {
        INSIDE
    })) as u8
}

pub fn outcode(left_of: bool, right_of: bool, below: bool, above: bool) -> (code: u8)
    ensures
        code == outcode_of(left_of, right_of, below, above),
        code < 16,
{
    let horizontal = if left_of {
        LEFT
    } else if right_of {
        RIGHT
    } else {
        INSIDE
    };
    let vertical = if below {
        BOTTOM
    } else if above {
        TOP
    } else {
        INSIDE
    };
    assert(horizontal <= 2 && (vertical == 0 || vertical == 4 || vertical == 8) ==> horizontal
        | vertical < 16) by (bit_vector);
    horizontal | vertical
}

/// The side of the box along which an endpoint is moved.
#[derive(Debug, Clone, Copy, PartialEq, Eq, Structural)]
pub enum Edge {
    Top,
    Bottom,
    Right,
    Left,
}

/// One step of the clipping loop, decided from the two endpoints' codes.
#[derive(Debug, Clone, Copy, PartialEq, Eq, Structural)]
pub enum ClipStep {
    /// Both endpoints are inside: the segment is kept as it is.
    Accept,
    /// Both endpoints lie beyond one same side: nothing is visible.
    Reject,
    /// Move the first endpoint onto the given side.
    MoveFirst(Edge),
    /// Move the second endpoint onto the given side.
    MoveSecond(Edge),
}

/// The side to clip against for an outside code: top first, then bottom,
/// right, left.
pub open spec fn edge_of(code: u8) -> Edge {
    if code & TOP != 0 {
        Edge::Top
    } else if code & BOTTOM != 0 {
        Edge::Bottom
    } else if code & RIGHT != 0 {
        Edge::Right
    } else {
        Edge::Left
    }
}

pub open spec fn edge_bit(e: Edge) -> u8 {
    match e {
        Edge::Top => TOP,
        Edge::Bottom => BOTTOM,
        Edge::Right => RIGHT,
        Edge::Left => LEFT,
    }
}

/// The step that Cohen-Sutherland takes for endpoint codes `code1`, `code2`:
/// accept when both are inside, reject when they share a side, otherwise
/// move the first endpoint if it is outside, else the second.
pub open spec fn clip_step_of(code1: u8, code2: u8) -> ClipStep {
    if code1 | code2 == 0 {
        ClipStep::Accept
    } else if code1 & code2 != 0 {
        ClipStep::Reject
    } else if code1 != 0 {
        ClipStep::MoveFirst(edge_of(code1))
    } else {
        ClipStep::MoveSecond(edge_of(code2))
    }
}

/// Decides the next clipping step. When an endpoint is to be moved onto a
/// side, that endpoint lies beyond the side and the other one does not: the
/// segment crosses the side's line, so the intersection exists.
pub fn clip_step(code1: u8, code2: u8) -> (step: ClipStep)
    ensures
        step == clip_step_of(code1, code2),
        code1 < 16 && code2 < 16 ==> (step matches ClipStep::MoveFirst(e) ==> code1 & edge_bit(e)
            != 0 && code2 & edge_bit(e) == 0),
        code1 < 16 && code2 < 16 ==> (step matches ClipStep::MoveSecond(e) ==> code2 & edge_bit(e)
            != 0 && code1 & edge_bit(e) == 0),
{
    if code1 | code2 == 0 {
        return ClipStep::Accept;
    }
    if code1 & code2 != 0 {
        return ClipStep::Reject;
    }
    let code_out = if code1 != 0 {
        code1
    } else {
        code2
    };
    let edge = if code_out & TOP != 0 {
        Edge::Top
    } else if code_out & BOTTOM != 0 {
        Edge::Bottom
    } else if code_out & RIGHT != 0 {
        Edge::Right
    } else {
        Edge::Left
    };
    assert(code_out < 16 && code_out & TOP == 0 && code_out & BOTTOM == 0 && code_out & RIGHT == 0
        && code_out != 0 ==> code_out & LEFT != 0) by (bit_vector)
        requires
            TOP == 8u8,
            BOTTOM == 4u8,
            RIGHT == 2u8,
            LEFT == 1u8,
    ;
    assert(code1 & code2 == 0 ==> !(code1 & TOP != 0 && code2 & TOP != 0) && !(code1 & BOTTOM != 0
        && code2 & BOTTOM != 0) && !(code1 & RIGHT != 0 && code2 & RIGHT != 0) && !(code1 & LEFT
        != 0 && code2 & LEFT != 0)) by (bit_vector)
        requires
            TOP == 8u8,
            BOTTOM == 4u8,
            RIGHT == 2u8,
            LEFT == 1u8,
    ;
    assert(code1 == 0 ==> code1 & TOP == 0 && code1 & BOTTOM == 0 && code1 & RIGHT == 0 && code1
        & LEFT == 0) by (bit_vector);
    assert(code1 | code2 != 0 ==> code1 != 0 || code2 != 0) by (bit_vector);
    assert(code_out == code1 || code_out == code2);
    if code1 != 0 {
        ClipStep::MoveFirst(edge)
    } else {
        ClipStep::MoveSecond(edge)
    }
}

} // verus!
