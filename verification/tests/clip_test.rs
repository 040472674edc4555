use kmlcli::clip::{clip_step, outcode, ClipStep, Edge, BOTTOM, INSIDE, LEFT, RIGHT, TOP};

#[test]
fn outcodes() {
    assert_eq!(outcode(false, false, false, false), INSIDE);
    assert_eq!(outcode(true, false, false, false), LEFT);
    assert_eq!(outcode(false, true, false, true), RIGHT | TOP);
    assert_eq!(outcode(true, true, true, true), LEFT | BOTTOM);
}

#[test]
fn clip_steps() {
    assert_eq!(clip_step(INSIDE, INSIDE), ClipStep::Accept);
    assert_eq!(clip_step(LEFT, LEFT | TOP), ClipStep::Reject);
    assert_eq!(clip_step(LEFT, INSIDE), ClipStep::MoveFirst(Edge::Left));
    assert_eq!(clip_step(INSIDE, RIGHT | TOP), ClipStep::MoveSecond(Edge::Top));
    assert_eq!(clip_step(RIGHT | BOTTOM, LEFT), ClipStep::MoveFirst(Edge::Bottom));
    assert_eq!(clip_step(RIGHT, LEFT), ClipStep::MoveFirst(Edge::Right));
}
