use lsystem::batcher::ShapeBatcher;
use lsystem::turtle::{interpret, Color, Dot, Segment, ShapeSpec};

const C: Color = Color { r: 10, g: 200, b: 30 };

fn line(turn: i64) -> ShapeSpec {
    ShapeSpec::Line { width: 1000, length: 8000, turn, color: C }
}

fn run(symbols: &str, bindings: Vec<(char, ShapeSpec)>) -> (Vec<Segment>, Vec<Dot>) {
    let symbols: Vec<char> = symbols.chars().collect();
    let mut batcher: ShapeBatcher<Segment, Dot> = ShapeBatcher::new();
    interpret(&symbols, &bindings, &mut batcher);
    batcher.finish();
    (batcher.lines.instances().to_vec(), batcher.circles.instances().to_vec())
}

fn seg(from: usize, to: usize, heading: u32) -> Segment {
    Segment { from, to, heading, length: 8000, width: 1000, color: C }
}

#[test]
fn single_line_from_origin() {
    let (segments, dots) = run("F", vec![('F', line(15000))]);
    assert_eq!(segments, vec![seg(0, 1, 0)]);
    assert!(dots.is_empty());
}

#[test]
fn branches_share_start_and_diverge() {
    let (segments, _) = run("F[+F][-F]", vec![('F', line(15000))]);
    assert_eq!(segments.len(), 3);
    assert_eq!(segments[0], seg(0, 1, 0));
    assert_eq!(segments[1], seg(1, 2, 15000));
    assert_eq!(segments[2], seg(1, 3, 345000));
}

#[test]
fn default_turn_before_any_line() {
    let (segments, _) = run("+F", vec![('F', line(90000))]);
    assert_eq!(segments, vec![seg(0, 1, 15000)]);
}

#[test]
fn line_binding_sets_turn_increment() {
    let (segments, _) = run("F+F-G", vec![('F', line(90000)), ('G', line(-30000))]);
    assert_eq!(segments, vec![seg(0, 1, 0), seg(1, 2, 90000), seg(2, 3, 0)]);
    let (segments, _) = run("G+F", vec![('F', line(0)), ('G', line(-30000))]);
    assert_eq!(segments, vec![seg(0, 1, 0), seg(1, 2, 330000)]);
}

#[test]
fn pop_on_lone_state_resets_to_origin() {
    let (segments, _) = run("F+]F", vec![('F', line(15000))]);
    assert_eq!(segments, vec![seg(0, 1, 0), seg(0, 2, 0)]);
}

#[test]
fn circles_drawn_in_place() {
    let circle = ShapeSpec::Circle { radius: 500, color: C };
    let (segments, dots) = run("OFO", vec![('F', line(15000)), ('O', circle)]);
    assert_eq!(segments, vec![seg(0, 1, 0)]);
    assert_eq!(
        dots,
        vec![Dot { at: 0, radius: 500, color: C }, Dot { at: 1, radius: 500, color: C }]
    );
}

#[test]
fn unbound_symbols_are_skipped() {
    let (segments, dots) = run("XFYX", vec![('F', line(15000))]);
    assert_eq!(segments, vec![seg(0, 1, 0)]);
    assert!(dots.is_empty());
}

#[test]
fn heading_wraps_around_full_turn() {
    let (segments, _) = run("-F", vec![('F', line(15000))]);
    assert_eq!(segments, vec![seg(0, 1, 345000)]);
    let (segments, _) = run("G++++F", vec![('F', line(0)), ('G', line(450000))]);
    assert_eq!(segments[1], seg(1, 2, 0));
}
