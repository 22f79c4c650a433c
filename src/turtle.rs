use vstd::prelude::*;

use crate::batcher::ShapeBatcher;
use crate::table::{find_key, lookup};

verus! {

/// A full turn, in thousandths of a degree: the unit of every angle here.
pub const FULL_TURN: u32 = 360000;

/// The turn increment before any line binding has set one: fifteen degrees.
pub const DEFAULT_TURN: u32 = 15000;

/// An RGB color, one byte per channel.
#[derive(PartialEq, Eq, Structural, Debug, Clone, Copy)]
pub struct Color {
    pub r: u8,
    pub g: u8,
    pub b: u8,
}

/// What a symbol draws. Lengths, widths and radii are in thousandths of a unit;
/// `turn` is in thousandths of a degree and may be negative.
#[derive(PartialEq, Eq, Structural, Debug, Clone, Copy)]
pub enum ShapeSpec {
    Line { width: u32, length: u32, turn: i64, color: Color },
    Circle { radius: u32, color: Color },
}

/// The shape of each drawing symbol, listed as `(symbol, shape)`.
pub type ShapeBindings = Vec<(char, ShapeSpec)>;

/// Where the turtle stands and where it faces.
///
/// Points are named by node: node 0 is the origin and node `k` is the end of
/// the `k`-th line segment drawn, which lies `length` units from the segment's
/// start along its heading. A heading of 0 faces along the reference axis.
#[derive(PartialEq, Eq, Structural, Debug, Clone, Copy)]
pub struct TurtleState {
    pub node: usize,
    pub heading: u32,
}

/// A line segment from node `from` to node `to`, drawn along `heading`.
#[derive(PartialEq, Eq, Structural, Debug, Clone, Copy)]
pub struct Segment {
    pub from: usize,
    pub to: usize,
    pub heading: u32,
    pub length: u32,
    pub width: u32,
    pub color: Color,
}

/// A circle centered on node `at`.
#[derive(PartialEq, Eq, Structural, Debug, Clone, Copy)]
pub struct Dot {
    pub at: usize,
    pub radius: u32,
    pub color: Color,
}

/// The state of an interpretation: the branch stack, the current turn
/// increment and what has been drawn so far.
pub struct Walk {
    pub stack: Seq<TurtleState>,
    pub turn: u32,
    pub segments: Seq<Segment>,
    pub dots: Seq<Dot>,
}

pub open spec fn origin() -> TurtleState {
    TurtleState { node: 0, heading: 0 }
}

pub open spec fn start_walk() -> Walk {
    Walk { stack: seq![origin()], turn: DEFAULT_TURN, segments: seq![], dots: seq![] }
}

/// The walk with its top state replaced.
pub open spec fn with_top(w: Walk, t: TurtleState) -> Walk {
    Walk { stack: w.stack.update(w.stack.len() - 1, t), ..w }
}

/// The effect of one symbol.
pub open spec fn step(w: Walk, c: char, bindings: Seq<(char, ShapeSpec)>) -> Walk {
    let top = w.stack.last();
    if c == '[' {
        Walk { stack: w.stack.push(top), ..w }
    } else if c == ']' {
        if w.stack.len() <= 1 {
            Walk { stack: seq![origin()], ..w }
        } else {
            Walk { stack: w.stack.drop_last(), ..w }
        }
    } else if c == '+' {
        with_top(
            w,
            TurtleState { node: top.node, heading: ((top.heading + w.turn) % (FULL_TURN as int)) as u32 },
        )
    } else if c == '-' {
        with_top(
            w,
            TurtleState {
                node: top.node,
                heading: ((top.heading + FULL_TURN - w.turn) % (FULL_TURN as int)) as u32,
            },
        )
    } else {
        match lookup(bindings, c) {
            None => w,
            Some(ShapeSpec::Line { width, length, turn, color }) => {
                let node = (w.segments.len() + 1) as usize;
                Walk {
                    stack: w.stack.update(
                        w.stack.len() - 1,
                        TurtleState { node, heading: top.heading },
                    ),
                    turn: ((turn as int) % (FULL_TURN as int)) as u32,
                    segments: w.segments.push(
                        Segment { from: top.node, to: node, heading: top.heading, length, width, color },
                    ),
                    dots: w.dots,
                }
            },
            Some(ShapeSpec::Circle { radius, color }) => Walk {
                dots: w.dots.push(Dot { at: top.node, radius, color }),
                ..w
            },
        }
    }
}

/// The state after reading `symbols` from the start state.
pub open spec fn walk(symbols: Seq<char>, bindings: Seq<(char, ShapeSpec)>) -> Walk
    decreases symbols.len(),
{
    if symbols.len() == 0 {
        start_walk()
    } else {
        step(walk(symbols.drop_last(), bindings), symbols.last(), bindings)
    }
}

pub open spec fn walk_wf(w: Walk) -> bool {
    &&& w.stack.len() >= 1
    &&& w.turn < FULL_TURN
    &&& forall|j: int| 0 <= j < w.stack.len() ==> (#[trigger] w.stack[j]).heading < FULL_TURN
    &&& forall|j: int| 0 <= j < w.stack.len() ==> (#[trigger] w.stack[j]).node <= w.segments.len()
}

/// Every node that is drawn from or on has been reached before: segment `k`
/// ends at the new node `k + 1` and starts at an earlier node, and each circle
/// is centered on a node that exists.
pub open spec fn nodes_well_founded(w: Walk) -> bool {
    &&& forall|k: int|
        0 <= k < w.segments.len() ==> (#[trigger] w.segments[k]).to == k + 1
            && w.segments[k].from <= k
    &&& forall|k: int| 0 <= k < w.dots.len() ==> (#[trigger] w.dots[k]).at <= w.segments.len()
}

proof fn lemma_walk_wf(symbols: Seq<char>, bindings: Seq<(char, ShapeSpec)>)
    requires
        symbols.len() <= usize::MAX,
    ensures
        walk_wf(walk(symbols, bindings)),
        nodes_well_founded(walk(symbols, bindings)),
        walk(symbols, bindings).segments.len() <= symbols.len(),
        walk(symbols, bindings).dots.len() <= symbols.len(),
    decreases symbols.len(),
{
    if symbols.len() > 0 {
        lemma_walk_wf(symbols.drop_last(), bindings);
        let w = walk(symbols.drop_last(), bindings);
        let w2 = walk(symbols, bindings);
        assert(w2 == step(w, symbols.last(), bindings));
        let top = w.stack[w.stack.len() - 1];
        assert(top.heading < FULL_TURN && top.node <= w.segments.len());
        assert forall|j: int| 0 <= j < w2.stack.len() implies (#[trigger] w2.stack[j]).heading
            < FULL_TURN && w2.stack[j].node <= w2.segments.len() by {
            if j < w.stack.len() {
                assert(w.stack[j].heading < FULL_TURN);
                assert(w.stack[j].node <= w.segments.len());
            }
        }
        assert forall|k: int| 0 <= k < w2.segments.len() implies (#[trigger] w2.segments[k]).to
            == k + 1 && w2.segments[k].from <= k by {
            if k < w.segments.len() {
                assert(w.segments[k].to == k + 1);
            }
        }
        assert forall|k: int| 0 <= k < w2.dots.len() implies (#[trigger] w2.dots[k]).at
            <= w2.segments.len() by {
            if k < w.dots.len() {
                assert(w.dots[k].at <= w.segments.len());
            }
        }
    }
}

/// Whatever the symbols and bindings, an interpretation draws from and on
/// nodes that exist: each segment starts at the origin or at the end of an
/// earlier segment, and each circle at the origin or at the end of a segment.
pub proof fn lemma_nodes_drawn_before_use(symbols: Seq<char>, bindings: Seq<(char, ShapeSpec)>)
    requires
        symbols.len() <= usize::MAX,
    ensures
        nodes_well_founded(walk(symbols, bindings)),
{
    lemma_walk_wf(symbols, bindings);
}

/// Walks `symbols` from the start state and records what it draws: line
/// segments into the batcher's line stream and circles into its circle
/// stream, each in the order drawn.
///
/// `[` pushes a copy of the top state, `]` pops it (or resets a lone state to
/// the origin), `+` and `-` turn by the current increment; a line binding
/// draws forward and sets the increment, a circle binding draws in place, and
/// any other symbol is skipped.
pub fn interpret(symbols: &[char], bindings: &ShapeBindings, batcher: &mut ShapeBatcher<Segment, Dot>)
    requires
        old(batcher).wf(),
        old(batcher).lines.count() + symbols@.len() <= usize::MAX,
        old(batcher).circles.count() + symbols@.len() <= usize::MAX,
    ensures
        final(batcher).wf(),
        nodes_well_founded(walk(symbols@, bindings@)),
        final(batcher).lines.frame() == old(batcher).lines.frame() + walk(
            symbols@,
            bindings@,
        ).segments,
        final(batcher).circles.frame() == old(batcher).circles.frame() + walk(
            symbols@,
            bindings@,
        ).dots,
{
    let mut stack: Vec<TurtleState> = Vec::new();
    stack.push(TurtleState { node: 0, heading: 0 });
    let mut turn: u32 = DEFAULT_TURN;
    let mut drawn: usize = 0;
    let mut i: usize = 0;
    let n = symbols.len();
    assert(symbols@.take(0) =~= Seq::<char>::empty());
    assert(stack@ =~= start_walk().stack);
    assert(batcher.lines.frame() =~= old(batcher).lines.frame() + start_walk().segments);
    assert(batcher.circles.frame() =~= old(batcher).circles.frame() + start_walk().dots);
    while i < symbols.len()
        invariant
            i <= symbols@.len(),
            n == symbols@.len(),
            batcher.wf(),
            old(batcher).lines.count() + symbols@.len() <= usize::MAX,
            old(batcher).circles.count() + symbols@.len() <= usize::MAX,
            walk_wf(walk(symbols@.take(i as int), bindings@)),
            walk(symbols@.take(i as int), bindings@).segments.len() <= i,
            walk(symbols@.take(i as int), bindings@).dots.len() <= i,
            stack@ == walk(symbols@.take(i as int), bindings@).stack,
            turn == walk(symbols@.take(i as int), bindings@).turn,
            drawn == walk(symbols@.take(i as int), bindings@).segments.len(),
            batcher.lines.count() == old(batcher).lines.count() + drawn,
            batcher.circles.count() == old(batcher).circles.count() + walk(
                symbols@.take(i as int),
                bindings@,
            ).dots.len(),
            batcher.lines.frame() == old(batcher).lines.frame() + walk(
                symbols@.take(i as int),
                bindings@,
            ).segments,
            batcher.circles.frame() == old(batcher).circles.frame() + walk(
                symbols@.take(i as int),
                bindings@,
            ).dots,
        decreases symbols@.len() - i,
    {
        let ghost w = walk(symbols@.take(i as int), bindings@);
        let c = symbols[i];
        assert(symbols@.take(i + 1).drop_last() =~= symbols@.take(i as int));
        assert(symbols@.take(i + 1).last() == c);
        let ghost w2 = walk(symbols@.take(i + 1), bindings@);
        assert(w2 == step(w, c, bindings@));
        proof {
            lemma_walk_wf(symbols@.take(i + 1), bindings@);
        }
        let last = stack.len() - 1;
        let top = stack[last];
        assert(top.heading < FULL_TURN);
        if c == '[' {
            stack.push(top);
        } else if c == ']' {
            if stack.len() <= 1 {
                stack = Vec::new();
                stack.push(TurtleState { node: 0, heading: 0 });
                assert(stack@ =~= seq![origin()]);
            } else {
                stack.pop();
            }
        } else if c == '+' {
            stack[last] = TurtleState { node: top.node, heading: (top.heading + turn) % FULL_TURN };
        } else if c == '-' {
            stack[last] = TurtleState {
                node: top.node,
                heading: (top.heading + FULL_TURN - turn) % FULL_TURN,
            };
        } else {
            match find_key(bindings, c) {
                None => {},
                Some(k) => {
                    match bindings[k].1 {
                        ShapeSpec::Line { width, length, turn: t, color } => {
                            let node = drawn + 1;
                            batcher.draw_line(
                                Segment { from: top.node, to: node, heading: top.heading, length, width, color },
                            );
                            stack[last] = TurtleState { node, heading: top.heading };
                            match t.checked_rem_euclid(FULL_TURN as i64) {
                                Some(m) => {
                                    turn = m as u32;
                                },
                                None => {},
                            }
                            drawn = node;
                        },
                        ShapeSpec::Circle { radius, color } => {
                            batcher.draw_circle(Dot { at: top.node, radius, color });
                        },
                    }
                },
            }
        }
        assert(stack@ =~= w2.stack);
        assert(batcher.lines.frame() =~= old(batcher).lines.frame() + w2.segments);
        assert(batcher.circles.frame() =~= old(batcher).circles.frame() + w2.dots);
        i = i + 1;
    }
    assert(symbols@.take(symbols@.len() as int) =~= symbols@);
    proof {
        lemma_walk_wf(symbols@, bindings@);
    }
}

} // verus!
