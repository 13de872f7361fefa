//! The shape of emitted text: lines at nesting depths, scopes that open
//! and close, and how a run of lines is laid out as characters.
use vstd::prelude::*;
use crate::text::spaces;

verus! {

/// One line of emitted text, before indentation.
pub enum Line {
    /// A statement or comment; an empty `text` is a blank line.
    Text { depth: nat, text: Seq<char> },
    /// A header followed by the opening scope token.
    Open { depth: nat, header: Seq<char> },
    /// The closing scope token, followed by a terminator where the target
    /// asks for one.
    Close { depth: nat, terminated: bool },
}

/// The token that opens a scope, with the space that parts it from the
/// header.
pub open spec fn open_token() -> Seq<char> {
    seq![' ', '{']
}

/// The token that closes a scope, with its terminator if it has one.
pub open spec fn close_token(terminated: bool) -> Seq<char> {
    if terminated {
        seq!['}', ';']
    } else {
        seq!['}']
    }
}

impl Line {
    /// The nesting depth at which the line stands.
    pub open spec fn depth(self) -> nat {
        match self {
            Line::Text { depth, .. } => depth,
            Line::Open { depth, .. } => depth,
            Line::Close { depth, .. } => depth,
        }
    }

    /// The characters of the line, without indentation and line end.
    pub open spec fn content(self) -> Seq<char> {
        match self {
            Line::Text { text, .. } => text,
            Line::Open { header, .. } => header + open_token(),
            Line::Close { terminated, .. } => close_token(terminated),
        }
    }

    /// Whether the line can be written: a scope can only be opened where
    /// a deeper level can still be counted. Every other line fits.
    pub open spec fn fits(self) -> bool {
        match self {
            Line::Open { depth, .. } => depth < usize::MAX,
            _ => true,
        }
    }

    /// The line as characters: `width` spaces per level of depth, the
    /// content, a line feed. A blank line is a line feed alone.
    pub open spec fn render(self, width: nat) -> Seq<char> {
        if self.content().len() == 0 {
            seq!['\n']
        } else {
            spaces(width * self.depth()) + self.content() + seq!['\n']
        }
    }
}

/// A run of lines as characters, one after the other.
pub open spec fn render(lines: Seq<Line>, width: nat) -> Seq<char>
    decreases lines.len(),
{
    if lines.len() == 0 {
        Seq::empty()
    } else {
        render(lines.drop_last(), width) + lines.last().render(width)
    }
}

/// Whether every line of the run fits.
pub open spec fn all_fit(lines: Seq<Line>) -> bool {
    forall|i: int| 0 <= i < lines.len() ==> (#[trigger] lines[i]).fits()
}

/// The lines that are written when the run is emitted: all of them up to
/// the first that does not fit.
pub open spec fn accepted(lines: Seq<Line>) -> Seq<Line>
    decreases lines.len(),
{
    if lines.len() == 0 || !lines[0].fits() {
        Seq::empty()
    } else {
        seq![lines[0]] + accepted(lines.skip(1))
    }
}

/// A scope: its opening line, its body one level deeper, its closing line.
pub open spec fn block_lines(depth: nat, header: Seq<char>, terminated: bool, body: Seq<Line>) -> Seq<
    Line,
> {
    seq![Line::Open { depth, header }] + body + seq![Line::Close { depth, terminated }]
}

/// Laying out two runs one after the other gives the two texts one after
/// the other.
pub proof fn lemma_render_concat(a: Seq<Line>, b: Seq<Line>, width: nat)
    ensures
        render(a + b, width) == render(a, width) + render(b, width),
    decreases b.len(),
{
    if b.len() == 0 {
        assert(a + b =~= a);
        assert(render(a, width) + render(b, width) =~= render(a, width));
    } else {
        lemma_render_concat(a, b.drop_last(), width);
        assert((a + b).drop_last() =~= a + b.drop_last());
        assert((a + b).last() == b.last());
        assert(render(a, width) + render(b.drop_last(), width) + b.last().render(width) =~= render(
            a,
            width,
        ) + (render(b.drop_last(), width) + b.last().render(width)));
    }
}

/// A single line, laid out.
pub proof fn lemma_render_one(line: Line, width: nat)
    ensures
        render(seq![line], width) == line.render(width),
{
    let s = seq![line];
    assert(s.drop_last() =~= Seq::<Line>::empty());
    assert(render(s.drop_last(), width) + line.render(width) =~= line.render(width));
}

/// A single line is written exactly when it fits.
pub proof fn lemma_accepted_one(line: Line)
    ensures
        all_fit(seq![line]) == line.fits(),
        line.fits() ==> accepted(seq![line]) == seq![line],
        !line.fits() ==> accepted(seq![line]) == Seq::<Line>::empty(),
        forall|width: nat| #[trigger] render(Seq::<Line>::empty(), width) == Seq::<char>::empty(),
{
    let s = seq![line];
    assert(s[0] == line);
    assert(s.skip(1) =~= Seq::<Line>::empty());
    assert(accepted(s.skip(1)) =~= Seq::<Line>::empty());
    if line.fits() {
        assert(seq![s[0]] + accepted(s.skip(1)) =~= s);
    }
}

/// Where the first run fits, it is written whole and the second run goes
/// on from there; where it does not, the second run is never reached.
pub proof fn lemma_accepted_concat(a: Seq<Line>, b: Seq<Line>)
    ensures
        all_fit(a) ==> accepted(a + b) == a + accepted(b),
        !all_fit(a) ==> accepted(a + b) == accepted(a),
        all_fit(a + b) == (all_fit(a) && all_fit(b)),
    decreases a.len(),
{
    if a.len() == 0 {
        assert(a + b =~= b);
        assert(a + accepted(b) =~= accepted(b));
    } else {
        let rest = a.skip(1);
        lemma_accepted_concat(rest, b);
        assert((a + b).skip(1) =~= rest + b);
        assert((a + b)[0] == a[0]);
        if a[0].fits() {
            if all_fit(rest) {
                assert forall|i: int| 0 <= i < a.len() implies (#[trigger] a[i]).fits() by {
                    if i > 0 {
                        assert(a[i] == rest[i - 1]);
                    }
                }
                assert(seq![a[0]] + (rest + accepted(b)) =~= a + accepted(b));
            } else {
                let k = choose|k: int| 0 <= k < rest.len() && !(#[trigger] rest[k]).fits();
                assert(a[k + 1] == rest[k]);
            }
        }
    }
    assert(all_fit(a + b) == (all_fit(a) && all_fit(b))) by {
        if all_fit(a + b) {
            assert forall|i: int| 0 <= i < a.len() implies (#[trigger] a[i]).fits() by {
                assert((a + b)[i] == a[i]);
            }
            assert forall|i: int| 0 <= i < b.len() implies (#[trigger] b[i]).fits() by {
                assert((a + b)[a.len() + i] == b[i]);
            }
        }
        if all_fit(a) && all_fit(b) {
            assert forall|i: int| 0 <= i < (a + b).len() implies (#[trigger] (a + b)[i]).fits() by {
                if i < a.len() {
                    assert((a + b)[i] == a[i]);
                } else {
                    assert((a + b)[i] == b[i - a.len()]);
                }
            }
        }
    }
}

/// A run that fits is written whole.
pub proof fn lemma_accepted_all(a: Seq<Line>)
    requires
        all_fit(a),
    ensures
        accepted(a) == a,
{
    lemma_accepted_concat(a, Seq::empty());
    assert(a + Seq::<Line>::empty() =~= a);
    assert(a + accepted(Seq::<Line>::empty()) =~= a);
}

/// How many lines of the run open a scope.
pub open spec fn opens(lines: Seq<Line>) -> nat
    decreases lines.len(),
{
    if lines.len() == 0 {
        0
    } else if lines.last() is Open {
        opens(lines.drop_last()) + 1
    } else {
        opens(lines.drop_last())
    }
}

/// How many lines of the run close a scope.
pub open spec fn closes(lines: Seq<Line>) -> nat
    decreases lines.len(),
{
    if lines.len() == 0 {
        0
    } else if lines.last() is Close {
        closes(lines.drop_last()) + 1
    } else {
        closes(lines.drop_last())
    }
}

/// The nesting depth after the run, for a run that begins at depth
/// `start`: one more for each scope opened, one less for each closed.
pub open spec fn depth_after(lines: Seq<Line>, start: int) -> int {
    start + opens(lines) - closes(lines)
}

/// Whether every line of a run that begins at depth `start` stands at its
/// nesting depth: the number of scopes that are open where it stands. A
/// closing line stands at the depth of the line that opened its scope.
pub open spec fn nested(lines: Seq<Line>, start: int) -> bool {
    forall|i: int|
        0 <= i < lines.len() ==> (#[trigger] lines[i]).depth() == depth_after(lines.take(i), start)
            - (if lines[i] is Close {
            1int
        } else {
            0int
        })
}

/// Scopes opened and closed add up over runs that follow each other.
pub proof fn lemma_counts_concat(a: Seq<Line>, b: Seq<Line>)
    ensures
        opens(a + b) == opens(a) + opens(b),
        closes(a + b) == closes(a) + closes(b),
    decreases b.len(),
{
    if b.len() == 0 {
        assert(a + b =~= a);
    } else {
        lemma_counts_concat(a, b.drop_last());
        assert((a + b).drop_last() =~= a + b.drop_last());
        assert((a + b).last() == b.last());
    }
}

/// A run followed by a second that begins where the first ends is nested
/// where both are.
pub proof fn lemma_nested_concat(a: Seq<Line>, b: Seq<Line>, start: int)
    requires
        nested(a, start),
        nested(b, depth_after(a, start)),
    ensures
        nested(a + b, start),
        depth_after(a + b, start) == depth_after(b, depth_after(a, start)),
{
    lemma_counts_concat(a, b);
    let all = a + b;
    assert forall|i: int| 0 <= i < all.len() implies (#[trigger] all[i]).depth() == depth_after(
        all.take(i),
        start,
    ) - (if all[i] is Close {
        1int
    } else {
        0int
    }) by {
        if i < a.len() {
            assert(all[i] == a[i]);
            assert(all.take(i) =~= a.take(i));
        } else {
            let k = i - a.len();
            assert(all[i] == b[k]);
            assert(all.take(i) =~= a + b.take(k));
            lemma_counts_concat(a, b.take(k));
        }
    }
}

/// A single line, counted.
pub proof fn lemma_counts_one(line: Line)
    ensures
        opens(seq![line]) == (if line is Open {
            1nat
        } else {
            0nat
        }),
        closes(seq![line]) == (if line is Close {
            1nat
        } else {
            0nat
        }),
        opens(Seq::<Line>::empty()) == 0,
        closes(Seq::<Line>::empty()) == 0,
{
    let s = seq![line];
    assert(opens(Seq::<Line>::empty()) == 0);
    assert(closes(Seq::<Line>::empty()) == 0);
    assert(s.drop_last() =~= Seq::<Line>::empty());
    assert(s.last() == line);
}

/// A single line is nested exactly when it stands at the depth it is
/// given, or one less for a closing line.
pub proof fn lemma_nested_one(line: Line, start: int)
    requires
        line.depth() == start - (if line is Close {
            1int
        } else {
            0int
        }),
    ensures
        nested(seq![line], start),
{
    lemma_counts_one(line);
    let s = seq![line];
    assert forall|i: int| 0 <= i < s.len() implies (#[trigger] s[i]).depth() == depth_after(
        s.take(i),
        start,
    ) - (if s[i] is Close {
        1int
    } else {
        0int
    }) by {
        assert(s.take(0) =~= Seq::<Line>::empty());
    }
}

/// A scope around a nested, balanced body is nested and balanced.
pub proof fn lemma_block_nested(depth: nat, header: Seq<char>, terminated: bool, body: Seq<Line>)
    requires
        nested(body, depth + 1 as int),
        opens(body) == closes(body),
    ensures
        nested(block_lines(depth, header, terminated, body), depth as int),
        opens(block_lines(depth, header, terminated, body)) == closes(
            block_lines(depth, header, terminated, body),
        ),
{
    let open = Line::Open { depth, header };
    let close = Line::Close { depth, terminated };
    lemma_counts_one(open);
    lemma_counts_one(close);
    lemma_nested_one(open, depth as int);
    lemma_nested_one(close, depth + 1 as int);
    lemma_nested_concat(seq![open], body, depth as int);
    lemma_nested_concat(seq![open] + body, seq![close], depth as int);
    lemma_counts_concat(seq![open], body);
    lemma_counts_concat(seq![open] + body, seq![close]);
}

/// The greatest depth at which a line of the run stands is at most
/// `bound`.
pub open spec fn depth_at_most(lines: Seq<Line>, bound: nat) -> bool {
    forall|i: int| 0 <= i < lines.len() ==> (#[trigger] lines[i]).depth() <= bound
}

/// A run whose lines stand no deeper than a level below the deepest that
/// can be counted fits.
pub proof fn lemma_shallow_fits(lines: Seq<Line>, bound: nat)
    requires
        depth_at_most(lines, bound),
        bound < usize::MAX,
    ensures
        all_fit(lines),
{
    assert forall|i: int| 0 <= i < lines.len() implies (#[trigger] lines[i]).fits() by {
        assert(lines[i].depth() <= bound);
    }
}

/// `a` spaces followed by `b` spaces are `a + b` spaces.
pub proof fn lemma_spaces_add(a: nat, b: nat)
    ensures
        spaces(a) + spaces(b) == spaces(a + b),
{
    assert(spaces(a) + spaces(b) =~= spaces(a + b));
}

} // verus!
