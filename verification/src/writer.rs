//! The content writer: builds indented, brace-delimited text line by line
//! and scope by scope.
use vstd::prelude::*;
use vstd::string::*;
use crate::error::EmitError;
use crate::layout::{
    accepted, all_fit, block_lines, lemma_accepted_concat, lemma_accepted_one, lemma_render_concat, lemma_render_one, lemma_spaces_add,
    render, Line,
};
use crate::text::{push_spaces, spaces};

verus! {

/// An indentation-aware text builder.
pub struct Writer {
    out: String,
    indent_width: usize,
    depth: usize,
}

/// What a run of lines does to a writer: the lines are written up to the
/// first that does not fit, the call succeeds exactly when all of them
/// fit and fails with `EmitError::Format` otherwise, and the writer's width
/// and depth are afterwards what they were before, whether it succeeded
/// or not. The only line that does not fit is one that would open a scope
/// at the deepest level that can be counted.
pub open spec fn emits(before: Writer, after: Writer, lines: Seq<Line>, r: Result<(), EmitError>) -> bool {
    &&& after.width() == before.width()
    &&& after.depth() == before.depth()
    &&& after.text() == before.text() + render(accepted(lines), before.width())
    &&& r is Ok <==> all_fit(lines)
    &&& r is Err ==> r == Err::<(), EmitError>(EmitError::Format)
}

/// Two runs emitted one after the other are their concatenation, emitted.
pub proof fn lemma_emits_then(
    start: Writer,
    middle: Writer,
    end: Writer,
    first: Seq<Line>,
    second: Seq<Line>,
    r: Result<(), EmitError>,
)
    requires
        emits(start, middle, first, Ok(())),
        emits(middle, end, second, r),
    ensures
        emits(start, end, first + second, r),
{
    let w = start.width();
    lemma_accepted_concat(first, second);
    lemma_render_concat(first, accepted(second), w);
    assert(start.text() + render(first, w) + render(accepted(second), w) =~= start.text() + (
    render(first, w) + render(accepted(second), w)));
    crate::layout::lemma_accepted_all(first);
}

/// A run that failed stays failed, whatever was meant to follow it.
pub proof fn lemma_emits_failed(
    start: Writer,
    end: Writer,
    first: Seq<Line>,
    second: Seq<Line>,
    r: Result<(), EmitError>,
)
    requires
        emits(start, end, first, r),
        r is Err,
    ensures
        emits(start, end, first + second, r),
{
    lemma_accepted_concat(first, second);
}

/// Something that writes the body of a scope.
pub trait Body {
    /// The lines that the body consists of when it stands at `depth`.
    spec fn lines(&self, depth: nat) -> Seq<Line>;

    /// Writes the body to `w` at the writer's current depth.
    fn produce(&self, w: &mut Writer) -> (r: Result<(), EmitError>)
        ensures
            emits(*old(w), *final(w), self.lines(old(w).depth()), r),
    ;
}

impl Writer {
    /// The text written so far.
    pub closed spec fn text(&self) -> Seq<char> {
        self.out@
    }

    /// The number of columns per nesting level.
    pub closed spec fn width(&self) -> nat {
        self.indent_width as nat
    }

    /// The current nesting depth.
    pub closed spec fn depth(&self) -> nat {
        self.depth as nat
    }

    /// A writer that has written nothing and stands at depth zero.
    pub fn new(indent_width: usize) -> (w: Writer)
        ensures
            w.text() == Seq::<char>::empty(),
            w.width() == indent_width,
            w.depth() == 0,
    {
        Writer { out: String::new(), indent_width, depth: 0 }
    }

    /// A writer that has written nothing and stands at `depth`, for text
    /// that is meant to stand inside scopes written elsewhere.
    pub fn with_depth(indent_width: usize, depth: usize) -> (w: Writer)
        ensures
            w.text() == Seq::<char>::empty(),
            w.width() == indent_width,
            w.depth() == depth,
    {
        Writer { out: String::new(), indent_width, depth }
    }

    /// Hands out the text written so far.
    pub fn finish(self) -> (s: String)
        ensures
            s@ == self.text(),
    {
        self.out
    }

    /// Writes the indentation of the current depth: `width` spaces for
    /// each level.
    fn indent(&mut self)
        ensures
            final(self).indent_width == old(self).indent_width,
            final(self).depth == old(self).depth,
            final(self).out@ == old(self).out@ + spaces(old(self).width() * old(self).depth()),
    {
        match self.indent_width.checked_mul(self.depth) {
            Some(columns) => {
                push_spaces(&mut self.out, columns);
            },
            None => {
                // The product is no machine-sized number: level by level.
                let mut level: usize = 0;
                assert(self.width() * 0 == 0);
                assert(self.out@ + spaces(0) =~= self.out@);
                while level < self.depth
                    invariant
                        level <= self.depth,
                        self.indent_width == old(self).indent_width,
                        self.depth == old(self).depth,
                        self.out@ == old(self).out@ + spaces(self.width() * (level as nat)),
                    decreases self.depth - level,
                {
                    push_spaces(&mut self.out, self.indent_width);
                    proof {
                        let w = self.width();
                        let done = w * (level as nat);
                        assert(w * ((level + 1) as nat) == done + w) by (nonlinear_arith)
                            requires
                                done == w * (level as nat),
                        ;
                        lemma_spaces_add(done, w);
                        assert(old(self).out@ + spaces(done) + spaces(w) =~= old(self).out@ + (
                        spaces(done) + spaces(w)));
                    }
                    level += 1;
                }
            },
        }
    }

    /// Writes one line at the current depth. An empty `content` gives a
    /// blank line.
    pub fn line(&mut self, content: &str) -> (r: Result<(), EmitError>)
        ensures
            emits(
                *old(self),
                *final(self),
                seq![Line::Text { depth: old(self).depth(), text: content@ }],
                r,
            ),
    {
        let ghost line = Line::Text { depth: self.depth(), text: content@ };
        let ghost width = self.width();
        let ghost before = self.out@;
        proof {
            lemma_render_one(line, width);
            lemma_accepted_one(line);
        }
        if !content.is_empty() {
            self.indent();
            self.out.append(content);
        }
        self.out.push('\n');
        assert(self.out@ =~= before + line.render(width));
        Ok(())
    }

    /// Writes a scope: `header` and the opening token, the body one level
    /// deeper, then the closing token, followed by a terminator where
    /// `terminated` is set. Where the body fails the call fails with it
    /// and writes no closing token; the depth is restored either way.
    pub fn block<B: Body>(&mut self, header: &str, terminated: bool, body: &B) -> (r: Result<
        (),
        EmitError,
    >)
        ensures
            emits(
                *old(self),
                *final(self),
                block_lines(
                    old(self).depth(),
                    header@,
                    terminated,
                    body.lines(old(self).depth() + 1),
                ),
                r,
            ),
    {
        let ghost start = *self;
        let ghost width = self.width();
        let ghost depth = self.depth();
        let ghost open = Line::Open { depth, header: header@ };
        let ghost close = Line::Close { depth, terminated };
        let ghost inner = body.lines(depth + 1);
        let ghost rest = inner + seq![close];
        proof {
            assert(block_lines(depth, header@, terminated, inner) =~= seq![open] + rest);
            lemma_render_one(open, width);
            lemma_render_one(close, width);
            lemma_accepted_one(open);
            lemma_accepted_one(close);
        }
        if self.depth == usize::MAX {
            proof {
                assert(self.text() =~= start.text() + Seq::<char>::empty());
                assert(emits(start, *self, seq![open], Err(EmitError::Format)));
                lemma_emits_failed(start, *self, seq![open], rest, Err(EmitError::Format));
            }
            return Err(EmitError::Format);
        }
        self.indent();
        self.out.append(header);
        self.out.push(' ');
        self.out.push('{');
        self.out.push('\n');
        let ghost opened = *self;
        proof {
            assert(opened.text() =~= start.text() + open.render(width));
            assert(emits(start, opened, seq![open], Ok(())));
        }
        self.depth = self.depth + 1;
        let res = body.produce(self);
        self.depth = self.depth - 1;
        let ghost back = *self;
        proof {
            assert(emits(opened, back, inner, res));
        }
        match res {
            Ok(()) => {},
            Err(e) => {
                proof {
                    lemma_emits_failed(opened, back, inner, seq![close], res);
                    lemma_emits_then(start, opened, back, seq![open], rest, res);
                }
                return Err(e);
            },
        }
        self.indent();
        self.out.push('}');
        if terminated {
            self.out.push(';');
        }
        self.out.push('\n');
        proof {
            assert(self.text() =~= back.text() + close.render(width));
            assert(emits(back, *self, seq![close], Ok(())));
            lemma_emits_then(opened, back, *self, inner, seq![close], Ok(()));
            lemma_emits_then(start, opened, *self, seq![open], rest, Ok(()));
        }
        Ok(())
    }
}

/// Nothing emitted changes nothing and succeeds.
pub proof fn lemma_emits_nothing(w: Writer)
    ensures
        emits(w, w, Seq::empty(), Ok(())),
{
    let lines = Seq::<Line>::empty();
    assert(render(accepted(lines), w.width()) =~= Seq::<char>::empty());
    assert(w.text() + Seq::<char>::empty() =~= w.text());
}

/// The views of a run of string slices, in order.
pub open spec fn str_views(texts: Seq<&str>) -> Seq<Seq<char>> {
    Seq::new(texts.len(), |i: int| texts[i]@)
}

/// One line per text, in order, all at `depth`.
pub open spec fn text_lines(depth: nat, texts: Seq<Seq<char>>) -> Seq<Line> {
    Seq::new(texts.len(), |i: int| Line::Text { depth, text: texts[i] })
}

/// Statements, comments and blank lines, as a body.
pub struct Lines<'a> {
    pub texts: &'a Vec<&'a str>,
}

impl<'a> Body for Lines<'a> {
    open spec fn lines(&self, depth: nat) -> Seq<Line> {
        text_lines(depth, str_views(self.texts@))
    }

    fn produce(&self, w: &mut Writer) -> (r: Result<(), EmitError>) {
        let ghost start = *w;
        let ghost depth = w.depth();
        let ghost all = text_lines(depth, str_views(self.texts@));
        proof {
            lemma_emits_nothing(start);
            assert(all.take(0) =~= Seq::<Line>::empty());
        }
        let mut i: usize = 0;
        while i < self.texts.len()
            invariant
                i <= self.texts.len(),
                all == text_lines(depth, str_views(self.texts@)),
                depth == start.depth(),
                start == *old(w),
                emits(start, *w, all.take(i as int), Ok(())),
            decreases self.texts.len() - i,
        {
            let ghost middle = *w;
            let res = w.line(self.texts[i]);
            proof {
                let one = seq![Line::Text { depth, text: self.texts@[i as int]@ }];
                assert(all.take(i + 1) =~= all.take(i as int) + one);
                lemma_emits_then(start, middle, *w, all.take(i as int), one, res);
            }
            match res {
                Ok(()) => {},
                Err(e) => {
                    proof {
                        assert(all =~= all.take(i + 1) + all.skip(i + 1));
                        lemma_emits_failed(start, *w, all.take(i + 1), all.skip(i + 1), res);
                    }
                    return Err(e);
                },
            }
            i += 1;
        }
        assert(all.take(i as int) =~= all);
        Ok(())
    }
}

} // verus!
