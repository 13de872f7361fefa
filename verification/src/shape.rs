//! What holds of every document of the brace-delimited targets: its
//! scopes balance, every line stands at its nesting depth, no line stands
//! deeper than three levels, and every document can be written.
use vstd::prelude::*;
use crate::emit::{
    declaration, declaration_head, declaration_lines, document, module_lines, modules_lines,
    preamble, wrapped, Syntax,
};
use crate::hex::{
    hex_literal, lemma_digits_round_trip, lemma_hex_literal_round_trip, parse_hex_literal,
};
use crate::layout::{
    all_fit, block_lines, closes, depth_after, depth_at_most, lemma_block_nested,
    lemma_counts_concat, lemma_counts_one, lemma_nested_concat, lemma_render_concat,
    lemma_render_one, lemma_shallow_fits, nested, opens, render, Line,
};
use crate::model::{ModuleView, OffsetView};
use crate::text::spaces;

verus! {

/// Whether every line of the run is a statement, comment or blank line at
/// `depth`.
pub open spec fn plain_at(lines: Seq<Line>, depth: nat) -> bool {
    forall|i: int| 0 <= i < lines.len() ==> (#[trigger] lines[i]) is Text && lines[i].depth() == depth
}

/// Plain lines open and close nothing.
pub proof fn lemma_plain_counts(lines: Seq<Line>, depth: nat)
    requires
        plain_at(lines, depth),
    ensures
        opens(lines) == 0,
        closes(lines) == 0,
    decreases lines.len(),
{
    if lines.len() > 0 {
        let front = lines.drop_last();
        assert forall|i: int| 0 <= i < front.len() implies (#[trigger] front[i]) is Text
            && front[i].depth() == depth by {
            assert(front[i] == lines[i]);
        }
        lemma_plain_counts(front, depth);
        assert(lines.last() == lines[lines.len() - 1]);
    }
}

/// Plain lines at one depth open and close nothing, and are nested at
/// that depth.
pub proof fn lemma_plain_nested(lines: Seq<Line>, depth: nat)
    requires
        plain_at(lines, depth),
    ensures
        opens(lines) == 0,
        closes(lines) == 0,
        nested(lines, depth as int),
{
    lemma_plain_counts(lines, depth);
    assert forall|i: int| 0 <= i < lines.len() implies (#[trigger] lines[i]).depth()
        == depth_after(lines.take(i), depth as int) - (if lines[i] is Close {
        1int
    } else {
        0int
    }) by {
        let head = lines.take(i);
        assert forall|k: int| 0 <= k < head.len() implies (#[trigger] head[k]) is Text
            && head[k].depth() == depth by {
            assert(head[k] == lines[k]);
        }
        lemma_plain_counts(head, depth);
    }
}

/// A scope opens and closes one scope more than its body.
pub proof fn lemma_block_counts(depth: nat, header: Seq<char>, terminated: bool, body: Seq<Line>)
    ensures
        opens(block_lines(depth, header, terminated, body)) == opens(body) + 1,
        closes(block_lines(depth, header, terminated, body)) == closes(body) + 1,
{
    let open = Line::Open { depth, header };
    let close = Line::Close { depth, terminated };
    lemma_counts_one(open);
    lemma_counts_one(close);
    lemma_counts_concat(seq![open], body);
    lemma_counts_concat(seq![open] + body, seq![close]);
}

/// One module's lines are nested at their depth, open one scope and
/// close it, and stand no deeper than one level below it.
pub proof fn lemma_module_shape(syntax: Syntax, depth: nat, module: ModuleView)
    ensures
        nested(module_lines(syntax, depth, module), depth as int),
        opens(module_lines(syntax, depth, module)) == 1,
        closes(module_lines(syntax, depth, module)) == 1,
        depth_at_most(module_lines(syntax, depth, module), depth + 1),
{
    let body = declaration_lines(syntax, depth + 1, module.offsets);
    let comment = seq![Line::Text { depth, text: crate::emit::module_comment(module.name) }];
    let scope = block_lines(depth, crate::emit::module_header(syntax, module.name), false, body);
    lemma_plain_nested(body, depth + 1);
    lemma_plain_nested(comment, depth);
    lemma_block_nested(depth, crate::emit::module_header(syntax, module.name), false, body);
    lemma_block_counts(depth, crate::emit::module_header(syntax, module.name), false, body);
    lemma_nested_concat(comment, scope, depth as int);
    lemma_counts_concat(comment, scope);
    assert(depth_at_most(comment, depth + 1));
    assert(depth_at_most(body, depth + 1));
    lemma_block_depth(depth, crate::emit::module_header(syntax, module.name), false, body, depth + 1);
    lemma_depth_concat(comment, scope, depth + 1);
}

/// The modules' lines are nested at their depth, open one scope for each
/// module and close it, and stand no deeper than one level below it.
pub proof fn lemma_modules_shape(syntax: Syntax, depth: nat, modules: Seq<ModuleView>)
    ensures
        nested(modules_lines(syntax, depth, modules), depth as int),
        opens(modules_lines(syntax, depth, modules)) == modules.len(),
        closes(modules_lines(syntax, depth, modules)) == modules.len(),
        depth_at_most(modules_lines(syntax, depth, modules), depth + 1),
    decreases modules.len(),
{
    if modules.len() == 0 {
        lemma_plain_nested(Seq::<Line>::empty(), depth);
    } else {
        let front = modules_lines(syntax, depth, modules.drop_last());
        let last = module_lines(syntax, depth, modules.last());
        lemma_modules_shape(syntax, depth, modules.drop_last());
        lemma_module_shape(syntax, depth, modules.last());
        lemma_nested_concat(front, last, depth as int);
        lemma_counts_concat(front, last);
        lemma_depth_concat(front, last, depth + 1);
    }
}

/// Two runs that stand no deeper than `bound` stand no deeper together.
proof fn lemma_depth_concat(a: Seq<Line>, b: Seq<Line>, bound: nat)
    requires
        depth_at_most(a, bound),
        depth_at_most(b, bound),
    ensures
        depth_at_most(a + b, bound),
{
    assert forall|i: int| 0 <= i < (a + b).len() implies (#[trigger] (a + b)[i]).depth()
        <= bound by {
        if i < a.len() {
            assert((a + b)[i] == a[i]);
        } else {
            assert((a + b)[i] == b[i - a.len()]);
        }
    }
}

/// What stands no deeper than `low` stands no deeper than anything
/// greater.
proof fn lemma_depth_weaken(lines: Seq<Line>, low: nat, bound: nat)
    requires
        depth_at_most(lines, low),
        low <= bound,
    ensures
        depth_at_most(lines, bound),
{
    assert forall|i: int| 0 <= i < lines.len() implies (#[trigger] lines[i]).depth() <= bound by {
        assert(lines[i].depth() <= low);
    }
}

/// A scope around lines that stand no deeper than `bound`, itself no
/// deeper, stands no deeper than `bound`.
proof fn lemma_block_depth(
    depth: nat,
    header: Seq<char>,
    terminated: bool,
    body: Seq<Line>,
    bound: nat,
)
    requires
        depth <= bound,
        depth_at_most(body, bound),
    ensures
        depth_at_most(block_lines(depth, header, terminated, body), bound),
{
    let open = seq![Line::Open { depth, header }];
    let close = seq![Line::Close { depth, terminated }];
    assert(depth_at_most(open, bound));
    assert(depth_at_most(close, bound));
    lemma_depth_concat(open, body, bound);
    lemma_depth_concat(open + body, close, bound);
}

/// The number of scopes that wrap the modules of a document.
pub open spec fn wrapping_scopes(syntax: Syntax) -> nat {
    match syntax {
        Syntax::Cs => 1,
        Syntax::Hpp => 2,
        Syntax::Rs => 2,
    }
}

/// Scope balance: every document opens one scope for each module and one
/// for each wrapping scope, and closes as many; every line stands at its
/// nesting depth, which is the depth by which it is indented; and the
/// last line closes the outermost scope.
pub proof fn lemma_document_balanced(syntax: Syntax, modules: Seq<ModuleView>)
    ensures
        opens(document(syntax, modules)) == wrapping_scopes(syntax) + modules.len(),
        closes(document(syntax, modules)) == opens(document(syntax, modules)),
        document(syntax, modules).last() == (Line::Close { depth: 0, terminated: false }),
        nested(document(syntax, modules), 0),
        depth_after(document(syntax, modules), 0) == 0,
{
    let head = preamble(syntax);
    let body = wrapped(syntax, modules);
    assert(plain_at(head, 0));
    lemma_plain_nested(head, 0);
    match syntax {
        Syntax::Cs => {
            let inner = modules_lines(syntax, 1, modules);
            lemma_modules_shape(syntax, 1, modules);
            lemma_block_nested(0, "namespace CS2Dumper.Offsets"@, false, inner);
            lemma_block_counts(0, "namespace CS2Dumper.Offsets"@, false, inner);
        },
        Syntax::Hpp => {
            let inner = modules_lines(syntax, 2, modules);
            let scope = block_lines(1, "namespace offsets"@, false, inner);
            lemma_modules_shape(syntax, 2, modules);
            lemma_block_nested(1, "namespace offsets"@, false, inner);
            lemma_block_counts(1, "namespace offsets"@, false, inner);
            lemma_block_nested(0, "namespace cs2_dumper"@, false, scope);
            lemma_block_counts(0, "namespace cs2_dumper"@, false, scope);
        },
        Syntax::Rs => {
            let inner = modules_lines(syntax, 2, modules);
            let scope = block_lines(1, "pub mod offsets"@, false, inner);
            lemma_modules_shape(syntax, 2, modules);
            lemma_block_nested(1, "pub mod offsets"@, false, inner);
            lemma_block_counts(1, "pub mod offsets"@, false, inner);
            lemma_block_nested(0, "pub mod cs2_dumper"@, false, scope);
            lemma_block_counts(0, "pub mod cs2_dumper"@, false, scope);
        },
    }
    lemma_nested_concat(head, body, 0);
    lemma_counts_concat(head, body);
    assert(body.last() == (Line::Close { depth: 0, terminated: false }));
    assert((head + body).last() == body.last());
}

/// No line of a document stands deeper than three levels.
pub proof fn lemma_document_depth(syntax: Syntax, modules: Seq<ModuleView>)
    ensures
        depth_at_most(document(syntax, modules), 3),
{
    let head = preamble(syntax);
    assert(plain_at(head, 0));
    assert(depth_at_most(head, 3)) by {
        assert forall|i: int| 0 <= i < head.len() implies (#[trigger] head[i]).depth() <= 3 by {
            assert(head[i].depth() == 0);
        }
    }
    match syntax {
        Syntax::Cs => {
            let inner = modules_lines(syntax, 1, modules);
            lemma_modules_shape(syntax, 1, modules);
            lemma_depth_weaken(inner, 2, 3);
            lemma_block_depth(0, "namespace CS2Dumper.Offsets"@, false, inner, 3);
        },
        Syntax::Hpp => {
            let inner = modules_lines(syntax, 2, modules);
            lemma_modules_shape(syntax, 2, modules);
            lemma_block_depth(1, "namespace offsets"@, false, inner, 3);
            lemma_block_depth(
                0,
                "namespace cs2_dumper"@,
                false,
                block_lines(1, "namespace offsets"@, false, inner),
                3,
            );
        },
        Syntax::Rs => {
            let inner = modules_lines(syntax, 2, modules);
            lemma_modules_shape(syntax, 2, modules);
            lemma_block_depth(1, "pub mod offsets"@, false, inner, 3);
            lemma_block_depth(
                0,
                "pub mod cs2_dumper"@,
                false,
                block_lines(1, "pub mod offsets"@, false, inner),
                3,
            );
        },
    }
    lemma_depth_concat(head, wrapped(syntax, modules), 3);
}

/// Every document fits, whatever the map holds: an emitter always
/// succeeds.
pub proof fn lemma_document_fits(syntax: Syntax, modules: Seq<ModuleView>)
    ensures
        all_fit(document(syntax, modules)),
{
    lemma_document_depth(syntax, modules);
    lemma_shallow_fits(document(syntax, modules), 3);
}

/// The document of a map without modules is the preamble and the
/// wrapping scopes with nothing in them.
pub proof fn lemma_empty_document()
    ensures
        wrapped(Syntax::Cs, Seq::empty()) == seq![
            Line::Open { depth: 0, header: "namespace CS2Dumper.Offsets"@ },
            Line::Close { depth: 0, terminated: false },
        ],
        wrapped(Syntax::Hpp, Seq::empty()) == seq![
            Line::Open { depth: 0, header: "namespace cs2_dumper"@ },
            Line::Open { depth: 1, header: "namespace offsets"@ },
            Line::Close { depth: 1, terminated: false },
            Line::Close { depth: 0, terminated: false },
        ],
        wrapped(Syntax::Rs, Seq::empty()) == seq![
            Line::Open { depth: 0, header: "pub mod cs2_dumper"@ },
            Line::Open { depth: 1, header: "pub mod offsets"@ },
            Line::Close { depth: 1, terminated: false },
            Line::Close { depth: 0, terminated: false },
        ],
{
    let none = Seq::<ModuleView>::empty();
    assert(wrapped(Syntax::Cs, none) =~= seq![
        Line::Open { depth: 0, header: "namespace CS2Dumper.Offsets"@ },
        Line::Close { depth: 0, terminated: false },
    ]);
    assert(wrapped(Syntax::Hpp, none) =~= seq![
        Line::Open { depth: 0, header: "namespace cs2_dumper"@ },
        Line::Open { depth: 1, header: "namespace offsets"@ },
        Line::Close { depth: 1, terminated: false },
        Line::Close { depth: 0, terminated: false },
    ]);
    assert(wrapped(Syntax::Rs, none) =~= seq![
        Line::Open { depth: 0, header: "pub mod cs2_dumper"@ },
        Line::Open { depth: 1, header: "pub mod offsets"@ },
        Line::Close { depth: 1, terminated: false },
        Line::Close { depth: 0, terminated: false },
    ]);
}

/// The text for a map without modules, in the managed-language syntax:
/// the namespace with nothing in it, at every indent width.
pub proof fn lemma_empty_cs_text(width: nat)
    ensures
        render(document(Syntax::Cs, Seq::empty()), width) == "namespace CS2Dumper.Offsets {\n}\n"@,
{
    let open = Line::Open { depth: 0, header: "namespace CS2Dumper.Offsets"@ };
    let close = Line::Close { depth: 0, terminated: false };
    let doc = document(Syntax::Cs, Seq::empty());
    assert(doc =~= seq![open] + seq![close]);
    lemma_render_concat(seq![open], seq![close], width);
    lemma_render_one(open, width);
    lemma_render_one(close, width);
    reveal_strlit("namespace CS2Dumper.Offsets");
    reveal_strlit("namespace CS2Dumper.Offsets {\n}\n");
    assert(width * 0 == 0);
    assert(spaces(0) =~= Seq::<char>::empty());
    assert(render(doc, width) =~= "namespace CS2Dumper.Offsets {\n}\n"@);
}

/// The text of two nested scopes with nothing in them: the inner one is
/// indented by one level.
proof fn lemma_two_empty_scopes(outer: Seq<char>, inner: Seq<char>, width: nat)
    ensures
        render(block_lines(0, outer, false, block_lines(1, inner, false, Seq::empty())), width)
            == outer + seq![' ', '{', '\n'] + spaces(width) + inner + seq![' ', '{', '\n']
            + spaces(width) + seq!['}', '\n', '}', '\n'],
{
    let a = Line::Open { depth: 0, header: outer };
    let b = Line::Open { depth: 1, header: inner };
    let c = Line::Close { depth: 1, terminated: false };
    let d = Line::Close { depth: 0, terminated: false };
    let doc = block_lines(0, outer, false, block_lines(1, inner, false, Seq::empty()));
    assert(doc =~= seq![a] + seq![b] + seq![c] + seq![d]);
    lemma_render_concat(seq![a], seq![b], width);
    lemma_render_concat(seq![a] + seq![b], seq![c], width);
    lemma_render_concat(seq![a] + seq![b] + seq![c], seq![d], width);
    lemma_render_one(a, width);
    lemma_render_one(b, width);
    lemma_render_one(c, width);
    lemma_render_one(d, width);
    assert(width * 0 == 0);
    assert(width * 1 == width);
    assert(spaces(0) =~= Seq::<char>::empty());
    assert(render(doc, width) =~= outer + seq![' ', '{', '\n'] + spaces(width) + inner + seq![
        ' ',
        '{',
        '\n',
    ] + spaces(width) + seq!['}', '\n', '}', '\n']);
}

/// The text for a map without modules, in the header syntax: the guard
/// and include, then the two namespaces with nothing in them.
pub proof fn lemma_empty_hpp_text(width: nat)
    ensures
        render(document(Syntax::Hpp, Seq::empty()), width) == "#pragma once\n\n#include <cstddef>\n\nnamespace cs2_dumper {\n"@
            + spaces(width) + "namespace offsets {\n"@ + spaces(width) + "}\n}\n"@,
{
    let head = preamble(Syntax::Hpp);
    let body = wrapped(Syntax::Hpp, Seq::empty());
    lemma_render_concat(head, body, width);
    lemma_two_empty_scopes("namespace cs2_dumper"@, "namespace offsets"@, width);
    assert(head =~= seq![head[0]] + seq![head[1]] + seq![head[2]] + seq![head[3]]);
    lemma_render_concat(seq![head[0]], seq![head[1]], width);
    lemma_render_concat(seq![head[0]] + seq![head[1]], seq![head[2]], width);
    lemma_render_concat(seq![head[0]] + seq![head[1]] + seq![head[2]], seq![head[3]], width);
    lemma_render_one(head[0], width);
    lemma_render_one(head[1], width);
    lemma_render_one(head[2], width);
    lemma_render_one(head[3], width);
    reveal_strlit("#pragma once");
    reveal_strlit("#include <cstddef>");
    reveal_strlit("namespace cs2_dumper");
    reveal_strlit("namespace offsets");
    reveal_strlit("#pragma once\n\n#include <cstddef>\n\nnamespace cs2_dumper {\n");
    reveal_strlit("namespace offsets {\n");
    reveal_strlit("}\n}\n");
    assert(width * 0 == 0);
    assert(spaces(0) =~= Seq::<char>::empty());
    assert(render(document(Syntax::Hpp, Seq::empty()), width) =~= "#pragma once\n\n#include <cstddef>\n\nnamespace cs2_dumper {\n"@
        + spaces(width) + "namespace offsets {\n"@ + spaces(width) + "}\n}\n"@);
}

/// The text for a map without modules, in the systems-language syntax:
/// the lint header, then the two modules with nothing in them.
pub proof fn lemma_empty_rs_text(width: nat)
    ensures
        render(document(Syntax::Rs, Seq::empty()), width) == "#![allow(non_upper_case_globals, unused)]\n\npub mod cs2_dumper {\n"@
            + spaces(width) + "pub mod offsets {\n"@ + spaces(width) + "}\n}\n"@,
{
    let head = preamble(Syntax::Rs);
    let body = wrapped(Syntax::Rs, Seq::empty());
    lemma_render_concat(head, body, width);
    lemma_two_empty_scopes("pub mod cs2_dumper"@, "pub mod offsets"@, width);
    assert(head =~= seq![head[0]] + seq![head[1]]);
    lemma_render_concat(seq![head[0]], seq![head[1]], width);
    lemma_render_one(head[0], width);
    lemma_render_one(head[1], width);
    reveal_strlit("#![allow(non_upper_case_globals, unused)]");
    reveal_strlit("pub mod cs2_dumper");
    reveal_strlit("pub mod offsets");
    reveal_strlit("#![allow(non_upper_case_globals, unused)]\n\npub mod cs2_dumper {\n");
    reveal_strlit("pub mod offsets {\n");
    reveal_strlit("}\n}\n");
    assert(width * 0 == 0);
    assert(spaces(0) =~= Seq::<char>::empty());
    assert(render(document(Syntax::Rs, Seq::empty()), width) =~= "#![allow(non_upper_case_globals, unused)]\n\npub mod cs2_dumper {\n"@
        + spaces(width) + "pub mod offsets {\n"@ + spaces(width) + "}\n}\n"@);
}

/// Numeric round trip: in the line that declares an offset, what stands
/// between the head and the closing semicolon is the literal of the
/// offset's value, and it reads back as that value.
pub proof fn lemma_declaration_reads_back(syntax: Syntax, offset: OffsetView)
    ensures
        ({
            let line = declaration(syntax, offset);
            let start = declaration_head(syntax, offset.name).len() as int;
            &&& start + 3 < line.len()
            &&& line.last() == ';'
            &&& line.subrange(start, line.len() - 1) == hex_literal(offset.value)
            &&& parse_hex_literal(line.subrange(start, line.len() - 1)) == Some(offset.value)
        }),
{
    let line = declaration(syntax, offset);
    let head = declaration_head(syntax, offset.name);
    lemma_hex_literal_round_trip(offset.value);
    lemma_digits_round_trip(offset.value);
    assert(line.subrange(head.len() as int, line.len() - 1) =~= hex_literal(offset.value));
}

/// What stands in one of two runs stands in the two together.
proof fn lemma_concat_contains(a: Seq<Line>, b: Seq<Line>, line: Line)
    ensures
        a.contains(line) ==> (a + b).contains(line),
        b.contains(line) ==> (a + b).contains(line),
{
    if a.contains(line) {
        let i = choose|i: int| 0 <= i < a.len() && a[i] == line;
        assert((a + b)[i] == line);
    }
    if b.contains(line) {
        let i = choose|i: int| 0 <= i < b.len() && b[i] == line;
        assert((a + b)[a.len() + i] == line);
    }
}

/// What stands in the body of a scope stands in the scope.
proof fn lemma_block_contains(
    depth: nat,
    header: Seq<char>,
    terminated: bool,
    body: Seq<Line>,
    line: Line,
)
    requires
        body.contains(line),
    ensures
        block_lines(depth, header, terminated, body).contains(line),
{
    let open = seq![Line::Open { depth, header }];
    let close = seq![Line::Close { depth, terminated }];
    lemma_concat_contains(open, body, line);
    lemma_concat_contains(open + body, close, line);
}

/// What stands in the lines of one module stands in the lines of all.
proof fn lemma_modules_contain(
    syntax: Syntax,
    depth: nat,
    modules: Seq<ModuleView>,
    i: int,
    line: Line,
)
    requires
        0 <= i < modules.len(),
        module_lines(syntax, depth, modules[i]).contains(line),
    ensures
        modules_lines(syntax, depth, modules).contains(line),
    decreases modules.len(),
{
    let front = modules_lines(syntax, depth, modules.drop_last());
    let last = module_lines(syntax, depth, modules.last());
    if i < modules.len() - 1 {
        assert(modules.drop_last()[i] == modules[i]);
        lemma_modules_contain(syntax, depth, modules.drop_last(), i, line);
    } else {
        assert(modules.last() == modules[i]);
    }
    lemma_concat_contains(front, last, line);
}

/// Nothing is left out: every offset of every module has its declaration
/// in the document, one level below its module's scope.
pub proof fn lemma_every_offset_declared(
    syntax: Syntax,
    modules: Seq<ModuleView>,
    i: int,
    j: int,
)
    requires
        0 <= i < modules.len(),
        0 <= j < modules[i].offsets.len(),
    ensures
        document(syntax, modules).contains(
            Line::Text {
                depth: wrapping_scopes(syntax) + 1,
                text: declaration(syntax, modules[i].offsets[j]),
            },
        ),
{
    let depth = wrapping_scopes(syntax);
    let module = modules[i];
    let line = Line::Text { depth: depth + 1, text: declaration(syntax, module.offsets[j]) };
    let body = declaration_lines(syntax, depth + 1, module.offsets);
    assert(body[j] == line);
    let header = crate::emit::module_header(syntax, module.name);
    lemma_block_contains(depth, header, false, body, line);
    let comment = seq![Line::Text { depth, text: crate::emit::module_comment(module.name) }];
    lemma_concat_contains(comment, block_lines(depth, header, false, body), line);
    lemma_modules_contain(syntax, depth, modules, i, line);
    let inner = modules_lines(syntax, depth, modules);
    match syntax {
        Syntax::Cs => {
            lemma_block_contains(0, "namespace CS2Dumper.Offsets"@, false, inner, line);
        },
        Syntax::Hpp => {
            lemma_block_contains(1, "namespace offsets"@, false, inner, line);
            lemma_block_contains(
                0,
                "namespace cs2_dumper"@,
                false,
                block_lines(1, "namespace offsets"@, false, inner),
                line,
            );
        },
        Syntax::Rs => {
            lemma_block_contains(1, "pub mod offsets"@, false, inner, line);
            lemma_block_contains(
                0,
                "pub mod cs2_dumper"@,
                false,
                block_lines(1, "pub mod offsets"@, false, inner),
                line,
            );
        },
    }
    lemma_concat_contains(preamble(syntax), wrapped(syntax, modules), line);
}

} // verus!
