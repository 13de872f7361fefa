//! The three brace-delimited targets: what each document consists of, and
//! the emitters that write it.
use vstd::prelude::*;
use vstd::string::*;
use crate::error::EmitError;
use crate::hex::{hex_literal, push_hex};
use crate::ident::{class_ident, class_name, namespace_ident, namespace_name};
use crate::layout::{
    all_fit, block_lines, lemma_accepted_all, lemma_accepted_concat, render, Line,
};
use crate::shape::lemma_document_fits;
use crate::model::{module_views, offset_views, Module, ModuleView, Offset, OffsetMap, OffsetView};
use crate::writer::{
    emits, lemma_emits_failed, lemma_emits_nothing, lemma_emits_then, str_views, text_lines, Body,
    Lines, Writer,
};

verus! {

/// A target syntax with nested, brace-delimited scopes.
#[derive(Clone, Copy, Debug, PartialEq, Eq, Structural)]
pub enum Syntax {
    /// Managed-language source: one static class per module.
    Cs,
    /// Systems header: one namespace per module.
    Hpp,
    /// Systems-language module source: one submodule per module.
    Rs,
}

/// What stands before the value in the line that declares an offset
/// called `name`.
pub open spec fn declaration_head(syntax: Syntax, name: Seq<char>) -> Seq<char> {
    match syntax {
        Syntax::Cs => "public const nint "@ + name + " = "@,
        Syntax::Hpp => "constexpr std::ptrdiff_t "@ + name + " = "@,
        Syntax::Rs => "pub const "@ + name + ": usize = "@,
    }
}

/// The line that declares one offset as a constant: the head, the value
/// as an upper-case hexadecimal literal, a semicolon.
pub open spec fn declaration(syntax: Syntax, offset: OffsetView) -> Seq<char> {
    declaration_head(syntax, offset.name) + hex_literal(offset.value) + seq![';']
}

/// The header of the scope that holds one module's constants.
pub open spec fn module_header(syntax: Syntax, name: Seq<char>) -> Seq<char> {
    match syntax {
        Syntax::Cs => "public static class "@ + class_ident(name),
        Syntax::Hpp => "namespace "@ + namespace_ident(name),
        Syntax::Rs => "pub mod "@ + namespace_ident(name),
    }
}

/// The comment that names the module a scope was made from.
pub open spec fn module_comment(name: Seq<char>) -> Seq<char> {
    "// Module: "@ + name
}

/// One declaration line per offset, in order, all at `depth`.
pub open spec fn declaration_lines(syntax: Syntax, depth: nat, offsets: Seq<OffsetView>) -> Seq<
    Line,
> {
    Seq::new(
        offsets.len(),
        |i: int| Line::Text { depth, text: declaration(syntax, offsets[i]) },
    )
}

/// A module at `depth`: its comment, then a scope with its declarations.
pub open spec fn module_lines(syntax: Syntax, depth: nat, module: ModuleView) -> Seq<Line> {
    seq![Line::Text { depth, text: module_comment(module.name) }] + block_lines(
        depth,
        module_header(syntax, module.name),
        false,
        declaration_lines(syntax, depth + 1, module.offsets),
    )
}

/// The modules at `depth`, one after the other, in order.
pub open spec fn modules_lines(syntax: Syntax, depth: nat, modules: Seq<ModuleView>) -> Seq<Line>
    decreases modules.len(),
{
    if modules.len() == 0 {
        Seq::empty()
    } else {
        modules_lines(syntax, depth, modules.drop_last()) + module_lines(
            syntax,
            depth,
            modules.last(),
        )
    }
}

/// The lines that stand before the outermost scope.
pub open spec fn preamble(syntax: Syntax) -> Seq<Line> {
    match syntax {
        Syntax::Cs => Seq::empty(),
        Syntax::Hpp => seq![
            Line::Text { depth: 0, text: "#pragma once"@ },
            Line::Text { depth: 0, text: Seq::empty() },
            Line::Text { depth: 0, text: "#include <cstddef>"@ },
            Line::Text { depth: 0, text: Seq::empty() },
        ],
        Syntax::Rs => seq![
            Line::Text { depth: 0, text: "#![allow(non_upper_case_globals, unused)]"@ },
            Line::Text { depth: 0, text: Seq::empty() },
        ],
    }
}

/// The scopes that wrap the modules, outermost first.
pub open spec fn wrapped(syntax: Syntax, modules: Seq<ModuleView>) -> Seq<Line> {
    match syntax {
        Syntax::Cs => block_lines(
            0,
            "namespace CS2Dumper.Offsets"@,
            false,
            modules_lines(syntax, 1, modules),
        ),
        Syntax::Hpp => block_lines(
            0,
            "namespace cs2_dumper"@,
            false,
            block_lines(1, "namespace offsets"@, false, modules_lines(syntax, 2, modules)),
        ),
        Syntax::Rs => block_lines(
            0,
            "pub mod cs2_dumper"@,
            false,
            block_lines(1, "pub mod offsets"@, false, modules_lines(syntax, 2, modules)),
        ),
    }
}

/// The whole document of a target: its preamble, then the wrapped modules.
pub open spec fn document(syntax: Syntax, modules: Seq<ModuleView>) -> Seq<Line> {
    preamble(syntax) + wrapped(syntax, modules)
}

/// What a code emitter owes for `modules` at `width` columns per level:
/// text, for every map and every width, and the text is the document laid
/// out.
pub open spec fn renders(
    syntax: Syntax,
    modules: Seq<ModuleView>,
    width: nat,
    r: Result<String, EmitError>,
) -> bool {
    match r {
        Ok(s) => s@ == render(document(syntax, modules), width),
        Err(_) => false,
    }
}

fn declaration_text(syntax: Syntax, offset: &Offset) -> (s: String)
    ensures
        s@ == declaration(syntax, offset@),
{
    let mut s = String::new();
    match syntax {
        Syntax::Cs => {
            s.append("public const nint ");
            s.append(offset.name.as_str());
            s.append(" = ");
        },
        Syntax::Hpp => {
            s.append("constexpr std::ptrdiff_t ");
            s.append(offset.name.as_str());
            s.append(" = ");
        },
        Syntax::Rs => {
            s.append("pub const ");
            s.append(offset.name.as_str());
            s.append(": usize = ");
        },
    }
    assert(s@ =~= declaration_head(syntax, offset.name@));
    push_hex(&mut s, offset.value);
    s.push(';');
    s
}

fn module_header_text(syntax: Syntax, name: &str) -> (s: String)
    ensures
        s@ == module_header(syntax, name@),
{
    let mut s = String::new();
    match syntax {
        Syntax::Cs => {
            s.append("public static class ");
            let ident = class_name(name);
            s.append(ident.as_str());
        },
        Syntax::Hpp => {
            s.append("namespace ");
            let ident = namespace_name(name);
            s.append(ident.as_str());
        },
        Syntax::Rs => {
            s.append("pub mod ");
            let ident = namespace_name(name);
            s.append(ident.as_str());
        },
    }
    assert(s@ =~= module_header(syntax, name@));
    s
}

/// The declarations of one module, as the body of its scope.
pub struct Declarations<'a> {
    pub syntax: Syntax,
    pub offsets: &'a Vec<Offset>,
}

impl<'a> Body for Declarations<'a> {
    open spec fn lines(&self, depth: nat) -> Seq<Line> {
        declaration_lines(self.syntax, depth, offset_views(self.offsets@))
    }

    fn produce(&self, w: &mut Writer) -> (r: Result<(), EmitError>) {
        let ghost start = *w;
        let ghost depth = w.depth();
        let ghost views = offset_views(self.offsets@);
        let ghost all = declaration_lines(self.syntax, depth, views);
        proof {
            lemma_emits_nothing(start);
            assert(all.take(0) =~= Seq::<Line>::empty());
        }
        let mut i: usize = 0;
        while i < self.offsets.len()
            invariant
                i <= self.offsets.len(),
                views == offset_views(self.offsets@),
                all == declaration_lines(self.syntax, depth, views),
                depth == start.depth(),
                start == *old(w),
                emits(start, *w, all.take(i as int), Ok(())),
            decreases self.offsets.len() - i,
        {
            let text = declaration_text(self.syntax, &self.offsets[i]);
            let ghost middle = *w;
            let res = w.line(text.as_str());
            proof {
                let one = seq![Line::Text { depth, text: text@ }];
                assert(all.take(i + 1) =~= all.take(i as int) + one);
                lemma_emits_then(start, middle, *w, all.take(i as int), one, res);
            }
            match res {
                Ok(()) => {},
                Err(e) => {
                    proof {
                        assert(all =~= all.take(i + 1) + all.skip(i + 1));
                        lemma_emits_failed(start, *w, all.take(i + 1), all.skip(i + 1), res);
                    }
                    return Err(e);
                },
            }
            i += 1;
        }
        assert(all.take(i as int) =~= all);
        Ok(())
    }
}

/// The modules of a map, as the body of the scope that wraps them.
pub struct Modules<'a> {
    pub syntax: Syntax,
    pub modules: &'a Vec<Module>,
}

/// The modules after the first `count`, laid out after the first `count`,
/// give all of them.
proof fn lemma_modules_lines_split(
    syntax: Syntax,
    depth: nat,
    modules: Seq<ModuleView>,
    count: int,
)
    requires
        0 <= count <= modules.len(),
    ensures
        modules_lines(syntax, depth, modules) == modules_lines(syntax, depth, modules.take(count))
            + modules_lines(syntax, depth, modules.skip(count)),
    decreases modules.len() - count,
{
    if count == modules.len() {
        assert(modules.take(count) =~= modules);
        assert(modules.skip(count) =~= Seq::<ModuleView>::empty());
        assert(modules_lines(syntax, depth, modules) + Seq::<Line>::empty() =~= modules_lines(
            syntax,
            depth,
            modules,
        ));
    } else {
        let tail = modules.skip(count);
        assert(tail.drop_last() =~= modules.drop_last().skip(count));
        assert(tail.last() == modules.last());
        lemma_modules_lines_split(syntax, depth, modules.drop_last(), count);
        assert(modules.drop_last().take(count) =~= modules.take(count));
        let head = modules_lines(syntax, depth, modules.take(count));
        let mid = modules_lines(syntax, depth, tail.drop_last());
        let last = module_lines(syntax, depth, modules.last());
        assert(head + mid + last =~= head + (mid + last));
    }
}

impl<'a> Body for Modules<'a> {
    open spec fn lines(&self, depth: nat) -> Seq<Line> {
        modules_lines(self.syntax, depth, module_views(self.modules@))
    }

    fn produce(&self, w: &mut Writer) -> (r: Result<(), EmitError>) {
        let ghost start = *w;
        let ghost depth = w.depth();
        let ghost views = module_views(self.modules@);
        let ghost all = modules_lines(self.syntax, depth, views);
        proof {
            lemma_emits_nothing(start);
            assert(views.take(0) =~= Seq::<ModuleView>::empty());
        }
        let mut i: usize = 0;
        while i < self.modules.len()
            invariant
                i <= self.modules.len(),
                views == module_views(self.modules@),
                all == modules_lines(self.syntax, depth, views),
                depth == start.depth(),
                start == *old(w),
                emits(start, *w, modules_lines(self.syntax, depth, views.take(i as int)), Ok(())),
            decreases self.modules.len() - i,
        {
            let module = &self.modules[i];
            let ghost done = modules_lines(self.syntax, depth, views.take(i as int));
            let ghost comment = seq![Line::Text { depth, text: module_comment(module.name@) }];
            let ghost scope = block_lines(
                depth,
                module_header(self.syntax, module.name@),
                false,
                declaration_lines(self.syntax, depth + 1, offset_views(module.offsets@)),
            );
            proof {
                assert(views.take(i + 1).drop_last() =~= views.take(i as int));
                assert(views.take(i + 1).last() == module@);
                assert(modules_lines(self.syntax, depth, views.take(i + 1)) == done + (comment
                    + scope));
                lemma_modules_lines_split(self.syntax, depth, views, i + 1);
            }
            let ghost rest = modules_lines(self.syntax, depth, views.skip(i + 1));
            let mut comment_text = String::new();
            comment_text.append("// Module: ");
            comment_text.append(module.name.as_str());
            assert(comment_text@ =~= module_comment(module.name@));
            let ghost before_comment = *w;
            let res = w.line(comment_text.as_str());
            let ghost after_comment = *w;
            match res {
                Ok(()) => {},
                Err(e) => {
                    proof {
                        lemma_emits_then(start, before_comment, *w, done, comment, res);
                        lemma_emits_failed(start, *w, done + comment, scope + rest, res);
                        assert(all =~= (done + comment) + (scope + rest));
                    }
                    return Err(e);
                },
            }
            let header = module_header_text(self.syntax, module.name.as_str());
            let body = Declarations { syntax: self.syntax, offsets: &module.offsets };
            let res = w.block(header.as_str(), false, &body);
            proof {
                lemma_emits_then(before_comment, after_comment, *w, comment, scope, res);
                lemma_emits_then(start, before_comment, *w, done, comment + scope, res);
            }
            match res {
                Ok(()) => {},
                Err(e) => {
                    proof {
                        lemma_emits_failed(start, *w, done + (comment + scope), rest, res);
                    }
                    return Err(e);
                },
            }
            i += 1;
        }
        assert(views.take(i as int) =~= views);
        Ok(())
    }
}

/// A scope around another body, as a body itself.
pub struct Scope<'a, B: Body> {
    pub header: &'a str,
    pub body: &'a B,
}

impl<'a, B: Body> Body for Scope<'a, B> {
    open spec fn lines(&self, depth: nat) -> Seq<Line> {
        block_lines(depth, self.header@, false, self.body.lines(depth + 1))
    }

    fn produce(&self, w: &mut Writer) -> (r: Result<(), EmitError>) {
        w.block(self.header, false, self.body)
    }
}

/// What a writer that started empty holds after the preamble and the
/// wrapped modules is the document laid out; neither of the two fails.
proof fn lemma_finished(
    start: Writer,
    middle: Writer,
    end: Writer,
    syntax: Syntax,
    modules: Seq<ModuleView>,
    head: Result<(), EmitError>,
    r: Result<(), EmitError>,
)
    requires
        start.text() == Seq::<char>::empty(),
        emits(start, middle, preamble(syntax), head),
        emits(middle, end, wrapped(syntax, modules), r),
    ensures
        r is Ok,
        end.text() == render(document(syntax, modules), start.width()),
{
    let width = start.width();
    lemma_document_fits(syntax, modules);
    lemma_accepted_concat(preamble(syntax), wrapped(syntax, modules));
    lemma_emits_then(start, middle, end, preamble(syntax), wrapped(syntax, modules), r);
    lemma_accepted_all(document(syntax, modules));
    assert(start.text() + render(document(syntax, modules), width) =~= render(
        document(syntax, modules),
        width,
    ));
}

/// The texts of the lines that stand before the outermost scope.
fn preamble_texts(syntax: Syntax) -> (texts: Vec<&'static str>)
    ensures
        text_lines(0, str_views(texts@)) == preamble(syntax),
{
    let texts: Vec<&'static str> = match syntax {
        Syntax::Cs => Vec::new(),
        Syntax::Hpp => vec!["#pragma once", "", "#include <cstddef>", ""],
        Syntax::Rs => vec!["#![allow(non_upper_case_globals, unused)]", ""],
    };
    proof {
        reveal_strlit("");
        assert(""@ =~= Seq::<char>::empty());
        assert(text_lines(0, str_views(texts@)) =~= preamble(syntax));
    }
    texts
}

impl OffsetMap {
    /// The managed-language source for the map: one namespace, in it one
    /// static class per module, in it one constant per offset.
    pub fn to_cs(&self, indent_size: usize) -> (r: Result<String, EmitError>)
        ensures
            renders(Syntax::Cs, self@, indent_size as nat, r),
    {
        let mut w = Writer::new(indent_size);
        let ghost start = w;
        let texts = preamble_texts(Syntax::Cs);
        let head = Lines { texts: &texts }.produce(&mut w);
        let ghost middle = w;
        proof {
            assert(all_fit(preamble(Syntax::Cs)));
        }
        match head {
            Ok(()) => {},
            Err(e) => {
                return Err(e);
            },
        }
        let modules = Modules { syntax: Syntax::Cs, modules: self.modules() };
        let res = w.block("namespace CS2Dumper.Offsets", false, &modules);
        proof {
            lemma_finished(start, middle, w, Syntax::Cs, self@, head, res);
        }
        match res {
            Ok(()) => Ok(w.finish()),
            Err(e) => Err(e),
        }
    }

    /// The systems header for the map: an include-once guard, then two
    /// nested namespaces, in them one namespace per module, in it one
    /// constant per offset.
    pub fn to_hpp(&self, indent_size: usize) -> (r: Result<String, EmitError>)
        ensures
            renders(Syntax::Hpp, self@, indent_size as nat, r),
    {
        let mut w = Writer::new(indent_size);
        let ghost start = w;
        let texts = preamble_texts(Syntax::Hpp);
        let head = Lines { texts: &texts }.produce(&mut w);
        let ghost middle = w;
        proof {
            assert(all_fit(preamble(Syntax::Hpp)));
        }
        match head {
            Ok(()) => {},
            Err(e) => {
                return Err(e);
            },
        }
        let modules = Modules { syntax: Syntax::Hpp, modules: self.modules() };
        let inner = Scope { header: "namespace offsets", body: &modules };
        let res = w.block("namespace cs2_dumper", false, &inner);
        proof {
            lemma_finished(start, middle, w, Syntax::Hpp, self@, head, res);
        }
        match res {
            Ok(()) => Ok(w.finish()),
            Err(e) => Err(e),
        }
    }

    /// The systems-language module source for the map: a lint-suppression
    /// header, then two nested modules, in them one submodule per module,
    /// in it one constant per offset.
    pub fn to_rs(&self, indent_size: usize) -> (r: Result<String, EmitError>)
        ensures
            renders(Syntax::Rs, self@, indent_size as nat, r),
    {
        let mut w = Writer::new(indent_size);
        let ghost start = w;
        let texts = preamble_texts(Syntax::Rs);
        let head = Lines { texts: &texts }.produce(&mut w);
        let ghost middle = w;
        proof {
            assert(all_fit(preamble(Syntax::Rs)));
        }
        match head {
            Ok(()) => {},
            Err(e) => {
                return Err(e);
            },
        }
        let modules = Modules { syntax: Syntax::Rs, modules: self.modules() };
        let inner = Scope { header: "pub mod offsets", body: &modules };
        let res = w.block("pub mod cs2_dumper", false, &inner);
        proof {
            lemma_finished(start, middle, w, Syntax::Rs, self@, head, res);
        }
        match res {
            Ok(()) => Ok(w.finish()),
            Err(e) => Err(e),
        }
    }
}

} // verus!
