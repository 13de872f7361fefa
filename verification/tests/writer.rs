use offset_codegen::emit::{Declarations, Modules, Scope};
use offset_codegen::{EmitError, Lines, Module, Offset, Syntax, Writer};

fn offset(name: &str, value: usize) -> Offset {
    Offset::new(name.to_string(), value).unwrap()
}

#[test]
fn a_new_writer_holds_nothing() {
    assert_eq!(Writer::new(4).finish(), "");
    assert_eq!(Writer::with_depth(4, 3).finish(), "");
}

#[test]
fn lines_at_depth_zero_are_not_indented() {
    let mut w = Writer::new(4);
    assert_eq!(w.line("first"), Ok(()));
    assert_eq!(w.line("second"), Ok(()));
    assert_eq!(w.finish(), "first\nsecond\n");
}

#[test]
fn lines_are_indented_by_width_times_depth() {
    let mut w = Writer::with_depth(3, 2);
    assert_eq!(w.line("x"), Ok(()));
    assert_eq!(w.finish(), "      x\n");
    let mut w = Writer::with_depth(0, 5);
    assert_eq!(w.line("x"), Ok(()));
    assert_eq!(w.finish(), "x\n");
}

#[test]
fn blank_lines_carry_no_indentation() {
    let mut w = Writer::with_depth(4, 2);
    assert_eq!(w.line(""), Ok(()));
    assert_eq!(w.line("x"), Ok(()));
    assert_eq!(w.line(""), Ok(()));
    assert_eq!(w.finish(), "\n        x\n\n");
}

#[test]
fn a_block_wraps_its_body_one_level_deeper() {
    let offsets = vec![offset("a", 1), offset("b", 0x20)];
    let body = Declarations { syntax: Syntax::Rs, offsets: &offsets };
    let mut w = Writer::new(2);
    assert_eq!(w.block("pub mod m", false, &body), Ok(()));
    assert_eq!(
        w.finish(),
        "pub mod m {\n  pub const a: usize = 0x1;\n  pub const b: usize = 0x20;\n}\n"
    );
}

#[test]
fn a_block_can_end_with_a_terminator() {
    let offsets = vec![offset("a", 1)];
    let body = Declarations { syntax: Syntax::Hpp, offsets: &offsets };
    let mut w = Writer::new(4);
    assert_eq!(w.block("struct s", true, &body), Ok(()));
    assert_eq!(w.finish(), "struct s {\n    constexpr std::ptrdiff_t a = 0x1;\n};\n");
}

#[test]
fn an_empty_block_is_two_lines() {
    let offsets: Vec<Offset> = vec![];
    let body = Declarations { syntax: Syntax::Cs, offsets: &offsets };
    let mut w = Writer::with_depth(4, 1);
    assert_eq!(w.block("h", false, &body), Ok(()));
    assert_eq!(w.finish(), "    h {\n    }\n");
}

#[test]
fn blocks_nest() {
    let offsets = vec![offset("a", 10)];
    let modules = vec![Module { name: "client.dll".to_string(), offsets }];
    let body = Modules { syntax: Syntax::Cs, modules: &modules };
    let inner = Scope { header: "inner", body: &body };
    let mut w = Writer::new(1);
    assert_eq!(w.block("outer", false, &inner), Ok(()));
    assert_eq!(
        w.finish(),
        "outer {\n inner {\n  // Module: client.dll\n  public static class Client {\n   public const nint a = 0xA;\n  }\n }\n}\n"
    );
}

#[test]
fn the_depth_is_restored_after_a_block() {
    let offsets = vec![offset("a", 1)];
    let body = Declarations { syntax: Syntax::Rs, offsets: &offsets };
    let mut w = Writer::with_depth(2, 1);
    assert_eq!(w.line("before"), Ok(()));
    assert_eq!(w.block("h", false, &body), Ok(()));
    assert_eq!(w.line("after"), Ok(()));
    assert_eq!(w.finish(), "  before\n  h {\n    pub const a: usize = 0x1;\n  }\n  after\n");
}

#[test]
fn a_line_at_the_deepest_level_is_written() {
    let mut w = Writer::with_depth(0, usize::MAX);
    assert_eq!(w.line("x"), Ok(()));
    assert_eq!(w.finish(), "x\n");
}

#[test]
fn a_blank_line_never_fails() {
    let mut w = Writer::with_depth(usize::MAX, usize::MAX);
    assert_eq!(w.line(""), Ok(()));
    assert_eq!(w.finish(), "\n");
}

#[test]
fn no_scope_opens_at_the_deepest_level() {
    let offsets: Vec<Offset> = vec![];
    let body = Declarations { syntax: Syntax::Rs, offsets: &offsets };
    let mut w = Writer::with_depth(0, usize::MAX);
    assert_eq!(w.block("h", false, &body), Err(EmitError::Format));
    assert_eq!(w.finish(), "");
}

#[test]
fn a_failing_body_leaves_no_closing_token() {
    let offsets: Vec<Offset> = vec![];
    let body = Declarations { syntax: Syntax::Rs, offsets: &offsets };
    let inner = Scope { header: "inner", body: &body };
    let mut w = Writer::with_depth(0, usize::MAX - 1);
    assert_eq!(w.block("outer", false, &inner), Err(EmitError::Format));
    assert_eq!(w.finish(), "outer {\n");
}

#[test]
fn the_depth_is_restored_after_a_failing_body() {
    let offsets: Vec<Offset> = vec![];
    let body = Declarations { syntax: Syntax::Rs, offsets: &offsets };
    let inner = Scope { header: "inner", body: &body };
    let mut w = Writer::with_depth(0, usize::MAX - 1);
    assert_eq!(w.block("outer", false, &inner), Err(EmitError::Format));
    assert_eq!(w.block("again", true, &body), Ok(()));
    assert_eq!(w.finish(), "outer {\nagain {\n};\n");
}

#[test]
fn a_body_that_fails_midway_keeps_what_was_written() {
    let offsets = vec![offset("a", 1)];
    let modules = vec![
        Module { name: "one.dll".to_string(), offsets: vec![] },
        Module { name: "two.dll".to_string(), offsets },
    ];
    let body = Modules { syntax: Syntax::Rs, modules: &modules };
    let mut w = Writer::with_depth(0, usize::MAX - 1);
    assert_eq!(w.block("outer", false, &body), Err(EmitError::Format));
    assert_eq!(w.finish(), "outer {\n// Module: one.dll\n");
}

#[test]
fn plain_lines_as_a_body() {
    let texts = vec!["a", "", "b"];
    let body = Lines { texts: &texts };
    let mut w = Writer::new(2);
    assert_eq!(w.block("h", false, &body), Ok(()));
    assert_eq!(w.finish(), "h {\n  a\n\n  b\n}\n");
}

#[test]
fn plain_lines_never_fail() {
    let texts = vec!["", "x", "", "y"];
    let body = Lines { texts: &texts };
    let mut w = Writer::with_depth(0, usize::MAX);
    assert_eq!(offset_codegen::Body::produce(&body, &mut w), Ok(()));
    assert_eq!(w.finish(), "\nx\n\ny\n");
}
