use offset_codegen::{EmitError, Offset, OffsetMap, Target};

fn offset(name: &str, value: usize) -> Offset {
    Offset::new(name.to_string(), value).unwrap()
}

fn view_matrix() -> OffsetMap {
    let mut map = OffsetMap::new();
    map.insert("client.dll".to_string(), vec![offset("dwViewMatrix", 0x1A2B3C)]);
    map
}

fn two_modules() -> OffsetMap {
    let mut map = OffsetMap::new();
    map.insert(
        "engine2.dll".to_string(),
        vec![offset("dwBuildNumber", 0x5A1234), offset("dwWindowWidth", 0)],
    );
    map.insert("steam_api64.dll".to_string(), vec![]);
    map.insert(
        "client.dll".to_string(),
        vec![offset("dwViewMatrix", 0x1A2B3C), offset("dwEntityList", usize::MAX)],
    );
    map
}

fn max_hex() -> String {
    format!("{:#X}", usize::MAX)
}

fn sample_maps() -> Vec<OffsetMap> {
    vec![OffsetMap::new(), view_matrix(), two_modules()]
}

fn code_targets() -> [Target; 3] {
    [Target::Cs, Target::Hpp, Target::Rs]
}

#[test]
fn systems_language_source_for_one_offset() {
    let text = view_matrix().to_rs(4).unwrap();
    assert_eq!(
        text,
        "#![allow(non_upper_case_globals, unused)]\n\
         \n\
         pub mod cs2_dumper {\n\
         \x20   pub mod offsets {\n\
         \x20       // Module: client.dll\n\
         \x20       pub mod client {\n\
         \x20           pub const dwViewMatrix: usize = 0x1A2B3C;\n\
         \x20       }\n\
         \x20   }\n\
         }\n"
    );
    assert!(text.contains("pub const dwViewMatrix: usize = 0x1A2B3C;"));
}

#[test]
fn managed_source_for_one_offset() {
    assert_eq!(
        view_matrix().to_cs(4).unwrap(),
        "namespace CS2Dumper.Offsets {\n\
         \x20   // Module: client.dll\n\
         \x20   public static class Client {\n\
         \x20       public const nint dwViewMatrix = 0x1A2B3C;\n\
         \x20   }\n\
         }\n"
    );
}

#[test]
fn header_for_one_offset() {
    assert_eq!(
        view_matrix().to_hpp(4).unwrap(),
        "#pragma once\n\
         \n\
         #include <cstddef>\n\
         \n\
         namespace cs2_dumper {\n\
         \x20   namespace offsets {\n\
         \x20       // Module: client.dll\n\
         \x20       namespace client {\n\
         \x20           constexpr std::ptrdiff_t dwViewMatrix = 0x1A2B3C;\n\
         \x20       }\n\
         \x20   }\n\
         }\n"
    );
}

#[test]
fn managed_source_keeps_insertion_order() {
    let expected = format!(
        "namespace CS2Dumper.Offsets {{\n\
         \x20 // Module: engine2.dll\n\
         \x20 public static class Engine2 {{\n\
         \x20   public const nint dwBuildNumber = 0x5A1234;\n\
         \x20   public const nint dwWindowWidth = 0x0;\n\
         \x20 }}\n\
         \x20 // Module: steam_api64.dll\n\
         \x20 public static class SteamApi64 {{\n\
         \x20 }}\n\
         \x20 // Module: client.dll\n\
         \x20 public static class Client {{\n\
         \x20   public const nint dwViewMatrix = 0x1A2B3C;\n\
         \x20   public const nint dwEntityList = {};\n\
         \x20 }}\n\
         }}\n",
        max_hex()
    );
    assert_eq!(two_modules().to_cs(2).unwrap(), expected);
}

#[test]
fn header_keeps_insertion_order() {
    let expected = format!(
        "#pragma once\n\
         \n\
         #include <cstddef>\n\
         \n\
         namespace cs2_dumper {{\n\
         \x20namespace offsets {{\n\
         \x20 // Module: engine2.dll\n\
         \x20 namespace engine2 {{\n\
         \x20  constexpr std::ptrdiff_t dwBuildNumber = 0x5A1234;\n\
         \x20  constexpr std::ptrdiff_t dwWindowWidth = 0x0;\n\
         \x20 }}\n\
         \x20 // Module: steam_api64.dll\n\
         \x20 namespace steam_api64 {{\n\
         \x20 }}\n\
         \x20 // Module: client.dll\n\
         \x20 namespace client {{\n\
         \x20  constexpr std::ptrdiff_t dwViewMatrix = 0x1A2B3C;\n\
         \x20  constexpr std::ptrdiff_t dwEntityList = {};\n\
         \x20 }}\n\
         \x20}}\n\
         }}\n",
        max_hex()
    );
    assert_eq!(two_modules().to_hpp(1).unwrap(), expected);
}

#[test]
fn systems_language_source_keeps_insertion_order() {
    let expected = format!(
        "#![allow(non_upper_case_globals, unused)]\n\
         \n\
         pub mod cs2_dumper {{\n\
         pub mod offsets {{\n\
         // Module: engine2.dll\n\
         pub mod engine2 {{\n\
         pub const dwBuildNumber: usize = 0x5A1234;\n\
         pub const dwWindowWidth: usize = 0x0;\n\
         }}\n\
         // Module: steam_api64.dll\n\
         pub mod steam_api64 {{\n\
         }}\n\
         // Module: client.dll\n\
         pub mod client {{\n\
         pub const dwViewMatrix: usize = 0x1A2B3C;\n\
         pub const dwEntityList: usize = {};\n\
         }}\n\
         }}\n\
         }}\n",
        max_hex()
    );
    assert_eq!(two_modules().to_rs(0).unwrap(), expected);
}

#[test]
fn an_empty_map_gives_empty_wrapper_scopes() {
    let map = OffsetMap::new();
    assert_eq!(map.to_cs(4).unwrap(), "namespace CS2Dumper.Offsets {\n}\n");
    assert_eq!(
        map.to_hpp(4).unwrap(),
        "#pragma once\n\n#include <cstddef>\n\nnamespace cs2_dumper {\n    namespace offsets {\n    }\n}\n"
    );
    assert_eq!(
        map.to_rs(4).unwrap(),
        "#![allow(non_upper_case_globals, unused)]\n\npub mod cs2_dumper {\n    pub mod offsets {\n    }\n}\n"
    );
}

#[test]
fn an_empty_map_with_the_widest_indent_is_still_empty_scopes() {
    let map = OffsetMap::new();
    assert_eq!(map.to_cs(usize::MAX).unwrap(), "namespace CS2Dumper.Offsets {\n}\n");
    assert_eq!(map.render(Target::Cs, usize::MAX), map.to_cs(0));
}

#[test]
fn render_dispatches_to_the_emitters() {
    for map in sample_maps() {
        for width in [0usize, 1, 2, 4, 8] {
            assert_eq!(map.render(Target::Cs, width), map.to_cs(width));
            assert_eq!(map.render(Target::Hpp, width), map.to_hpp(width));
            assert_eq!(map.render(Target::Rs, width), map.to_rs(width));
            assert_eq!(map.render(Target::Json, width), map.to_json(width));
        }
    }
}

#[test]
fn rendering_twice_gives_the_same_text() {
    for map in sample_maps() {
        for target in [Target::Cs, Target::Hpp, Target::Json, Target::Rs] {
            for width in [0usize, 2, 4] {
                let first = map.render(target, width);
                let second = map.render(target, width);
                assert!(first.is_ok());
                assert_eq!(first, second);
            }
        }
    }
}

#[test]
fn every_rendering_gives_text() {
    for map in sample_maps() {
        for target in [Target::Cs, Target::Hpp, Target::Json, Target::Rs] {
            for width in [0usize, 1, 3, 4, 16] {
                assert!(map.render(target, width).is_ok());
            }
        }
    }
}

#[test]
fn one_scope_for_each_module_and_each_wrapping_scope() {
    for map in sample_maps() {
        let modules = map.len();
        assert_eq!(map.to_cs(4).unwrap().matches('{').count(), 1 + modules);
        assert_eq!(map.to_hpp(4).unwrap().matches('{').count(), 2 + modules);
        assert_eq!(map.to_rs(4).unwrap().matches('{').count(), 2 + modules);
        for target in code_targets() {
            assert!(map.render(target, 4).unwrap().ends_with("\n}\n"));
        }
    }
}

#[test]
fn a_module_whose_name_gives_no_identifier_is_named_as_a_module() {
    let mut map = OffsetMap::new();
    map.insert("7z.dll".to_string(), vec![offset("a", 1)]);
    map.insert(".dll".to_string(), vec![]);
    let rs = map.to_rs(2).unwrap();
    assert!(rs.contains("    // Module: 7z.dll\n    pub mod module_7z {\n      pub const a: usize = 0x1;\n    }\n"));
    assert!(rs.contains("    // Module: .dll\n    pub mod module {\n    }\n"));
    let cs = map.to_cs(2).unwrap();
    assert!(cs.contains("  public static class Module7z {\n"));
    assert!(cs.contains("  public static class Module {\n"));
    let hpp = map.to_hpp(2).unwrap();
    assert!(hpp.contains("    namespace module_7z {\n"));
    assert!(hpp.contains("    namespace module {\n"));
}

#[test]
fn scopes_balance() {
    for map in sample_maps() {
        for target in code_targets() {
            for width in [0usize, 2, 4] {
                let text = map.render(target, width).unwrap();
                let opened = text.matches('{').count();
                let closed = text.matches('}').count();
                assert_eq!(opened, closed);
                assert!(opened >= 1);
            }
        }
    }
}

#[test]
fn every_line_is_indented_by_width_times_nesting_depth() {
    for map in sample_maps() {
        for target in code_targets() {
            for width in [1usize, 2, 4, 7] {
                let text = map.render(target, width).unwrap();
                assert!(text.ends_with('\n'));
                let mut depth: usize = 0;
                for line in text.lines() {
                    if line.is_empty() {
                        continue;
                    }
                    let content = line.trim_start_matches(' ');
                    if content.starts_with('}') {
                        depth -= 1;
                    }
                    assert_eq!(line.len() - content.len(), width * depth, "{line:?}");
                    if content.ends_with('{') {
                        depth += 1;
                    }
                }
                assert_eq!(depth, 0);
            }
        }
    }
}

#[test]
fn emitted_hex_literals_read_back_as_the_values() {
    let map = two_modules();
    let expected: Vec<usize> = vec![0x5A1234, 0, 0x1A2B3C, usize::MAX];
    for target in code_targets() {
        let text = map.render(target, 4).unwrap();
        let mut found: Vec<usize> = Vec::new();
        for line in text.lines() {
            if let Some(at) = line.find("= 0x") {
                let literal = &line[at + 2..line.len() - 1];
                assert!(line.ends_with(';'));
                assert!(literal[2..].chars().all(|c| c.is_ascii_digit() || ('A'..='F').contains(&c)));
                found.push(usize::from_str_radix(&literal[2..], 16).unwrap());
            }
        }
        assert_eq!(found, expected);
    }
}

#[test]
fn module_scopes_carry_a_comment_with_the_raw_name() {
    let map = two_modules();
    for target in code_targets() {
        let text = map.render(target, 4).unwrap();
        let comments: Vec<&str> =
            text.lines().map(|l| l.trim_start()).filter(|l| l.starts_with("// Module: ")).collect();
        assert_eq!(
            comments,
            vec!["// Module: engine2.dll", "// Module: steam_api64.dll", "// Module: client.dll"]
        );
    }
}

#[test]
fn errors_are_told_apart() {
    assert_ne!(EmitError::Format, EmitError::Serialization);
    assert_eq!(format!("{:?}", EmitError::Format), "Format");
    assert_eq!(format!("{:?}", EmitError::Serialization), "Serialization");
}
