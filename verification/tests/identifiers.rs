use offset_codegen::ident::{class_name, format_module_name, ident_char, letter, namespace_name};

fn is_identifier(s: &str) -> bool {
    let mut chars = s.chars();
    match chars.next() {
        Some(first) if first.is_ascii_alphabetic() => {}
        _ => return false,
    }
    s.chars().all(|c| c.is_ascii_alphanumeric() || c == '_')
}

#[test]
fn library_extension_is_stripped() {
    assert_eq!(format_module_name("client.dll"), "client");
    assert_eq!(format_module_name("libclient.so"), "libclient");
    assert_eq!(format_module_name("libengine.dylib"), "libengine");
    assert_eq!(format_module_name("engine2"), "engine2");
}

#[test]
fn only_the_last_extension_is_stripped() {
    assert_eq!(format_module_name("a.dll.dll"), "adll");
    assert_eq!(format_module_name("a.so.dll"), "aso");
}

#[test]
fn other_extensions_lose_their_dot_only() {
    assert_eq!(format_module_name("game.exe"), "gameexe");
    assert_eq!(format_module_name("CLIENT.DLL"), "CLIENTDLL");
}

#[test]
fn disallowed_characters_are_dropped() {
    assert_eq!(format_module_name("steam-api 64.dll"), "steamapi64");
    assert_eq!(format_module_name("mod\u{e9}le.dll"), "modle");
    assert_eq!(format_module_name("a.b.c"), "abc");
    assert_eq!(format_module_name("{x}\n"), "x");
}

#[test]
fn underscores_and_digits_are_kept() {
    assert_eq!(format_module_name("steam_api64.dll"), "steam_api64");
    assert_eq!(format_module_name("_x7_.so"), "_x7_");
    assert_eq!(format_module_name("a_1"), "a_1");
}

#[test]
fn a_token_that_does_not_lead_with_a_letter_gets_a_prefix() {
    assert_eq!(format_module_name("7z.dll"), "module_7z");
    assert_eq!(format_module_name("_7z_.so"), "module__7z_");
    assert_eq!(format_module_name("9"), "module_9");
    assert_eq!(format_module_name("___"), "module____");
}

#[test]
fn an_extension_alone_leaves_the_prefix() {
    assert_eq!(format_module_name(".dll"), "module_");
    assert_eq!(format_module_name(".so"), "module_");
    assert_eq!(format_module_name(""), "module_");
    assert_eq!(format_module_name("..."), "module_");
    assert_eq!(format_module_name("\u{4e2d}\u{6587}.dll"), "module_");
}

#[test]
fn client_dll_names() {
    assert_eq!(class_name("client.dll"), "Client");
    assert_eq!(namespace_name("client.dll"), "client");
}

#[test]
fn class_names_are_capitalised_words() {
    assert_eq!(class_name("steam_api64.dll"), "SteamApi64");
    assert_eq!(class_name("engine2.dll"), "Engine2");
    assert_eq!(class_name("libclient.so"), "Libclient");
    assert_eq!(class_name("inputSystem.dll"), "InputSystem");
    assert_eq!(class_name("XMLHttpRequest.dll"), "XmlHttpRequest");
}

#[test]
fn namespace_names_are_lower_case_with_underscores() {
    assert_eq!(namespace_name("steam_api64.dll"), "steam_api64");
    assert_eq!(namespace_name("engine2.dll"), "engine2");
    assert_eq!(namespace_name("ClientMain.dll"), "client_main");
    assert_eq!(namespace_name("inputSystem.dll"), "input_system");
    assert_eq!(namespace_name("XMLHttpRequest.dll"), "xml_http_request");
    assert_eq!(namespace_name("__a__b__.so"), "a_b");
}

#[test]
fn identifiers_are_valid_for_every_name() {
    let names = [
        "client.dll",
        "engine2.dll",
        "libclient.so",
        "steam_api64.dll",
        "_private.dll",
        "a",
        "Z9",
        "some module (x86).dll",
        "tier0.dll",
        "x.y.z.dylib",
        "7z.dll",
        "",
        ".so",
        "___",
        "9",
        "\u{4e2d}\u{6587}.dll",
        "a b\tc\n",
        "{}",
        "__9__x",
    ];
    for name in names {
        let class = class_name(name);
        let namespace = namespace_name(name);
        assert!(is_identifier(&class), "{name}: {class}");
        assert!(is_identifier(&namespace), "{name}: {namespace}");
        assert!(!class.contains('.') && !namespace.contains('.'));
    }
}

#[test]
fn namespace_names_hold_no_upper_case_letter() {
    for name in ["Client.DLL", "XMLHttpRequest.dll", "ABC", "aBc_DeF.so", "7Z.dll", ""] {
        let namespace = namespace_name(name);
        assert!(namespace
            .chars()
            .all(|c| c.is_ascii_lowercase() || c.is_ascii_digit() || c == '_'));
        assert!(namespace.chars().next().unwrap().is_ascii_lowercase());
    }
}

#[test]
fn class_names_begin_with_a_capital_and_hold_no_underscore() {
    for name in ["client.dll", "steam_api64.dll", "_private", "a_b_c.so", "7z.dll", "", "___"] {
        let class = class_name(name);
        assert!(class.chars().next().unwrap().is_ascii_uppercase());
        assert!(class.chars().all(|c| c.is_ascii_alphanumeric()));
    }
}

#[test]
fn a_name_that_leads_with_a_digit_is_named_as_a_module() {
    assert_eq!(class_name("7z.dll"), "Module7z");
    assert_eq!(namespace_name("7z.dll"), "module_7z");
    assert_eq!(class_name("__9__x"), "Module9X");
    assert_eq!(namespace_name("__9__x"), "module_9_x");
}

#[test]
fn a_name_without_letters_or_digits_is_named_module() {
    assert_eq!(class_name(".dll"), "Module");
    assert_eq!(namespace_name(".dll"), "module");
    assert_eq!(class_name("___"), "Module");
    assert_eq!(namespace_name("___"), "module");
    assert_eq!(class_name(""), "Module");
    assert_eq!(namespace_name("\u{4e2d}\u{6587}.dll"), "module");
}

#[test]
fn same_name_same_identifier() {
    for name in ["client.dll", "steam_api64.dll", "weird name.so"] {
        assert_eq!(class_name(name), class_name(name));
        assert_eq!(namespace_name(name), namespace_name(name));
    }
}

#[test]
fn identifier_characters() {
    for c in ['a', 'z', 'A', 'Z', '0', '9', '_'] {
        assert!(ident_char(c));
    }
    for c in ['.', '-', ' ', '{', '}', '\n', '\u{e9}', '@', '[', '`', '/', ':'] {
        assert!(!ident_char(c));
    }
}

#[test]
fn letters() {
    for c in ['a', 'm', 'z', 'A', 'M', 'Z'] {
        assert!(letter(c));
    }
    for c in ['0', '9', '_', '@', '[', '`', '{', ' ', '\u{e9}'] {
        assert!(!letter(c));
    }
}
