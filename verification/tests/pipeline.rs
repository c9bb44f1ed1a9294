use cradle_idl::ast::dom::{IdlFile, Item as AstItem};
use cradle_idl::ast::parser::{parse, try_parse};
use cradle_idl::codegen::{rust, rustsys};
use cradle_idl::ir::dom::{ElementType, EnumReprValue, Item, Library, Type};
use cradle_idl::passes::ast2ir::{ast2ir, lowerable};
use cradle_idl::passes::qualify_names::qualify_names;
use cradle_idl::{Error, ErrorKind};

fn kinds(errors: &[Error]) -> Vec<ErrorKind> {
    errors.iter().map(|e| e.kind).collect()
}

fn parsed(input: &str) -> IdlFile {
    let (file, errors) = parse(input, 0);
    assert_eq!(kinds(&errors), vec![]);
    file
}

fn lowered(input: &str) -> (Library, Vec<Error>) {
    let mut file = parsed(input);
    let mut errors = Vec::new();
    qualify_names(&mut file, &mut errors);
    assert!(lowerable(&file));
    let lib = ast2ir(&[file], &mut errors);
    (lib, errors)
}

fn enum_values(lib: &Library) -> Vec<EnumReprValue> {
    match &lib.modules[0].items[0] {
        Item::Enum(e) => e.members.iter().map(|m| m.value).collect(),
        other => panic!("expected an enum, got {:?}", other),
    }
}

#[test]
fn enum_members_are_numbered_from_the_previous_value() {
    let (lib, errors) = lowered("module Cards;\nenum Suit : u8 { Spades, Hearts = 2, Diamonds, Clubs, }");
    assert!(errors.is_empty());
    assert_eq!(
        enum_values(&lib),
        vec![EnumReprValue::U8(0), EnumReprValue::U8(2), EnumReprValue::U8(3), EnumReprValue::U8(4)]
    );
}

#[test]
fn documented_suit_example() {
    let (lib, errors) = lowered(
        "module Cards;\nenum Suit : u8 {\n\tSpades, // 0\n\tHearts = 2,\n\tDiamonds, // 3\n\tClubs, // 4\n}",
    );
    assert!(errors.is_empty());
    assert_eq!(
        enum_values(&lib),
        vec![EnumReprValue::U8(0), EnumReprValue::U8(2), EnumReprValue::U8(3), EnumReprValue::U8(4)]
    );
}

#[test]
fn enum_value_past_the_repr_is_reported() {
    let (lib, errors) = lowered("module M;\nenum E : u8 { A = 255, B, C = 300, D = -1 }");
    assert_eq!(
        kinds(&errors),
        vec![ErrorKind::EEnumMemberValueInvalid, ErrorKind::EEnumMemberValueInvalid, ErrorKind::EEnumMemberValueInvalid]
    );
    assert_eq!(
        enum_values(&lib),
        vec![EnumReprValue::U8(255), EnumReprValue::U8(0), EnumReprValue::U8(0), EnumReprValue::U8(0)]
    );
}

#[test]
fn enum_signed_values() {
    let (lib, errors) = lowered("module M;\nenum E : i8 { A = -128, B, C = 127 }");
    assert!(errors.is_empty());
    assert_eq!(enum_values(&lib), vec![EnumReprValue::I8(-128), EnumReprValue::I8(-127), EnumReprValue::I8(127)]);
}

#[test]
fn module_must_come_first() {
    let mut file = parsed("handle File;\nmodule M;");
    let mut errors = Vec::new();
    qualify_names(&mut file, &mut errors);
    assert_eq!(kinds(&errors), vec![ErrorKind::EModuleFirstItem]);
}

#[test]
fn only_one_module() {
    let mut file = parsed("module One;\nmodule Two;");
    let mut errors = Vec::new();
    qualify_names(&mut file, &mut errors);
    assert_eq!(kinds(&errors), vec![ErrorKind::EModuleMultiple]);
}

#[test]
fn top_level_declarations_need_names() {
    let mut file = parsed("module M;\nstruct { x: i32 }\nerror { A }\nenum : u8 { A }");
    let mut errors = Vec::new();
    qualify_names(&mut file, &mut errors);
    assert_eq!(
        kinds(&errors),
        vec![ErrorKind::EStructTopLevelIdent, ErrorKind::EErrorTopLevelIdent, ErrorKind::EEnumTopLevelIdent]
    );
    assert!(!lowerable(&file));
}

#[test]
fn reserved_and_repeated_error_variants() {
    let mut file = parsed("module M;\nerror E { A, CONTEXT_NULL, A }");
    let mut errors = Vec::new();
    qualify_names(&mut file, &mut errors);
    assert_eq!(
        kinds(&errors),
        vec![
            ErrorKind::EErrorVariantReservedIdent,
            ErrorKind::EErrorVariantDuplicateIdent,
            ErrorKind::EErrorVariantDuplicateIdent
        ]
    );
}

#[test]
fn inline_declarations_are_named_after_their_path() {
    let mut file = parsed(
        "module Store;\n#link_name = STORE_Open\nfn Open(opts: in struct { mode: enum : u8 { A } }) -> out struct { file: File }, error { Busy };",
    );
    assert!(!lowerable(&file));
    let mut errors = Vec::new();
    qualify_names(&mut file, &mut errors);
    assert!(errors.is_empty());
    assert!(lowerable(&file));
    let lib = ast2ir(&[file], &mut errors);
    assert!(errors.is_empty());
    let names: Vec<&str> = lib.modules[0].items.iter().map(|i| i.name()).collect();
    assert_eq!(names, vec!["Open_opts_Open_opts_mode", "Open_opts", "Open_RETURN", "Open_ERROR", "Open"]);
    match &lib.modules[0].items[4] {
        Item::Function(f) => {
            assert_eq!(f.link_name, "STORE_Open");
            assert_eq!(f.params.name, "OpenIn");
            assert_eq!(f.params.fields.len(), 1);
            match &f.params.fields[0].ty {
                Type::Element(ElementType::TypeName(n)) => {
                    assert_eq!(n.module, "Store");
                    assert_eq!(n.name, "Open_opts");
                }
                other => panic!("unexpected type {:?}", other),
            }
        }
        other => panic!("expected a function, got {:?}", other),
    }
}

#[test]
fn functions_need_a_link_name() {
    let (lib, errors) = lowered("module M;\nfn Open(path: string);");
    assert_eq!(kinds(&errors), vec![ErrorKind::EFnLinkNameRequired]);
    assert!(lib.modules[0].items.is_empty());
}

#[test]
fn modules_are_merged_and_ordered_by_name() {
    let mut errors = Vec::new();
    let mut files = Vec::new();
    for text in ["module Zeta;\nhandle A;", "module Alpha;\nhandle B;", "module Zeta;\nhandle C;"] {
        let mut file = parsed(text);
        qualify_names(&mut file, &mut errors);
        files.push(file);
    }
    let lib = ast2ir(&files, &mut errors);
    assert!(errors.is_empty());
    let names: Vec<&str> = lib.modules.iter().map(|m| m.name.as_str()).collect();
    assert_eq!(names, vec!["Alpha", "Zeta"]);
    let zeta: Vec<&str> = lib.modules[1].items.iter().map(|i| i.name()).collect();
    assert_eq!(zeta, vec!["A", "C"]);
    let lookup = lib.lookup();
    assert!(matches!(lookup.get("Zeta", "C"), Some(Item::Handle(_))));
    assert!(lookup.get("Alpha", "C").is_none());
    assert!(lookup.get("Beta", "A").is_none());
}

#[test]
fn try_parse_gives_up_on_an_open_block_comment() {
    assert!(try_parse("module M;\n/* open", 0).is_none());
    let (file, errors) = try_parse("module M;\nhandle File;", 0).unwrap();
    assert!(errors.is_empty());
    assert_eq!(file.items.len(), 2);
    assert!(matches!(&file.items[1], AstItem::Handle(h) if h.id.name == "File"));
}

#[test]
fn parse_stops_at_an_unknown_item() {
    let (file, errors) = parse("module M;\nbogus stuff;\nhandle File;", 0);
    assert!(!errors.is_empty());
    assert_eq!(file.items.len(), 1);
}

#[test]
fn rustsys_error_codes() {
    let (lib, errors) = lowered("module M;\n/// Opening failed.\nerror OpenFailure { NotFound, PermissionDenied }");
    assert!(errors.is_empty());
    let text = match &lib.modules[0].items[0] {
        Item::Error(e) => rustsys::error_item(e),
        other => panic!("expected an error type, got {:?}", other),
    };
    assert_eq!(
        text,
        "/// Opening failed.\n#[derive(Copy, Clone, Eq, PartialEq)]\n#[repr(transparent)]\npub struct OpenFailure(i32);\n\nimpl OpenFailure {\n\tpub const UNIMPLEMENTED: Self = Self(-4);\n\tpub const INVALID_LICENSE: Self = Self(-2);\n\tpub const FFI_UNWIND: Self = Self(-3);\n\tpub const CONTEXT_NULL: Self = Self(-1);\n\tpub const SUCCESS: Self = Self(0);\n\tpub const NOT_FOUND: Self = Self(1);\n\tpub const PERMISSION_DENIED: Self = Self(2);\n}\n"
    );
}

#[test]
fn rustsys_enum_item() {
    let (lib, _) = lowered("module M;\nenum read_mode : i16 { fast_read = -3, Slow }");
    let text = match &lib.modules[0].items[0] {
        Item::Enum(e) => rustsys::enum_item(e),
        other => panic!("expected an enum, got {:?}", other),
    };
    assert_eq!(
        text,
        "#[derive(Copy, Clone, Eq, PartialEq)]\n#[repr(transparent)]\npub struct ReadMode(pub i16);\n\nimpl ReadMode {\n\tpub const FAST_READ: Self = Self(-3);\n\tpub const SLOW: Self = Self(-2);\n}\n"
    );
}

#[test]
fn rustsys_generate_lays_out_the_crate() {
    let (lib, errors) = lowered("module FileSystem;\nhandle OpenFile;\nenum Mode : u8 { Read }");
    assert!(errors.is_empty());
    assert!(rustsys::renderable(&lib));
    let files = rustsys::generate(&lib);
    let paths: Vec<&str> = files.iter().map(|f| f.path.as_str()).collect();
    assert_eq!(
        paths,
        vec![
            "Cargo.toml",
            "src/lib.rs",
            "src/_array.rs",
            "src/file_system/mod.rs",
            "src/file_system/open_file.rs",
            "src/file_system/mode.rs"
        ]
    );
    assert_eq!(files[2].contents, rustsys::ARRAY_RS);
    assert!(files[3].contents.contains("mod open_file;"));
    assert!(files[3].contents.contains("pub use self::mode::*;"));
}

#[test]
fn rustsys_needs_a_direction_for_strings() {
    let (lib, errors) = lowered("module M;\nstruct Plain { name: string }");
    assert!(errors.is_empty());
    assert!(!rustsys::renderable(&lib));
    let (lib, _) = lowered("module M;\nin struct Named { name: string, tags: u8[] }");
    assert!(rustsys::renderable(&lib));
}

#[test]
fn rust_enum_item() {
    let (lib, _) = lowered("module M;\nenum Mode : u8 { Read = 1, Write }");
    let text = match &lib.modules[0].items[0] {
        Item::Enum(e) => rust::enum_item(e),
        other => panic!("expected an enum, got {:?}", other),
    };
    assert_eq!(
        text,
        "#[derive(Copy, Clone, Eq, PartialEq)]\n#[repr(transparent)]\npub struct Mode(pub u8);\n\nimpl Mode {\n\tpub const Read: Self = Self(1);\n\tpub const Write: Self = Self(2);\n"
    );
}

#[test]
fn rust_error_variants_count_from_zero() {
    let (lib, _) = lowered("module M;\nerror open_error { not_found, busy }");
    let text = match &lib.modules[0].items[0] {
        Item::Error(e) => rust::error_item(e),
        other => panic!("expected an error type, got {:?}", other),
    };
    assert_eq!(
        text,
        "pub struct OpenError(i32);\n\nimpl OpenError {\n\tpub const NotFound: Self = Self(0);\n\tpub const Busy: Self = Self(1);\n"
    );
}

#[test]
fn rust_generate_paths() {
    let (lib, errors) = lowered("module FileSystem;\nenum Mode : u8 { Read }\n#link_name = FS_Open\nfn OpenFile(path: string);");
    assert!(errors.is_empty());
    let files = rust::generate(&lib);
    let paths: Vec<&str> = files.iter().map(|f| f.path.as_str()).collect();
    assert_eq!(paths, vec!["file_system/mode.rs", "file_system/open_file.rs"]);
}
