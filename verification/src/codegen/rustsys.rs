//! Generation of a `-sys` crate: raw FFI declarations of a library.
use crate::ast::dom::StructDirection;
use crate::ast::parser::lemma_push_deep;
use crate::codegen::text::{
    blank, decimal, is_blank, lines, lines_of, pascal_of, push_decimal, push_pascal, push_scream,
    push_snake, push_tabs, push_value, scream_of, signed_decimal, snake_of, tabs, value_int,
};
use crate::codegen::GeneratedFile;
use crate::ir::dom as ir;
use crate::text::push_str;
use vstd::prelude::*;

verus! {

/// The version of a generated crate.
pub struct Version {
    pub major: u32,
    pub minor: u32,
    pub patch: u32,
}

/// The name and version of a generated crate.
pub struct Metadata {
    pub name: String,
    pub version: Version,
}

// ---------------------------------------------------------------------------
// The texts

/// Doc comment lines: `///` for a blank line, else `/// ` and the line,
/// each indented by `indents` tabs.
pub open spec fn doc_lines(ls: Seq<Seq<char>>, indents: nat) -> Seq<char>
    decreases ls.len(),
{
    if ls.len() == 0 {
        seq![]
    } else {
        doc_lines(ls.drop_last(), indents) + tabs(indents) + if is_blank(ls.last()) {
            "///\n"@
        } else {
            "/// "@ + ls.last() + "\n"@
        }
    }
}

pub open spec fn doc_text(doc: Option<Seq<char>>, indents: nat) -> Seq<char> {
    match doc {
        Some(d) => doc_lines(lines(d), indents),
        None => seq![],
    }
}

pub open spec fn repr_name(r: ir::EnumReprType) -> Seq<char> {
    match r {
        ir::EnumReprType::I8 => "i8"@,
        ir::EnumReprType::I16 => "i16"@,
        ir::EnumReprType::I32 => "i32"@,
        ir::EnumReprType::I64 => "i64"@,
        ir::EnumReprType::U8 => "u8"@,
        ir::EnumReprType::U16 => "u16"@,
        ir::EnumReprType::U32 => "u32"@,
        ir::EnumReprType::U64 => "u64"@,
    }
}

pub open spec fn prim_name(p: ir::PrimitiveType) -> Seq<char> {
    match p {
        ir::PrimitiveType::I8 => "i8"@,
        ir::PrimitiveType::I16 => "i16"@,
        ir::PrimitiveType::I32 => "i32"@,
        ir::PrimitiveType::I64 => "i64"@,
        ir::PrimitiveType::Isize => "isize"@,
        ir::PrimitiveType::U8 => "u8"@,
        ir::PrimitiveType::U16 => "u16"@,
        ir::PrimitiveType::U32 => "u32"@,
        ir::PrimitiveType::U64 => "u64"@,
        ir::PrimitiveType::Usize => "usize"@,
        ir::PrimitiveType::F32 => "f32"@,
        ir::PrimitiveType::F64 => "f64"@,
        ir::PrimitiveType::Bool => "bool"@,
        ir::PrimitiveType::Char => "char"@,
    }
}

pub open spec fn enum_members_text(ms: Seq<ir::SEnumMember>) -> Seq<char>
    decreases ms.len(),
{
    if ms.len() == 0 {
        seq![]
    } else {
        let m = ms.last();
        enum_members_text(ms.drop_last()) + doc_text(m.doc, 1) + "\tpub const "@ + scream_of(m.name)
            + ": Self = Self("@ + signed_decimal(value_int(m.value)) + ");\n"@
    }
}

/// A transparent struct around the representation type, with one constant
/// per member.
pub open spec fn enum_item_text(item: ir::SEnumItem) -> Seq<char> {
    doc_text(item.doc, 0) + "#[derive(Copy, Clone, Eq, PartialEq)]\n#[repr(transparent)]\npub struct "@
        + pascal_of(item.name) + "(pub "@ + repr_name(item.repr) + ");\n\nimpl "@ + pascal_of(item.name)
        + " {\n"@ + enum_members_text(item.members) + "}\n"@
}

/// The variants numbered from 1.
pub open spec fn error_variants_text(vs: Seq<ir::SErrorVariant>) -> Seq<char>
    decreases vs.len(),
{
    if vs.len() == 0 {
        seq![]
    } else {
        let v = vs.last();
        error_variants_text(vs.drop_last()) + doc_text(v.doc, 1) + "\tpub const "@ + scream_of(v.name)
            + ": Self = Self("@ + decimal(vs.len()) + ");\n"@
    }
}

/// A transparent `i32` struct with the reserved codes, success, and one
/// constant per variant.
pub open spec fn error_item_text(item: ir::SErrorItem) -> Seq<char> {
    doc_text(item.doc, 0) + "#[derive(Copy, Clone, Eq, PartialEq)]\n#[repr(transparent)]\npub struct "@
        + pascal_of(item.name) + "(i32);\n\nimpl "@ + pascal_of(item.name)
        + " {\n\tpub const UNIMPLEMENTED: Self = Self(-4);\n\tpub const INVALID_LICENSE: Self = Self(-2);\n\tpub const FFI_UNWIND: Self = Self(-3);\n\tpub const CONTEXT_NULL: Self = Self(-1);\n\tpub const SUCCESS: Self = Self(0);\n"@
        + error_variants_text(item.variants) + "}\n"@
}

/// The Rust type of an element in a struct of the given direction.
pub open spec fn elem_text(e: ir::SElementType, dir: Option<StructDirection>) -> Seq<char> {
    match e {
        ir::SElementType::Primitive(p) => prim_name(p),
        ir::SElementType::String => match dir {
            Some(StructDirection::In) => "crate::_array::StrPtr"@,
            Some(StructDirection::Out) => "*mut crate::StringHandle"@,
            None => seq![],
        },
        ir::SElementType::TypeName(n) => "crate::"@ + snake_of(n.module) + "::"@ + pascal_of(n.name),
    }
}

/// The Rust type of a field in a struct of the given direction.
pub open spec fn ty_text(t: ir::SType, dir: Option<StructDirection>) -> Seq<char> {
    match t {
        ir::SType::Element(e) => elem_text(e, dir),
        ir::SType::Array1D(e) => match e {
            ir::SElementType::String => match dir {
                Some(StructDirection::Out) => "crate::Array1D<crate::StringHandle>"@,
                _ => "crate::Array1DPtr<crate::_array::StrPtr>"@,
            },
            _ => match dir {
                Some(StructDirection::Out) => "crate::Array1D<"@ + elem_text(e, dir) + ">"@,
                _ => "crate::Array1DPtr<"@ + elem_text(e, dir) + ">"@,
            },
        },
        ir::SType::Array2D(e) => match dir {
            Some(StructDirection::Out) => "crate::Array2D<"@ + elem_text(e, dir) + ">"@,
            _ => "crate::Array2DPtr<"@ + elem_text(e, dir) + ">"@,
        },
        _ => seq![],
    }
}

/// The type has a text: strings and arrays need a direction, and arrays of
/// a fixed length or of three or four dimensions have none.
pub open spec fn renders(t: ir::SType, dir: Option<StructDirection>) -> bool {
    match t {
        ir::SType::Element(e) => !(e is String) || dir is Some,
        ir::SType::Array1D(_) => dir is Some,
        ir::SType::Array2D(_) => dir is Some,
        _ => false,
    }
}

pub open spec fn fields_render(fs: Seq<ir::SField>, dir: Option<StructDirection>) -> bool {
    forall|i: int| 0 <= i < fs.len() ==> renders(#[trigger] fs[i].ty, dir)
}

pub open spec fn params_text(fs: Seq<ir::SField>, dir: Option<StructDirection>) -> Seq<char>
    decreases fs.len(),
{
    if fs.len() == 0 {
        seq![]
    } else {
        let p = fs.last();
        params_text(fs.drop_last(), dir) + doc_text(p.doc, 2) + "\t\t"@ + snake_of(p.name) + ": "@ + ty_text(
            p.ty,
            dir,
        ) + ",\n"@
    }
}

/// An `extern "C"` block that declares the function under its link name.
pub open spec fn function_item_text(item: ir::SFnItem) -> Seq<char> {
    "extern \"C\" {\n"@ + doc_text(item.doc, 1) + "\t#[link_name = \""@ + item.link_name + "\"]\n\tpub fn "@
        + snake_of(item.name) + "(\n"@ + params_text(item.params.fields, item.params.direction)
        + "\t);\n}\n"@
}

pub open spec fn struct_fields_text(fs: Seq<ir::SField>, dir: Option<StructDirection>) -> Seq<char>
    decreases fs.len(),
{
    if fs.len() == 0 {
        seq![]
    } else {
        let f = fs.last();
        struct_fields_text(fs.drop_last(), dir) + doc_text(f.doc, 1) + "\tpub "@ + snake_of(f.name) + ": "@
            + ty_text(f.ty, dir) + ",\n"@
    }
}

/// A `#[repr(C)]` struct.
pub open spec fn struct_item_text(item: ir::SStructItem) -> Seq<char> {
    doc_text(item.doc, 0) + "#[repr(C)]\npub struct "@ + pascal_of(item.name) + " {\n"@ + struct_fields_text(
        item.fields,
        item.direction,
    ) + "}\n"@
}

/// The line of a struct field: its doc, then `\tpub `, the field's name in
/// snake_case, `: `, its type and `,`.
pub open spec fn field_line(f: ir::SField, dir: Option<StructDirection>) -> Seq<char> {
    doc_text(f.doc, 1) + "\tpub "@ + crate::case::spec_snake(vstd::utf8::encode_utf8(f.name)) + ": "@ + ty_text(f.ty, dir)
        + ",\n"@
}

proof fn lemma_struct_fields_lines(fs: Seq<ir::SField>, dir: Option<StructDirection>)
    ensures
        struct_fields_text(fs, dir) == Seq::new(fs.len(), |k: int| field_line(fs[k], dir)).flatten_alt(),
    decreases fs.len(),
{
    let ls = Seq::new(fs.len(), |k: int| field_line(fs[k], dir));
    if fs.len() > 0 {
        lemma_struct_fields_lines(fs.drop_last(), dir);
        assert(ls.drop_last() =~= Seq::new(fs.drop_last().len(), |k: int| field_line(fs.drop_last()[k], dir)));
        assert(ls.last() == field_line(fs.last(), dir));
        assert(struct_fields_text(fs, dir) =~= ls.drop_last().flatten_alt() + ls.last());
    } else {
        assert(ls.flatten_alt() =~= seq![]);
    }
}

/// A `#[repr(C)]` struct is its doc, `#[repr(C)]`, `pub struct` and its name
/// in PascalCase, then one line per field in order, each `\tpub `, the
/// field's name in snake_case, `: ` and its type, then `}`.
pub proof fn law_struct_field_lines(item: ir::SStructItem)
    ensures
        struct_item_text(item) == doc_text(item.doc, 0) + "#[repr(C)]\npub struct "@ + crate::case::spec_pascal(
            vstd::utf8::encode_utf8(item.name),
        ) + " {\n"@ + Seq::new(item.fields.len(), |k: int| field_line(item.fields[k], item.direction)).flatten()
            + "}\n"@,
{
    lemma_struct_fields_lines(item.fields, item.direction);
    Seq::new(item.fields.len(), |k: int| field_line(item.fields[k], item.direction)).lemma_flatten_and_flatten_alt_are_equivalent();
}

/// An opaque pointer.
pub open spec fn handle_item_text(item: ir::SHandleItem) -> Seq<char> {
    doc_text(item.doc, 0) + "pub struct "@ + pascal_of(item.name) + "(pub *mut std::ffi::c_void);\n"@
}

pub open spec fn cargo_toml_text() -> Seq<char> {
    "[package]\nname = \"example-sys\"\nversion = \"0.1.0\"\nedition = \"2021\"\n\n[dependencies]\n"@
}

pub open spec fn module_decls_text(mods: Seq<ir::SModule>) -> Seq<char>
    decreases mods.len(),
{
    if mods.len() == 0 {
        seq![]
    } else {
        module_decls_text(mods.drop_last()) + "pub mod "@ + snake_of(mods.last().name) + ";\n"@
    }
}

/// The crate root: the array types, and one module per library module.
pub open spec fn lib_rs_text(lib: ir::SLibrary) -> Seq<char> {
    "mod _array;\npub use _array::*;\n\n"@ + module_decls_text(lib.modules)
}

pub open spec fn variant_name(item: ir::SItem) -> Seq<char> {
    match item {
        ir::SItem::Enum(_) => "Enum"@,
        ir::SItem::Error(_) => "Error"@,
        ir::SItem::Struct(_) => "Struct"@,
        ir::SItem::Function(_) => "Function"@,
        ir::SItem::Handle(_) => "Handle"@,
    }
}

pub open spec fn item_decls_text(items: Seq<ir::SItem>) -> Seq<char>
    decreases items.len(),
{
    if items.len() == 0 {
        seq![]
    } else {
        item_decls_text(items.drop_last()) + "mod "@ + snake_of(items.last().name()) + "; // "@ + variant_name(
            items.last(),
        ) + "\n"@
    }
}

pub open spec fn item_uses_text(items: Seq<ir::SItem>) -> Seq<char>
    decreases items.len(),
{
    if items.len() == 0 {
        seq![]
    } else {
        item_uses_text(items.drop_last()) + "pub use self::"@ + snake_of(items.last().name()) + "::*;\n"@
    }
}

/// A module: one submodule per item, each re-exported.
pub open spec fn module_mod_rs_text(m: ir::SModule) -> Seq<char> {
    item_decls_text(m.items) + item_uses_text(m.items)
}

pub open spec fn item_text(item: ir::SItem) -> Seq<char> {
    match item {
        ir::SItem::Enum(e) => enum_item_text(e),
        ir::SItem::Error(e) => error_item_text(e),
        ir::SItem::Function(f) => function_item_text(f),
        ir::SItem::Handle(h) => handle_item_text(h),
        ir::SItem::Struct(s) => struct_item_text(s),
    }
}

/// `src/<module>/<name>.rs`, both in snake_case.
pub open spec fn item_path(module: Seq<char>, name: Seq<char>) -> Seq<char> {
    "src/"@ + snake_of(module) + "/"@ + snake_of(name) + ".rs"@
}

pub open spec fn item_files(module: Seq<char>, items: Seq<ir::SItem>) -> Seq<(Seq<char>, Seq<char>)>
    decreases items.len(),
{
    if items.len() == 0 {
        seq![]
    } else {
        item_files(module, items.drop_last()).push((item_path(module, items.last().name()), item_text(items.last())))
    }
}

pub open spec fn module_files(mods: Seq<ir::SModule>) -> Seq<(Seq<char>, Seq<char>)>
    decreases mods.len(),
{
    if mods.len() == 0 {
        seq![]
    } else {
        let m = mods.last();
        module_files(mods.drop_last()) + seq![("src/"@ + snake_of(m.name) + "/mod.rs"@, module_mod_rs_text(m))]
            + item_files(m.name, m.items)
    }
}

/// The files of the crate, in the order they are written.
pub open spec fn generate_files(lib: ir::SLibrary) -> Seq<(Seq<char>, Seq<char>)> {
    seq![("Cargo.toml"@, cargo_toml_text()), ("src/lib.rs"@, lib_rs_text(lib)), ("src/_array.rs"@, ARRAY_RS@)]
        + module_files(lib.modules)
}

/// The number of items of the modules.
pub open spec fn item_count(mods: Seq<ir::SModule>) -> nat
    decreases mods.len(),
{
    if mods.len() == 0 {
        0
    } else {
        item_count(mods.drop_last()) + mods.last().items.len()
    }
}

proof fn lemma_item_files(module: Seq<char>, items: Seq<ir::SItem>)
    ensures
        item_files(module, items).len() == items.len(),
        forall|k: int| 0 <= k < items.len() ==> #[trigger] item_files(module, items)[k] == (
            item_path(module, items[k].name()),
            item_text(items[k]),
        ),
    decreases items.len(),
{
    if items.len() > 0 {
        lemma_item_files(module, items.drop_last());
        let fs = item_files(module, items);
        assert forall|k: int| 0 <= k < items.len() implies #[trigger] fs[k] == (
            item_path(module, items[k].name()),
            item_text(items[k]),
        ) by {
            if k < items.len() - 1 {
                assert(items[k] == items.drop_last()[k]);
            }
        }
    }
}

proof fn lemma_module_files_len(mods: Seq<ir::SModule>)
    ensures
        module_files(mods).len() == mods.len() + item_count(mods),
    decreases mods.len(),
{
    if mods.len() > 0 {
        lemma_module_files_len(mods.drop_last());
        lemma_item_files(mods.last().name, mods.last().items);
    }
}

/// The generated crate has three fixed files, then for each module its
/// `mod.rs` followed by one file per item, at `src/<module>/<item>.rs`
/// holding the item's text.
pub proof fn law_one_file_per_item(lib: ir::SLibrary)
    ensures
        generate_files(lib).len() == 3 + lib.modules.len() + item_count(lib.modules),
        forall|module: Seq<char>, items: Seq<ir::SItem>, k: int|
            0 <= k < items.len() ==> #[trigger] item_files(module, items)[k] == (
                item_path(module, items[k].name()),
                item_text(items[k]),
            ),
{
    lemma_module_files_len(lib.modules);
    assert forall|module: Seq<char>, items: Seq<ir::SItem>, k: int|
        0 <= k < items.len() implies #[trigger] item_files(module, items)[k] == (
            item_path(module, items[k].name()),
            item_text(items[k]),
        ) by {
        lemma_item_files(module, items);
    }
}

/// Every field and parameter type of the library has a text.
pub open spec fn library_renders(lib: ir::SLibrary) -> bool {
    forall|i: int, j: int|
        0 <= i < lib.modules.len() && 0 <= j < lib.modules[i].items.len() ==> match #[trigger] lib.modules[i].items[j] {
            ir::SItem::Struct(s) => fields_render(s.fields, s.direction),
            ir::SItem::Function(f) => fields_render(f.params.fields, f.params.direction),
            _ => true,
        }
}

/// The array types that the generated code uses.
pub const ARRAY_RS: &'static str = "\n#[repr(C)]
pub struct StrPtr {
\tpub ptr: *const u8,
\tpub len: usize,
}

#[repr(C)]
pub struct Array1DPtr<T> {
\tpub ptr: *mut T,
\tpub len: [usize; 1],
}

#[repr(C)]
pub struct Array2DPtr<T> {
\tpub ptr: *mut T,
\tpub len: [usize; 2],
}

#[repr(C)]
pub struct Array3DPtr<T> {
\tpub ptr: *mut T,
\tpub len: [usize; 3],
}

#[repr(C)]
pub struct Array4DPtr<T> {
\tpub ptr: *mut T,
\tpub len: [usize; 4],
}

#[repr(C)]
pub struct Array1D<T> {
\tpub ptr: *mut T,
\tpub len: [usize; 1],
}

#[repr(C)]
pub struct Array2D<T> {
\tpub ptr: *mut T,
\tpub len: [usize; 2],
}

#[repr(C)]
pub struct Array3D<T> {
\tpub ptr: *mut T,
\tpub len: [usize; 3],
}

#[repr(C)]
pub struct Array4D<T> {
\tpub ptr: *mut T,
\tpub len: [usize; 4],
}
";

// ---------------------------------------------------------------------------
// The templates

/// Appends the doc comment lines of `doc`, indented by `indents` tabs.
fn push_doc(buf: &mut String, doc: &Option<String>, indents: usize)
    ensures
        final(buf)@ == old(buf)@ + doc_text(doc.deep_view(), indents as nat),
{
    match doc {
        None => {
            assert(buf@ =~= old(buf)@ + seq![]);
        },
        Some(d) => {
            let ls = lines_of(d.as_str());
            let ghost lv = ls.deep_view();
            let mut i: usize = 0;
            assert(buf@ =~= old(buf)@ + doc_lines(lv.take(0), indents as nat));
            while i < ls.len()
                invariant
                    i <= ls@.len(),
                    lv == ls.deep_view(),
                    buf@ == old(buf)@ + doc_lines(lv.take(i as int), indents as nat),
                decreases ls@.len() - i,
            {
                proof {
                    assert(lv.take(i + 1).drop_last() =~= lv.take(i as int));
                    assert(lv.take(i + 1).last() == ls@[i as int]@);
                }
                let ghost b0 = buf@;
                push_tabs(buf, indents);
                if blank(ls[i].as_str()) {
                    push_str(buf, "///\n");
                } else {
                    push_str(buf, "/// ");
                    push_str(buf, ls[i].as_str());
                    push_str(buf, "\n");
                }
                proof {
                    assert(buf@ =~= old(buf)@ + doc_lines(lv.take(i + 1), indents as nat));
                }
                i += 1;
            }
            assert(lv.take(i as int) =~= lv);
        },
    }
}

fn repr_str(r: ir::EnumReprType) -> (s: &'static str)
    ensures
        s@ == repr_name(r),
{
    match r {
        ir::EnumReprType::I8 => "i8",
        ir::EnumReprType::I16 => "i16",
        ir::EnumReprType::I32 => "i32",
        ir::EnumReprType::I64 => "i64",
        ir::EnumReprType::U8 => "u8",
        ir::EnumReprType::U16 => "u16",
        ir::EnumReprType::U32 => "u32",
        ir::EnumReprType::U64 => "u64",
    }
}

/// The source of an enum.
pub fn enum_item(item: &ir::EnumItem) -> (r: String)
    ensures
        r@ == enum_item_text(item.deep_view()),
{
    let mut buf = String::new();
    push_doc(&mut buf, &item.doc, 0);
    push_str(&mut buf, "#[derive(Copy, Clone, Eq, PartialEq)]\n#[repr(transparent)]\npub struct ");
    push_pascal(&mut buf, item.name.as_str());
    push_str(&mut buf, "(pub ");
    push_str(&mut buf, repr_str(item.repr));
    push_str(&mut buf, ");\n\nimpl ");
    push_pascal(&mut buf, item.name.as_str());
    push_str(&mut buf, " {\n");
    let ghost prefix = buf@;
    let ghost ms = item.members.deep_view();
    let mut i: usize = 0;
    assert(buf@ =~= prefix + enum_members_text(ms.take(0)));
    while i < item.members.len()
        invariant
            i <= item.members@.len(),
            ms == item.members.deep_view(),
            buf@ == prefix + enum_members_text(ms.take(i as int)),
        decreases item.members@.len() - i,
    {
        let member = &item.members[i];
        proof {
            assert(ms.take(i + 1).drop_last() =~= ms.take(i as int));
            assert(ms.take(i + 1).last() == member.deep_view());
        }
        push_doc(&mut buf, &member.doc, 1);
        push_str(&mut buf, "\tpub const ");
        push_scream(&mut buf, member.name.as_str());
        push_str(&mut buf, ": Self = Self(");
        push_value(&mut buf, member.value);
        push_str(&mut buf, ");\n");
        proof {
            assert(buf@ =~= prefix + enum_members_text(ms.take(i + 1)));
        }
        i += 1;
    }
    assert(ms.take(i as int) =~= ms);
    push_str(&mut buf, "}\n");
    assert(buf@ =~= enum_item_text(item.deep_view()));
    buf
}

/// The source of an error type.
pub fn error_item(item: &ir::ErrorItem) -> (r: String)
    ensures
        r@ == error_item_text(item.deep_view()),
{
    let mut buf = String::new();
    push_doc(&mut buf, &item.doc, 0);
    push_str(&mut buf, "#[derive(Copy, Clone, Eq, PartialEq)]\n#[repr(transparent)]\npub struct ");
    push_pascal(&mut buf, item.name.as_str());
    push_str(&mut buf, "(i32);\n\nimpl ");
    push_pascal(&mut buf, item.name.as_str());
    push_str(
        &mut buf,
        " {\n\tpub const UNIMPLEMENTED: Self = Self(-4);\n\tpub const INVALID_LICENSE: Self = Self(-2);\n\tpub const FFI_UNWIND: Self = Self(-3);\n\tpub const CONTEXT_NULL: Self = Self(-1);\n\tpub const SUCCESS: Self = Self(0);\n",
    );
    let ghost prefix = buf@;
    let ghost vs = item.variants.deep_view();
    let mut i: usize = 0;
    assert(buf@ =~= prefix + error_variants_text(vs.take(0)));
    while i < item.variants.len()
        invariant
            i <= item.variants@.len(),
            vs == item.variants.deep_view(),
            buf@ == prefix + error_variants_text(vs.take(i as int)),
        decreases item.variants@.len() - i,
    {
        let variant = &item.variants[i];
        proof {
            assert(vs.take(i + 1).drop_last() =~= vs.take(i as int));
            assert(vs.take(i + 1).last() == variant.deep_view());
        }
        push_doc(&mut buf, &variant.doc, 1);
        push_str(&mut buf, "\tpub const ");
        push_scream(&mut buf, variant.name.as_str());
        push_str(&mut buf, ": Self = Self(");
        push_decimal(&mut buf, (i + 1) as u64);
        push_str(&mut buf, ");\n");
        proof {
            assert(buf@ =~= prefix + error_variants_text(vs.take(i + 1)));
        }
        i += 1;
    }
    assert(vs.take(i as int) =~= vs);
    push_str(&mut buf, "}\n");
    assert(buf@ =~= error_item_text(item.deep_view()));
    buf
}

fn primitive_str(p: ir::PrimitiveType) -> (s: &'static str)
    ensures
        s@ == prim_name(p),
{
    match p {
        ir::PrimitiveType::I8 => "i8",
        ir::PrimitiveType::I16 => "i16",
        ir::PrimitiveType::I32 => "i32",
        ir::PrimitiveType::I64 => "i64",
        ir::PrimitiveType::Isize => "isize",
        ir::PrimitiveType::U8 => "u8",
        ir::PrimitiveType::U16 => "u16",
        ir::PrimitiveType::U32 => "u32",
        ir::PrimitiveType::U64 => "u64",
        ir::PrimitiveType::Usize => "usize",
        ir::PrimitiveType::F32 => "f32",
        ir::PrimitiveType::F64 => "f64",
        ir::PrimitiveType::Bool => "bool",
        ir::PrimitiveType::Char => "char",
    }
}

/// Appends the Rust type of an element in a struct of direction `dir`; a
/// string needs a direction.
fn push_element_type(buf: &mut String, e: &ir::ElementType, dir: Option<StructDirection>)
    requires
        !(e.deep_view() is String) || dir is Some,
    ensures
        final(buf)@ == old(buf)@ + elem_text(e.deep_view(), dir),
{
    match e {
        ir::ElementType::Primitive(p) => push_str(buf, primitive_str(*p)),
        ir::ElementType::String => match dir {
            Some(StructDirection::In) => push_str(buf, "crate::_array::StrPtr"),
            _ => push_str(buf, "*mut crate::StringHandle"),
        },
        ir::ElementType::TypeName(n) => {
            push_str(buf, "crate::");
            push_snake(buf, n.module.as_str());
            push_str(buf, "::");
            push_pascal(buf, n.name.as_str());
            assert(buf@ =~= old(buf)@ + elem_text(e.deep_view(), dir));
        },
    }
}

/// Appends the Rust type of a field in a struct of direction `dir`.
fn push_ty(buf: &mut String, t: &ir::Type, dir: Option<StructDirection>)
    requires
        renders(t.deep_view(), dir),
    ensures
        final(buf)@ == old(buf)@ + ty_text(t.deep_view(), dir),
{
    match t {
        ir::Type::Element(el) => push_element_type(buf, el, dir),
        ir::Type::Array1D(ir::ElementType::String) => match dir {
            Some(StructDirection::Out) => push_str(buf, "crate::Array1D<crate::StringHandle>"),
            _ => push_str(buf, "crate::Array1DPtr<crate::_array::StrPtr>"),
        },
        ir::Type::Array1D(el) => {
            match dir {
                Some(StructDirection::Out) => push_str(buf, "crate::Array1D<"),
                _ => push_str(buf, "crate::Array1DPtr<"),
            }
            push_element_type(buf, el, dir);
            push_str(buf, ">");
            assert(buf@ =~= old(buf)@ + ty_text(t.deep_view(), dir));
        },
        ir::Type::Array2D(el) => {
            match dir {
                Some(StructDirection::Out) => push_str(buf, "crate::Array2D<"),
                _ => push_str(buf, "crate::Array2DPtr<"),
            }
            push_element_type(buf, el, dir);
            push_str(buf, ">");
            assert(buf@ =~= old(buf)@ + ty_text(t.deep_view(), dir));
        },
        _ => {},
    }
}

/// The source of a function: its declaration in an `extern "C"` block.
pub fn function_item(item: &ir::FnItem, lookup: &ir::Lookup) -> (r: String)
    requires
        fields_render(item.deep_view().params.fields, item.params.direction),
    ensures
        r@ == function_item_text(item.deep_view()),
{
    let mut buf = String::new();
    push_str(&mut buf, "extern \"C\" {\n");
    push_doc(&mut buf, &item.doc, 1);
    push_str(&mut buf, "\t#[link_name = \"");
    push_str(&mut buf, item.link_name.as_str());
    push_str(&mut buf, "\"]\n\tpub fn ");
    push_snake(&mut buf, item.name.as_str());
    push_str(&mut buf, "(\n");
    let ghost prefix = buf@;
    let ghost fs = item.params.fields.deep_view();
    let dir = item.params.direction;
    let mut i: usize = 0;
    assert(buf@ =~= prefix + params_text(fs.take(0), dir));
    while i < item.params.fields.len()
        invariant
            i <= item.params.fields@.len(),
            fs == item.params.fields.deep_view(),
            dir == item.params.direction,
            fields_render(fs, dir),
            buf@ == prefix + params_text(fs.take(i as int), dir),
        decreases item.params.fields@.len() - i,
    {
        let p = &item.params.fields[i];
        proof {
            assert(fs.take(i + 1).drop_last() =~= fs.take(i as int));
            assert(fs.take(i + 1).last() == p.deep_view());
            assert(renders(fs[i as int].ty, dir));
        }
        push_doc(&mut buf, &p.doc, 2);
        push_str(&mut buf, "\t\t");
        push_snake(&mut buf, p.name.as_str());
        push_str(&mut buf, ": ");
        push_ty(&mut buf, &p.ty, dir);
        push_str(&mut buf, ",\n");
        proof {
            assert(buf@ =~= prefix + params_text(fs.take(i + 1), dir));
        }
        i += 1;
    }
    assert(fs.take(i as int) =~= fs);
    push_str(&mut buf, "\t);\n}\n");
    assert(buf@ =~= function_item_text(item.deep_view()));
    buf
}

/// The manifest of the generated crate.
pub fn cargo_toml() -> (r: String)
    ensures
        r@ == cargo_toml_text(),
{
    let mut buf = String::new();
    push_str(&mut buf, "[package]\nname = \"example-sys\"\nversion = \"0.1.0\"\nedition = \"2021\"\n\n[dependencies]\n");
    assert(buf@ =~= cargo_toml_text());
    buf
}

/// The crate root of the generated crate.
pub fn lib_rs(library: &ir::Library) -> (r: String)
    ensures
        r@ == lib_rs_text(library.deep_view()),
{
    let mut buf = String::new();
    push_str(&mut buf, "mod _array;\npub use _array::*;\n\n");
    let ghost prefix = buf@;
    let ghost ms = library.modules.deep_view();
    let mut i: usize = 0;
    assert(buf@ =~= prefix + module_decls_text(ms.take(0)));
    while i < library.modules.len()
        invariant
            i <= library.modules@.len(),
            ms == library.modules.deep_view(),
            buf@ == prefix + module_decls_text(ms.take(i as int)),
        decreases library.modules@.len() - i,
    {
        proof {
            assert(ms.take(i + 1).drop_last() =~= ms.take(i as int));
            assert(ms.take(i + 1).last() == library.modules@[i as int].deep_view());
        }
        push_str(&mut buf, "pub mod ");
        push_snake(&mut buf, library.modules[i].name.as_str());
        push_str(&mut buf, ";\n");
        proof {
            assert(buf@ =~= prefix + module_decls_text(ms.take(i + 1)));
        }
        i += 1;
    }
    assert(ms.take(i as int) =~= ms);
    buf
}

/// The `mod.rs` of a module.
pub fn module_mod_rs(module: &ir::Module) -> (r: String)
    ensures
        r@ == module_mod_rs_text(module.deep_view()),
{
    let mut buf = String::new();
    let ghost items = module.items.deep_view();
    let mut i: usize = 0;
    assert(buf@ =~= item_decls_text(items.take(0)));
    while i < module.items.len()
        invariant
            i <= module.items@.len(),
            items == module.items.deep_view(),
            buf@ == item_decls_text(items.take(i as int)),
        decreases module.items@.len() - i,
    {
        let item = &module.items[i];
        proof {
            assert(items.take(i + 1).drop_last() =~= items.take(i as int));
            assert(items.take(i + 1).last() == item.deep_view());
        }
        push_str(&mut buf, "mod ");
        push_snake(&mut buf, item.name());
        push_str(&mut buf, "; // ");
        push_str(&mut buf, item.variant_name());
        push_str(&mut buf, "\n");
        proof {
            assert(buf@ =~= item_decls_text(items.take(i + 1)));
        }
        i += 1;
    }
    assert(items.take(i as int) =~= items);
    let ghost prefix = buf@;
    let mut i: usize = 0;
    assert(buf@ =~= prefix + item_uses_text(items.take(0)));
    while i < module.items.len()
        invariant
            i <= module.items@.len(),
            items == module.items.deep_view(),
            buf@ == prefix + item_uses_text(items.take(i as int)),
        decreases module.items@.len() - i,
    {
        let item = &module.items[i];
        proof {
            assert(items.take(i + 1).drop_last() =~= items.take(i as int));
            assert(items.take(i + 1).last() == item.deep_view());
        }
        push_str(&mut buf, "pub use self::");
        push_snake(&mut buf, item.name());
        push_str(&mut buf, "::*;\n");
        proof {
            assert(buf@ =~= prefix + item_uses_text(items.take(i + 1)));
        }
        i += 1;
    }
    assert(items.take(i as int) =~= items);
    buf
}

/// The source of a handle: an opaque pointer.
pub fn handle_item(item: &ir::HandleItem) -> (r: String)
    ensures
        r@ == handle_item_text(item.deep_view()),
{
    let mut buf = String::new();
    push_doc(&mut buf, &item.doc, 0);
    push_str(&mut buf, "pub struct ");
    push_pascal(&mut buf, item.name.as_str());
    push_str(&mut buf, "(pub *mut std::ffi::c_void);\n");
    assert(buf@ =~= handle_item_text(item.deep_view()));
    buf
}

/// The source of a struct.
pub fn struct_item(item: &ir::StructItem, lookup: &ir::Lookup) -> (r: String)
    requires
        fields_render(item.deep_view().fields, item.direction),
    ensures
        r@ == struct_item_text(item.deep_view()),
{
    let mut buf = String::new();
    push_doc(&mut buf, &item.doc, 0);
    push_str(&mut buf, "#[repr(C)]\npub struct ");
    push_pascal(&mut buf, item.name.as_str());
    push_str(&mut buf, " {\n");
    let ghost prefix = buf@;
    let ghost fs = item.fields.deep_view();
    let dir = item.direction;
    let mut i: usize = 0;
    assert(buf@ =~= prefix + struct_fields_text(fs.take(0), dir));
    while i < item.fields.len()
        invariant
            i <= item.fields@.len(),
            fs == item.fields.deep_view(),
            dir == item.direction,
            fields_render(fs, dir),
            buf@ == prefix + struct_fields_text(fs.take(i as int), dir),
        decreases item.fields@.len() - i,
    {
        let field = &item.fields[i];
        proof {
            assert(fs.take(i + 1).drop_last() =~= fs.take(i as int));
            assert(fs.take(i + 1).last() == field.deep_view());
            assert(renders(fs[i as int].ty, dir));
        }
        push_doc(&mut buf, &field.doc, 1);
        push_str(&mut buf, "\tpub ");
        push_snake(&mut buf, field.name.as_str());
        push_str(&mut buf, ": ");
        push_ty(&mut buf, &field.ty, dir);
        push_str(&mut buf, ",\n");
        proof {
            assert(buf@ =~= prefix + struct_fields_text(fs.take(i + 1), dir));
        }
        i += 1;
    }
    assert(fs.take(i as int) =~= fs);
    push_str(&mut buf, "}\n");
    assert(buf@ =~= struct_item_text(item.deep_view()));
    buf
}

fn file(path: String, contents: String) -> (r: GeneratedFile)
    ensures
        r.deep_view() == (path@, contents@),
{
    GeneratedFile { path, contents }
}

/// The source of an item.
fn item_source(item: &ir::Item, lookup: &ir::Lookup) -> (r: String)
    requires
        match item.deep_view() {
            ir::SItem::Struct(s) => fields_render(s.fields, s.direction),
            ir::SItem::Function(f) => fields_render(f.params.fields, f.params.direction),
            _ => true,
        },
    ensures
        r@ == item_text(item.deep_view()),
{
    match item {
        ir::Item::Enum(enumeration) => enum_item(enumeration),
        ir::Item::Error(error) => error_item(error),
        ir::Item::Function(func) => function_item(func, lookup),
        ir::Item::Handle(handle) => handle_item(handle),
        ir::Item::Struct(structure) => struct_item(structure, lookup),
    }
}

fn type_renders(t: &ir::Type, dir: Option<StructDirection>) -> (r: bool)
    ensures
        r == renders(t.deep_view(), dir),
{
    match t {
        ir::Type::Element(e) => !matches!(e, ir::ElementType::String) || dir.is_some(),
        ir::Type::Array1D(_) => dir.is_some(),
        ir::Type::Array2D(_) => dir.is_some(),
        _ => false,
    }
}

fn fields_renders(fs: &Vec<ir::Field>, dir: Option<StructDirection>) -> (r: bool)
    ensures
        r == fields_render(fs.deep_view(), dir),
{
    let ghost fv = fs.deep_view();
    let mut i: usize = 0;
    while i < fs.len()
        invariant
            i <= fs@.len(),
            fv == fs.deep_view(),
            forall|k: int| 0 <= k < i ==> renders(#[trigger] fv[k].ty, dir),
        decreases fs@.len() - i,
    {
        let ok = type_renders(&fs[i].ty, dir);
        assert(fv[i as int] == fs@[i as int].deep_view());
        assert(fv[i as int].ty == fs@[i as int].ty.deep_view());
        if !ok {
            assert(!renders(fv[i as int].ty, dir));
            return false;
        }
        i += 1;
    }
    true
}

/// Whether `generate` can write the library: every field and parameter type
/// has a text.
pub fn renderable(library: &ir::Library) -> (r: bool)
    ensures
        r == library_renders(library.deep_view()),
{
    let ghost lib = library.deep_view();
    let mut i: usize = 0;
    while i < library.modules.len()
        invariant
            i <= library.modules@.len(),
            lib == library.deep_view(),
            forall|a: int, b: int|
                0 <= a < i && 0 <= b < lib.modules[a].items.len() ==> match #[trigger] lib.modules[a].items[b] {
                    ir::SItem::Struct(s) => fields_render(s.fields, s.direction),
                    ir::SItem::Function(f) => fields_render(f.params.fields, f.params.direction),
                    _ => true,
                },
        decreases library.modules@.len() - i,
    {
        let items = &library.modules[i].items;
        let ghost iv = lib.modules[i as int].items;
        assert(iv == items.deep_view());
        let mut j: usize = 0;
        while j < items.len()
            invariant
                i < library.modules@.len(),
                j <= items@.len(),
                lib == library.deep_view(),
                iv == items.deep_view(),
                iv == lib.modules[i as int].items,
                forall|a: int, b: int|
                    0 <= a < i && 0 <= b < lib.modules[a].items.len() ==> match #[trigger] lib.modules[a].items[b] {
                        ir::SItem::Struct(s) => fields_render(s.fields, s.direction),
                        ir::SItem::Function(f) => fields_render(f.params.fields, f.params.direction),
                        _ => true,
                    },
                forall|b: int| 0 <= b < j ==> match #[trigger] iv[b] {
                    ir::SItem::Struct(s) => fields_render(s.fields, s.direction),
                    ir::SItem::Function(f) => fields_render(f.params.fields, f.params.direction),
                    _ => true,
                },
            decreases items@.len() - j,
        {
            assert(iv[j as int] == items@[j as int].deep_view());
            let ok = match &items[j] {
                ir::Item::Struct(s) => fields_renders(&s.fields, s.direction),
                ir::Item::Function(f) => fields_renders(&f.params.fields, f.params.direction),
                _ => true,
            };
            if !ok {
                assert(!library_renders(lib)) by {
                    assert(lib.modules[i as int].items[j as int] == iv[j as int]);
                }
                return false;
            }
            j += 1;
        }
        i += 1;
    }
    true
}

/// The files of the `-sys` crate of a library: the manifest, the crate
/// root, the array types, then for each module its `mod.rs` and one file per
/// item.
pub fn generate(library: &ir::Library) -> (r: Vec<GeneratedFile>)
    requires
        library_renders(library.deep_view()),
    ensures
        r.deep_view() == generate_files(library.deep_view()),
{
    let lookup = library.lookup();
    let mut files: Vec<GeneratedFile> = Vec::new();
    let f1 = file("Cargo.toml".to_owned(), cargo_toml());
    files.push(f1);
    let f2 = file("src/lib.rs".to_owned(), lib_rs(library));
    files.push(f2);
    let f3 = file("src/_array.rs".to_owned(), ARRAY_RS.to_owned());
    files.push(f3);
    let ghost lib = library.deep_view();
    let ghost header = seq![("Cargo.toml"@, cargo_toml_text()), ("src/lib.rs"@, lib_rs_text(lib)), ("src/_array.rs"@, ARRAY_RS@)];
    assert(files.deep_view() =~= header + module_files(lib.modules.take(0)));
    let mut mi: usize = 0;
    while mi < library.modules.len()
        invariant
            mi <= library.modules@.len(),
            lib == library.deep_view(),
            library_renders(lib),
            lookup.library == library,
            files.deep_view() == header + module_files(lib.modules.take(mi as int)),
        decreases library.modules@.len() - mi,
    {
        let module = &library.modules[mi];
        proof {
            assert(lib.modules.take(mi + 1).drop_last() =~= lib.modules.take(mi as int));
            assert(lib.modules.take(mi + 1).last() == module.deep_view());
        }
        let mut path = "src/".to_owned();
        push_snake(&mut path, module.name.as_str());
        push_str(&mut path, "/mod.rs");
        let f = file(path, module_mod_rs(module));
        let ghost before = files@;
        files.push(f);
        proof {
            lemma_push_deep(before, f);
        }
        let ghost mid = files.deep_view();
        let ghost items = module.items.deep_view();
        let mut ii: usize = 0;
        assert(files.deep_view() =~= mid + item_files(module.name@, items.take(0)));
        while ii < module.items.len()
            invariant
                ii <= module.items@.len(),
                mi < library.modules@.len(),
                module == &library.modules[mi as int],
                lib == library.deep_view(),
                library_renders(lib),
                lookup.library == library,
                items == module.items.deep_view(),
                files.deep_view() == mid + item_files(module.name@, items.take(ii as int)),
            decreases module.items@.len() - ii,
        {
            let item = &module.items[ii];
            proof {
                assert(items.take(ii + 1).drop_last() =~= items.take(ii as int));
                assert(items.take(ii + 1).last() == item.deep_view());
                assert(lib.modules[mi as int].items[ii as int] == item.deep_view());
            }
            let mut path = "src/".to_owned();
            push_snake(&mut path, module.name.as_str());
            push_str(&mut path, "/");
            push_snake(&mut path, item.name());
            push_str(&mut path, ".rs");
            let f = file(path, item_source(item, &lookup));
            let ghost before = files@;
            files.push(f);
            proof {
                lemma_push_deep(before, f);
                assert(files.deep_view() =~= mid + item_files(module.name@, items.take(ii + 1)));
            }
            ii += 1;
        }
        assert(items.take(ii as int) =~= items);
        proof {
            assert(files.deep_view() =~= header + module_files(lib.modules.take(mi + 1)));
        }
        mi += 1;
    }
    assert(lib.modules.take(mi as int) =~= lib.modules);
    files
}

} // verus!
