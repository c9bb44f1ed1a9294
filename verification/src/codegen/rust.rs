//! Generation of Rust bindings: one file per enum, error type and function.
use crate::ast::parser::lemma_push_deep;
use crate::codegen::rustsys::{item_count, repr_name};
use crate::codegen::text::{
    decimal, lines, lines_of, pascal_of, push_decimal, push_pascal, push_snake, push_tabs, push_value,
    signed_decimal, snake_of, tabs, value_int,
};
use crate::codegen::GeneratedFile;
use crate::ir::dom as ir;
use crate::text::push_str;
use vstd::prelude::*;

verus! {

// ---------------------------------------------------------------------------
// The texts

/// Doc comment lines, each `/// ` and the line, indented by `indents` tabs.
pub open spec fn doc_lines(ls: Seq<Seq<char>>, indents: nat) -> Seq<char>
    decreases ls.len(),
{
    if ls.len() == 0 {
        seq![]
    } else {
        doc_lines(ls.drop_last(), indents) + tabs(indents) + "/// "@ + ls.last() + "\n"@
    }
}

pub open spec fn doc_text(indents: nat, doc: Option<Seq<char>>) -> Seq<char> {
    match doc {
        Some(d) => doc_lines(lines(d), indents),
        None => seq![],
    }
}

pub open spec fn enum_members_text(ms: Seq<ir::SEnumMember>) -> Seq<char>
    decreases ms.len(),
{
    if ms.len() == 0 {
        seq![]
    } else {
        let m = ms.last();
        enum_members_text(ms.drop_last()) + doc_text(1, m.doc) + "\tpub const "@ + pascal_of(m.name)
            + ": Self = Self("@ + signed_decimal(value_int(m.value)) + ");\n"@
    }
}

/// A transparent struct around the representation type, with one constant
/// per member; the `impl` block is left open.
pub open spec fn enum_item_text(item: ir::SEnumItem) -> Seq<char> {
    doc_text(0, item.doc) + "#[derive(Copy, Clone, Eq, PartialEq)]\n#[repr(transparent)]\npub struct "@
        + pascal_of(item.name) + "(pub "@ + repr_name(item.repr) + ");\n\nimpl "@ + pascal_of(item.name)
        + " {\n"@ + enum_members_text(item.members)
}

/// The variants numbered from 0.
pub open spec fn error_variants_text(vs: Seq<ir::SErrorVariant>) -> Seq<char>
    decreases vs.len(),
{
    if vs.len() == 0 {
        seq![]
    } else {
        let v = vs.last();
        error_variants_text(vs.drop_last()) + doc_text(1, v.doc) + "\tpub const "@ + pascal_of(v.name)
            + ": Self = Self("@ + decimal((vs.len() - 1) as nat) + ");\n"@
    }
}

/// An `i32` struct with one constant per variant; the `impl` block is left
/// open.
pub open spec fn error_item_text(item: ir::SErrorItem) -> Seq<char> {
    doc_text(0, item.doc) + "pub struct "@ + pascal_of(item.name) + "(i32);\n\nimpl "@ + pascal_of(item.name)
        + " {\n"@ + error_variants_text(item.variants)
}

/// A function that takes its parameter struct and is not implemented.
pub open spec fn function_item_text(item: ir::SFnItem) -> Seq<char> {
    doc_text(0, item.doc) + "pub fn "@ + snake_of(item.name) + "(args: "@ + pascal_of(item.params.name)
        + ") {\n\tunimplemented!();\n}\n"@
}

/// A generated function is its doc, then `pub fn`, the function's name in
/// snake_case, and one argument `args` whose type is the name of its
/// parameter struct in PascalCase; its body is left unimplemented.
pub proof fn law_function_signature(item: ir::SFnItem)
    ensures
        function_item_text(item) == doc_text(0, item.doc) + "pub fn "@ + crate::case::spec_snake(
            vstd::utf8::encode_utf8(item.name),
        ) + "(args: "@ + crate::case::spec_pascal(vstd::utf8::encode_utf8(item.params.name))
            + ") {\n\tunimplemented!();\n}\n"@,
{
}

/// The function lowered from a declaration `f` with a link name is
/// generated with an argument whose type is the PascalCase of `f`'s name
/// followed by `In`: the struct that its parameters form.
pub proof fn law_lowered_function_args(m: Seq<char>, f: crate::ast::dom::SFnItem)
    requires
        crate::passes::ast2ir::spec_link_name(f.attrs) is Some,
    ensures
        crate::passes::ast2ir::lower_fn(m, f).0.last() matches ir::SItem::Function(func) && function_item_text(func)
            == doc_text(0, func.doc) + "pub fn "@ + crate::case::spec_snake(vstd::utf8::encode_utf8(f.id.name))
            + "(args: "@ + crate::case::spec_pascal(vstd::utf8::encode_utf8(f.id.name + "In"@))
            + ") {\n\tunimplemented!();\n}\n"@,
{
    crate::passes::ast2ir::law_fn_params_in(m, f);
}

/// Enums, error types and functions have a text.
pub open spec fn generated(item: ir::SItem) -> bool {
    item is Enum || item is Error || item is Function
}

pub open spec fn item_text(item: ir::SItem) -> Seq<char> {
    match item {
        ir::SItem::Enum(e) => enum_item_text(e),
        ir::SItem::Error(e) => error_item_text(e),
        ir::SItem::Function(f) => function_item_text(f),
        _ => seq![],
    }
}

/// `<module>/<name>.rs`, both in snake_case.
pub open spec fn item_path(module: Seq<char>, name: Seq<char>) -> Seq<char> {
    snake_of(module) + "/"@ + snake_of(name) + ".rs"@
}

pub open spec fn item_files(module: Seq<char>, items: Seq<ir::SItem>) -> Seq<(Seq<char>, Seq<char>)>
    decreases items.len(),
{
    if items.len() == 0 {
        seq![]
    } else {
        item_files(module, items.drop_last()).push((item_path(module, items.last().name()), item_text(items.last())))
    }
}

pub open spec fn module_files(mods: Seq<ir::SModule>) -> Seq<(Seq<char>, Seq<char>)>
    decreases mods.len(),
{
    if mods.len() == 0 {
        seq![]
    } else {
        module_files(mods.drop_last()) + item_files(mods.last().name, mods.last().items)
    }
}

proof fn lemma_item_files(module: Seq<char>, items: Seq<ir::SItem>)
    ensures
        item_files(module, items).len() == items.len(),
        forall|k: int| 0 <= k < items.len() ==> #[trigger] item_files(module, items)[k] == (
            item_path(module, items[k].name()),
            item_text(items[k]),
        ),
    decreases items.len(),
{
    if items.len() > 0 {
        lemma_item_files(module, items.drop_last());
        let fs = item_files(module, items);
        assert forall|k: int| 0 <= k < items.len() implies #[trigger] fs[k] == (
            item_path(module, items[k].name()),
            item_text(items[k]),
        ) by {
            if k < items.len() - 1 {
                assert(items[k] == items.drop_last()[k]);
            }
        }
    }
}

proof fn lemma_module_files_len(mods: Seq<ir::SModule>)
    ensures
        module_files(mods).len() == item_count(mods),
    decreases mods.len(),
{
    if mods.len() > 0 {
        lemma_module_files_len(mods.drop_last());
        lemma_item_files(mods.last().name, mods.last().items);
    }
}

/// The bindings have one file per item, at `<module>/<item>.rs`, holding the
/// item's text.
pub proof fn law_one_file_per_item(lib: ir::SLibrary)
    ensures
        module_files(lib.modules).len() == item_count(lib.modules),
        forall|module: Seq<char>, items: Seq<ir::SItem>, k: int|
            0 <= k < items.len() ==> #[trigger] item_files(module, items)[k] == (
                item_path(module, items[k].name()),
                item_text(items[k]),
            ),
{
    lemma_module_files_len(lib.modules);
    assert forall|module: Seq<char>, items: Seq<ir::SItem>, k: int|
        0 <= k < items.len() implies #[trigger] item_files(module, items)[k] == (
            item_path(module, items[k].name()),
            item_text(items[k]),
        ) by {
        lemma_item_files(module, items);
    }
}

/// Every item of the library is an enum, an error type or a function.
pub open spec fn library_generated(lib: ir::SLibrary) -> bool {
    forall|i: int, j: int|
        0 <= i < lib.modules.len() && 0 <= j < lib.modules[i].items.len() ==> generated(
            #[trigger] lib.modules[i].items[j],
        )
}

// ---------------------------------------------------------------------------
// The templates

fn push_doc(buf: &mut String, indents: usize, doc: &Option<String>)
    ensures
        final(buf)@ == old(buf)@ + doc_text(indents as nat, doc.deep_view()),
{
    match doc {
        None => {
            assert(buf@ =~= old(buf)@ + seq![]);
        },
        Some(d) => {
            let ls = lines_of(d.as_str());
            let ghost lv = ls.deep_view();
            let mut i: usize = 0;
            assert(buf@ =~= old(buf)@ + doc_lines(lv.take(0), indents as nat));
            while i < ls.len()
                invariant
                    i <= ls@.len(),
                    lv == ls.deep_view(),
                    buf@ == old(buf)@ + doc_lines(lv.take(i as int), indents as nat),
                decreases ls@.len() - i,
            {
                proof {
                    assert(lv.take(i + 1).drop_last() =~= lv.take(i as int));
                    assert(lv.take(i + 1).last() == ls@[i as int]@);
                }
                push_tabs(buf, indents);
                push_str(buf, "/// ");
                push_str(buf, ls[i].as_str());
                push_str(buf, "\n");
                proof {
                    assert(buf@ =~= old(buf)@ + doc_lines(lv.take(i + 1), indents as nat));
                }
                i += 1;
            }
            assert(lv.take(i as int) =~= lv);
        },
    }
}

fn repr_str(r: ir::EnumReprType) -> (s: &'static str)
    ensures
        s@ == repr_name(r),
{
    match r {
        ir::EnumReprType::I8 => "i8",
        ir::EnumReprType::I16 => "i16",
        ir::EnumReprType::I32 => "i32",
        ir::EnumReprType::I64 => "i64",
        ir::EnumReprType::U8 => "u8",
        ir::EnumReprType::U16 => "u16",
        ir::EnumReprType::U32 => "u32",
        ir::EnumReprType::U64 => "u64",
    }
}

/// The source of an enum.
pub fn enum_item(item: &ir::EnumItem) -> (r: String)
    ensures
        r@ == enum_item_text(item.deep_view()),
{
    let mut buf = String::new();
    push_doc(&mut buf, 0, &item.doc);
    push_str(&mut buf, "#[derive(Copy, Clone, Eq, PartialEq)]\n#[repr(transparent)]\npub struct ");
    push_pascal(&mut buf, item.name.as_str());
    push_str(&mut buf, "(pub ");
    push_str(&mut buf, repr_str(item.repr));
    push_str(&mut buf, ");\n\nimpl ");
    push_pascal(&mut buf, item.name.as_str());
    push_str(&mut buf, " {\n");
    let ghost prefix = buf@;
    let ghost ms = item.members.deep_view();
    let mut i: usize = 0;
    assert(buf@ =~= prefix + enum_members_text(ms.take(0)));
    while i < item.members.len()
        invariant
            i <= item.members@.len(),
            ms == item.members.deep_view(),
            buf@ == prefix + enum_members_text(ms.take(i as int)),
        decreases item.members@.len() - i,
    {
        let member = &item.members[i];
        proof {
            assert(ms.take(i + 1).drop_last() =~= ms.take(i as int));
            assert(ms.take(i + 1).last() == member.deep_view());
        }
        push_doc(&mut buf, 1, &member.doc);
        push_str(&mut buf, "\tpub const ");
        push_pascal(&mut buf, member.name.as_str());
        push_str(&mut buf, ": Self = Self(");
        push_value(&mut buf, member.value);
        push_str(&mut buf, ");\n");
        proof {
            assert(buf@ =~= prefix + enum_members_text(ms.take(i + 1)));
        }
        i += 1;
    }
    assert(ms.take(i as int) =~= ms);
    assert(buf@ =~= enum_item_text(item.deep_view()));
    buf
}

/// The source of an error type.
pub fn error_item(item: &ir::ErrorItem) -> (r: String)
    ensures
        r@ == error_item_text(item.deep_view()),
{
    let mut buf = String::new();
    push_doc(&mut buf, 0, &item.doc);
    push_str(&mut buf, "pub struct ");
    push_pascal(&mut buf, item.name.as_str());
    push_str(&mut buf, "(i32);\n\nimpl ");
    push_pascal(&mut buf, item.name.as_str());
    push_str(&mut buf, " {\n");
    let ghost prefix = buf@;
    let ghost vs = item.variants.deep_view();
    let mut i: usize = 0;
    assert(buf@ =~= prefix + error_variants_text(vs.take(0)));
    while i < item.variants.len()
        invariant
            i <= item.variants@.len(),
            vs == item.variants.deep_view(),
            buf@ == prefix + error_variants_text(vs.take(i as int)),
        decreases item.variants@.len() - i,
    {
        let variant = &item.variants[i];
        proof {
            assert(vs.take(i + 1).drop_last() =~= vs.take(i as int));
            assert(vs.take(i + 1).last() == variant.deep_view());
        }
        push_doc(&mut buf, 1, &variant.doc);
        push_str(&mut buf, "\tpub const ");
        push_pascal(&mut buf, variant.name.as_str());
        push_str(&mut buf, ": Self = Self(");
        push_decimal(&mut buf, i as u64);
        push_str(&mut buf, ");\n");
        proof {
            assert(buf@ =~= prefix + error_variants_text(vs.take(i + 1)));
        }
        i += 1;
    }
    assert(vs.take(i as int) =~= vs);
    assert(buf@ =~= error_item_text(item.deep_view()));
    buf
}

/// The source of a function.
pub fn function_item(item: &ir::FnItem) -> (r: String)
    ensures
        r@ == function_item_text(item.deep_view()),
{
    let mut buf = String::new();
    push_doc(&mut buf, 0, &item.doc);
    push_str(&mut buf, "pub fn ");
    push_snake(&mut buf, item.name.as_str());
    push_str(&mut buf, "(args: ");
    push_pascal(&mut buf, item.params.name.as_str());
    push_str(&mut buf, ") {\n\tunimplemented!();\n}\n");
    assert(buf@ =~= function_item_text(item.deep_view()));
    buf
}

/// The files of the bindings of a library: one per item, under a directory
/// per module. Only enums, error types and functions are generated.
pub fn generate(library: &ir::Library) -> (r: Vec<GeneratedFile>)
    requires
        library_generated(library.deep_view()),
    ensures
        r.deep_view() == module_files(library.deep_view().modules),
{
    let ghost lib = library.deep_view();
    let mut files: Vec<GeneratedFile> = Vec::new();
    assert(files.deep_view() =~= module_files(lib.modules.take(0)));
    let mut mi: usize = 0;
    while mi < library.modules.len()
        invariant
            mi <= library.modules@.len(),
            lib == library.deep_view(),
            library_generated(lib),
            files.deep_view() == module_files(lib.modules.take(mi as int)),
        decreases library.modules@.len() - mi,
    {
        let module = &library.modules[mi];
        proof {
            assert(lib.modules.take(mi + 1).drop_last() =~= lib.modules.take(mi as int));
            assert(lib.modules.take(mi + 1).last() == module.deep_view());
        }
        let ghost mid = files.deep_view();
        let ghost items = module.items.deep_view();
        let mut ii: usize = 0;
        assert(files.deep_view() =~= mid + item_files(module.name@, items.take(0)));
        while ii < module.items.len()
            invariant
                ii <= module.items@.len(),
                mi < library.modules@.len(),
                module == &library.modules[mi as int],
                lib == library.deep_view(),
                library_generated(lib),
                items == module.items.deep_view(),
                files.deep_view() == mid + item_files(module.name@, items.take(ii as int)),
            decreases module.items@.len() - ii,
        {
            let item = &module.items[ii];
            proof {
                assert(items.take(ii + 1).drop_last() =~= items.take(ii as int));
                assert(items.take(ii + 1).last() == item.deep_view());
                assert(generated(lib.modules[mi as int].items[ii as int]));
            }
            let contents = match item {
                ir::Item::Enum(enumeration) => enum_item(enumeration),
                ir::Item::Error(error) => error_item(error),
                ir::Item::Function(func) => function_item(func),
                _ => String::new(),
            };
            let mut path = String::new();
            push_snake(&mut path, module.name.as_str());
            push_str(&mut path, "/");
            push_snake(&mut path, item.name());
            push_str(&mut path, ".rs");
            let f = GeneratedFile { path, contents };
            let ghost before = files@;
            files.push(f);
            proof {
                lemma_push_deep(before, f);
                assert(files.deep_view() =~= mid + item_files(module.name@, items.take(ii + 1)));
            }
            ii += 1;
        }
        assert(items.take(ii as int) =~= items);
        proof {
            assert(files.deep_view() =~= module_files(lib.modules.take(mi + 1)));
        }
        mi += 1;
    }
    assert(lib.modules.take(mi as int) =~= lib.modules);
    files
}

} // verus!
