//! Lowering of qualified syntax trees into the intermediate representation:
//! one module per module name, in the order of the names' bytes, holding the
//! items of every file that declares it, in file order. Inline declarations
//! become items of their own, placed before the item that holds them.
use crate::ast::dom as ast;
use crate::error::{Error, ErrorKind};
use crate::ir::dom as ir;
use crate::ast::dom::{fields_seq_v, lemma_field_v, lemma_fields_len, lemma_struct_item_v, lemma_type_decl_v};
use crate::ast::parser::{lemma_push_deep, str_eq};
use crate::num::{parse_magnitude, spec_parse_in};
use crate::passes::qualify_names::{q_fields, q_item, q_items, q_opt_type, q_struct, q_type, spec_qualify_names};
use crate::text::{push_char, push_str};
use vstd::prelude::*;
use vstd::string::StringSliceAdditionalSpecFns;
use vstd::utf8::encode_utf8;

verus! {

// ---------------------------------------------------------------------------
// What the pass computes

/// The text of the doc comments, each followed by a newline.
pub open spec fn doc_text(attrs: Seq<ast::SAttribute>) -> Seq<char>
    decreases attrs.len(),
{
    if attrs.len() == 0 {
        seq![]
    } else {
        doc_text(attrs.drop_last()) + match attrs.last().kind {
            ast::SAttrKind::Doc { comment, .. } => comment.push('\n'),
            _ => seq![],
        }
    }
}

/// The documentation of an item: its doc comments, if it has any text.
pub open spec fn spec_doc(attrs: Seq<ast::SAttribute>) -> Option<Seq<char>> {
    if doc_text(attrs).len() == 0 {
        None
    } else {
        Some(doc_text(attrs))
    }
}

/// The value of the first `link_name = value` attribute from the `i`-th on.
pub open spec fn link_name_from(attrs: Seq<ast::SAttribute>, i: int) -> Option<Seq<char>>
    decreases attrs.len() - i,
{
    if i < 0 || i >= attrs.len() {
        None
    } else {
        match attrs[i].kind {
            ast::SAttrKind::Kv { key, value, .. } => if key.name == "link_name"@ {
                Some(value)
            } else {
                link_name_from(attrs, i + 1)
            },
            _ => link_name_from(attrs, i + 1),
        }
    }
}

pub open spec fn spec_link_name(attrs: Seq<ast::SAttribute>) -> Option<Seq<char>> {
    link_name_from(attrs, 0)
}

pub open spec fn repr_of(r: ast::EnumReprType) -> ir::EnumReprType {
    match r {
        ast::EnumReprType::I8 => ir::EnumReprType::I8,
        ast::EnumReprType::I16 => ir::EnumReprType::I16,
        ast::EnumReprType::I32 => ir::EnumReprType::I32,
        ast::EnumReprType::I64 => ir::EnumReprType::I64,
        ast::EnumReprType::U8 => ir::EnumReprType::U8,
        ast::EnumReprType::U16 => ir::EnumReprType::U16,
        ast::EnumReprType::U32 => ir::EnumReprType::U32,
        ast::EnumReprType::U64 => ir::EnumReprType::U64,
    }
}

/// The zero of a representation type.
pub open spec fn zero_of(r: ir::EnumReprType) -> ir::EnumReprValue {
    match r {
        ir::EnumReprType::I8 => ir::EnumReprValue::I8(0),
        ir::EnumReprType::I16 => ir::EnumReprValue::I16(0),
        ir::EnumReprType::I32 => ir::EnumReprValue::I32(0),
        ir::EnumReprType::I64 => ir::EnumReprValue::I64(0),
        ir::EnumReprType::U8 => ir::EnumReprValue::U8(0),
        ir::EnumReprType::U16 => ir::EnumReprValue::U16(0),
        ir::EnumReprType::U32 => ir::EnumReprValue::U32(0),
        ir::EnumReprType::U64 => ir::EnumReprValue::U64(0),
    }
}

/// The value that the text `bs` spells in the representation type, as
/// `str::parse` reads it.
pub open spec fn value_of(bs: Seq<u8>, r: ir::EnumReprType) -> Option<ir::EnumReprValue> {
    match r {
        ir::EnumReprType::I8 => match spec_parse_in(bs, true, i8::MIN as int, i8::MAX as int) {
            Some(v) => Some(ir::EnumReprValue::I8(v as i8)),
            None => None,
        },
        ir::EnumReprType::I16 => match spec_parse_in(bs, true, i16::MIN as int, i16::MAX as int) {
            Some(v) => Some(ir::EnumReprValue::I16(v as i16)),
            None => None,
        },
        ir::EnumReprType::I32 => match spec_parse_in(bs, true, i32::MIN as int, i32::MAX as int) {
            Some(v) => Some(ir::EnumReprValue::I32(v as i32)),
            None => None,
        },
        ir::EnumReprType::I64 => match spec_parse_in(bs, true, i64::MIN as int, i64::MAX as int) {
            Some(v) => Some(ir::EnumReprValue::I64(v as i64)),
            None => None,
        },
        ir::EnumReprType::U8 => match spec_parse_in(bs, false, 0, u8::MAX as int) {
            Some(v) => Some(ir::EnumReprValue::U8(v as u8)),
            None => None,
        },
        ir::EnumReprType::U16 => match spec_parse_in(bs, false, 0, u16::MAX as int) {
            Some(v) => Some(ir::EnumReprValue::U16(v as u16)),
            None => None,
        },
        ir::EnumReprType::U32 => match spec_parse_in(bs, false, 0, u32::MAX as int) {
            Some(v) => Some(ir::EnumReprValue::U32(v as u32)),
            None => None,
        },
        ir::EnumReprType::U64 => match spec_parse_in(bs, false, 0, u64::MAX as int) {
            Some(v) => Some(ir::EnumReprValue::U64(v as u64)),
            None => None,
        },
    }
}

/// The value after `v` in its representation type, if there is one.
pub open spec fn succ_of(v: ir::EnumReprValue) -> Option<ir::EnumReprValue> {
    match v {
        ir::EnumReprValue::I8(x) => if x < i8::MAX { Some(ir::EnumReprValue::I8((x + 1) as i8)) } else { None },
        ir::EnumReprValue::I16(x) => if x < i16::MAX { Some(ir::EnumReprValue::I16((x + 1) as i16)) } else { None },
        ir::EnumReprValue::I32(x) => if x < i32::MAX { Some(ir::EnumReprValue::I32((x + 1) as i32)) } else { None },
        ir::EnumReprValue::I64(x) => if x < i64::MAX { Some(ir::EnumReprValue::I64((x + 1) as i64)) } else { None },
        ir::EnumReprValue::U8(x) => if x < u8::MAX { Some(ir::EnumReprValue::U8((x + 1) as u8)) } else { None },
        ir::EnumReprValue::U16(x) => if x < u16::MAX { Some(ir::EnumReprValue::U16((x + 1) as u16)) } else { None },
        ir::EnumReprValue::U32(x) => if x < u32::MAX { Some(ir::EnumReprValue::U32((x + 1) as u32)) } else { None },
        ir::EnumReprValue::U64(x) => if x < u64::MAX { Some(ir::EnumReprValue::U64((x + 1) as u64)) } else { None },
    }
}

/// The members of an enum, after a member of value `prev` (none before the
/// first): a member with a value takes it, one without takes the value
/// after the member before it, or zero for the first member. A value that
/// does not fit the representation type is reported, and zero taken in its
/// place. Also gives the value of the last member.
pub open spec fn lower_members(ms: Seq<ast::SEnumMember>, repr: ir::EnumReprType, prev: Option<ir::EnumReprValue>) -> (
    Seq<ir::SEnumMember>,
    Option<ir::EnumReprValue>,
    Seq<Error>,
)
    decreases ms.len(),
{
    if ms.len() == 0 {
        (seq![], prev, seq![])
    } else {
        let (init, p, e1) = lower_members(ms.drop_last(), repr, prev);
        let m = ms.last();
        let (v2, e2) = match m.value {
            Some((span, text)) => match value_of(encode_utf8(text), repr) {
                Some(x) => (x, seq![]),
                None => (zero_of(repr), seq![Error { kind: ErrorKind::EEnumMemberValueInvalid, span }]),
            },
            None => match p {
                None => (zero_of(repr), seq![]),
                Some(v) => match succ_of(v) {
                    Some(x) => (x, seq![]),
                    None => (zero_of(repr), seq![Error { kind: ErrorKind::EEnumMemberValueInvalid, span: m.span }]),
                },
            },
        };
        (init.push(ir::SEnumMember { doc: spec_doc(m.attrs), name: m.id.name, value: v2 }), Some(v2), e1 + e2)
    }
}

pub open spec fn lower_enum(e: ast::SEnumItem) -> (ir::SEnumItem, Seq<Error>) {
    let repr = repr_of(e.repr);
    let (members, _, errs) = lower_members(e.members.items, repr, None);
    (ir::SEnumItem { doc: spec_doc(e.attrs), name: e.id.unwrap().name, repr, members }, errs)
}

pub open spec fn lower_variant(v: ast::SErrorVariant) -> ir::SErrorVariant {
    ir::SErrorVariant { doc: spec_doc(v.attrs), name: v.id.name }
}

pub open spec fn lower_error(e: ast::SErrorItem) -> ir::SErrorItem {
    ir::SErrorItem {
        doc: spec_doc(e.attrs),
        name: e.id.unwrap().name,
        variants: e.variants.items.map_values(|v: ast::SErrorVariant| lower_variant(v)),
    }
}

pub open spec fn prim_of(p: ast::PrimitiveType) -> ir::PrimitiveType {
    match p {
        ast::PrimitiveType::I8 => ir::PrimitiveType::I8,
        ast::PrimitiveType::I16 => ir::PrimitiveType::I16,
        ast::PrimitiveType::I32 => ir::PrimitiveType::I32,
        ast::PrimitiveType::I64 => ir::PrimitiveType::I64,
        ast::PrimitiveType::Isize => ir::PrimitiveType::Isize,
        ast::PrimitiveType::U8 => ir::PrimitiveType::U8,
        ast::PrimitiveType::U16 => ir::PrimitiveType::U16,
        ast::PrimitiveType::U32 => ir::PrimitiveType::U32,
        ast::PrimitiveType::U64 => ir::PrimitiveType::U64,
        ast::PrimitiveType::Usize => ir::PrimitiveType::Usize,
        ast::PrimitiveType::F32 => ir::PrimitiveType::F32,
        ast::PrimitiveType::F64 => ir::PrimitiveType::F64,
        ast::PrimitiveType::Bool => ir::PrimitiveType::Bool,
        ast::PrimitiveType::Char => ir::PrimitiveType::Char,
    }
}

/// The type of an element named `name` in module `m`.
pub open spec fn named(m: Seq<char>, name: Seq<char>) -> ir::SElementType {
    ir::SElementType::TypeName(ir::STypeName { module: m, name })
}

pub open spec fn with_modifier(e: ir::SElementType, modifier: Option<ast::TypeModifier>) -> ir::SType {
    match modifier {
        None => ir::SType::Element(e),
        Some(ast::TypeModifier::ArrayLen(n)) => ir::SType::ArrayN(e, n),
        Some(ast::TypeModifier::Array1D) => ir::SType::Array1D(e),
        Some(ast::TypeModifier::Array2D) => ir::SType::Array2D(e),
        Some(ast::TypeModifier::Array3D) => ir::SType::Array3D(e),
        Some(ast::TypeModifier::Array4D) => ir::SType::Array4D(e),
    }
}

/// A type of module `m`: the items that its inline declarations add, the
/// type, and the diagnostics.
pub open spec fn lower_type(m: Seq<char>, t: ast::STypeDecl) -> (Seq<ir::SItem>, ir::SType, Seq<Error>)
    decreases t,
{
    let (items, elem, errs) = match t.kind {
        ast::STypeDeclKind::Enum(e) => {
            let (ie, errs) = lower_enum(e);
            (seq![ir::SItem::Enum(ie)], named(m, e.id.unwrap().name), errs)
        },
        ast::STypeDeclKind::Error(e) => (seq![ir::SItem::Error(lower_error(e))], named(m, e.id.unwrap().name), seq![]),
        ast::STypeDeclKind::Struct(s) => {
            let (items, is, errs) = lower_struct(m, s);
            (items.push(ir::SItem::Struct(is)), named(m, s.id.unwrap().name), errs)
        },
        ast::STypeDeclKind::Primitive(p) => (seq![], ir::SElementType::Primitive(prim_of(p)), seq![]),
        ast::STypeDeclKind::String => (seq![], ir::SElementType::String, seq![]),
        ast::STypeDeclKind::TypeName(n) => (seq![], named(n.module.unwrap().name, n.name.name), seq![]),
    };
    (items, with_modifier(elem, t.modifier), errs)
}

pub open spec fn lower_field(m: Seq<char>, f: ast::SStructField) -> (Seq<ir::SItem>, ir::SField, Seq<Error>)
    decreases f,
{
    let (items, ty, errs) = lower_type(m, f.ty);
    (items, ir::SField { doc: spec_doc(f.attrs), name: f.id.name, ty }, errs)
}

pub open spec fn lower_fields(m: Seq<char>, fs: Seq<ast::SStructField>) -> (Seq<ir::SItem>, Seq<ir::SField>, Seq<Error>)
    decreases fs,
{
    if fs.len() == 0 {
        (seq![], seq![], seq![])
    } else {
        let (i1, init, e1) = lower_fields(m, fs.drop_last());
        let (i2, f, e2) = lower_field(m, fs.last());
        (i1 + i2, init.push(f), e1 + e2)
    }
}

/// A struct of module `m`: the items that the inline declarations of its
/// fields add, the struct, and the diagnostics.
pub open spec fn lower_struct(m: Seq<char>, s: ast::SStructItem) -> (Seq<ir::SItem>, ir::SStructItem, Seq<Error>)
    decreases s,
{
    let (items, fields, errs) = lower_fields(m, s.fields.items);
    (items, ir::SStructItem { doc: spec_doc(s.attrs), name: s.id.unwrap().name, direction: s.direction, fields }, errs)
}

pub open spec fn lower_opt_type(m: Seq<char>, t: Option<ast::STypeDecl>) -> (Seq<ir::SItem>, Option<ir::SType>, Seq<Error>) {
    match t {
        Some(t) => {
            let (items, ty, errs) = lower_type(m, t);
            (items, Some(ty), errs)
        },
        None => (seq![], None, seq![]),
    }
}

/// A function of module `m`: without a `link_name` attribute it is reported
/// and adds nothing; else the items of its inline declarations, then the
/// function, whose parameters form a struct named after it with `In`.
pub open spec fn lower_fn(m: Seq<char>, f: ast::SFnItem) -> (Seq<ir::SItem>, Seq<Error>) {
    match spec_link_name(f.attrs) {
        None => (seq![], seq![Error { kind: ErrorKind::EFnLinkNameRequired, span: f.id.span }]),
        Some(link_name) => {
            let (i1, fields, e1) = lower_fields(m, f.params.items);
            let params = ir::SStructItem {
                doc: None,
                name: f.id.name + "In"@,
                direction: Some(ast::StructDirection::In),
                fields,
            };
            let (i2, return_ty, e2) = lower_opt_type(m, f.return_ty);
            let (i3, error_ty, e3) = lower_opt_type(m, f.error_ty);
            let func = ir::SFnItem { doc: spec_doc(f.attrs), name: f.id.name, link_name, params, return_ty, error_ty };
            (i1 + i2 + i3 + seq![ir::SItem::Function(func)], e1 + e2 + e3)
        },
    }
}

pub open spec fn lower_item(m: Seq<char>, item: ast::SItem) -> (Seq<ir::SItem>, Seq<Error>) {
    match item {
        ast::SItem::Module(_) => (seq![], seq![]),
        ast::SItem::Enum(e) => {
            let (ie, errs) = lower_enum(e);
            (seq![ir::SItem::Enum(ie)], errs)
        },
        ast::SItem::Error(e) => (seq![ir::SItem::Error(lower_error(e))], seq![]),
        ast::SItem::Struct(s) => {
            let (items, is, errs) = lower_struct(m, s);
            (items.push(ir::SItem::Struct(is)), errs)
        },
        ast::SItem::Function(f) => lower_fn(m, f),
        ast::SItem::Handle(h) => (seq![ir::SItem::Handle(ir::SHandleItem { doc: spec_doc(h.attrs), name: h.id.name })], seq![]),
    }
}

pub open spec fn lower_items(m: Seq<char>, items: Seq<ast::SItem>) -> (Seq<ir::SItem>, Seq<Error>)
    decreases items.len(),
{
    if items.len() == 0 {
        (seq![], seq![])
    } else {
        let (i1, e1) = lower_items(m, items.drop_last());
        let (i2, e2) = lower_item(m, items.last());
        (i1 + i2, e1 + e2)
    }
}

// ---------------------------------------------------------------------------
// What lowering needs: names and qualified type names

pub open spec fn type_ok(t: ast::STypeDecl) -> bool
    decreases t,
{
    match t.kind {
        ast::STypeDeclKind::TypeName(n) => n.module is Some,
        ast::STypeDeclKind::Enum(e) => e.id is Some,
        ast::STypeDeclKind::Error(e) => e.id is Some,
        ast::STypeDeclKind::Struct(s) => struct_ok(s),
        _ => true,
    }
}

pub open spec fn fields_ok(fs: Seq<ast::SStructField>) -> bool
    decreases fs,
{
    fs.len() == 0 || (fields_ok(fs.drop_last()) && type_ok(fs.last().ty))
}

pub open spec fn struct_ok(s: ast::SStructItem) -> bool
    decreases s,
{
    s.id is Some && fields_ok(s.fields.items)
}

pub open spec fn opt_type_ok(t: Option<ast::STypeDecl>) -> bool {
    match t {
        Some(t) => type_ok(t),
        None => true,
    }
}

/// Lowering an item reaches no declaration without a name and no type name
/// without a module.
pub open spec fn item_ok(item: ast::SItem) -> bool {
    match item {
        ast::SItem::Enum(e) => e.id is Some,
        ast::SItem::Error(e) => e.id is Some,
        ast::SItem::Struct(s) => struct_ok(s),
        ast::SItem::Function(f) => spec_link_name(f.attrs) is None || (fields_ok(f.params.items) && opt_type_ok(
            f.return_ty,
        ) && opt_type_ok(f.error_ty)),
        _ => true,
    }
}

pub open spec fn items_ok(items: Seq<ast::SItem>) -> bool {
    forall|i: int| 0 <= i < items.len() ==> item_ok(#[trigger] items[i])
}

// ---------------------------------------------------------------------------
// Modules

/// `a` comes before `b` in the order of their bytes.
pub open spec fn bytes_lt(a: Seq<u8>, b: Seq<u8>) -> bool
    decreases a.len(),
{
    if b.len() == 0 {
        false
    } else if a.len() == 0 {
        true
    } else if a[0] != b[0] {
        a[0] < b[0]
    } else {
        bytes_lt(a.drop_first(), b.drop_first())
    }
}

pub open spec fn name_lt(a: Seq<char>, b: Seq<char>) -> bool {
    bytes_lt(encode_utf8(a), encode_utf8(b))
}

/// The first of the modules from the `i`-th on whose name is not before
/// `name`.
pub open spec fn insert_pos(mods: Seq<ir::SModule>, name: Seq<char>, i: int) -> int
    decreases mods.len() - i,
{
    if i < 0 || i >= mods.len() {
        mods.len() as int
    } else if name_lt(mods[i].name, name) {
        insert_pos(mods, name, i + 1)
    } else {
        i
    }
}

/// The items added to the module named `name`: appended where there is one
/// at the place where the name would go, else in a new module there.
pub open spec fn add_module_items(mods: Seq<ir::SModule>, name: Seq<char>, items: Seq<ir::SItem>) -> Seq<ir::SModule> {
    let i = insert_pos(mods, name, 0);
    if i < mods.len() && mods[i].name == name {
        mods.update(i, ir::SModule { items: mods[i].items + items, ..mods[i] })
    } else {
        mods.insert(i, ir::SModule { doc: None, name, items })
    }
}

/// The modules and the diagnostics that lowering the files gives; a file
/// without a module declaration adds nothing.
pub open spec fn lower_files(files: Seq<Seq<ast::SItem>>) -> (Seq<ir::SModule>, Seq<Error>)
    decreases files.len(),
{
    if files.len() == 0 {
        (seq![], seq![])
    } else {
        let (mods, e1) = lower_files(files.drop_last());
        let items = files.last();
        match ast::first_module(items) {
            None => (mods, e1),
            Some(module) => {
                let (lowered, e2) = lower_items(module.id.name, items);
                (add_module_items(mods, module.id.name, lowered), e1 + e2)
            },
        }
    }
}

pub open spec fn file_items(files: Seq<ast::IdlFile>) -> Seq<Seq<ast::SItem>> {
    files.map_values(|f: ast::IdlFile| f.items.deep_view())
}

/// Every field's type can be lowered.
pub proof fn lemma_fields_ok(fs: Seq<ast::SStructField>, i: int)
    requires
        fields_ok(fs),
        0 <= i < fs.len(),
    ensures
        type_ok(fs[i].ty),
    decreases fs.len(),
{
    if i < fs.len() - 1 {
        lemma_fields_ok(fs.drop_last(), i);
    }
}

/// The value that a member without one takes after a member of value `prev`.
pub open spec fn next_value(repr: ir::EnumReprType, prev: Option<ir::EnumReprValue>) -> ir::EnumReprValue {
    match prev {
        None => zero_of(repr),
        Some(v) => match succ_of(v) {
            Some(x) => x,
            None => zero_of(repr),
        },
    }
}

proof fn lemma_lower_members(ms: Seq<ast::SEnumMember>, repr: ir::EnumReprType, prev: Option<ir::EnumReprValue>)
    ensures
        ({
            let (out, last, _) = lower_members(ms, repr, prev);
            &&& out.len() == ms.len()
            &&& last == (if ms.len() == 0 { prev } else { Some(out.last().value) })
            &&& forall|i: int| 0 <= i < ms.len() ==> (#[trigger] out[i]).name == ms[i].id.name
            &&& forall|i: int| 0 <= i < ms.len() ==> match ms[i].value {
                Some((_, text)) => match value_of(encode_utf8(text), repr) {
                    Some(x) => (#[trigger] out[i]).value == x,
                    None => out[i].value == zero_of(repr),
                },
                None => out[i].value == next_value(repr, if i == 0 { prev } else { Some(out[i - 1].value) }),
            }
        }),
    decreases ms.len(),
{
    if ms.len() > 0 {
        lemma_lower_members(ms.drop_last(), repr, prev);
        let (out, _, _) = lower_members(ms, repr, prev);
        let (init, _, _) = lower_members(ms.drop_last(), repr, prev);
        assert(out == init.push(out.last()));
        assert forall|i: int| 0 <= i < ms.len() - 1 implies #[trigger] out[i] == init[i] && ms[i] == ms.drop_last()[i] by {}
    }
}

/// How the members of an enum are numbered: they keep their order and names;
/// a member with a value takes it, where the value fits the representation
/// type (zero where it does not, which is reported); the first member without
/// a value takes zero; a later member without a value takes the value after
/// the one of the member before it, where that fits.
pub proof fn law_enum_numbering(ms: Seq<ast::SEnumMember>, repr: ir::EnumReprType)
    ensures
        ({
            let out = lower_members(ms, repr, None).0;
            &&& out.len() == ms.len()
            &&& forall|i: int| 0 <= i < ms.len() ==> (#[trigger] out[i]).name == ms[i].id.name
            &&& forall|i: int| 0 <= i < ms.len() ==> match ms[i].value {
                Some((_, text)) => value_of(encode_utf8(text), repr) is Some ==> (#[trigger] out[i]).value
                    == value_of(encode_utf8(text), repr)->0,
                None => true,
            }
            &&& ms.len() > 0 && ms[0].value is None ==> out[0].value == zero_of(repr)
            &&& forall|i: int|
                0 < i < ms.len() && ms[i].value is None && succ_of(out[i - 1].value) is Some
                    ==> (#[trigger] out[i]).value == succ_of(out[i - 1].value)->0
        }),
{
    lemma_lower_members(ms, repr, None);
}

/// A member has a value for the representation type: its own fits, or it has
/// none and the value before it, if any, has a successor.
pub open spec fn member_fits(m: ast::SEnumMember, repr: ir::EnumReprType, before: Option<ir::EnumReprValue>) -> bool {
    match m.value {
        Some((_, text)) => value_of(encode_utf8(text), repr) is Some,
        None => match before {
            None => true,
            Some(v) => succ_of(v) is Some,
        },
    }
}

proof fn lemma_member_errors(ms: Seq<ast::SEnumMember>, repr: ir::EnumReprType, prev: Option<ir::EnumReprValue>)
    requires
        ms.len() > 0,
    ensures
        ({
            let (_, p, e1) = lower_members(ms.drop_last(), repr, prev);
            let errs = lower_members(ms, repr, prev).2;
            &&& errs.len() == 0 <==> (e1.len() == 0 && member_fits(ms.last(), repr, p))
        }),
{
    let (_, p, e1) = lower_members(ms.drop_last(), repr, prev);
    let m = ms.last();
    match m.value {
        Some((span, text)) => {},
        None => {},
    }
}

/// An enum's members are lowered without a diagnostic exactly when every
/// member has a value that fits its representation type.
#[verifier::spinoff_prover]
#[verifier::rlimit(40)]
pub proof fn law_enum_values_checked(ms: Seq<ast::SEnumMember>, repr: ir::EnumReprType, prev: Option<ir::EnumReprValue>)
    ensures
        lower_members(ms, repr, prev).2.len() == 0 <==> forall|i: int|
            0 <= i < ms.len() ==> member_fits(
                #[trigger] ms[i],
                repr,
                if i == 0 { prev } else { Some(lower_members(ms, repr, prev).0[i - 1].value) },
            ),
    decreases ms.len(),
{
    if ms.len() > 0 {
        let n = ms.len() - 1;
        let init_ms = ms.drop_last();
        law_enum_values_checked(init_ms, repr, prev);
        lemma_lower_members(init_ms, repr, prev);
        lemma_lower_members(ms, repr, prev);
        lemma_member_errors(ms, repr, prev);
        let out = lower_members(ms, repr, prev).0;
        let errs = lower_members(ms, repr, prev).2;
        let init = lower_members(init_ms, repr, prev).0;
        let p = lower_members(init_ms, repr, prev).1;
        let e1 = lower_members(init_ms, repr, prev).2;
        let before = if n == 0 { prev } else { Some(out[n - 1].value) };
        assert(out == init.push(out.last()));
        assert(p == before);
        assert forall|i: int| 0 <= i < n implies #[trigger] out[i] == init[i] && ms[i] == init_ms[i] by {}
        if errs.len() == 0 {
            assert forall|i: int| 0 <= i < ms.len() implies member_fits(
                #[trigger] ms[i],
                repr,
                if i == 0 { prev } else { Some(out[i - 1].value) },
            ) by {
                if i < n {
                    assert(member_fits(init_ms[i], repr, if i == 0 { prev } else { Some(init[i - 1].value) }));
                }
            }
        } else if e1.len() == 0 {
            assert(!member_fits(ms[n], repr, before));
        } else {
            let i = choose|i: int| 0 <= i < init_ms.len() && !member_fits(
                #[trigger] init_ms[i],
                repr,
                if i == 0 { prev } else { Some(init[i - 1].value) },
            );
            assert(!member_fits(ms[i], repr, if i == 0 { prev } else { Some(out[i - 1].value) }));
        }
    }
}

// ---------------------------------------------------------------------------
// The order of the modules

/// Every module comes before the next by the bytes of its name.
pub open spec fn modules_sorted(mods: Seq<ir::SModule>) -> bool {
    forall|a: int, b: int| 0 <= a < b < mods.len() ==> name_lt((#[trigger] mods[a]).name, (#[trigger] mods[b]).name)
}

proof fn lemma_bytes_lt_irrefl(a: Seq<u8>)
    ensures
        !bytes_lt(a, a),
    decreases a.len(),
{
    if a.len() > 0 {
        lemma_bytes_lt_irrefl(a.drop_first());
    }
}

proof fn lemma_bytes_lt_trans(a: Seq<u8>, b: Seq<u8>, c: Seq<u8>)
    requires
        bytes_lt(a, b),
        bytes_lt(b, c),
    ensures
        bytes_lt(a, c),
    decreases a.len(),
{
    if a.len() > 0 && a[0] == b[0] && b[0] == c[0] {
        lemma_bytes_lt_trans(a.drop_first(), b.drop_first(), c.drop_first());
    }
}

proof fn lemma_bytes_lt_total(a: Seq<u8>, b: Seq<u8>)
    requires
        !bytes_lt(a, b),
        !bytes_lt(b, a),
    ensures
        a == b,
    decreases a.len(),
{
    if a.len() > 0 && b.len() > 0 {
        lemma_bytes_lt_total(a.drop_first(), b.drop_first());
        assert(a =~= seq![a[0]] + a.drop_first());
        assert(b =~= seq![b[0]] + b.drop_first());
    } else {
        assert(a =~= b);
    }
}

proof fn lemma_name_lt_total(x: Seq<char>, y: Seq<char>)
    requires
        !name_lt(x, y),
        !name_lt(y, x),
    ensures
        x == y,
{
    lemma_bytes_lt_total(encode_utf8(x), encode_utf8(y));
    vstd::utf8::encode_utf8_decode_utf8(x);
    vstd::utf8::encode_utf8_decode_utf8(y);
}

proof fn lemma_insert_pos(mods: Seq<ir::SModule>, name: Seq<char>, i: int)
    requires
        0 <= i <= mods.len(),
    ensures
        i <= insert_pos(mods, name, i) <= mods.len(),
        forall|k: int| i <= k < insert_pos(mods, name, i) ==> name_lt((#[trigger] mods[k]).name, name),
        insert_pos(mods, name, i) < mods.len() ==> !name_lt(mods[insert_pos(mods, name, i)].name, name),
    decreases mods.len() - i,
{
    if i < mods.len() && name_lt(mods[i].name, name) {
        lemma_insert_pos(mods, name, i + 1);
    }
}

proof fn lemma_add_module_sorted(mods: Seq<ir::SModule>, name: Seq<char>, items: Seq<ir::SItem>)
    requires
        modules_sorted(mods),
    ensures
        modules_sorted(add_module_items(mods, name, items)),
{
    let p = insert_pos(mods, name, 0);
    lemma_insert_pos(mods, name, 0);
    let out = add_module_items(mods, name, items);
    if p < mods.len() && mods[p].name == name {
        assert forall|a: int, b: int| 0 <= a < b < out.len() implies name_lt(
            (#[trigger] out[a]).name,
            (#[trigger] out[b]).name,
        ) by {
            assert(out[a].name == mods[a].name && out[b].name == mods[b].name);
        }
    } else {
        if p < mods.len() {
            if !name_lt(name, mods[p].name) {
                lemma_name_lt_total(name, mods[p].name);
            }
        }
        assert forall|a: int, b: int| 0 <= a < b < out.len() implies name_lt(
            (#[trigger] out[a]).name,
            (#[trigger] out[b]).name,
        ) by {
            if b < p {
                assert(out[a] == mods[a] && out[b] == mods[b]);
            } else if b == p {
                assert(out[a] == mods[a]);
            } else if a < p {
                assert(out[a] == mods[a] && out[b] == mods[b - 1]);
                assert(name_lt(mods[a].name, name));
                if b - 1 > p {
                    lemma_bytes_lt_trans(encode_utf8(name), encode_utf8(mods[p].name), encode_utf8(mods[b - 1].name));
                }
                lemma_bytes_lt_trans(encode_utf8(mods[a].name), encode_utf8(name), encode_utf8(mods[b - 1].name));
            } else if a == p {
                assert(out[b] == mods[b - 1]);
                if b - 1 > p {
                    lemma_bytes_lt_trans(encode_utf8(name), encode_utf8(mods[p].name), encode_utf8(mods[b - 1].name));
                }
            } else {
                assert(out[a] == mods[a - 1] && out[b] == mods[b - 1]);
            }
        }
    }
}

/// Lowering gives one module per module name, in the order of the names'
/// bytes; so no two modules share a name.
pub proof fn law_modules_sorted(files: Seq<Seq<ast::SItem>>)
    ensures
        modules_sorted(lower_files(files).0),
        forall|a: int, b: int|
            0 <= a < b < lower_files(files).0.len() ==> (#[trigger] lower_files(files).0[a]).name != (
            #[trigger] lower_files(files).0[b]).name,
    decreases files.len(),
{
    if files.len() > 0 {
        law_modules_sorted(files.drop_last());
        let (mods, _) = lower_files(files.drop_last());
        match ast::first_module(files.last()) {
            None => {},
            Some(module) => {
                let (lowered, _) = lower_items(module.id.name, files.last());
                lemma_add_module_sorted(mods, module.id.name, lowered);
            },
        }
    }
    let out = lower_files(files).0;
    assert forall|a: int, b: int| 0 <= a < b < out.len() implies (#[trigger] out[a]).name != (#[trigger] out[b]).name by {
        lemma_bytes_lt_irrefl(encode_utf8(out[a].name));
    }
}

// ---------------------------------------------------------------------------
// Which modules there are, and what they hold

/// A module of this name is among `mods`.
pub open spec fn has_module(mods: Seq<ir::SModule>, n: Seq<char>) -> bool {
    exists|j: int| 0 <= j < mods.len() && (#[trigger] mods[j]).name == n
}

/// The items of the module named `n` among `mods` (none where there is no
/// such module).
pub open spec fn items_named(mods: Seq<ir::SModule>, n: Seq<char>) -> Seq<ir::SItem> {
    if has_module(mods, n) {
        mods[choose|j: int| 0 <= j < mods.len() && (#[trigger] mods[j]).name == n].items
    } else {
        seq![]
    }
}

/// The file declares a module named `n`.
pub open spec fn declares_module(file: Seq<ast::SItem>, n: Seq<char>) -> bool {
    match ast::first_module(file) {
        Some(m) => m.id.name == n,
        None => false,
    }
}

/// Some file declares a module named `n`.
pub open spec fn declares(files: Seq<Seq<ast::SItem>>, n: Seq<char>) -> bool {
    exists|f: int| 0 <= f < files.len() && #[trigger] declares_module(files[f], n)
}

/// The lowered items of every file that declares the module `n`, file by
/// file in order.
pub open spec fn module_items(files: Seq<Seq<ast::SItem>>, n: Seq<char>) -> Seq<ir::SItem>
    decreases files.len(),
{
    if files.len() == 0 {
        seq![]
    } else {
        module_items(files.drop_last(), n) + match ast::first_module(files.last()) {
            Some(m) => if m.id.name == n {
                lower_items(n, files.last()).0
            } else {
                seq![]
            },
            None => seq![],
        }
    }
}

proof fn lemma_items_named_at(mods: Seq<ir::SModule>, j: int)
    requires
        modules_sorted(mods),
        0 <= j < mods.len(),
    ensures
        items_named(mods, mods[j].name) == mods[j].items,
{
    let n = mods[j].name;
    let k = choose|k: int| 0 <= k < mods.len() && (#[trigger] mods[k]).name == n;
    if k != j {
        if k < j {
            lemma_bytes_lt_irrefl(encode_utf8(n));
            assert(name_lt(mods[k].name, mods[j].name));
        } else {
            lemma_bytes_lt_irrefl(encode_utf8(n));
            assert(name_lt(mods[j].name, mods[k].name));
        }
    }
}

proof fn lemma_add_module_contents(mods: Seq<ir::SModule>, name: Seq<char>, items: Seq<ir::SItem>, n: Seq<char>)
    requires
        modules_sorted(mods),
    ensures
        has_module(add_module_items(mods, name, items), n) == (has_module(mods, n) || n == name),
        items_named(add_module_items(mods, name, items), n) == if n == name {
            items_named(mods, n) + items
        } else {
            items_named(mods, n)
        },
{
    let p = insert_pos(mods, name, 0);
    lemma_insert_pos(mods, name, 0);
    lemma_add_module_sorted(mods, name, items);
    let out = add_module_items(mods, name, items);
    if p < mods.len() && mods[p].name == name {
        assert forall|j: int| 0 <= j < out.len() implies (#[trigger] out[j]).name == mods[j].name by {}
        if has_module(mods, n) {
            let j = choose|j: int| 0 <= j < mods.len() && (#[trigger] mods[j]).name == n;
            lemma_items_named_at(mods, j);
            lemma_items_named_at(out, j);
            assert(out[j].name == n);
            if n == name {
                lemma_items_named_at(mods, p);
            }
        } else {
            assert(n != name) by {
                if n == name {
                    assert(mods[p].name == n);
                }
            }
            assert(!has_module(out, n));
        }
    } else {
        assert(out[p].name == name);
        assert(out[p].items == items);
        if has_module(mods, n) {
            let j = choose|j: int| 0 <= j < mods.len() && (#[trigger] mods[j]).name == n;
            lemma_items_named_at(mods, j);
            let j2 = if j < p { j } else { j + 1 };
            assert(out[j2] == mods[j]);
            lemma_items_named_at(out, j2);
            if n == name {
                lemma_items_named_at(out, p);
                lemma_bytes_lt_irrefl(encode_utf8(n));
                if j2 < p {
                    assert(name_lt(out[j2].name, out[p].name));
                } else {
                    assert(name_lt(out[p].name, out[j2].name));
                }
            }
        } else if n == name {
            lemma_items_named_at(out, p);
            assert(items_named(mods, n) =~= seq![]);
            assert(seq![] + items =~= items);
        } else {
            assert forall|j: int| 0 <= j < out.len() implies (#[trigger] out[j]).name != n by {
                if j < p {
                    assert(out[j] == mods[j]);
                } else if j > p {
                    assert(out[j] == mods[j - 1]);
                }
            }
        }
    }
}

/// Lowering gives a module for every module name that a file declares and
/// for no other; the module holds the lowered items of every file that
/// declares it, those of an earlier file first.
pub proof fn law_modules_hold_their_files(files: Seq<Seq<ast::SItem>>, n: Seq<char>)
    ensures
        has_module(lower_files(files).0, n) == declares(files, n),
        items_named(lower_files(files).0, n) == module_items(files, n),
    decreases files.len(),
{
    if files.len() > 0 {
        let init = files.drop_last();
        law_modules_hold_their_files(init, n);
        law_modules_sorted(init);
        let (mods, _) = lower_files(init);
        assert forall|f: int| 0 <= f < init.len() implies #[trigger] init[f] == files[f] by {}
        match ast::first_module(files.last()) {
            None => {
                assert(module_items(files, n) =~= module_items(init, n));
                if declares(files, n) {
                    let f = choose|f: int|
                        0 <= f < files.len() && #[trigger] declares_module(files[f], n);
                    assert(f < init.len());
                    assert(ast::first_module(init[f]) == ast::first_module(files[f]));
                    assert(declares_module(init[f], n));
                    assert(declares_module(files[f], n));
                }
                if declares(init, n) {
                    let f = choose|f: int|
                        0 <= f < init.len() && #[trigger] declares_module(init[f], n);
                    assert(ast::first_module(init[f]) == ast::first_module(files[f]));
                    assert(declares_module(files[f], n));
                }
            },
            Some(module) => {
                let (lowered, _) = lower_items(module.id.name, files.last());
                lemma_add_module_contents(mods, module.id.name, lowered, n);
                if module.id.name == n {
                    assert(ast::first_module(files[files.len() - 1]) == Some(module));
                    assert(declares_module(files[files.len() - 1], n));
                } else {
                    assert(module_items(files, n) =~= module_items(init, n));
                    if declares(files, n) {
                        let f = choose|f: int|
                            0 <= f < files.len() && #[trigger] declares_module(files[f], n);
                        assert(f < init.len());
                        assert(ast::first_module(init[f]) == ast::first_module(files[f]));
                        assert(declares_module(init[f], n));
                    }
                }
                if declares(init, n) {
                    let f = choose|f: int|
                        0 <= f < init.len() && #[trigger] declares_module(init[f], n);
                    assert(ast::first_module(init[f]) == ast::first_module(files[f]));
                    assert(declares_module(files[f], n));
                }
            },
        }
    } else {
        assert(!has_module(lower_files(files).0, n));
    }
}

// ---------------------------------------------------------------------------
// Qualified files can be lowered

/// No function among the items that inline declarations of a type add.
proof fn lemma_type_adds_no_fn(m: Seq<char>, t: ast::STypeDecl)
    ensures
        forall|i: int| 0 <= i < lower_type(m, t).0.len() ==> !(#[trigger] lower_type(m, t).0[i] is Function),
    decreases t,
{
    match t.kind {
        ast::STypeDeclKind::Struct(st) => {
            lemma_fields_add_no_fn(m, st.fields.items);
            let items = lower_struct(m, st).0;
            let all = items.push(ir::SItem::Struct(lower_struct(m, st).1));
            assert forall|i: int| 0 <= i < all.len() implies !(#[trigger] all[i] is Function) by {
                if i < items.len() {
                    assert(all[i] == items[i]);
                }
            }
        },
        _ => {},
    }
}

proof fn lemma_fields_add_no_fn(m: Seq<char>, fs: Seq<ast::SStructField>)
    ensures
        forall|i: int| 0 <= i < lower_fields(m, fs).0.len() ==> !(#[trigger] lower_fields(m, fs).0[i] is Function),
        lower_fields(m, fs).1.len() == fs.len(),
    decreases fs,
{
    if fs.len() > 0 {
        lemma_fields_add_no_fn(m, fs.drop_last());
        let f = fs.last();
        assert(fs.len() > 0 && f == fs[fs.len() - 1]);
        lemma_type_adds_no_fn(m, f.ty);
        let a = lower_fields(m, fs.drop_last()).0;
        let b = lower_field(m, f).0;
        assert forall|i: int| 0 <= i < (a + b).len() implies !(#[trigger] (a + b)[i] is Function) by {
            if i < a.len() {
                assert((a + b)[i] == a[i]);
            } else {
                assert((a + b)[i] == b[i - a.len()]);
            }
        }
    }
}

/// A function with a link name is lowered to one function item, the last of
/// its items: it keeps its name and link name, and its parameters form a
/// struct named after it with `In`, one field per parameter, whose direction
/// is `In`. Every other item it adds is an inline declaration, never a
/// function, so every function it yields takes its parameters in.
pub proof fn law_fn_params_in(m: Seq<char>, f: ast::SFnItem)
    requires
        spec_link_name(f.attrs) is Some,
    ensures
        ({
            let items = lower_fn(m, f).0;
            &&& items.len() > 0
            &&& items.last() matches ir::SItem::Function(func) && {
                &&& func.name == f.id.name
                &&& func.link_name == spec_link_name(f.attrs)->0
                &&& func.params.name == f.id.name + "In"@
                &&& func.params.direction == Some(ast::StructDirection::In)
                &&& func.params.fields.len() == f.params.items.len()
            }
            &&& forall|i: int| 0 <= i < items.len() && (#[trigger] items[i]) is Function ==> (items[i]->Function_0.params.direction
                == Some(ast::StructDirection::In))
        }),
{
    lemma_fields_add_no_fn(m, f.params.items);
    let i1 = lower_fields(m, f.params.items).0;
    let i2 = lower_opt_type(m, f.return_ty).0;
    let i3 = lower_opt_type(m, f.error_ty).0;
    if let Some(t) = f.return_ty {
        lemma_type_adds_no_fn(m, t);
    }
    if let Some(t) = f.error_ty {
        lemma_type_adds_no_fn(m, t);
    }
    let items = lower_fn(m, f).0;
    let func = items.last();
    assert(items == i1 + i2 + i3 + seq![func]);
    assert forall|i: int| 0 <= i < items.len() && (#[trigger] items[i]) is Function implies (
    items[i]->Function_0.params.direction == Some(ast::StructDirection::In)) by {
        if i < i1.len() {
            assert(items[i] == i1[i]);
        } else if i < i1.len() + i2.len() {
            assert(items[i] == i2[i - i1.len()]);
        } else if i < i1.len() + i2.len() + i3.len() {
            assert(items[i] == i3[i - i1.len() - i2.len()]);
        }
    }
}

proof fn lemma_q_type_ok(t: ast::STypeDecl, module: ast::SIdent, parents: Seq<Seq<char>>)
    requires
        parents.len() > 0,
    ensures
        type_ok(q_type(t, module, parents).0),
    decreases t,
{
    match t.kind {
        ast::STypeDeclKind::Struct(s) => lemma_q_struct_ok(s, module, parents),
        _ => {},
    }
}

proof fn lemma_q_struct_ok(s: ast::SStructItem, module: ast::SIdent, parents: Seq<Seq<char>>)
    requires
        parents.len() > 0,
    ensures
        struct_ok(q_struct(s, module, parents).0),
    decreases s,
{
    let id = match s.id {
        Some(id) => id,
        None => crate::passes::qualify_names::auto_ident(s.span, parents),
    };
    lemma_q_fields_ok(s.fields.items, module, parents.push(id.name));
}

proof fn lemma_q_fields_ok(fs: Seq<ast::SStructField>, module: ast::SIdent, parents: Seq<Seq<char>>)
    requires
        parents.len() > 0,
    ensures
        fields_ok(q_fields(fs, module, parents).0),
        q_fields(fs, module, parents).0.len() == fs.len(),
    decreases fs,
{
    if fs.len() > 0 {
        lemma_q_fields_ok(fs.drop_last(), module, parents);
        let f = fs.last();
        lemma_q_type_ok(f.ty, module, parents.push(f.id.name));
        let out = q_fields(fs, module, parents).0;
        assert(out.drop_last() == q_fields(fs.drop_last(), module, parents).0);
        assert(out.last() == crate::passes::qualify_names::q_field(f, module, parents).0);
        assert(out.last().ty == q_type(f.ty, module, parents.push(f.id.name)).0);
        assert(fields_ok(out.drop_last()) && type_ok(out.last().ty));
    }
}

proof fn lemma_q_items_ok(items: Seq<ast::SItem>, module: ast::SIdent)
    requires
        q_items(items, module).1.len() == 0,
    ensures
        items_ok(q_items(items, module).0),
        q_items(items, module).0.len() == items.len(),
    decreases items.len(),
{
    if items.len() > 0 {
        let (init, e1) = q_items(items.drop_last(), module);
        let (it, e2) = q_item(items.last(), module);
        assert(q_items(items, module).1 == e1 + e2);
        lemma_q_items_ok(items.drop_last(), module);
        match items.last() {
            ast::SItem::Struct(s) => {
                lemma_q_fields_ok(s.fields.items, module, seq![].push(s.id->0.name));
            },
            ast::SItem::Function(f) => {
                let parents = seq![f.id.name];
                lemma_q_fields_ok(f.params.items, module, parents);
                match f.return_ty {
                    Some(t) => lemma_q_type_ok(t, module, parents.push("RETURN"@)),
                    None => {},
                }
                match f.error_ty {
                    Some(t) => lemma_q_type_ok(t, module, parents.push("ERROR"@)),
                    None => {},
                }
            },
            _ => {},
        }
        assert(item_ok(it));
        let out = q_items(items, module).0;
        assert forall|i: int| 0 <= i < out.len() implies item_ok(#[trigger] out[i]) by {
            if i < out.len() - 1 {
                assert(out[i] == init[i]);
            }
        }
    }
}

/// Qualification keeps the items of a file, one for one; and a file in which
/// it finds nothing wrong can be lowered: every declaration that lowering
/// reaches has a name and every type name a module.
pub proof fn law_qualified_lowerable(items: Seq<ast::SItem>)
    ensures
        spec_qualify_names(items).0.len() == items.len(),
        spec_qualify_names(items).1.len() == 0 ==> items_ok(spec_qualify_names(items).0),
{
    if items.len() > 0 && items[0] is Module {
        let module = items[0]->Module_0.id;
        let (rest, errs) = q_items(items.drop_first(), module);
        lemma_q_items_len(items.drop_first(), module);
        if errs.len() == 0 {
            lemma_q_items_ok(items.drop_first(), module);
            let out = spec_qualify_names(items).0;
            assert forall|i: int| 0 <= i < out.len() implies item_ok(#[trigger] out[i]) by {
                if i > 0 {
                    assert(out[i] == rest[i - 1]);
                }
            }
        }
    }
}

proof fn lemma_q_items_len(items: Seq<ast::SItem>, module: ast::SIdent)
    ensures
        q_items(items, module).0.len() == items.len(),
    decreases items.len(),
{
    if items.len() > 0 {
        lemma_q_items_len(items.drop_last(), module);
    }
}

// ---------------------------------------------------------------------------
// The pass

/// Lowers the files into a library and reports what it finds wrong after the
/// diagnostics already in `errors`. The files must be qualified: every
/// declaration that lowering reaches has a name and every type name a module.
pub fn ast2ir(idl: &[ast::IdlFile], errors: &mut Vec<Error>) -> (r: ir::Library)
    requires
        forall|i: int| 0 <= i < idl@.len() ==> items_ok(#[trigger] idl@[i].items.deep_view()),
    ensures
        r.deep_view() == (ir::SLibrary { modules: lower_files(file_items(idl@)).0 }),
        final(errors)@ == old(errors)@ + lower_files(file_items(idl@)).1,
{
    let ghost files = file_items(idl@);
    let ghost e0 = errors@;
    let mut modules: Vec<ir::Module> = Vec::new();
    assert(modules.deep_view() =~= seq![]);
    let mut fi: usize = 0;
    while fi < idl.len()
        invariant
            fi <= idl@.len(),
            files == file_items(idl@),
            forall|i: int| 0 <= i < idl@.len() ==> items_ok(#[trigger] idl@[i].items.deep_view()),
            modules.deep_view() == lower_files(files.take(fi as int)).0,
            errors@ == e0 + lower_files(files.take(fi as int)).1,
        decreases idl@.len() - fi,
    {
        let file = &idl[fi];
        proof {
            assert(files.take(fi + 1).drop_last() =~= files.take(fi as int));
            assert(files.take(fi + 1).last() == file.items.deep_view());
        }
        match file.get_module_item() {
            None => {},
            Some(module) => {
                let module_name = module.id.name.clone();
                let ghost before = errors@;
                let items = lower_file_items(&module_name, &file.items, errors);
                add_module(&mut modules, module_name, items);
                proof {
                    assert(errors@ =~= e0 + (lower_files(files.take(fi as int)).1 + lower_items(
                        module_name@,
                        file.items.deep_view(),
                    ).1));
                }
            },
        }
        fi += 1;
    }
    assert(files.take(fi as int) =~= files);
    ir::Library { modules }
}

fn lower_file_items(m: &String, items: &Vec<ast::Item>, errors: &mut Vec<Error>) -> (r: Vec<ir::Item>)
    requires
        items_ok(items.deep_view()),
    ensures
        r.deep_view() == lower_items(m@, items.deep_view()).0,
        final(errors)@ == old(errors)@ + lower_items(m@, items.deep_view()).1,
{
    let ghost iv = items.deep_view();
    let ghost e0 = errors@;
    let mut out: Vec<ir::Item> = Vec::new();
    assert(out.deep_view() =~= seq![]);
    let mut j: usize = 0;
    while j < items.len()
        invariant
            j <= items@.len(),
            iv == items.deep_view(),
            items_ok(iv),
            out.deep_view() == lower_items(m@, iv.take(j as int)).0,
            errors@ == e0 + lower_items(m@, iv.take(j as int)).1,
        decreases items@.len() - j,
    {
        proof {
            assert(iv.take(j + 1).drop_last() =~= iv.take(j as int));
            assert(iv.take(j + 1).last() == iv[j as int]);
            assert(item_ok(iv[j as int]));
        }
        let ghost o0 = out.deep_view();
        let ghost ee = errors@;
        lower_ast_item(&mut out, m, &items[j], errors);
        proof {
            assert(out.deep_view() =~= lower_items(m@, iv.take(j + 1)).0);
            assert(errors@ =~= e0 + lower_items(m@, iv.take(j + 1)).1);
        }
        j += 1;
    }
    assert(iv.take(j as int) =~= iv);
    out
}

/// `a` comes before `b` in the order of their bytes.
fn bytes_less(a: &[u8], b: &[u8]) -> (r: bool)
    ensures
        r == bytes_lt(a@, b@),
{
    let mut k: usize = 0;
    assert(a@.skip(0) =~= a@);
    assert(b@.skip(0) =~= b@);
    while k < a.len() && k < b.len() && a[k] == b[k]
        invariant
            k <= a@.len(),
            k <= b@.len(),
            bytes_lt(a@, b@) == bytes_lt(a@.skip(k as int), b@.skip(k as int)),
        decreases a@.len() - k,
    {
        proof {
            assert(a@.skip(k as int).drop_first() =~= a@.skip(k + 1));
            assert(b@.skip(k as int).drop_first() =~= b@.skip(k + 1));
        }
        k += 1;
    }
    if k == b.len() {
        false
    } else if k == a.len() {
        true
    } else {
        a[k] < b[k]
    }
}

/// Adds the items to the module named `name`, created in its place among the
/// modules ordered by name when there is none.
fn add_module(mods: &mut Vec<ir::Module>, name: String, items: Vec<ir::Item>)
    ensures
        final(mods).deep_view() == add_module_items(old(mods).deep_view(), name@, items.deep_view()),
{
    let ghost mv = mods.deep_view();
    let mut i: usize = 0;
    while i < mods.len() && bytes_less(mods[i].name.as_str().as_bytes(), name.as_str().as_bytes())
        invariant
            i <= mods@.len(),
            mv == mods.deep_view(),
            insert_pos(mv, name@, 0) == insert_pos(mv, name@, i as int),
        decreases mods@.len() - i,
    {
        proof {
            assert(mv[i as int] == mods@[i as int].deep_view());
        }
        i += 1;
    }
    proof {
        if i < mods@.len() {
            assert(mv[i as int] == mods@[i as int].deep_view());
        }
    }
    if i < mods.len() && mods[i].name == name {
        let mut module = mods.remove(i);
        let ghost old_items = module.items.deep_view();
        let mut extra = items;
        let ghost ev = extra.deep_view();
        module.items.append(&mut extra);
        proof {
            assert(module.items.deep_view() =~= old_items + ev);
        }
        mods.insert(i, module);
        proof {
            assert(mods.deep_view() =~= mv.update(i as int, ir::SModule { items: mv[i as int].items + ev, ..mv[i as int] }));
        }
    } else {
        let ghost iv = items.deep_view();
        let module = ir::Module { doc: None, name, items };
        mods.insert(i, module);
        proof {
            assert(mods.deep_view() =~= mv.insert(i as int, ir::SModule { doc: None, name: module.name@, items: iv }));
        }
    }
}

/// The documentation of an item: its doc comments, each followed by a
/// newline, if there is any text.
fn doc_of(attrs: &Vec<ast::Attribute>) -> (r: Option<String>)
    ensures
        r.deep_view() == spec_doc(attrs.deep_view()),
{
    let ghost av = attrs.deep_view();
    let mut text = String::new();
    let mut i: usize = 0;
    while i < attrs.len()
        invariant
            i <= attrs@.len(),
            av == attrs.deep_view(),
            text@ == doc_text(av.take(i as int)),
        decreases attrs@.len() - i,
    {
        proof {
            assert(av.take(i + 1).drop_last() =~= av.take(i as int));
            assert(av.take(i + 1).last() == attrs@[i as int].deep_view());
        }
        match &attrs[i].kind {
            ast::AttrKind::Doc(d) => {
                push_str(&mut text, d.comment.as_str());
                push_char(&mut text, '\n');
            },
            _ => {},
        }
        proof {
            assert(text@ =~= doc_text(av.take(i + 1)));
        }
        i += 1;
    }
    assert(av.take(i as int) =~= av);
    if text.as_str().is_empty() {
        None
    } else {
        Some(text)
    }
}

/// The value of the first `link_name = value` attribute.
fn link_name(attrs: &Vec<ast::Attribute>) -> (r: Option<String>)
    ensures
        r.deep_view() == spec_link_name(attrs.deep_view()),
{
    let ghost av = attrs.deep_view();
    let mut i: usize = 0;
    while i < attrs.len()
        invariant
            i <= attrs@.len(),
            av == attrs.deep_view(),
            spec_link_name(av) == link_name_from(av, i as int),
        decreases attrs@.len() - i,
    {
        proof {
            assert(av[i as int] == attrs@[i as int].deep_view());
        }
        match &attrs[i].kind {
            ast::AttrKind::Kv(kv) => {
                if str_eq(kv.key.name.as_str(), "link_name") {
                    return Some(kv.value.text.clone());
                }
            },
            _ => {},
        }
        i += 1;
    }
    None
}

fn lower_repr(r: ast::EnumReprType) -> (t: ir::EnumReprType)
    ensures
        t == repr_of(r),
{
    match r {
        ast::EnumReprType::I8 => ir::EnumReprType::I8,
        ast::EnumReprType::I16 => ir::EnumReprType::I16,
        ast::EnumReprType::I32 => ir::EnumReprType::I32,
        ast::EnumReprType::I64 => ir::EnumReprType::I64,
        ast::EnumReprType::U8 => ir::EnumReprType::U8,
        ast::EnumReprType::U16 => ir::EnumReprType::U16,
        ast::EnumReprType::U32 => ir::EnumReprType::U32,
        ast::EnumReprType::U64 => ir::EnumReprType::U64,
    }
}

fn zero(r: ir::EnumReprType) -> (v: ir::EnumReprValue)
    ensures
        v == zero_of(r),
{
    match r {
        ir::EnumReprType::I8 => ir::EnumReprValue::I8(0),
        ir::EnumReprType::I16 => ir::EnumReprValue::I16(0),
        ir::EnumReprType::I32 => ir::EnumReprValue::I32(0),
        ir::EnumReprType::I64 => ir::EnumReprValue::I64(0),
        ir::EnumReprType::U8 => ir::EnumReprValue::U8(0),
        ir::EnumReprType::U16 => ir::EnumReprValue::U16(0),
        ir::EnumReprType::U32 => ir::EnumReprValue::U32(0),
        ir::EnumReprType::U64 => ir::EnumReprValue::U64(0),
    }
}

/// The value after `v` in its representation type, if there is one.
fn succ(v: ir::EnumReprValue) -> (r: Option<ir::EnumReprValue>)
    ensures
        r == succ_of(v),
{
    match v {
        ir::EnumReprValue::I8(x) => if x < i8::MAX { Some(ir::EnumReprValue::I8(x + 1)) } else { None },
        ir::EnumReprValue::I16(x) => if x < i16::MAX { Some(ir::EnumReprValue::I16(x + 1)) } else { None },
        ir::EnumReprValue::I32(x) => if x < i32::MAX { Some(ir::EnumReprValue::I32(x + 1)) } else { None },
        ir::EnumReprValue::I64(x) => if x < i64::MAX { Some(ir::EnumReprValue::I64(x + 1)) } else { None },
        ir::EnumReprValue::U8(x) => if x < u8::MAX { Some(ir::EnumReprValue::U8(x + 1)) } else { None },
        ir::EnumReprValue::U16(x) => if x < u16::MAX { Some(ir::EnumReprValue::U16(x + 1)) } else { None },
        ir::EnumReprValue::U32(x) => if x < u32::MAX { Some(ir::EnumReprValue::U32(x + 1)) } else { None },
        ir::EnumReprValue::U64(x) => if x < u64::MAX { Some(ir::EnumReprValue::U64(x + 1)) } else { None },
    }
}

/// The value that `text` spells in the representation type.
fn enum_value(text: &str, repr: ir::EnumReprType) -> (r: Option<ir::EnumReprValue>)
    ensures
        r == value_of(text.spec_bytes(), repr),
{
    let signed = match repr {
        ir::EnumReprType::I8 | ir::EnumReprType::I16 | ir::EnumReprType::I32 | ir::EnumReprType::I64 => true,
        _ => false,
    };
    let (neg, m) = parse_magnitude(text.as_bytes(), signed);
    let m = match m {
        Some(m) => m,
        None => return None,
    };
    let v: i128 = if neg {
        -(m as i128)
    } else {
        m as i128
    };
    match repr {
        ir::EnumReprType::I8 => if i8::MIN as i128 <= v && v <= i8::MAX as i128 {
            Some(ir::EnumReprValue::I8(v as i8))
        } else {
            None
        },
        ir::EnumReprType::I16 => if i16::MIN as i128 <= v && v <= i16::MAX as i128 {
            Some(ir::EnumReprValue::I16(v as i16))
        } else {
            None
        },
        ir::EnumReprType::I32 => if i32::MIN as i128 <= v && v <= i32::MAX as i128 {
            Some(ir::EnumReprValue::I32(v as i32))
        } else {
            None
        },
        ir::EnumReprType::I64 => if i64::MIN as i128 <= v && v <= i64::MAX as i128 {
            Some(ir::EnumReprValue::I64(v as i64))
        } else {
            None
        },
        ir::EnumReprType::U8 => if v <= u8::MAX as i128 {
            Some(ir::EnumReprValue::U8(v as u8))
        } else {
            None
        },
        ir::EnumReprType::U16 => if v <= u16::MAX as i128 {
            Some(ir::EnumReprValue::U16(v as u16))
        } else {
            None
        },
        ir::EnumReprType::U32 => if v <= u32::MAX as i128 {
            Some(ir::EnumReprValue::U32(v as u32))
        } else {
            None
        },
        ir::EnumReprType::U64 => if v <= u64::MAX as i128 {
            Some(ir::EnumReprValue::U64(v as u64))
        } else {
            None
        },
    }
}

fn lower_enum_item(e: &ast::EnumItem, errors: &mut Vec<Error>) -> (r: ir::EnumItem)
    requires
        e.id is Some,
    ensures
        r.deep_view() == lower_enum(e.deep_view()).0,
        final(errors)@ == old(errors)@ + lower_enum(e.deep_view()).1,
{
    let doc = doc_of(&e.attrs);
    let name = e.id.as_ref().unwrap().name.clone();
    let repr = lower_repr(e.repr);
    let mut prev: Option<ir::EnumReprValue> = None;
    let ghost ms = e.members.items.deep_view();
    let ghost e0 = errors@;
    let mut members: Vec<ir::EnumMember> = Vec::new();
    assert(members.deep_view() =~= seq![]);
    let mut i: usize = 0;
    while i < e.members.items.len()
        invariant
            i <= e.members.items@.len(),
            ms == e.members.items.deep_view(),
            repr == repr_of(e.repr),
            members.deep_view() == lower_members(ms.take(i as int), repr, None).0,
            prev == lower_members(ms.take(i as int), repr, None).1,
            errors@ == e0 + lower_members(ms.take(i as int), repr, None).2,
        decreases e.members.items@.len() - i,
    {
        let member = &e.members.items[i];
        proof {
            assert(ms.take(i + 1).drop_last() =~= ms.take(i as int));
            assert(ms.take(i + 1).last() == member.deep_view());
        }
        let member_doc = doc_of(&member.attrs);
        let member_name = member.id.name.clone();
        let value = match &member.value {
            Some(v) => match enum_value(v.value.as_str(), repr) {
                Some(x) => x,
                None => {
                    errors.push(Error { kind: ErrorKind::EEnumMemberValueInvalid, span: v.span });
                    zero(repr)
                },
            },
            None => match prev {
                None => zero(repr),
                Some(p) => match succ(p) {
                    Some(x) => x,
                    None => {
                        errors.push(Error { kind: ErrorKind::EEnumMemberValueInvalid, span: member.span });
                        zero(repr)
                    },
                },
            },
        };
        prev = Some(value);
        let ghost before = members@;
        let im = ir::EnumMember { doc: member_doc, name: member_name, value };
        members.push(im);
        proof {
            lemma_push_deep(before, im);
            assert(errors@ =~= e0 + lower_members(ms.take(i + 1), repr, None).2);
        }
        i += 1;
    }
    assert(ms.take(i as int) =~= ms);
    ir::EnumItem { doc, name, repr, members }
}

fn lower_error_item(e: &ast::ErrorItem) -> (r: ir::ErrorItem)
    requires
        e.id is Some,
    ensures
        r.deep_view() == lower_error(e.deep_view()),
{
    let doc = doc_of(&e.attrs);
    let name = e.id.as_ref().unwrap().name.clone();
    let ghost vs = e.variants.items.deep_view();
    let mut variants: Vec<ir::ErrorVariant> = Vec::new();
    let mut i: usize = 0;
    while i < e.variants.items.len()
        invariant
            i <= e.variants.items@.len(),
            vs == e.variants.items.deep_view(),
            variants.deep_view() =~= vs.take(i as int).map_values(|v: ast::SErrorVariant| lower_variant(v)),
        decreases e.variants.items@.len() - i,
    {
        let variant = &e.variants.items[i];
        let iv = ir::ErrorVariant { doc: doc_of(&variant.attrs), name: variant.id.name.clone() };
        let ghost before = variants@;
        variants.push(iv);
        proof {
            lemma_push_deep(before, iv);
            assert(vs[i as int] == variant.deep_view());
        }
        i += 1;
    }
    assert(vs.take(i as int) =~= vs);
    ir::ErrorItem { doc, name, variants }
}

fn lower_primitive(p: ast::PrimitiveType) -> (r: ir::PrimitiveType)
    ensures
        r == prim_of(p),
{
    match p {
        ast::PrimitiveType::I8 => ir::PrimitiveType::I8,
        ast::PrimitiveType::I16 => ir::PrimitiveType::I16,
        ast::PrimitiveType::I32 => ir::PrimitiveType::I32,
        ast::PrimitiveType::I64 => ir::PrimitiveType::I64,
        ast::PrimitiveType::Isize => ir::PrimitiveType::Isize,
        ast::PrimitiveType::U8 => ir::PrimitiveType::U8,
        ast::PrimitiveType::U16 => ir::PrimitiveType::U16,
        ast::PrimitiveType::U32 => ir::PrimitiveType::U32,
        ast::PrimitiveType::U64 => ir::PrimitiveType::U64,
        ast::PrimitiveType::Usize => ir::PrimitiveType::Usize,
        ast::PrimitiveType::F32 => ir::PrimitiveType::F32,
        ast::PrimitiveType::F64 => ir::PrimitiveType::F64,
        ast::PrimitiveType::Bool => ir::PrimitiveType::Bool,
        ast::PrimitiveType::Char => ir::PrimitiveType::Char,
    }
}

fn named_type(m: &String, name: &String) -> (r: ir::ElementType)
    ensures
        r.deep_view() == named(m@, name@),
{
    ir::ElementType::TypeName(ir::TypeName { module: m.clone(), name: name.clone() })
}

/// A type of module `m`; its inline declarations are added to `out` first.
fn lower_ty(out: &mut Vec<ir::Item>, m: &String, t: &ast::TypeDecl, errors: &mut Vec<Error>) -> (r: ir::Type)
    requires
        type_ok(t.deep_view()),
    ensures
        final(out).deep_view() == old(out).deep_view() + lower_type(m@, t.deep_view()).0,
        r.deep_view() == lower_type(m@, t.deep_view()).1,
        final(errors)@ == old(errors)@ + lower_type(m@, t.deep_view()).2,
    decreases t,
{
    proof {
        lemma_type_decl_v(*t);
    }
    let ghost o0 = out.deep_view();
    let elem = match &t.kind {
        ast::TypeDeclKind::Enum(e) => {
            let ie = lower_enum_item(e, errors);
            out.push(ir::Item::Enum(ie));
            proof {
                lemma_push_deep(old(out)@, ir::Item::Enum(ie));
            }
            named_type(m, &e.id.as_ref().unwrap().name)
        },
        ast::TypeDeclKind::Error(e) => {
            let ie = lower_error_item(e);
            out.push(ir::Item::Error(ie));
            proof {
                lemma_push_deep(old(out)@, ir::Item::Error(ie));
                assert(errors@ =~= old(errors)@ + seq![]);
            }
            named_type(m, &e.id.as_ref().unwrap().name)
        },
        ast::TypeDeclKind::Struct(s) => {
            proof {
                lemma_struct_item_v(*s);
            }
            let is = lower_struct_item(out, m, s, errors);
            let ghost o1 = out@;
            out.push(ir::Item::Struct(is));
            proof {
                lemma_push_deep(o1, ir::Item::Struct(is));
            }
            named_type(m, &s.id.as_ref().unwrap().name)
        },
        ast::TypeDeclKind::Primitive(p) => {
            proof {
                assert(errors@ =~= old(errors)@ + seq![]);
                assert(out.deep_view() =~= o0 + seq![]);
            }
            ir::ElementType::Primitive(lower_primitive(*p))
        },
        ast::TypeDeclKind::String => {
            proof {
                assert(errors@ =~= old(errors)@ + seq![]);
                assert(out.deep_view() =~= o0 + seq![]);
            }
            ir::ElementType::String
        },
        ast::TypeDeclKind::TypeName(n) => {
            proof {
                assert(errors@ =~= old(errors)@ + seq![]);
                assert(out.deep_view() =~= o0 + seq![]);
            }
            named_type(&n.module.as_ref().unwrap().name, &n.name.name)
        },
    };
    proof {
        assert(out.deep_view() =~= o0 + lower_type(m@, t.deep_view()).0);
    }
    match t.modifier {
        None => ir::Type::Element(elem),
        Some(ast::TypeModifier::ArrayLen(len)) => ir::Type::ArrayN(elem, len),
        Some(ast::TypeModifier::Array1D) => ir::Type::Array1D(elem),
        Some(ast::TypeModifier::Array2D) => ir::Type::Array2D(elem),
        Some(ast::TypeModifier::Array3D) => ir::Type::Array3D(elem),
        Some(ast::TypeModifier::Array4D) => ir::Type::Array4D(elem),
    }
}

fn lower_struct_field(out: &mut Vec<ir::Item>, m: &String, f: &ast::StructField, errors: &mut Vec<Error>) -> (r: ir::Field)
    requires
        type_ok(f.deep_view().ty),
    ensures
        final(out).deep_view() == old(out).deep_view() + lower_field(m@, f.deep_view()).0,
        r.deep_view() == lower_field(m@, f.deep_view()).1,
        final(errors)@ == old(errors)@ + lower_field(m@, f.deep_view()).2,
    decreases f,
{
    proof {
        lemma_field_v(*f);
    }
    let doc = doc_of(&f.attrs);
    let name = f.id.name.clone();
    let ty = lower_ty(out, m, &f.ty, errors);
    ir::Field { doc, name, ty }
}

#[verifier::loop_isolation(false)]
fn lower_struct_fields(out: &mut Vec<ir::Item>, m: &String, fs: &Vec<ast::StructField>, errors: &mut Vec<Error>) -> (r: Vec<ir::Field>)
    requires
        fields_ok(fields_seq_v(fs@)),
    ensures
        final(out).deep_view() == old(out).deep_view() + lower_fields(m@, fields_seq_v(fs@)).0,
        r.deep_view() == lower_fields(m@, fields_seq_v(fs@)).1,
        final(errors)@ == old(errors)@ + lower_fields(m@, fields_seq_v(fs@)).2,
    decreases fs,
{
    let ghost fv = fields_seq_v(fs@);
    let ghost o0 = out.deep_view();
    let ghost e0 = errors@;
    proof {
        lemma_fields_len(fs@, fs@.len() as int);
    }
    let mut fields: Vec<ir::Field> = Vec::new();
    assert(fields.deep_view() =~= seq![]);
    let mut i: usize = 0;
    while i < fs.len()
        invariant
            i <= fs@.len(),
            fv == fields_seq_v(fs@),
            fv.len() == fs@.len(),
            out.deep_view() == o0 + lower_fields(m@, fv.take(i as int)).0,
            fields.deep_view() == lower_fields(m@, fv.take(i as int)).1,
            errors@ == e0 + lower_fields(m@, fv.take(i as int)).2,
        decreases fs@.len() - i,
    {
        let f = &fs[i];
        proof {
            assert(fv[i as int] == f.deep_view());
            lemma_fields_ok(fv, i as int);
            assert(fv.take(i + 1).drop_last() =~= fv.take(i as int));
            assert(fv.take(i + 1).last() == fv[i as int]);
            assert(decreases_to!(fs => fs@));
            assert(decreases_to!(fs@ => fs@[i as int]));
        }
        let ghost o1 = out.deep_view();
        let ghost e1 = errors@;
        let field = lower_struct_field(out, m, f, errors);
        let ghost before = fields@;
        fields.push(field);
        proof {
            lemma_push_deep(before, field);
            assert(out.deep_view() =~= o0 + lower_fields(m@, fv.take(i + 1)).0);
            assert(errors@ =~= e0 + lower_fields(m@, fv.take(i + 1)).2);
        }
        i += 1;
    }
    assert(fv.take(i as int) =~= fv);
    fields
}

fn lower_struct_item(out: &mut Vec<ir::Item>, m: &String, s: &ast::StructItem, errors: &mut Vec<Error>) -> (r: ir::StructItem)
    requires
        struct_ok(s.deep_view()),
    ensures
        final(out).deep_view() == old(out).deep_view() + lower_struct(m@, s.deep_view()).0,
        r.deep_view() == lower_struct(m@, s.deep_view()).1,
        final(errors)@ == old(errors)@ + lower_struct(m@, s.deep_view()).2,
    decreases s,
{
    proof {
        lemma_struct_item_v(*s);
    }
    let doc = doc_of(&s.attrs);
    let name = s.id.as_ref().unwrap().name.clone();
    let direction = s.direction;
    let fields = lower_struct_fields(out, m, &s.fields.items, errors);
    ir::StructItem { doc, name, direction, fields }
}

fn lower_opt_ty(out: &mut Vec<ir::Item>, m: &String, t: &Option<ast::TypeDecl>, errors: &mut Vec<Error>) -> (r: Option<ir::Type>)
    requires
        opt_type_ok(t.deep_view()),
    ensures
        final(out).deep_view() == old(out).deep_view() + lower_opt_type(m@, t.deep_view()).0,
        r.deep_view() == lower_opt_type(m@, t.deep_view()).1,
        final(errors)@ == old(errors)@ + lower_opt_type(m@, t.deep_view()).2,
{
    match t {
        Some(t) => Some(lower_ty(out, m, t, errors)),
        None => {
            assert(out.deep_view() =~= old(out).deep_view() + seq![]);
            assert(errors@ =~= old(errors)@ + seq![]);
            None
        },
    }
}

fn lower_fn_item(out: &mut Vec<ir::Item>, m: &String, f: &ast::FnItem, errors: &mut Vec<Error>)
    requires
        item_ok(ast::SItem::Function(f.deep_view())),
    ensures
        final(out).deep_view() == old(out).deep_view() + lower_fn(m@, f.deep_view()).0,
        final(errors)@ == old(errors)@ + lower_fn(m@, f.deep_view()).1,
{
    let ghost o0 = out.deep_view();
    let ghost e0 = errors@;
    let doc = doc_of(&f.attrs);
    let name = f.id.name.clone();
    let link_name = match link_name(&f.attrs) {
        None => {
            errors.push(Error { kind: ErrorKind::EFnLinkNameRequired, span: f.id.span });
            assert(out.deep_view() =~= o0 + seq![]);
            return;
        },
        Some(l) => l,
    };
    let mut params_name = name.clone();
    push_str(&mut params_name, "In");
    let fields = lower_struct_fields(out, m, &f.params.items, errors);
    let ghost e1 = errors@;
    let ghost o1 = out.deep_view();
    let params = ir::StructItem {
        doc: None,
        name: params_name,
        direction: Some(ast::StructDirection::In),
        fields,
    };
    let return_ty = lower_opt_ty(out, m, &f.return_ty, errors);
    let error_ty = lower_opt_ty(out, m, &f.error_ty, errors);
    let func = ir::FnItem { doc, name, link_name, params, return_ty, error_ty };
    let ghost o3 = out@;
    out.push(ir::Item::Function(func));
    proof {
        lemma_push_deep(o3, ir::Item::Function(func));
        assert(errors@ =~= e0 + lower_fn(m@, f.deep_view()).1);
        assert(out.deep_view() =~= o0 + lower_fn(m@, f.deep_view()).0);
    }
}

fn lower_ast_item(out: &mut Vec<ir::Item>, m: &String, item: &ast::Item, errors: &mut Vec<Error>)
    requires
        item_ok(item.deep_view()),
    ensures
        final(out).deep_view() == old(out).deep_view() + lower_item(m@, item.deep_view()).0,
        final(errors)@ == old(errors)@ + lower_item(m@, item.deep_view()).1,
{
    let ghost o0 = out@;
    match item {
        ast::Item::Module(_) => {
            // The module declaration names the module.
            assert(out.deep_view() =~= old(out).deep_view() + seq![]);
            assert(errors@ =~= old(errors)@ + seq![]);
        },
        ast::Item::Enum(e) => {
            let ie = lower_enum_item(e, errors);
            out.push(ir::Item::Enum(ie));
            proof {
                lemma_push_deep(o0, ir::Item::Enum(ie));
            }
        },
        ast::Item::Error(e) => {
            let ie = lower_error_item(e);
            out.push(ir::Item::Error(ie));
            proof {
                lemma_push_deep(o0, ir::Item::Error(ie));
                assert(errors@ =~= old(errors)@ + seq![]);
            }
        },
        ast::Item::Struct(s) => {
            proof {
                lemma_struct_item_v(*s);
            }
            let is = lower_struct_item(out, m, s, errors);
            let ghost o1 = out@;
            out.push(ir::Item::Struct(is));
            proof {
                lemma_push_deep(o1, ir::Item::Struct(is));
                assert(out.deep_view() =~= old(out).deep_view() + lower_item(m@, item.deep_view()).0);
            }
        },
        ast::Item::Function(f) => {
            lower_fn_item(out, m, f, errors);
        },
        ast::Item::Handle(h) => {
            let ih = ir::HandleItem { doc: doc_of(&h.attrs), name: h.id.name.clone() };
            out.push(ir::Item::Handle(ih));
            proof {
                lemma_push_deep(o0, ir::Item::Handle(ih));
                assert(errors@ =~= old(errors)@ + seq![]);
            }
        },
    }
}

// ---------------------------------------------------------------------------
// Checking that a file can be lowered

fn type_checks(t: &ast::TypeDecl) -> (r: bool)
    ensures
        r == type_ok(t.deep_view()),
    decreases t,
{
    proof {
        lemma_type_decl_v(*t);
    }
    match &t.kind {
        ast::TypeDeclKind::TypeName(n) => n.module.is_some(),
        ast::TypeDeclKind::Enum(e) => e.id.is_some(),
        ast::TypeDeclKind::Error(e) => e.id.is_some(),
        ast::TypeDeclKind::Struct(s) => {
            proof {
                lemma_struct_item_v(*s);
            }
            struct_checks(s)
        },
        _ => true,
    }
}

fn struct_checks(s: &ast::StructItem) -> (r: bool)
    ensures
        r == struct_ok(s.deep_view()),
    decreases s,
{
    proof {
        lemma_struct_item_v(*s);
    }
    s.id.is_some() && fields_check(&s.fields.items)
}

#[verifier::loop_isolation(false)]
fn fields_check(fs: &Vec<ast::StructField>) -> (r: bool)
    ensures
        r == fields_ok(fields_seq_v(fs@)),
    decreases fs,
{
    let ghost fv = fields_seq_v(fs@);
    proof {
        lemma_fields_len(fs@, fs@.len() as int);
        assert(fv.take(0) =~= seq![]);
    }
    let mut i: usize = 0;
    while i < fs.len()
        invariant
            i <= fs@.len(),
            fv == fields_seq_v(fs@),
            fv.len() == fs@.len(),
            fields_ok(fv.take(i as int)),
        decreases fs@.len() - i,
    {
        let f = &fs[i];
        proof {
            assert(fv[i as int] == f.deep_view());
            lemma_field_v(*f);
            assert(fv.take(i + 1).drop_last() =~= fv.take(i as int));
            assert(fv.take(i + 1).last() == fv[i as int]);
            assert(decreases_to!(fs => fs@));
            assert(decreases_to!(fs@ => fs@[i as int]));
            assert(decreases_to!(fs@[i as int] => fs@[i as int].ty));
        }
        if !type_checks(&f.ty) {
            proof {
                lemma_fields_prefix_ok(fv, i as int + 1);
            }
            return false;
        }
        i += 1;
    }
    assert(fv.take(i as int) =~= fv);
    true
}

proof fn lemma_fields_prefix_ok(fs: Seq<ast::SStructField>, n: int)
    requires
        0 < n <= fs.len(),
        !type_ok(fs[n - 1].ty),
    ensures
        !fields_ok(fs),
    decreases fs.len(),
{
    if n < fs.len() {
        lemma_fields_prefix_ok(fs.drop_last(), n);
    }
}

fn opt_type_checks(t: &Option<ast::TypeDecl>) -> (r: bool)
    ensures
        r == opt_type_ok(t.deep_view()),
{
    match t {
        Some(t) => type_checks(t),
        None => true,
    }
}

fn item_checks(item: &ast::Item) -> (r: bool)
    ensures
        r == item_ok(item.deep_view()),
{
    match item {
        ast::Item::Enum(e) => e.id.is_some(),
        ast::Item::Error(e) => e.id.is_some(),
        ast::Item::Struct(s) => struct_checks(s),
        ast::Item::Function(f) => link_name(&f.attrs).is_none() || (fields_check(&f.params.items) && opt_type_checks(
            &f.return_ty,
        ) && opt_type_checks(&f.error_ty)),
        _ => true,
    }
}

/// Whether `ast2ir` can lower the file: every declaration that lowering
/// reaches has a name and every type name a module.
pub fn lowerable(file: &ast::IdlFile) -> (r: bool)
    ensures
        r == items_ok(file.items.deep_view()),
{
    let ghost iv = file.items.deep_view();
    let mut i: usize = 0;
    while i < file.items.len()
        invariant
            i <= file.items@.len(),
            iv == file.items.deep_view(),
            forall|j: int| 0 <= j < i ==> item_ok(#[trigger] iv[j]),
        decreases file.items@.len() - i,
    {
        proof {
            assert(iv[i as int] == file.items@[i as int].deep_view());
        }
        if !item_checks(&file.items[i]) {
            return false;
        }
        i += 1;
    }
    true
}

} // verus!
