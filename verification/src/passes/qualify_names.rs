//! Name qualification of a parsed file:
//!
//! - the file starts with its only module declaration;
//! - top level declarations have an identifier;
//! - anonymous nested declarations are named after the path to them;
//! - type names are qualified with the module name;
//! - error variants are neither reserved nor repeated.
use crate::ast::dom::{
    fields_seq_v, lemma_field_v, lemma_fields_empty, lemma_fields_push, lemma_struct_item_v,
    lemma_type_decl_v, EnumItem, ErrorItem, FnItem, FnParams, Ident, IdlFile, Item, SEnumItem, SErrorItem,
    SErrorVariant, SFnItem, SIdent, SItem, SStructField, SStructFields, SStructItem, STypeDecl,
    STypeDeclKind, STypeName, StructField, StructFields, StructItem, TypeDecl, TypeDeclKind,
    TypeName,
};
use crate::ast::parser::{lemma_push_deep, str_eq};
use crate::error::{Error, ErrorKind};
use crate::text::{push_char, push_str};
use crate::span::SourceSpan;
use vstd::prelude::*;

verus! {

// ---------------------------------------------------------------------------
// What the pass computes

/// The parent names joined with `_`.
pub open spec fn create_name(parents: Seq<Seq<char>>) -> Seq<char>
    decreases parents.len(),
{
    if parents.len() == 0 {
        seq![]
    } else if parents.len() == 1 {
        parents[0]
    } else {
        create_name(parents.drop_last()) + seq!['_'] + parents.last()
    }
}

/// A name given to an anonymous nested declaration at `span`.
pub open spec fn auto_ident(span: SourceSpan, parents: Seq<Seq<char>>) -> SIdent {
    SIdent { span, name: create_name(parents) }
}

pub open spec fn q_enum(e: SEnumItem, parents: Seq<Seq<char>>) -> (SEnumItem, Seq<Error>) {
    if parents.len() == 0 && e.id is None {
        (e, seq![Error { kind: ErrorKind::EEnumTopLevelIdent, span: e.span }])
    } else if e.id is None {
        (SEnumItem { id: Some(auto_ident(e.span, parents)), ..e }, seq![])
    } else {
        (e, seq![])
    }
}

/// The names that error variants may not have.
pub open spec fn is_reserved(name: Seq<char>) -> bool {
    ||| name == "CONTEXT_NULL"@
    ||| name == "INVALID_LICENSE"@
    ||| name == "FFI_UNWIND"@
    ||| name == "UNIMPLEMENTED"@
}

/// The last variant before the `j`-th named `name`.
pub open spec fn last_named(items: Seq<SErrorVariant>, name: Seq<char>, j: int) -> Option<int>
    decreases j,
{
    if j <= 0 {
        None
    } else if items[j - 1].id.name == name {
        Some(j - 1)
    } else {
        last_named(items, name, j - 1)
    }
}

/// The diagnostics for the `i`-th variant: a reserved name, and a name that
/// an earlier variant has (reported at both, the earlier one by its span).
pub open spec fn variant_errors(items: Seq<SErrorVariant>, i: int) -> Seq<Error> {
    let v = items[i];
    let reserved = if is_reserved(v.id.name) {
        seq![Error { kind: ErrorKind::EErrorVariantReservedIdent, span: v.id.span }]
    } else {
        seq![]
    };
    let dup = match last_named(items, v.id.name, i) {
        Some(j) => seq![
            Error { kind: ErrorKind::EErrorVariantDuplicateIdent, span: v.id.span },
            Error { kind: ErrorKind::EErrorVariantDuplicateIdent, span: items[j].span },
        ],
        None => seq![],
    };
    reserved + dup
}

/// The diagnostics for the first `n` variants.
pub open spec fn variants_errors(items: Seq<SErrorVariant>, n: int) -> Seq<Error>
    decreases n,
{
    if n <= 0 {
        seq![]
    } else {
        variants_errors(items, n - 1) + variant_errors(items, n - 1)
    }
}

pub open spec fn q_error(e: SErrorItem, parents: Seq<Seq<char>>) -> (SErrorItem, Seq<Error>) {
    if parents.len() == 0 && e.id is None {
        (e, seq![Error { kind: ErrorKind::EErrorTopLevelIdent, span: e.span }])
    } else {
        let e2 = if e.id is None {
            SErrorItem { id: Some(auto_ident(e.span, parents)), ..e }
        } else {
            e
        };
        (e2, variants_errors(e.variants.items, e.variants.items.len() as int))
    }
}

pub open spec fn q_struct(s: SStructItem, module: SIdent, parents: Seq<Seq<char>>) -> (SStructItem, Seq<Error>)
    decreases s,
{
    if parents.len() == 0 && s.id is None {
        (s, seq![Error { kind: ErrorKind::EStructTopLevelIdent, span: s.span }])
    } else {
        let id = match s.id {
            Some(id) => id,
            None => auto_ident(s.span, parents),
        };
        let (items, errs) = q_fields(s.fields.items, module, parents.push(id.name));
        (SStructItem { id: Some(id), fields: SStructFields { items, span: s.fields.span }, ..s }, errs)
    }
}

pub open spec fn q_fields(fs: Seq<SStructField>, module: SIdent, parents: Seq<Seq<char>>) -> (Seq<SStructField>, Seq<Error>)
    decreases fs,
{
    if fs.len() == 0 {
        (seq![], seq![])
    } else {
        let (init, e1) = q_fields(fs.drop_last(), module, parents);
        let (f, e2) = q_field(fs.last(), module, parents);
        (init.push(f), e1 + e2)
    }
}

pub open spec fn q_field(f: SStructField, module: SIdent, parents: Seq<Seq<char>>) -> (SStructField, Seq<Error>)
    decreases f,
{
    let (ty, errs) = q_type(f.ty, module, parents.push(f.id.name));
    (SStructField { ty, ..f }, errs)
}

pub open spec fn q_type(t: STypeDecl, module: SIdent, parents: Seq<Seq<char>>) -> (STypeDecl, Seq<Error>)
    decreases t,
{
    match t.kind {
        STypeDeclKind::TypeName(n) => {
            let n2 = if n.module is None { STypeName { module: Some(module), ..n } } else { n };
            (STypeDecl { kind: STypeDeclKind::TypeName(n2), ..t }, seq![])
        },
        STypeDeclKind::Enum(e) => {
            let (e2, errs) = q_enum(e, parents);
            (STypeDecl { kind: STypeDeclKind::Enum(e2), ..t }, errs)
        },
        STypeDeclKind::Error(e) => {
            let (e2, errs) = q_error(e, parents);
            (STypeDecl { kind: STypeDeclKind::Error(e2), ..t }, errs)
        },
        STypeDeclKind::Struct(s) => {
            let (s2, errs) = q_struct(s, module, parents);
            (STypeDecl { kind: STypeDeclKind::Struct(s2), ..t }, errs)
        },
        _ => (t, seq![]),
    }
}

pub open spec fn q_opt_type(t: Option<STypeDecl>, module: SIdent, parents: Seq<Seq<char>>) -> (Option<STypeDecl>, Seq<Error>) {
    match t {
        Some(t) => {
            let (t2, errs) = q_type(t, module, parents);
            (Some(t2), errs)
        },
        None => (None, seq![]),
    }
}

pub open spec fn q_function(f: SFnItem, module: SIdent) -> (SFnItem, Seq<Error>) {
    let parents = seq![f.id.name];
    let (params, e1) = q_fields(f.params.items, module, parents);
    let (return_ty, e2) = q_opt_type(f.return_ty, module, parents.push("RETURN"@));
    let (error_ty, e3) = q_opt_type(f.error_ty, module, parents.push("ERROR"@));
    (
        SFnItem { params: SStructFields { items: params, span: f.params.span }, return_ty, error_ty, ..f },
        e1 + e2 + e3,
    )
}

pub open spec fn q_item(item: SItem, module: SIdent) -> (SItem, Seq<Error>) {
    match item {
        SItem::Module(m) => (item, seq![Error { kind: ErrorKind::EModuleMultiple, span: m.span }]),
        SItem::Enum(e) => {
            let (e2, errs) = q_enum(e, seq![]);
            (SItem::Enum(e2), errs)
        },
        SItem::Error(e) => {
            let (e2, errs) = q_error(e, seq![]);
            (SItem::Error(e2), errs)
        },
        SItem::Struct(s) => {
            let (s2, errs) = q_struct(s, module, seq![]);
            (SItem::Struct(s2), errs)
        },
        SItem::Function(f) => {
            let (f2, errs) = q_function(f, module);
            (SItem::Function(f2), errs)
        },
        SItem::Handle(_) => (item, seq![]),
    }
}

pub open spec fn q_items(items: Seq<SItem>, module: SIdent) -> (Seq<SItem>, Seq<Error>)
    decreases items.len(),
{
    if items.len() == 0 {
        (seq![], seq![])
    } else {
        let (init, e1) = q_items(items.drop_last(), module);
        let (it, e2) = q_item(items.last(), module);
        (init.push(it), e1 + e2)
    }
}

pub open spec fn item_span(item: SItem) -> SourceSpan {
    match item {
        SItem::Module(i) => i.span,
        SItem::Enum(i) => i.span,
        SItem::Error(i) => i.span,
        SItem::Struct(i) => i.span,
        SItem::Function(i) => i.span,
        SItem::Handle(i) => i.span,
    }
}

/// The items after qualification, and the diagnostics. A file whose first
/// item is not a module declaration is left as it is and reported.
pub open spec fn spec_qualify_names(items: Seq<SItem>) -> (Seq<SItem>, Seq<Error>) {
    if items.len() == 0 {
        (items, seq![])
    } else if items[0] is Module {
        let (rest, errs) = q_items(items.drop_first(), items[0]->Module_0.id);
        (seq![items[0]] + rest, errs)
    } else {
        (items, seq![Error { kind: ErrorKind::EModuleFirstItem, span: item_span(items[0]) }])
    }
}

// ---------------------------------------------------------------------------
// Laws

proof fn lemma_last_named(items: Seq<SErrorVariant>, name: Seq<char>, j: int)
    requires
        0 <= j <= items.len(),
    ensures
        last_named(items, name, j) is None <==> forall|k: int| 0 <= k < j ==> (#[trigger] items[k]).id.name != name,
        last_named(items, name, j) matches Some(k) ==> 0 <= k < j && items[k].id.name == name,
    decreases j,
{
    if j > 0 {
        lemma_last_named(items, name, j - 1);
    }
}

/// Qualifying a type name keeps the module it was written with, and gives
/// the file's module to a name written without one; the name itself, the
/// span and the modifier stay, and nothing is reported.
pub proof fn law_type_name_qualified(t: STypeDecl, module: SIdent, parents: Seq<Seq<char>>)
    requires
        t.kind is TypeName,
    ensures
        q_type(t, module, parents).1 == Seq::<Error>::empty(),
        q_type(t, module, parents).0.kind is TypeName,
        q_type(t, module, parents).0.modifier == t.modifier,
        q_type(t, module, parents).0.span == t.span,
        ({
            let before = t.kind->TypeName_0;
            let after = q_type(t, module, parents).0.kind->TypeName_0;
            &&& after.name == before.name
            &&& after.span == before.span
            &&& (before.module matches Some(m) ==> after.module == Some(m))
            &&& (before.module is None ==> after.module == Some(module))
        }),
{
}

proof fn lemma_q_fields_at(fs: Seq<SStructField>, module: SIdent, parents: Seq<Seq<char>>)
    ensures
        q_fields(fs, module, parents).0.len() == fs.len(),
        forall|k: int|
            0 <= k < fs.len() ==> (#[trigger] q_fields(fs, module, parents).0[k]) == q_field(fs[k], module, parents).0,
    decreases fs.len(),
{
    if fs.len() > 0 {
        lemma_q_fields_at(fs.drop_last(), module, parents);
        let r = q_fields(fs, module, parents).0;
        assert forall|k: int| 0 <= k < fs.len() implies (#[trigger] r[k]) == q_field(fs[k], module, parents).0 by {
            if k < fs.len() - 1 {
                assert(fs.drop_last()[k] == fs[k]);
            }
        }
    }
}

/// In a struct, every field whose type is a name written with a module keeps
/// that module, and every field whose type is a name written without one
/// gets the file's module; field names stay.
pub proof fn law_struct_field_modules(st: SStructItem, module: SIdent, parents: Seq<Seq<char>>)
    requires
        parents.len() > 0 || st.id is Some,
    ensures
        q_struct(st, module, parents).0.fields.items.len() == st.fields.items.len(),
        forall|k: int|
            0 <= k < st.fields.items.len() && (#[trigger] st.fields.items[k]).ty.kind is TypeName ==> {
                let before = st.fields.items[k].ty.kind->TypeName_0;
                let f2 = q_struct(st, module, parents).0.fields.items[k];
                &&& f2.id == st.fields.items[k].id
                &&& f2.ty.kind is TypeName
                &&& f2.ty.kind->TypeName_0.name == before.name
                &&& (before.module matches Some(m) ==> f2.ty.kind->TypeName_0.module == Some(m))
                &&& (before.module is None ==> f2.ty.kind->TypeName_0.module == Some(module))
            },
{
    let id = match st.id {
        Some(id) => id,
        None => auto_ident(st.span, parents),
    };
    let ps = parents.push(id.name);
    lemma_q_fields_at(st.fields.items, module, ps);
    assert forall|k: int|
        0 <= k < st.fields.items.len() && (#[trigger] st.fields.items[k]).ty.kind is TypeName implies {
            let before = st.fields.items[k].ty.kind->TypeName_0;
            let f2 = q_struct(st, module, parents).0.fields.items[k];
            &&& f2.id == st.fields.items[k].id
            &&& f2.ty.kind is TypeName
            &&& f2.ty.kind->TypeName_0.name == before.name
            &&& (before.module matches Some(m) ==> f2.ty.kind->TypeName_0.module == Some(m))
            &&& (before.module is None ==> f2.ty.kind->TypeName_0.module == Some(module))
        } by {
        let f = st.fields.items[k];
        assert(q_fields(st.fields.items, module, ps).0[k] == q_field(f, module, ps).0);
        law_type_name_qualified(f.ty, module, ps.push(f.id.name));
    }
}

proof fn lemma_q_items_at(items: Seq<SItem>, module: SIdent)
    ensures
        q_items(items, module).0.len() == items.len(),
        forall|k: int| 0 <= k < items.len() ==> (#[trigger] q_items(items, module).0[k]) == q_item(items[k], module).0,
    decreases items.len(),
{
    if items.len() > 0 {
        lemma_q_items_at(items.drop_last(), module);
        let r = q_items(items, module).0;
        assert forall|k: int| 0 <= k < items.len() implies (#[trigger] r[k]) == q_item(items[k], module).0 by {
            if k < items.len() - 1 {
                assert(items.drop_last()[k] == items[k]);
            }
        }
    }
}

/// In a file that starts with its module declaration, a named struct stays
/// in place, and each of its fields whose type is a name written with a
/// module keeps that module, while a name written without one gets the
/// file's module.
pub proof fn law_file_field_modules(items: Seq<SItem>, k: int)
    requires
        items.len() > 0,
        items[0] is Module,
        1 <= k < items.len(),
        items[k] matches SItem::Struct(st) && st.id is Some,
    ensures
        spec_qualify_names(items).0.len() == items.len(),
        spec_qualify_names(items).0[k] is Struct,
        ({
            let st = items[k]->Struct_0;
            let st2 = spec_qualify_names(items).0[k]->Struct_0;
            &&& st2.id == st.id
            &&& st2.fields.items.len() == st.fields.items.len()
            &&& forall|j: int|
                0 <= j < st.fields.items.len() && (#[trigger] st.fields.items[j]).ty.kind is TypeName ==> {
                    let before = st.fields.items[j].ty.kind->TypeName_0;
                    let after = st2.fields.items[j].ty.kind->TypeName_0;
                    &&& st2.fields.items[j].ty.kind is TypeName
                    &&& after.name == before.name
                    &&& (before.module matches Some(m) ==> after.module == Some(m))
                    &&& (before.module is None ==> after.module == Some(items[0]->Module_0.id))
                }
        }),
{
    let module = items[0]->Module_0.id;
    let rest = items.drop_first();
    lemma_q_items_at(rest, module);
    assert(rest[k - 1] == items[k]);
    let st = items[k]->Struct_0;
    law_struct_field_modules(st, module, seq![]);
    assert(spec_qualify_names(items).0[k] == q_items(rest, module).0[k - 1]);
}

/// None of the first `n` variants has a reserved name or the name of an
/// earlier one.
pub open spec fn names_ok(items: Seq<SErrorVariant>, n: int) -> bool {
    forall|i: int|
        0 <= i < n ==> !is_reserved((#[trigger] items[i]).id.name) && forall|k: int|
            0 <= k < i ==> (#[trigger] items[k]).id.name != items[i].id.name
}

/// The variants of an error type are reported exactly when one has a
/// reserved name or the name of an earlier one.
pub proof fn law_variants_checked(items: Seq<SErrorVariant>)
    ensures
        variants_errors(items, items.len() as int).len() == 0 <==> names_ok(items, items.len() as int),
{
    lemma_variants_checked(items, items.len() as int);
}

proof fn lemma_variants_checked(items: Seq<SErrorVariant>, n: int)
    requires
        0 <= n <= items.len(),
    ensures
        variants_errors(items, n).len() == 0 <==> names_ok(items, n),
    decreases n,
{
    if n > 0 {
        lemma_variants_checked(items, n - 1);
        lemma_last_named(items, items[n - 1].id.name, n - 1);
        let e1 = variants_errors(items, n - 1);
        let e2 = variant_errors(items, n - 1);
        assert(variants_errors(items, n) == e1 + e2);
        assert(e2.len() == 0 <==> !is_reserved(items[n - 1].id.name) && last_named(
            items,
            items[n - 1].id.name,
            n - 1,
        ) is None);
    }
}

proof fn lemma_q_items_errors(items: Seq<SItem>, module: SIdent, k: int, j: int)
    requires
        0 <= k < items.len(),
        0 <= j < q_item(items[k], module).1.len(),
    ensures
        exists|x: int| 0 <= x < q_items(items, module).1.len() && #[trigger] q_items(items, module).1[x] == q_item(
            items[k],
            module,
        ).1[j],
    decreases items.len(),
{
    let (_, e1) = q_items(items.drop_last(), module);
    let (_, e2) = q_item(items.last(), module);
    let all = q_items(items, module).1;
    assert(all == e1 + e2);
    if k == items.len() - 1 {
        assert(all[e1.len() + j] == e2[j]);
    } else {
        assert(items[k] == items.drop_last()[k]);
        lemma_q_items_errors(items.drop_last(), module, k, j);
        let x = choose|x: int| 0 <= x < e1.len() && #[trigger] e1[x] == q_item(items[k], module).1[j];
        assert(all[x] == e1[x]);
    }
}

/// `errs` holds a diagnostic of this kind at this span.
pub open spec fn reported(errs: Seq<Error>, kind: ErrorKind, span: SourceSpan) -> bool {
    exists|x: int| 0 <= x < errs.len() && #[trigger] errs[x] == (Error { kind, span })
}

/// A file must start with its module declaration, and may hold only one:
/// a file that starts with something else is reported there and left as it
/// is; in a file that starts with one, every later module declaration is
/// reported.
pub proof fn law_one_module_first(items: Seq<SItem>)
    ensures
        items.len() > 0 && !(items[0] is Module) ==> spec_qualify_names(items).0 == items,
        items.len() > 0 && !(items[0] is Module) ==> spec_qualify_names(items).1 == seq![
            (Error { kind: ErrorKind::EModuleFirstItem, span: item_span(items[0]) }),
        ],
        items.len() > 0 && items[0] is Module ==> forall|i: int|
            0 < i < items.len() && (#[trigger] items[i]) is Module ==> reported(
                spec_qualify_names(items).1,
                ErrorKind::EModuleMultiple,
                items[i]->Module_0.span,
            ),
{
    if items.len() > 0 && items[0] is Module {
        let module = items[0]->Module_0.id;
        let rest = items.drop_first();
        assert forall|i: int| 0 < i < items.len() && (#[trigger] items[i]) is Module implies reported(
            spec_qualify_names(items).1,
            ErrorKind::EModuleMultiple,
            items[i]->Module_0.span,
        ) by {
            assert(rest[i - 1] == items[i]);
            lemma_q_items_errors(rest, module, i - 1, 0);
        }
    }
}

/// The diagnostic that qualification gives a top level item without a name,
/// if it is of a kind that needs one.
pub open spec fn anonymous_error(item: SItem) -> Option<Error> {
    match item {
        SItem::Enum(e) => if e.id is None { Some(Error { kind: ErrorKind::EEnumTopLevelIdent, span: e.span }) } else { None },
        SItem::Error(e) => if e.id is None { Some(Error { kind: ErrorKind::EErrorTopLevelIdent, span: e.span }) } else { None },
        SItem::Struct(s) => if s.id is None { Some(Error { kind: ErrorKind::EStructTopLevelIdent, span: s.span }) } else { None },
        _ => None,
    }
}

/// Top level enums, error types and structs need a name: in a file that
/// starts with its module declaration, each one without a name is reported.
pub proof fn law_top_level_named(items: Seq<SItem>)
    ensures
        items.len() > 0 && items[0] is Module ==> forall|i: int|
            0 < i < items.len() && anonymous_error(#[trigger] items[i]) is Some ==> reported(
                spec_qualify_names(items).1,
                anonymous_error(items[i])->0.kind,
                anonymous_error(items[i])->0.span,
            ),
{
    if items.len() > 0 && items[0] is Module {
        let module = items[0]->Module_0.id;
        let rest = items.drop_first();
        assert forall|i: int| 0 < i < items.len() && anonymous_error(#[trigger] items[i]) is Some implies reported(
            spec_qualify_names(items).1,
            anonymous_error(items[i])->0.kind,
            anonymous_error(items[i])->0.span,
        ) by {
            assert(rest[i - 1] == items[i]);
            lemma_q_items_errors(rest, module, i - 1, 0);
        }
    }
}

// ---------------------------------------------------------------------------
// The pass

/// Qualifies the names of a parsed file in place, and reports what it finds
/// wrong after the diagnostics already in `errors`.
pub fn qualify_names(idl: &mut IdlFile, errors: &mut Vec<Error>)
    ensures
        final(idl).items.deep_view() == spec_qualify_names(old(idl).items.deep_view()).0,
        final(errors)@ == old(errors)@ + spec_qualify_names(old(idl).items.deep_view()).1,
{
    // Check the first item is a module declaration
    if idl.items.len() == 0 {
        assert(errors@ =~= old(errors)@ + seq![]);
        return;
    }
    let module_name = match &idl.items[0] {
        Item::Module(module) => clone_ident(&module.id),
        _ => {
            let span = idl.items[0].span();
            errors.push(Error { kind: ErrorKind::EModuleFirstItem, span });
            return;
        },
    };

    let mut items: Vec<Item> = Vec::new();
    std::mem::swap(&mut items, &mut idl.items);
    let ghost orig = items.deep_view();
    let ghost rest0 = orig.drop_first();
    let ghost e0 = errors@;
    let first = items.remove(0);
    let mut out: Vec<Item> = Vec::new();
    out.push(first);
    proof {
        lemma_push_deep(Seq::<Item>::empty(), first);
        assert(items.deep_view() =~= rest0);
        assert(rest0.take(0) =~= seq![]);
        assert(out.deep_view() =~= seq![orig[0]] + q_items(rest0.take(0), module_name.deep_view()).0);
    }
    let ghost n = rest0.len();
    let mut k: usize = 0;
    while items.len() > 0
        invariant
            items.deep_view() == rest0.skip(k as int),
            k <= n,
            n == rest0.len(),
            n <= usize::MAX,
            out.deep_view() == seq![orig[0]] + q_items(rest0.take(k as int), module_name.deep_view()).0,
            errors@ == e0 + q_items(rest0.take(k as int), module_name.deep_view()).1,
        decreases items.len(),
    {
        let ghost before = items.deep_view();
        let item = items.remove(0);
        proof {
            assert(item.deep_view() == before[0]);
            assert(items.deep_view() =~= before.drop_first());
        }
        let q = qualify_item(item, &module_name, errors);
        let ghost out_before = out@;
        out.push(q);
        proof {
            lemma_push_deep(out_before, q);
            assert(rest0.take(k + 1).drop_last() =~= rest0.take(k as int));
            assert(rest0.take(k + 1).last() == rest0[k as int]);
            assert(before[0] == rest0[k as int]);
            assert(items.deep_view() =~= rest0.skip(k + 1));
        }
        k += 1;
    }
    proof {
        assert(rest0.take(k as int) =~= rest0);
        assert(orig =~= seq![orig[0]] + rest0);
    }
    idl.items = out;
}

fn clone_ident(i: &Ident) -> (r: Ident)
    ensures
        r.deep_view() == i.deep_view(),
{
    Ident { span: i.span, name: i.name.clone() }
}

/// The parent names joined with `_`.
fn create_name_of(parents: &Vec<String>) -> (r: String)
    ensures
        r@ == create_name(parents.deep_view()),
{
    let mut name = String::new();
    let mut i: usize = 0;
    while i < parents.len()
        invariant
            i <= parents.len(),
            name@ == create_name(parents.deep_view().take(i as int)),
        decreases parents.len() - i,
    {
        let ghost ps = parents.deep_view();
        proof {
            assert(ps.take(i + 1).drop_last() =~= ps.take(i as int));
            assert(ps.take(i + 1).last() == parents[i as int]@);
        }
        if i != 0 {
            push_char(&mut name, '_');
        }
        push_str(&mut name, parents[i].as_str());
        proof {
            if i == 0 {
                assert(name@ =~= ps.take(1)[0]);
            }
        }
        i += 1;
    }
    assert(parents.deep_view().take(i as int) =~= parents.deep_view());
    name
}

fn qualify_item(item: Item, module_name: &Ident, errors: &mut Vec<Error>) -> (r: Item)
    ensures
        r.deep_view() == q_item(item.deep_view(), module_name.deep_view()).0,
        final(errors)@ == old(errors)@ + q_item(item.deep_view(), module_name.deep_view()).1,
{
    match item {
        Item::Module(module) => {
            errors.push(Error { kind: ErrorKind::EModuleMultiple, span: module.span });
            Item::Module(module)
        },
        Item::Enum(e) => {
            let parents: Vec<String> = Vec::new();
            assert(parents.deep_view() =~= seq![]);
            Item::Enum(qualify_enum(e, &parents, errors))
        },
        Item::Error(e) => {
            let parents: Vec<String> = Vec::new();
            assert(parents.deep_view() =~= seq![]);
            Item::Error(qualify_error(e, &parents, errors))
        },
        Item::Struct(s) => {
            let mut parents: Vec<String> = Vec::new();
            assert(parents.deep_view() =~= seq![]);
            Item::Struct(qualify_struct(s, module_name, &mut parents, errors))
        },
        Item::Function(f) => Item::Function(qualify_function(f, module_name, errors)),
        Item::Handle(h) => {
            assert(errors@ =~= old(errors)@ + seq![]);
            Item::Handle(h)
        },
    }
}

fn qualify_enum(e: EnumItem, parents: &Vec<String>, errors: &mut Vec<Error>) -> (r: EnumItem)
    ensures
        r.deep_view() == q_enum(e.deep_view(), parents.deep_view()).0,
        final(errors)@ == old(errors)@ + q_enum(e.deep_view(), parents.deep_view()).1,
{
    // A top level item must have a name
    if parents.len() == 0 && e.id.is_none() {
        errors.push(Error { kind: ErrorKind::EEnumTopLevelIdent, span: e.span });
        return e;
    }
    assert(errors@ =~= old(errors)@ + seq![]);
    // Name the item if it has no name
    if e.id.is_none() {
        let name = create_name_of(parents);
        EnumItem { id: Some(Ident { span: e.span, name }), ..e }
    } else {
        e
    }
}

fn is_reserved_name(name: &String) -> (r: bool)
    ensures
        r == is_reserved(name@),
{
    let a = name.as_str();
    str_eq(a, "CONTEXT_NULL") || str_eq(a, "INVALID_LICENSE") || str_eq(a, "FFI_UNWIND") || str_eq(a, "UNIMPLEMENTED")
}

fn qualify_error(e: ErrorItem, parents: &Vec<String>, errors: &mut Vec<Error>) -> (r: ErrorItem)
    ensures
        r.deep_view() == q_error(e.deep_view(), parents.deep_view()).0,
        final(errors)@ == old(errors)@ + q_error(e.deep_view(), parents.deep_view()).1,
{
    // A top level item must have a name
    if parents.len() == 0 && e.id.is_none() {
        errors.push(Error { kind: ErrorKind::EErrorTopLevelIdent, span: e.span });
        return e;
    }

    // Name the item if it has no name
    let e = if e.id.is_none() {
        let name = create_name_of(parents);
        ErrorItem { id: Some(Ident { span: e.span, name }), ..e }
    } else {
        e
    };

    // Check the variant names: not reserved, and each only once
    let ghost items = e.variants.items.deep_view();
    let n = e.variants.items.len();
    let ghost e0 = errors@;
    let mut i: usize = 0;
    while i < n
        invariant
            n == e.variants.items@.len(),
            items == e.variants.items.deep_view(),
            i <= n,
            errors@ == e0 + variants_errors(items, i as int),
        decreases n - i,
    {
        let member = &e.variants.items[i];
        proof {
            assert(items[i as int] == member.deep_view());
        }
        if is_reserved_name(&member.id.name) {
            errors.push(Error { kind: ErrorKind::EErrorVariantReservedIdent, span: member.id.span });
        }
        // The last earlier variant with the same name
        let mut j: usize = i;
        while j > 0 && e.variants.items[j - 1].id.name != member.id.name
            invariant
                j <= i < n,
                n == e.variants.items@.len(),
                items == e.variants.items.deep_view(),
                items[i as int].id.name == member.id.name@,
                last_named(items, items[i as int].id.name, i as int) == last_named(items, items[i as int].id.name, j as int),
            decreases j,
        {
            proof {
                assert(items[j - 1] == e.variants.items[j - 1].deep_view());
            }
            j -= 1;
        }
        proof {
            if j > 0 {
                assert(items[j - 1] == e.variants.items[j - 1].deep_view());
            }
        }
        if j > 0 {
            errors.push(Error { kind: ErrorKind::EErrorVariantDuplicateIdent, span: member.id.span });
            errors.push(Error { kind: ErrorKind::EErrorVariantDuplicateIdent, span: e.variants.items[j - 1].span });
        }
        proof {
            assert(errors@ =~= e0 + variants_errors(items, i + 1));
        }
        i += 1;
    }
    e
}

fn qualify_struct(s: StructItem, module_name: &Ident, parents: &mut Vec<String>, errors: &mut Vec<Error>) -> (r: StructItem)
    ensures
        final(parents)@ == old(parents)@,
        r.deep_view() == q_struct(s.deep_view(), module_name.deep_view(), old(parents).deep_view()).0,
        final(errors)@ == old(errors)@ + q_struct(s.deep_view(), module_name.deep_view(), old(parents).deep_view()).1,
    decreases s,
{
    proof {
        lemma_struct_item_v(s);
    }
    // A top level item must have a name
    if parents.len() == 0 && s.id.is_none() {
        errors.push(Error { kind: ErrorKind::EStructTopLevelIdent, span: s.span });
        return s;
    }
    let ghost s0 = s;
    let StructItem { attrs, direction, id, fields, span } = s;
    // Name the item if it has no name
    let id = match id {
        Some(id) => id,
        None => Ident { span, name: create_name_of(parents) },
    };

    let ghost p0 = parents.deep_view();
    let ghost pv = parents@;
    parents.push(id.name.clone());
    proof {
        lemma_push_deep(pv, id.name);
    }
    let ghost p1 = parents.deep_view();
    let StructFields { items, span: fields_span } = fields;
    let fields = qualify_fields(items, module_name, parents, errors);
    parents.pop();
    proof {
        assert(parents@ =~= pv);
    }
    let r = StructItem { attrs, direction, id: Some(id), fields: StructFields { items: fields, span: fields_span }, span };
    proof {
        lemma_struct_item_v(r);
    }
    r
}

#[verifier::loop_isolation(false)]
fn qualify_fields(items: Vec<StructField>, module_name: &Ident, parents: &mut Vec<String>, errors: &mut Vec<Error>) -> (r: Vec<StructField>)
    ensures
        final(parents)@ == old(parents)@,
        fields_seq_v(r@) == q_fields(fields_seq_v(items@), module_name.deep_view(), old(parents).deep_view()).0,
        final(errors)@ == old(errors)@ + q_fields(fields_seq_v(items@), module_name.deep_view(), old(parents).deep_view()).1,
    decreases items,
{
    let ghost items0 = items;
    let ghost orig = items@;
    let n0 = items.len();
    let ghost e0 = errors@;
    let ghost pv = parents@;
    let ghost p = parents.deep_view();
    let ghost m = module_name.deep_view();
    let mut rest = items;
    let mut out: Vec<StructField> = Vec::new();
    proof {
        lemma_fields_empty(out@);
        lemma_fields_empty(orig.take(0));
        assert(orig.take(0) =~= seq![]);
    }
    let mut k: usize = 0;
    while rest.len() > 0
        invariant
            rest@ == orig.skip(k as int),
            orig == items0@,
            k <= orig.len(),
            orig.len() <= usize::MAX,
            parents@ == pv,
            parents.deep_view() == p,
            fields_seq_v(out@) == q_fields(fields_seq_v(orig.take(k as int)), m, p).0,
            errors@ == e0 + q_fields(fields_seq_v(orig.take(k as int)), m, p).1,
        decreases rest.len(),
    {
        let ghost before = rest@;
        let f = rest.remove(0);
        proof {
            assert(f == orig[k as int]);
            assert(rest@ =~= orig.skip(k + 1));
            assert(decreases_to!(items0 => items0@));
            assert(decreases_to!(items0@ => items0@[k as int]));
            assert(decreases_to!(items0 => f));
        }
        let q = qualify_field(f, module_name, parents, errors);
        let ghost out_before = out@;
        out.push(q);
        proof {
            lemma_fields_push(out_before, q);
            lemma_fields_push(orig.take(k as int), f);
            assert(orig.take(k as int).push(f) =~= orig.take(k + 1));
            let x = fields_seq_v(orig.take(k as int));
            assert(x.push(f.deep_view()).drop_last() =~= x);
            assert(x.push(f.deep_view()).last() == f.deep_view());
        }
        k += 1;
    }
    proof {
        assert(orig.take(k as int) =~= orig);
    }
    out
}

fn qualify_field(f: StructField, module_name: &Ident, parents: &mut Vec<String>, errors: &mut Vec<Error>) -> (r: StructField)
    ensures
        final(parents)@ == old(parents)@,
        r.deep_view() == q_field(f.deep_view(), module_name.deep_view(), old(parents).deep_view()).0,
        final(errors)@ == old(errors)@ + q_field(f.deep_view(), module_name.deep_view(), old(parents).deep_view()).1,
    decreases f,
{
    proof {
        lemma_field_v(f);
    }
    let ghost pv = parents@;
    parents.push(f.id.name.clone());
    proof {
        lemma_push_deep(pv, f.id.name);
    }
    let StructField { attrs, id, ty, default, span } = f;
    let ty = qualify_type(ty, module_name, parents, errors);
    parents.pop();
    proof {
        assert(parents@ =~= pv);
    }
    let r = StructField { attrs, id, ty, default, span };
    proof {
        lemma_field_v(r);
    }
    r
}

fn qualify_type(t: TypeDecl, module_name: &Ident, parents: &mut Vec<String>, errors: &mut Vec<Error>) -> (r: TypeDecl)
    ensures
        final(parents)@ == old(parents)@,
        r.deep_view() == q_type(t.deep_view(), module_name.deep_view(), old(parents).deep_view()).0,
        final(errors)@ == old(errors)@ + q_type(t.deep_view(), module_name.deep_view(), old(parents).deep_view()).1,
    decreases t,
{
    proof {
        lemma_type_decl_v(t);
    }
    let TypeDecl { kind, modifier, span } = t;
    let kind = match kind {
        TypeDeclKind::TypeName(n) => {
            assert(errors@ =~= old(errors)@ + seq![]);
            if n.module.is_none() {
                TypeDeclKind::TypeName(TypeName { module: Some(clone_ident(module_name)), ..n })
            } else {
                TypeDeclKind::TypeName(n)
            }
        },
        TypeDeclKind::Enum(e) => TypeDeclKind::Enum(qualify_enum(e, parents, errors)),
        TypeDeclKind::Error(e) => TypeDeclKind::Error(qualify_error(e, parents, errors)),
        TypeDeclKind::Struct(s) => TypeDeclKind::Struct(qualify_struct(s, module_name, parents, errors)),
        kind => {
            assert(errors@ =~= old(errors)@ + seq![]);
            kind
        },
    };
    let r = TypeDecl { kind, modifier, span };
    proof {
        lemma_type_decl_v(r);
    }
    r
}

fn qualify_opt_type(t: Option<TypeDecl>, module_name: &Ident, parents: &mut Vec<String>, errors: &mut Vec<Error>) -> (r: Option<TypeDecl>)
    ensures
        final(parents)@ == old(parents)@,
        r.deep_view() == q_opt_type(t.deep_view(), module_name.deep_view(), old(parents).deep_view()).0,
        final(errors)@ == old(errors)@ + q_opt_type(t.deep_view(), module_name.deep_view(), old(parents).deep_view()).1,
{
    match t {
        Some(t) => Some(qualify_type(t, module_name, parents, errors)),
        None => {
            assert(errors@ =~= old(errors)@ + seq![]);
            None
        },
    }
}

fn qualify_function(f: FnItem, module_name: &Ident, errors: &mut Vec<Error>) -> (r: FnItem)
    ensures
        r.deep_view() == q_function(f.deep_view(), module_name.deep_view()).0,
        final(errors)@ == old(errors)@ + q_function(f.deep_view(), module_name.deep_view()).1,
{
    let ghost fv = f.deep_view();
    let ghost m = module_name.deep_view();
    let FnItem { attrs, id, params, return_ty, error_ty, span } = f;
    let mut parents: Vec<String> = Vec::new();
    let name = id.name.clone();
    proof {
        lemma_push_deep(Seq::<String>::empty(), name);
    }
    parents.push(name);
    let ghost p = parents.deep_view();
    proof {
        assert(p =~= seq![fv.id.name]);
    }
    let ghost e0 = errors@;
    let params_span = params.span;
    let items = qualify_fields(params.items, module_name, &mut parents, errors);
    let ghost e1 = errors@;

    let ghost pv = parents@;
    let ret = "RETURN".to_owned();
    proof {
        reveal_strlit("RETURN");
        lemma_push_deep(pv, ret);
    }
    parents.push(ret);
    let return_ty = qualify_opt_type(return_ty, module_name, &mut parents, errors);
    parents.pop();
    proof {
        assert(parents@ =~= pv);
    }
    let ghost e2 = errors@;

    let err = "ERROR".to_owned();
    proof {
        reveal_strlit("ERROR");
        lemma_push_deep(pv, err);
    }
    parents.push(err);
    let error_ty = qualify_opt_type(error_ty, module_name, &mut parents, errors);
    proof {
        assert(errors@ =~= e0 + (q_fields(fv.params.items, m, p).1 + q_opt_type(fv.return_ty, m, p.push("RETURN"@)).1
            + q_opt_type(fv.error_ty, m, p.push("ERROR"@)).1));
    }
    FnItem { attrs, id, params: FnParams { items, span: params_span }, return_ty, error_ty, span }
}

} // verus!
