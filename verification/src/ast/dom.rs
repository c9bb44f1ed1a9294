//! The syntax tree of IDL files, and its model: the same tree with text as
//! character sequences and lists as sequences.
use crate::span::SourceSpan;
use vstd::prelude::*;

verus! {

/// Identifier.
#[derive(Clone, Debug)]
pub struct Ident {
    pub span: SourceSpan,
    pub name: String,
}

/// Attribute: `#foo`, `#foo = <ident or literal>` or a doc comment.
#[derive(Clone, Debug)]
pub struct Attribute {
    pub kind: AttrKind,
    pub span: SourceSpan,
}

#[derive(Clone, Debug)]
pub struct AttrDoc {
    pub span: SourceSpan,
    pub comment: String,
}

#[derive(Clone, Debug)]
pub struct AttrCmd {
    pub name: Ident,
}

#[derive(Clone, Debug)]
pub struct AttrKv {
    pub key: Ident,
    pub value: AttrValue,
    pub span: SourceSpan,
}

#[derive(Clone, Debug)]
pub struct AttrValue {
    pub span: SourceSpan,
    pub text: String,
}

#[derive(Clone, Debug)]
pub enum AttrKind {
    Doc(AttrDoc),
    Cmd(AttrCmd),
    Kv(AttrKv),
}

/// Module item, e.g. `module Foo;`
#[derive(Clone, Debug)]
pub struct ModuleItem {
    pub attrs: Vec<Attribute>,
    pub id: Ident,
    pub span: SourceSpan,
}

/// Enum member value, e.g. `1`
#[derive(Clone, Debug)]
pub struct EnumMemberValue {
    pub span: SourceSpan,
    pub value: String,
}

/// Enum member, e.g. `Bar,` or `Baz = 1,`
#[derive(Clone, Debug)]
pub struct EnumMember {
    pub attrs: Vec<Attribute>,
    pub id: Ident,
    pub value: Option<EnumMemberValue>,
    pub span: SourceSpan,
}

/// Enum members block, including the outer `{ ... }` braces.
#[derive(Clone, Debug)]
pub struct EnumMembers {
    pub items: Vec<EnumMember>,
    pub span: SourceSpan,
}

/// Enum representation type.
#[derive(Copy, Clone, Debug, PartialEq, Eq, Structural)]
pub enum EnumReprType {
    I8,
    I16,
    I32,
    I64,
    U8,
    U16,
    U32,
    U64,
}

/// Enum item, e.g. `enum Foo : u32 { Bar, Baz = 1 }`
#[derive(Clone, Debug)]
pub struct EnumItem {
    pub attrs: Vec<Attribute>,
    pub id: Option<Ident>,
    pub repr: EnumReprType,
    pub members: EnumMembers,
    pub span: SourceSpan,
}

/// Error variant, e.g. `Overflow,`
#[derive(Clone, Debug)]
pub struct ErrorVariant {
    pub attrs: Vec<Attribute>,
    pub id: Ident,
    pub span: SourceSpan,
}

/// Error variants, including the outer `{ ... }` braces.
#[derive(Clone, Debug)]
pub struct ErrorVariants {
    pub items: Vec<ErrorVariant>,
    pub span: SourceSpan,
}

/// Error item, e.g. `error Foo { Overflow, Underflow }`
#[derive(Clone, Debug)]
pub struct ErrorItem {
    pub attrs: Vec<Attribute>,
    pub id: Option<Ident>,
    pub variants: ErrorVariants,
    pub span: SourceSpan,
}

#[derive(Clone, Debug)]
pub struct TypeName {
    pub module: Option<Ident>,
    pub name: Ident,
    pub span: SourceSpan,
}

#[derive(Copy, Clone, Debug, PartialEq, Eq, Structural)]
pub enum PrimitiveType {
    I8,
    I16,
    I32,
    I64,
    Isize,
    U8,
    U16,
    U32,
    U64,
    Usize,
    F32,
    F64,
    Bool,
    Char,
}

#[derive(Debug)]
pub enum TypeDeclKind {
    Primitive(PrimitiveType),
    String,
    TypeName(TypeName),
    Enum(EnumItem),
    Error(ErrorItem),
    Struct(StructItem),
}

#[derive(Copy, Clone, Debug, PartialEq, Eq, Structural)]
pub enum TypeModifier {
    ArrayLen(u16),
    Array1D,
    Array2D,
    Array3D,
    Array4D,
}

#[derive(Debug)]
pub struct TypeDecl {
    pub kind: TypeDeclKind,
    pub modifier: Option<TypeModifier>,
    pub span: SourceSpan,
}

#[derive(Debug)]
pub struct TypesDecl {
    pub types: Vec<TypeDecl>,
    pub optional: bool,
    pub span: SourceSpan,
}

#[derive(Clone, Debug)]
pub struct DefaultValue {
    pub span: SourceSpan,
    pub value: String,
}

#[derive(Debug)]
pub struct StructField {
    pub attrs: Vec<Attribute>,
    pub id: Ident,
    pub ty: TypeDecl,
    pub default: Option<DefaultValue>,
    pub span: SourceSpan,
}

#[derive(Debug)]
pub struct StructFields {
    pub items: Vec<StructField>,
    pub span: SourceSpan,
}

#[derive(Copy, Clone, Debug, PartialEq, Eq, Structural)]
pub enum StructDirection {
    /// Input parameter.
    In,
    /// Output parameter.
    Out,
}

#[derive(Debug)]
pub struct StructItem {
    pub attrs: Vec<Attribute>,
    pub direction: Option<StructDirection>,
    pub id: Option<Ident>,
    pub fields: StructFields,
    pub span: SourceSpan,
}

#[derive(Debug)]
pub struct FnParams {
    pub items: Vec<StructField>,
    pub span: SourceSpan,
}

#[derive(Debug)]
pub struct FnItem {
    pub attrs: Vec<Attribute>,
    pub id: Ident,
    pub params: FnParams,
    pub return_ty: Option<TypeDecl>,
    pub error_ty: Option<TypeDecl>,
    pub span: SourceSpan,
}

#[derive(Clone, Debug)]
pub struct HandleItem {
    pub attrs: Vec<Attribute>,
    pub id: Ident,
    pub span: SourceSpan,
}

#[derive(Debug)]
pub enum Item {
    Module(ModuleItem),
    Enum(EnumItem),
    Error(ErrorItem),
    Struct(StructItem),
    Function(FnItem),
    Handle(HandleItem),
}

#[derive(Debug)]
pub struct IdlFile {
    pub items: Vec<Item>,
}

// ---------------------------------------------------------------------------
// The model

pub struct SIdent {
    pub span: SourceSpan,
    pub name: Seq<char>,
}

pub enum SAttrKind {
    Doc { span: SourceSpan, comment: Seq<char> },
    Cmd { name: SIdent },
    Kv { key: SIdent, value_span: SourceSpan, value: Seq<char>, span: SourceSpan },
}

pub struct SAttribute {
    pub kind: SAttrKind,
    pub span: SourceSpan,
}

pub struct SModuleItem {
    pub attrs: Seq<SAttribute>,
    pub id: SIdent,
    pub span: SourceSpan,
}

pub struct SEnumMember {
    pub attrs: Seq<SAttribute>,
    pub id: SIdent,
    pub value: Option<(SourceSpan, Seq<char>)>,
    pub span: SourceSpan,
}

pub struct SEnumMembers {
    pub items: Seq<SEnumMember>,
    pub span: SourceSpan,
}

pub struct SEnumItem {
    pub attrs: Seq<SAttribute>,
    pub id: Option<SIdent>,
    pub repr: EnumReprType,
    pub members: SEnumMembers,
    pub span: SourceSpan,
}

pub struct SErrorVariant {
    pub attrs: Seq<SAttribute>,
    pub id: SIdent,
    pub span: SourceSpan,
}

pub struct SErrorVariants {
    pub items: Seq<SErrorVariant>,
    pub span: SourceSpan,
}

pub struct SErrorItem {
    pub attrs: Seq<SAttribute>,
    pub id: Option<SIdent>,
    pub variants: SErrorVariants,
    pub span: SourceSpan,
}

pub struct STypeName {
    pub module: Option<SIdent>,
    pub name: SIdent,
    pub span: SourceSpan,
}

pub enum STypeDeclKind {
    Primitive(PrimitiveType),
    String,
    TypeName(STypeName),
    Enum(SEnumItem),
    Error(SErrorItem),
    Struct(SStructItem),
}

pub struct STypeDecl {
    pub kind: STypeDeclKind,
    pub modifier: Option<TypeModifier>,
    pub span: SourceSpan,
}

pub struct SStructField {
    pub attrs: Seq<SAttribute>,
    pub id: SIdent,
    pub ty: STypeDecl,
    pub default: Option<(SourceSpan, Seq<char>)>,
    pub span: SourceSpan,
}

pub struct SStructFields {
    pub items: Seq<SStructField>,
    pub span: SourceSpan,
}

pub struct SStructItem {
    pub attrs: Seq<SAttribute>,
    pub direction: Option<StructDirection>,
    pub id: Option<SIdent>,
    pub fields: SStructFields,
    pub span: SourceSpan,
}

pub struct SFnItem {
    pub attrs: Seq<SAttribute>,
    pub id: SIdent,
    pub params: SStructFields,
    pub return_ty: Option<STypeDecl>,
    pub error_ty: Option<STypeDecl>,
    pub span: SourceSpan,
}

pub struct SHandleItem {
    pub attrs: Seq<SAttribute>,
    pub id: SIdent,
    pub span: SourceSpan,
}

pub enum SItem {
    Module(SModuleItem),
    Enum(SEnumItem),
    Error(SErrorItem),
    Struct(SStructItem),
    Function(SFnItem),
    Handle(SHandleItem),
}

// ---------------------------------------------------------------------------
// Views

impl DeepView for Ident {
    type V = SIdent;

    open spec fn deep_view(&self) -> SIdent {
        SIdent { span: self.span, name: self.name@ }
    }
}

impl DeepView for Attribute {
    type V = SAttribute;

    open spec fn deep_view(&self) -> SAttribute {
        SAttribute {
            kind: match self.kind {
                AttrKind::Doc(d) => SAttrKind::Doc { span: d.span, comment: d.comment@ },
                AttrKind::Cmd(c) => SAttrKind::Cmd { name: c.name.deep_view() },
                AttrKind::Kv(kv) => SAttrKind::Kv {
                    key: kv.key.deep_view(),
                    value_span: kv.value.span,
                    value: kv.value.text@,
                    span: kv.span,
                },
            },
            span: self.span,
        }
    }
}

impl DeepView for ModuleItem {
    type V = SModuleItem;

    open spec fn deep_view(&self) -> SModuleItem {
        SModuleItem { attrs: self.attrs.deep_view(), id: self.id.deep_view(), span: self.span }
    }
}

impl DeepView for EnumMember {
    type V = SEnumMember;

    open spec fn deep_view(&self) -> SEnumMember {
        SEnumMember {
            attrs: self.attrs.deep_view(),
            id: self.id.deep_view(),
            value: match self.value {
                Some(v) => Some((v.span, v.value@)),
                None => None,
            },
            span: self.span,
        }
    }
}

impl DeepView for EnumItem {
    type V = SEnumItem;

    open spec fn deep_view(&self) -> SEnumItem {
        SEnumItem {
            attrs: self.attrs.deep_view(),
            id: self.id.deep_view(),
            repr: self.repr,
            members: SEnumMembers { items: self.members.items.deep_view(), span: self.members.span },
            span: self.span,
        }
    }
}

impl DeepView for EnumMembers {
    type V = SEnumMembers;

    open spec fn deep_view(&self) -> SEnumMembers {
        SEnumMembers { items: self.items.deep_view(), span: self.span }
    }
}

impl DeepView for ErrorVariant {
    type V = SErrorVariant;

    open spec fn deep_view(&self) -> SErrorVariant {
        SErrorVariant { attrs: self.attrs.deep_view(), id: self.id.deep_view(), span: self.span }
    }
}

impl DeepView for ErrorVariants {
    type V = SErrorVariants;

    open spec fn deep_view(&self) -> SErrorVariants {
        SErrorVariants { items: self.items.deep_view(), span: self.span }
    }
}

impl DeepView for ErrorItem {
    type V = SErrorItem;

    open spec fn deep_view(&self) -> SErrorItem {
        SErrorItem {
            attrs: self.attrs.deep_view(),
            id: self.id.deep_view(),
            variants: SErrorVariants { items: self.variants.items.deep_view(), span: self.variants.span },
            span: self.span,
        }
    }
}

impl DeepView for TypeName {
    type V = STypeName;

    open spec fn deep_view(&self) -> STypeName {
        STypeName { module: self.module.deep_view(), name: self.name.deep_view(), span: self.span }
    }
}

pub closed spec fn type_decl_v(t: TypeDecl) -> STypeDecl
    decreases t, 0int,
{
    STypeDecl {
        kind: match t.kind {
            TypeDeclKind::Primitive(p) => STypeDeclKind::Primitive(p),
            TypeDeclKind::String => STypeDeclKind::String,
            TypeDeclKind::TypeName(n) => STypeDeclKind::TypeName(n.deep_view()),
            TypeDeclKind::Enum(e) => STypeDeclKind::Enum(e.deep_view()),
            TypeDeclKind::Error(e) => STypeDeclKind::Error(e.deep_view()),
            TypeDeclKind::Struct(s) => STypeDeclKind::Struct(struct_item_v(s)),
        },
        modifier: t.modifier,
        span: t.span,
    }
}

pub closed spec fn struct_item_v(s: StructItem) -> SStructItem
    decreases s, 0int,
{
    SStructItem {
        attrs: s.attrs.deep_view(),
        direction: s.direction,
        id: s.id.deep_view(),
        fields: SStructFields { items: fields_v(s.fields.items@, s.fields.items@.len() as int), span: s.fields.span },
        span: s.span,
    }
}

pub closed spec fn fields_v(v: Seq<StructField>, n: int) -> Seq<SStructField>
    decreases v, n,
{
    if n <= 0 || n > v.len() {
        seq![]
    } else {
        fields_v(v, n - 1).push(field_v(v[n - 1]))
    }
}

pub closed spec fn field_v(f: StructField) -> SStructField
    decreases f, 0int,
{
    SStructField {
        attrs: f.attrs.deep_view(),
        id: f.id.deep_view(),
        ty: type_decl_v(f.ty),
        default: match f.default {
            Some(d) => Some((d.span, d.value@)),
            None => None,
        },
        span: f.span,
    }
}

/// The model of a list of fields.
pub open spec fn fields_seq_v(v: Seq<StructField>) -> Seq<SStructField> {
    fields_v(v, v.len() as int)
}

impl DeepView for TypeDeclKind {
    type V = STypeDeclKind;

    open spec fn deep_view(&self) -> STypeDeclKind {
        match *self {
            TypeDeclKind::Primitive(p) => STypeDeclKind::Primitive(p),
            TypeDeclKind::String => STypeDeclKind::String,
            TypeDeclKind::TypeName(n) => STypeDeclKind::TypeName(n.deep_view()),
            TypeDeclKind::Enum(e) => STypeDeclKind::Enum(e.deep_view()),
            TypeDeclKind::Error(e) => STypeDeclKind::Error(e.deep_view()),
            TypeDeclKind::Struct(s) => STypeDeclKind::Struct(struct_item_v(s)),
        }
    }
}

impl DeepView for TypeDecl {
    type V = STypeDecl;

    open spec fn deep_view(&self) -> STypeDecl {
        type_decl_v(*self)
    }
}

impl DeepView for StructItem {
    type V = SStructItem;

    open spec fn deep_view(&self) -> SStructItem {
        struct_item_v(*self)
    }
}

impl DeepView for StructField {
    type V = SStructField;

    open spec fn deep_view(&self) -> SStructField {
        field_v(*self)
    }
}

impl DeepView for StructFields {
    type V = SStructFields;

    open spec fn deep_view(&self) -> SStructFields {
        SStructFields { items: fields_seq_v(self.items@), span: self.span }
    }
}

impl DeepView for FnParams {
    type V = SStructFields;

    open spec fn deep_view(&self) -> SStructFields {
        SStructFields { items: fields_seq_v(self.items@), span: self.span }
    }
}

impl DeepView for FnItem {
    type V = SFnItem;

    open spec fn deep_view(&self) -> SFnItem {
        SFnItem {
            attrs: self.attrs.deep_view(),
            id: self.id.deep_view(),
            params: self.params.deep_view(),
            return_ty: self.return_ty.deep_view(),
            error_ty: self.error_ty.deep_view(),
            span: self.span,
        }
    }
}

impl DeepView for HandleItem {
    type V = SHandleItem;

    open spec fn deep_view(&self) -> SHandleItem {
        SHandleItem { attrs: self.attrs.deep_view(), id: self.id.deep_view(), span: self.span }
    }
}

impl DeepView for Item {
    type V = SItem;

    open spec fn deep_view(&self) -> SItem {
        match *self {
            Item::Module(m) => SItem::Module(m.deep_view()),
            Item::Enum(e) => SItem::Enum(e.deep_view()),
            Item::Error(e) => SItem::Error(e.deep_view()),
            Item::Struct(s) => SItem::Struct(s.deep_view()),
            Item::Function(f) => SItem::Function(f.deep_view()),
            Item::Handle(h) => SItem::Handle(h.deep_view()),
        }
    }
}

/// The model of a type declaration, one level down.
pub proof fn lemma_type_decl_v(t: TypeDecl)
    ensures
        type_decl_v(t) == (STypeDecl { kind: t.kind.deep_view(), modifier: t.modifier, span: t.span }),
{
}

/// The model of a struct declaration, one level down.
pub proof fn lemma_struct_item_v(s: StructItem)
    ensures
        struct_item_v(s) == (SStructItem {
            attrs: s.attrs.deep_view(),
            direction: s.direction,
            id: s.id.deep_view(),
            fields: SStructFields { items: fields_seq_v(s.fields.items@), span: s.fields.span },
            span: s.span,
        }),
{
}

/// The model of a field, one level down.
pub proof fn lemma_field_v(f: StructField)
    ensures
        field_v(f) == (SStructField {
            attrs: f.attrs.deep_view(),
            id: f.id.deep_view(),
            ty: type_decl_v(f.ty),
            default: match f.default {
                Some(d) => Some((d.span, d.value@)),
                None => None,
            },
            span: f.span,
        }),
{
}

/// The model of no fields is empty.
pub proof fn lemma_fields_empty(v: Seq<StructField>)
    requires
        v.len() == 0,
    ensures
        fields_seq_v(v) == Seq::<SStructField>::empty(),
{
}

/// Pushing a field extends the model of the list by the field's model.
pub proof fn lemma_fields_push(v: Seq<StructField>, f: StructField)
    ensures
        fields_seq_v(v.push(f)) == fields_seq_v(v).push(field_v(f)),
{
    lemma_fields_prefix(v, v.push(f), v.len() as int);
}

pub proof fn lemma_fields_prefix(v: Seq<StructField>, w: Seq<StructField>, n: int)
    requires
        0 <= n <= v.len(),
        n <= w.len(),
        forall|i: int| 0 <= i < n ==> v[i] == w[i],
    ensures
        fields_v(v, n) == fields_v(w, n),
    decreases n,
{
    if n > 0 {
        lemma_fields_prefix(v, w, n - 1);
    }
}

pub proof fn lemma_fields_len(v: Seq<StructField>, n: int)
    requires
        0 <= n <= v.len(),
    ensures
        fields_v(v, n).len() == n,
        forall|i: int| 0 <= i < n ==> #[trigger] fields_v(v, n)[i] == field_v(v[i]),
    decreases n,
{
    if n > 0 {
        lemma_fields_len(v, n - 1);
    }
}

impl Item {
    pub fn span(&self) -> (r: SourceSpan)
        ensures
            r == match self.deep_view() {
                SItem::Module(i) => i.span,
                SItem::Enum(i) => i.span,
                SItem::Error(i) => i.span,
                SItem::Struct(i) => i.span,
                SItem::Function(i) => i.span,
                SItem::Handle(i) => i.span,
            },
    {
        match self {
            Item::Module(item) => item.span,
            Item::Enum(item) => item.span,
            Item::Error(item) => item.span,
            Item::Struct(item) => item.span,
            Item::Function(item) => item.span,
            Item::Handle(item) => item.span,
        }
    }
}

/// The first module declaration among the items.
pub open spec fn first_module(items: Seq<SItem>) -> Option<SModuleItem>
    decreases items.len(),
{
    if items.len() == 0 {
        None
    } else if items[0] is Module {
        Some(items[0]->Module_0)
    } else {
        first_module(items.drop_first())
    }
}

impl IdlFile {
    pub fn get_module_item(&self) -> (r: Option<&ModuleItem>)
        ensures
            r.deep_view() == first_module(self.items.deep_view()),
    {
        let n = self.items.len();
        let mut i: usize = 0;
        assert(self.items.deep_view().skip(0) =~= self.items.deep_view());
        while i < n
            invariant
                n == self.items@.len(),
                i <= n,
                first_module(self.items.deep_view()) == first_module(self.items.deep_view().skip(i as int)),
            decreases n - i,
        {
            let ghost rest = self.items.deep_view().skip(i as int);
            assert(rest[0] == self.items@[i as int].deep_view());
            if let Item::Module(module) = &self.items[i] {
                return Some(module);
            }
            assert(rest.drop_first() =~= self.items.deep_view().skip(i as int + 1));
            i += 1;
        }
        assert(self.items.deep_view().skip(n as int) =~= seq![]);
        None
    }
}

} // verus!
