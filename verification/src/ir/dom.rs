//! The intermediate representation that code generation reads: a library of
//! modules of items, all names resolved, every type flat. Its model is the
//! same tree with text as character sequences and lists as sequences.
use crate::ast::dom::StructDirection;
use crate::ast::parser::str_eq;
use vstd::prelude::*;

verus! {

#[derive(Copy, Clone, Debug, PartialEq, Eq, Structural)]
pub enum EnumReprType {
    I8,
    I16,
    I32,
    I64,
    U8,
    U16,
    U32,
    U64,
}

#[derive(Copy, Clone, Debug, PartialEq, Eq, Structural)]
pub enum EnumReprValue {
    I8(i8),
    I16(i16),
    I32(i32),
    I64(i64),
    U8(u8),
    U16(u16),
    U32(u32),
    U64(u64),
}

#[derive(Clone, Debug)]
pub struct EnumItem {
    pub doc: Option<String>,
    pub name: String,
    pub repr: EnumReprType,
    pub members: Vec<EnumMember>,
}

#[derive(Clone, Debug)]
pub struct EnumMember {
    pub doc: Option<String>,
    pub name: String,
    pub value: EnumReprValue,
}

#[derive(Clone, Debug)]
pub struct ErrorItem {
    pub doc: Option<String>,
    pub name: String,
    pub variants: Vec<ErrorVariant>,
}

#[derive(Clone, Debug)]
pub struct ErrorVariant {
    pub doc: Option<String>,
    pub name: String,
}

#[derive(Clone, Debug)]
pub struct StructItem {
    pub doc: Option<String>,
    pub name: String,
    pub direction: Option<StructDirection>,
    pub fields: Vec<Field>,
}

#[derive(Clone, Debug)]
pub struct Field {
    pub doc: Option<String>,
    pub name: String,
    pub ty: Type,
}

#[derive(Copy, Clone, Debug, PartialEq, Eq, Structural)]
pub enum PrimitiveType {
    I8,
    I16,
    I32,
    I64,
    Isize,
    U8,
    U16,
    U32,
    U64,
    Usize,
    F32,
    F64,
    Bool,
    Char,
}

/// Named type: a reference to a declared type, e.g. a struct or enum.
#[derive(Clone, Debug)]
pub struct TypeName {
    pub module: String,
    pub name: String,
}

#[derive(Clone, Debug)]
pub enum ElementType {
    Primitive(PrimitiveType),
    TypeName(TypeName),
    String,
}

#[derive(Clone, Debug)]
pub enum Type {
    Element(ElementType),
    ArrayN(ElementType, u16),
    Array1D(ElementType),
    Array2D(ElementType),
    Array3D(ElementType),
    Array4D(ElementType),
}

#[derive(Clone, Debug)]
pub struct FnItem {
    pub doc: Option<String>,
    pub name: String,
    pub link_name: String,
    pub params: StructItem,
    pub return_ty: Option<Type>,
    pub error_ty: Option<Type>,
}

#[derive(Clone, Debug)]
pub struct HandleItem {
    pub doc: Option<String>,
    pub name: String,
}

#[derive(Clone, Debug)]
pub enum Item {
    Enum(EnumItem),
    Error(ErrorItem),
    Struct(StructItem),
    Function(FnItem),
    Handle(HandleItem),
}

#[derive(Clone, Debug)]
pub struct Module {
    pub doc: Option<String>,
    pub name: String,
    pub items: Vec<Item>,
}

#[derive(Clone, Debug)]
pub struct Library {
    pub modules: Vec<Module>,
}

// ---------------------------------------------------------------------------
// The model

pub struct SEnumMember {
    pub doc: Option<Seq<char>>,
    pub name: Seq<char>,
    pub value: EnumReprValue,
}

pub struct SEnumItem {
    pub doc: Option<Seq<char>>,
    pub name: Seq<char>,
    pub repr: EnumReprType,
    pub members: Seq<SEnumMember>,
}

pub struct SErrorVariant {
    pub doc: Option<Seq<char>>,
    pub name: Seq<char>,
}

pub struct SErrorItem {
    pub doc: Option<Seq<char>>,
    pub name: Seq<char>,
    pub variants: Seq<SErrorVariant>,
}

pub struct STypeName {
    pub module: Seq<char>,
    pub name: Seq<char>,
}

pub enum SElementType {
    Primitive(PrimitiveType),
    TypeName(STypeName),
    String,
}

pub enum SType {
    Element(SElementType),
    ArrayN(SElementType, u16),
    Array1D(SElementType),
    Array2D(SElementType),
    Array3D(SElementType),
    Array4D(SElementType),
}

pub struct SField {
    pub doc: Option<Seq<char>>,
    pub name: Seq<char>,
    pub ty: SType,
}

pub struct SStructItem {
    pub doc: Option<Seq<char>>,
    pub name: Seq<char>,
    pub direction: Option<StructDirection>,
    pub fields: Seq<SField>,
}

pub struct SFnItem {
    pub doc: Option<Seq<char>>,
    pub name: Seq<char>,
    pub link_name: Seq<char>,
    pub params: SStructItem,
    pub return_ty: Option<SType>,
    pub error_ty: Option<SType>,
}

pub struct SHandleItem {
    pub doc: Option<Seq<char>>,
    pub name: Seq<char>,
}

pub enum SItem {
    Enum(SEnumItem),
    Error(SErrorItem),
    Struct(SStructItem),
    Function(SFnItem),
    Handle(SHandleItem),
}

pub struct SModule {
    pub doc: Option<Seq<char>>,
    pub name: Seq<char>,
    pub items: Seq<SItem>,
}

pub struct SLibrary {
    pub modules: Seq<SModule>,
}

impl SItem {
    /// The name of the declared item.
    pub open spec fn name(self) -> Seq<char> {
        match self {
            SItem::Enum(e) => e.name,
            SItem::Error(e) => e.name,
            SItem::Struct(s) => s.name,
            SItem::Function(f) => f.name,
            SItem::Handle(h) => h.name,
        }
    }
}

impl DeepView for EnumMember {
    type V = SEnumMember;

    open spec fn deep_view(&self) -> SEnumMember {
        SEnumMember { doc: self.doc.deep_view(), name: self.name@, value: self.value }
    }
}

impl DeepView for EnumItem {
    type V = SEnumItem;

    open spec fn deep_view(&self) -> SEnumItem {
        SEnumItem {
            doc: self.doc.deep_view(),
            name: self.name@,
            repr: self.repr,
            members: self.members.deep_view(),
        }
    }
}

impl DeepView for ErrorVariant {
    type V = SErrorVariant;

    open spec fn deep_view(&self) -> SErrorVariant {
        SErrorVariant { doc: self.doc.deep_view(), name: self.name@ }
    }
}

impl DeepView for ErrorItem {
    type V = SErrorItem;

    open spec fn deep_view(&self) -> SErrorItem {
        SErrorItem { doc: self.doc.deep_view(), name: self.name@, variants: self.variants.deep_view() }
    }
}

impl DeepView for TypeName {
    type V = STypeName;

    open spec fn deep_view(&self) -> STypeName {
        STypeName { module: self.module@, name: self.name@ }
    }
}

impl DeepView for ElementType {
    type V = SElementType;

    open spec fn deep_view(&self) -> SElementType {
        match *self {
            ElementType::Primitive(p) => SElementType::Primitive(p),
            ElementType::TypeName(n) => SElementType::TypeName(n.deep_view()),
            ElementType::String => SElementType::String,
        }
    }
}

impl DeepView for Type {
    type V = SType;

    open spec fn deep_view(&self) -> SType {
        match *self {
            Type::Element(e) => SType::Element(e.deep_view()),
            Type::ArrayN(e, n) => SType::ArrayN(e.deep_view(), n),
            Type::Array1D(e) => SType::Array1D(e.deep_view()),
            Type::Array2D(e) => SType::Array2D(e.deep_view()),
            Type::Array3D(e) => SType::Array3D(e.deep_view()),
            Type::Array4D(e) => SType::Array4D(e.deep_view()),
        }
    }
}

impl DeepView for Field {
    type V = SField;

    open spec fn deep_view(&self) -> SField {
        SField { doc: self.doc.deep_view(), name: self.name@, ty: self.ty.deep_view() }
    }
}

impl DeepView for StructItem {
    type V = SStructItem;

    open spec fn deep_view(&self) -> SStructItem {
        SStructItem {
            doc: self.doc.deep_view(),
            name: self.name@,
            direction: self.direction,
            fields: self.fields.deep_view(),
        }
    }
}

impl DeepView for FnItem {
    type V = SFnItem;

    open spec fn deep_view(&self) -> SFnItem {
        SFnItem {
            doc: self.doc.deep_view(),
            name: self.name@,
            link_name: self.link_name@,
            params: self.params.deep_view(),
            return_ty: self.return_ty.deep_view(),
            error_ty: self.error_ty.deep_view(),
        }
    }
}

impl DeepView for HandleItem {
    type V = SHandleItem;

    open spec fn deep_view(&self) -> SHandleItem {
        SHandleItem { doc: self.doc.deep_view(), name: self.name@ }
    }
}

impl DeepView for Item {
    type V = SItem;

    open spec fn deep_view(&self) -> SItem {
        match *self {
            Item::Enum(e) => SItem::Enum(e.deep_view()),
            Item::Error(e) => SItem::Error(e.deep_view()),
            Item::Struct(s) => SItem::Struct(s.deep_view()),
            Item::Function(f) => SItem::Function(f.deep_view()),
            Item::Handle(h) => SItem::Handle(h.deep_view()),
        }
    }
}

impl DeepView for Module {
    type V = SModule;

    open spec fn deep_view(&self) -> SModule {
        SModule { doc: self.doc.deep_view(), name: self.name@, items: self.items.deep_view() }
    }
}

impl DeepView for Library {
    type V = SLibrary;

    open spec fn deep_view(&self) -> SLibrary {
        SLibrary { modules: self.modules.deep_view() }
    }
}

impl Item {
    /// The name of the declared item.
    pub fn name(&self) -> (r: &str)
        ensures
            r@ == self.deep_view().name(),
    {
        match self {
            Item::Enum(e) => e.name.as_str(),
            Item::Error(e) => e.name.as_str(),
            Item::Struct(s) => s.name.as_str(),
            Item::Function(f) => f.name.as_str(),
            Item::Handle(h) => h.name.as_str(),
        }
    }

    /// The name of the item's kind.
    pub fn variant_name(&self) -> (r: &'static str)
        ensures
            r@ == match self.deep_view() {
                SItem::Enum(_) => "Enum"@,
                SItem::Error(_) => "Error"@,
                SItem::Struct(_) => "Struct"@,
                SItem::Function(_) => "Function"@,
                SItem::Handle(_) => "Handle"@,
            },
    {
        match self {
            Item::Enum(_) => "Enum",
            Item::Error(_) => "Error",
            Item::Struct(_) => "Struct",
            Item::Function(_) => "Function",
            Item::Handle(_) => "Handle",
        }
    }
}

// ---------------------------------------------------------------------------
// Looking items up by module and name

/// The last of the first `n` modules named `name`.
pub open spec fn last_module(mods: Seq<SModule>, name: Seq<char>, n: int) -> Option<int>
    decreases n,
{
    if n <= 0 {
        None
    } else if mods[n - 1].name == name {
        Some(n - 1)
    } else {
        last_module(mods, name, n - 1)
    }
}

/// The last of the first `n` items named `name`.
pub open spec fn last_item(items: Seq<SItem>, name: Seq<char>, n: int) -> Option<int>
    decreases n,
{
    if n <= 0 {
        None
    } else if items[n - 1].name() == name {
        Some(n - 1)
    } else {
        last_item(items, name, n - 1)
    }
}

/// The item that `module.name` names: a later module or item of the same
/// name shadows an earlier one.
pub open spec fn spec_lookup(lib: SLibrary, module: Seq<char>, name: Seq<char>) -> Option<SItem> {
    match last_module(lib.modules, module, lib.modules.len() as int) {
        Some(j) => {
            let items = lib.modules[j].items;
            match last_item(items, name, items.len() as int) {
                Some(k) => Some(items[k]),
                None => None,
            }
        },
        None => None,
    }
}

proof fn lemma_last_module(mods: Seq<SModule>, name: Seq<char>, n: int)
    requires
        0 <= n <= mods.len(),
    ensures
        last_module(mods, name, n) matches Some(j) ==> 0 <= j < n && mods[j].name == name,
        last_module(mods, name, n) is None ==> forall|j: int| 0 <= j < n ==> (#[trigger] mods[j]).name != name,
    decreases n,
{
    if n > 0 {
        lemma_last_module(mods, name, n - 1);
    }
}

proof fn lemma_last_item(items: Seq<SItem>, name: Seq<char>, n: int)
    requires
        0 <= n <= items.len(),
    ensures
        last_item(items, name, n) matches Some(k) ==> 0 <= k < n && items[k].name() == name,
        last_item(items, name, n) is None ==> forall|k: int| 0 <= k < n ==> (#[trigger] items[k]).name() != name,
    decreases n,
{
    if n > 0 {
        lemma_last_item(items, name, n - 1);
    }
}

/// A lookup finds only an item of the requested name in a module of the
/// requested name; and where no two modules share a name, it finds one
/// whenever the library holds such an item.
pub proof fn law_lookup_finds_named_item(lib: SLibrary, module: Seq<char>, name: Seq<char>)
    ensures
        spec_lookup(lib, module, name) matches Some(it) ==> it.name() == name && exists|j: int, k: int|
            0 <= j < lib.modules.len() && 0 <= k < lib.modules[j].items.len() && lib.modules[j].name == module
                && #[trigger] lib.modules[j].items[k] == it,
        (forall|a: int, b: int|
            0 <= a < b < lib.modules.len() ==> (#[trigger] lib.modules[a]).name != (#[trigger] lib.modules[b]).name)
            ==> (spec_lookup(lib, module, name) is Some <==> exists|j: int, k: int|
            0 <= j < lib.modules.len() && 0 <= k < lib.modules[j].items.len() && lib.modules[j].name == module
                && (#[trigger] lib.modules[j].items[k]).name() == name),
{
    let mods = lib.modules;
    lemma_last_module(mods, module, mods.len() as int);
    match last_module(mods, module, mods.len() as int) {
        Some(j) => {
            let items = mods[j].items;
            lemma_last_item(items, name, items.len() as int);
            match last_item(items, name, items.len() as int) {
                Some(k) => {
                    assert(mods[j].items[k] == items[k]);
                },
                None => {
                    if forall|a: int, b: int| 0 <= a < b < mods.len() ==> (#[trigger] mods[a]).name != (#[trigger] mods[b]).name {
                        assert forall|j2: int, k: int|
                            0 <= j2 < mods.len() && 0 <= k < mods[j2].items.len() && mods[j2].name == module implies
                            (#[trigger] mods[j2].items[k]).name() != name by {
                            if j2 < j {
                                assert(mods[j2].name != mods[j].name);
                            } else if j2 > j {
                                assert(mods[j].name != mods[j2].name);
                            } else {
                                assert(items[k] == mods[j2].items[k]);
                            }
                        }
                    }
                },
            }
        },
        None => {},
    }
}

/// Items by module and name.
pub struct Lookup<'a> {
    pub library: &'a Library,
}

impl Library {
    /// The lookup table of the library's items.
    pub fn lookup(&self) -> (r: Lookup<'_>)
        ensures
            r.library == self,
    {
        Lookup { library: self }
    }
}

impl<'a> Lookup<'a> {
    /// The item that `module.name` names.
    pub fn get(&self, module: &str, name: &str) -> (r: Option<&'a Item>)
        ensures
            r.deep_view() == spec_lookup(self.library.deep_view(), module@, name@),
    {
        let mods = &self.library.modules;
        let ghost lib = self.library.deep_view();
        let mut j = mods.len();
        while j > 0 && !str_eq(mods[j - 1].name.as_str(), module)
            invariant
                j <= mods@.len(),
                lib == self.library.deep_view(),
                mods == self.library.modules,
                last_module(lib.modules, module@, lib.modules.len() as int) == last_module(lib.modules, module@, j as int),
            decreases j,
        {
            j -= 1;
        }
        if j == 0 {
            return None;
        }
        let items = &mods[j - 1].items;
        proof {
            assert(lib.modules[j - 1] == mods@[j - 1].deep_view());
        }
        let ghost sitems = lib.modules[j - 1].items;
        let mut k = items.len();
        while k > 0 && !str_eq(items[k - 1].name(), name)
            invariant
                k <= items@.len(),
                sitems == items.deep_view(),
                last_item(sitems, name@, sitems.len() as int) == last_item(sitems, name@, k as int),
            decreases k,
        {
            k -= 1;
        }
        if k == 0 {
            return None;
        }
        Some(&items[k - 1])
    }
}

// ---------------------------------------------------------------------------
// Whether a type borrows

/// Whether a struct holds something that borrows, looking at most `fuel`
/// named structs deep; nothing when the fuel runs out.
pub open spec fn struct_lt(lib: SLibrary, s: SStructItem, fuel: nat) -> Option<bool>
    decreases fuel, 3int, 0int,
{
    fields_lt(lib, s.fields, 0, fuel)
}

/// `fields_lt` from the `i`-th field on: the first field that borrows
/// decides, and later fields are not looked at.
pub open spec fn fields_lt(lib: SLibrary, fs: Seq<SField>, i: int, fuel: nat) -> Option<bool>
    decreases fuel, 2int, fs.len() - i,
{
    if i < 0 || i >= fs.len() {
        Some(false)
    } else {
        match type_lt(lib, fs[i].ty, fuel) {
            None => None,
            Some(true) => Some(true),
            Some(false) => fields_lt(lib, fs, i + 1, fuel),
        }
    }
}

/// Arrays borrow; so do the element types that do.
pub open spec fn type_lt(lib: SLibrary, t: SType, fuel: nat) -> Option<bool>
    decreases fuel, 1int, 0int,
{
    match t {
        SType::Array1D(_) => Some(true),
        SType::Array2D(_) => Some(true),
        SType::Array3D(_) => Some(true),
        SType::Array4D(_) => Some(true),
        SType::ArrayN(e, _) => elem_lt(lib, e, fuel),
        SType::Element(e) => elem_lt(lib, e, fuel),
    }
}

/// Strings and handles borrow; a named struct borrows when it holds
/// something that does; other names, and names that resolve to nothing, do
/// not.
pub open spec fn elem_lt(lib: SLibrary, e: SElementType, fuel: nat) -> Option<bool>
    decreases fuel, 0int, 0int,
{
    match e {
        SElementType::Primitive(_) => Some(false),
        SElementType::String => Some(true),
        SElementType::TypeName(n) => match spec_lookup(lib, n.module, n.name) {
            Some(SItem::Struct(s)) => if fuel == 0 {
                None
            } else {
                struct_lt(lib, s, (fuel - 1) as nat)
            },
            Some(SItem::Handle(_)) => Some(true),
            _ => Some(false),
        },
    }
}

/// Looking through named structs ends: the struct types reachable from `s`
/// do not contain themselves.
pub open spec fn struct_lt_defined(lib: SLibrary, s: SStructItem) -> bool {
    exists|fuel: nat| #[trigger] struct_lt(lib, s, fuel) is Some
}

pub open spec fn type_lt_defined(lib: SLibrary, t: SType) -> bool {
    exists|fuel: nat| #[trigger] type_lt(lib, t, fuel) is Some
}

pub open spec fn elem_lt_defined(lib: SLibrary, e: SElementType) -> bool {
    exists|fuel: nat| #[trigger] elem_lt(lib, e, fuel) is Some
}

/// Whether a struct holds something that borrows.
pub open spec fn struct_has_lifetime(lib: SLibrary, s: SStructItem) -> bool {
    struct_lt(lib, s, choose|fuel: nat| #[trigger] struct_lt(lib, s, fuel) is Some).unwrap()
}

pub open spec fn type_has_lifetime(lib: SLibrary, t: SType) -> bool {
    type_lt(lib, t, choose|fuel: nat| #[trigger] type_lt(lib, t, fuel) is Some).unwrap()
}

pub open spec fn elem_has_lifetime(lib: SLibrary, e: SElementType) -> bool {
    elem_lt(lib, e, choose|fuel: nat| #[trigger] elem_lt(lib, e, fuel) is Some).unwrap()
}

proof fn lemma_elem_mono(lib: SLibrary, e: SElementType, f: nat, g: nat)
    requires
        f <= g,
        elem_lt(lib, e, f) is Some,
    ensures
        elem_lt(lib, e, g) == elem_lt(lib, e, f),
    decreases f, 0int, 0int,
{
    match e {
        SElementType::TypeName(n) => match spec_lookup(lib, n.module, n.name) {
            Some(SItem::Struct(s)) => {
                lemma_struct_mono(lib, s, (f - 1) as nat, (g - 1) as nat);
            },
            _ => {},
        },
        _ => {},
    }
}

proof fn lemma_type_mono(lib: SLibrary, t: SType, f: nat, g: nat)
    requires
        f <= g,
        type_lt(lib, t, f) is Some,
    ensures
        type_lt(lib, t, g) == type_lt(lib, t, f),
    decreases f, 1int, 0int,
{
    match t {
        SType::ArrayN(e, _) => lemma_elem_mono(lib, e, f, g),
        SType::Element(e) => lemma_elem_mono(lib, e, f, g),
        _ => {},
    }
}

proof fn lemma_fields_mono(lib: SLibrary, fs: Seq<SField>, i: int, f: nat, g: nat)
    requires
        f <= g,
        fields_lt(lib, fs, i, f) is Some,
    ensures
        fields_lt(lib, fs, i, g) == fields_lt(lib, fs, i, f),
    decreases f, 2int, fs.len() - i,
{
    if 0 <= i < fs.len() {
        lemma_type_mono(lib, fs[i].ty, f, g);
        if type_lt(lib, fs[i].ty, f) == Some(false) {
            lemma_fields_mono(lib, fs, i + 1, f, g);
        }
    }
}

proof fn lemma_struct_mono(lib: SLibrary, s: SStructItem, f: nat, g: nat)
    requires
        f <= g,
        struct_lt(lib, s, f) is Some,
    ensures
        struct_lt(lib, s, g) == struct_lt(lib, s, f),
    decreases f, 3int, 0int,
{
    lemma_fields_mono(lib, s.fields, 0, f, g);
}

/// More fuel does not change an answer: once looking `f` structs deep
/// decides whether a type borrows, looking deeper decides the same.
pub proof fn law_lifetime_fuel_free(lib: SLibrary, s: SStructItem, t: SType, e: SElementType, f: nat, g: nat)
    requires
        f <= g,
    ensures
        struct_lt(lib, s, f) is Some ==> struct_lt(lib, s, g) == struct_lt(lib, s, f),
        type_lt(lib, t, f) is Some ==> type_lt(lib, t, g) == type_lt(lib, t, f),
        elem_lt(lib, e, f) is Some ==> elem_lt(lib, e, g) == elem_lt(lib, e, f),
{
    if struct_lt(lib, s, f) is Some {
        lemma_struct_mono(lib, s, f, g);
    }
    if type_lt(lib, t, f) is Some {
        lemma_type_mono(lib, t, f, g);
    }
    if elem_lt(lib, e, f) is Some {
        lemma_elem_mono(lib, e, f, g);
    }
}

proof fn lemma_elem_at(lib: SLibrary, e: SElementType, f: nat)
    requires
        elem_lt(lib, e, f) is Some,
    ensures
        elem_lt_defined(lib, e),
        elem_has_lifetime(lib, e) == elem_lt(lib, e, f).unwrap(),
{
    let f0 = choose|fuel: nat| #[trigger] elem_lt(lib, e, fuel) is Some;
    if f0 <= f {
        lemma_elem_mono(lib, e, f0, f);
    } else {
        lemma_elem_mono(lib, e, f, f0);
    }
}

proof fn lemma_type_at(lib: SLibrary, t: SType, f: nat)
    requires
        type_lt(lib, t, f) is Some,
    ensures
        type_lt_defined(lib, t),
        type_has_lifetime(lib, t) == type_lt(lib, t, f).unwrap(),
{
    let f0 = choose|fuel: nat| #[trigger] type_lt(lib, t, fuel) is Some;
    if f0 <= f {
        lemma_type_mono(lib, t, f0, f);
    } else {
        lemma_type_mono(lib, t, f, f0);
    }
}

proof fn lemma_struct_at(lib: SLibrary, s: SStructItem, f: nat)
    requires
        struct_lt(lib, s, f) is Some,
    ensures
        struct_lt_defined(lib, s),
        struct_has_lifetime(lib, s) == struct_lt(lib, s, f).unwrap(),
{
    let f0 = choose|fuel: nat| #[trigger] struct_lt(lib, s, fuel) is Some;
    if f0 <= f {
        lemma_struct_mono(lib, s, f0, f);
    } else {
        lemma_struct_mono(lib, s, f, f0);
    }
}

/// Whether some field from the `i`-th on borrows, looking at the fields in
/// order and stopping at the first that does.
pub open spec fn fields_any(lib: SLibrary, fs: Seq<SField>, i: int) -> bool
    decreases fs.len() - i,
{
    if i < 0 || i >= fs.len() {
        false
    } else if type_has_lifetime(lib, fs[i].ty) {
        true
    } else {
        fields_any(lib, fs, i + 1)
    }
}

proof fn lemma_fields_any(lib: SLibrary, fs: Seq<SField>, i: int, f: nat)
    requires
        fields_lt(lib, fs, i, f) is Some,
    ensures
        fields_lt(lib, fs, i, f).unwrap() == fields_any(lib, fs, i),
    decreases fs.len() - i,
{
    if 0 <= i < fs.len() {
        lemma_type_at(lib, fs[i].ty, f);
        if type_lt(lib, fs[i].ty, f) == Some(false) {
            lemma_fields_any(lib, fs, i + 1, f);
        }
    }
}

/// Whether a type borrows, once the answer is defined, is the structural
/// recursion: primitives do not borrow, strings and handles do, a named
/// struct does when one of its fields does (the first that does decides),
/// other names do not, and arrays other than fixed-length ones do.
pub proof fn law_lifetime_structural(lib: SLibrary, s: SStructItem, t: SType, e: SElementType)
    ensures
        elem_lt_defined(lib, e) ==> elem_has_lifetime(lib, e) == match e {
            SElementType::Primitive(_) => false,
            SElementType::String => true,
            SElementType::TypeName(n) => match spec_lookup(lib, n.module, n.name) {
                Some(SItem::Struct(st)) => struct_lt_defined(lib, st) && struct_has_lifetime(lib, st),
                Some(SItem::Handle(_)) => true,
                _ => false,
            },
        },
        type_lt_defined(lib, t) ==> type_has_lifetime(lib, t) == match t {
            SType::ArrayN(el, _) => elem_lt_defined(lib, el) && elem_has_lifetime(lib, el),
            SType::Element(el) => elem_lt_defined(lib, el) && elem_has_lifetime(lib, el),
            _ => true,
        },
        struct_lt_defined(lib, s) ==> struct_has_lifetime(lib, s) == fields_any(lib, s.fields, 0),
{
    if elem_lt_defined(lib, e) {
        let f = choose|fuel: nat| #[trigger] elem_lt(lib, e, fuel) is Some;
        lemma_elem_at(lib, e, f);
        match e {
            SElementType::TypeName(n) => match spec_lookup(lib, n.module, n.name) {
                Some(SItem::Struct(st)) => {
                    lemma_struct_at(lib, st, (f - 1) as nat);
                },
                _ => {},
            },
            _ => {},
        }
    }
    if type_lt_defined(lib, t) {
        let f = choose|fuel: nat| #[trigger] type_lt(lib, t, fuel) is Some;
        lemma_type_at(lib, t, f);
        match t {
            SType::ArrayN(el, _) => lemma_elem_at(lib, el, f),
            SType::Element(el) => lemma_elem_at(lib, el, f),
            _ => {},
        }
    }
    if struct_lt_defined(lib, s) {
        let f = choose|fuel: nat| #[trigger] struct_lt(lib, s, fuel) is Some;
        lemma_struct_at(lib, s, f);
        lemma_fields_any(lib, s.fields, 0, f);
    }
}

#[verifier::loop_isolation(false)]
fn struct_lt_exec(s: &StructItem, lookup: &Lookup, Ghost(fuel): Ghost<nat>) -> (r: bool)
    requires
        struct_lt(lookup.library.deep_view(), s.deep_view(), fuel) is Some,
    ensures
        r == struct_lt(lookup.library.deep_view(), s.deep_view(), fuel).unwrap(),
    decreases fuel, 3int, 0int,
{
    let ghost lib = lookup.library.deep_view();
    let ghost fs = s.deep_view().fields;
    let mut i: usize = 0;
    while i < s.fields.len()
        invariant
            i <= s.fields@.len(),
            fs == s.fields.deep_view(),
            fields_lt(lib, fs, 0, fuel) == fields_lt(lib, fs, i as int, fuel),
        decreases s.fields@.len() - i,
    {
        proof {
            assert(fs[i as int] == s.fields@[i as int].deep_view());
        }
        if type_lt_exec(&s.fields[i].ty, lookup, Ghost(fuel)) {
            return true;
        }
        i += 1;
    }
    false
}

fn type_lt_exec(t: &Type, lookup: &Lookup, Ghost(fuel): Ghost<nat>) -> (r: bool)
    requires
        type_lt(lookup.library.deep_view(), t.deep_view(), fuel) is Some,
    ensures
        r == type_lt(lookup.library.deep_view(), t.deep_view(), fuel).unwrap(),
    decreases fuel, 1int, 0int,
{
    match t {
        Type::Array1D(_) => true,
        Type::Array2D(_) => true,
        Type::Array3D(_) => true,
        Type::Array4D(_) => true,
        Type::ArrayN(elem, _) => elem_lt_exec(elem, lookup, Ghost(fuel)),
        Type::Element(elem) => elem_lt_exec(elem, lookup, Ghost(fuel)),
    }
}

fn elem_lt_exec(e: &ElementType, lookup: &Lookup, Ghost(fuel): Ghost<nat>) -> (r: bool)
    requires
        elem_lt(lookup.library.deep_view(), e.deep_view(), fuel) is Some,
    ensures
        r == elem_lt(lookup.library.deep_view(), e.deep_view(), fuel).unwrap(),
    decreases fuel, 0int, 0int,
{
    match e {
        ElementType::Primitive(_) => false,
        ElementType::String => true,
        ElementType::TypeName(tn) => match lookup.get(tn.module.as_str(), tn.name.as_str()) {
            Some(Item::Struct(s)) => struct_lt_exec(s, lookup, Ghost((fuel - 1) as nat)),
            // Handles are opaque pointers, so they have an implicit lifetime
            Some(Item::Handle(_)) => true,
            _ => false,
        },
    }
}

impl StructItem {
    /// Whether the struct holds something that borrows (a string, an array,
    /// a handle, or a struct that does).
    pub fn has_lifetime(&self, lookup: &Lookup) -> (r: bool)
        requires
            struct_lt_defined(lookup.library.deep_view(), self.deep_view()),
        ensures
            r == struct_has_lifetime(lookup.library.deep_view(), self.deep_view()),
    {
        let ghost fuel = choose|fuel: nat| #[trigger] struct_lt(lookup.library.deep_view(), self.deep_view(), fuel) is Some;
        struct_lt_exec(self, lookup, Ghost(fuel))
    }
}

impl ElementType {
    /// Whether the element type borrows.
    pub fn has_lifetime(&self, lookup: &Lookup) -> (r: bool)
        requires
            elem_lt_defined(lookup.library.deep_view(), self.deep_view()),
        ensures
            r == elem_has_lifetime(lookup.library.deep_view(), self.deep_view()),
    {
        let ghost fuel = choose|fuel: nat| #[trigger] elem_lt(lookup.library.deep_view(), self.deep_view(), fuel) is Some;
        elem_lt_exec(self, lookup, Ghost(fuel))
    }
}

impl Type {
    /// Whether the type borrows.
    pub fn has_lifetime(&self, lookup: &Lookup) -> (r: bool)
        requires
            type_lt_defined(lookup.library.deep_view(), self.deep_view()),
        ensures
            r == type_has_lifetime(lookup.library.deep_view(), self.deep_view()),
    {
        let ghost fuel = choose|fuel: nat| #[trigger] type_lt(lookup.library.deep_view(), self.deep_view(), fuel) is Some;
        type_lt_exec(self, lookup, Ghost(fuel))
    }
}

} // verus!
