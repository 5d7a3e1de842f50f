//! The descriptors of the types of a schema, and what each of them is in
//! specifications: its view.

use vstd::prelude::*;
use crate::scalar::TypeKey;
use crate::text::texts;

verus! {

/// The views of a sequence of values.
pub open spec fn views<T: View>(s: Seq<T>) -> Seq<T::V> {
    Seq::new(s.len(), |i: int| s[i]@)
}

/// Pushing a value pushes its view.
pub proof fn lemma_views_push<T: View>(s: Seq<T>, x: T)
    ensures
        views(s.push(x)) == views(s).push(x@),
{
    assert(views(s.push(x)) =~= views(s).push(x@));
}

/// A field of a record, or a variant of a union.
#[derive(Debug)]
pub struct FieldDescriptor {
    /// The name under which the field is written.
    pub ident: String,
    /// Whether the field may be left out.
    pub optional: bool,
    /// The name of the type of the field, or of the payload of the variant;
    /// empty for a variant without payload.
    pub ts_ty: String,
    /// The comments written above the field.
    pub comments: Vec<String>,
    /// The tag literal of the variant; where it is empty, the literal is `ident`.
    pub tag_value: String,
}

/// A field or variant in specifications.
pub ghost struct FieldView {
    pub ident: Seq<char>,
    pub optional: bool,
    pub ts_ty: Seq<char>,
    pub comments: Seq<Seq<char>>,
    pub tag_value: Seq<char>,
}

impl View for FieldDescriptor {
    type V = FieldView;

    open spec fn view(&self) -> FieldView {
        FieldView {
            ident: self.ident@,
            optional: self.optional,
            ts_ty: self.ts_ty@,
            comments: texts(self.comments@),
            tag_value: self.tag_value@,
        }
    }
}

/// A container type: it has a name of its own that is built from those of
/// its arguments, and no file.
#[derive(Debug)]
pub struct GenericDescriptor {
    /// The indices of the arguments.
    pub dependencies: Vec<usize>,
    pub ts_name: String,
    /// Whether a field of this type may be left out.
    pub optional: bool,
}

/// A container type in specifications.
pub ghost struct GenericView {
    pub dependencies: Seq<usize>,
    pub ts_name: Seq<char>,
    pub optional: bool,
}

impl View for GenericDescriptor {
    type V = GenericView;

    open spec fn view(&self) -> GenericView {
        GenericView {
            dependencies: self.dependencies@,
            ts_name: self.ts_name@,
            optional: self.optional,
        }
    }
}

/// A type that TypeScript knows by itself.
#[derive(Debug)]
pub struct BuiltinTypeDescriptor {
    pub ts_name: String,
}

/// A builtin type in specifications.
pub ghost struct BuiltinView {
    pub ts_name: Seq<char>,
}

impl View for BuiltinTypeDescriptor {
    type V = BuiltinView;

    open spec fn view(&self) -> BuiltinView {
        BuiltinView { ts_name: self.ts_name@ }
    }
}

/// A union: a type that is one of its variants.
#[derive(Debug)]
pub struct EnumDescriptor {
    /// The indices of the types that the variants carry.
    pub dependencies: Vec<usize>,
    /// The variants, in the order of their declaration.
    pub fields: Vec<FieldDescriptor>,
    pub file_name: String,
    pub ts_name: String,
    pub comments: Vec<String>,
    /// The name of the tag; empty for a union without tag.
    pub tag: String,
    /// For an instance of a generic union, the index of the union itself.
    pub generic: Option<usize>,
}

/// A union in specifications.
pub ghost struct EnumView {
    pub dependencies: Seq<usize>,
    pub fields: Seq<FieldView>,
    pub file_name: Seq<char>,
    pub ts_name: Seq<char>,
    pub comments: Seq<Seq<char>>,
    pub tag: Seq<char>,
    pub generic: Option<usize>,
}

impl View for EnumDescriptor {
    type V = EnumView;

    open spec fn view(&self) -> EnumView {
        EnumView {
            dependencies: self.dependencies@,
            fields: views(self.fields@),
            file_name: self.file_name@,
            ts_name: self.ts_name@,
            comments: texts(self.comments@),
            tag: self.tag@,
            generic: self.generic,
        }
    }
}

/// A record: a type with named fields. It says how one interface is written.
#[derive(Debug)]
pub struct InterfaceDescriptor {
    /// The indices of the types of the fields.
    pub dependencies: Vec<usize>,
    /// The fields, in the order of their declaration.
    pub fields: Vec<FieldDescriptor>,
    pub file_name: String,
    pub ts_name: String,
    pub comments: Vec<String>,
    /// Whether a builder class is written after the interface.
    pub need_builder: bool,
    /// For an instance of a generic record, the index of the record itself.
    pub generic: Option<usize>,
}

/// A record in specifications.
pub ghost struct InterfaceView {
    pub dependencies: Seq<usize>,
    pub fields: Seq<FieldView>,
    pub file_name: Seq<char>,
    pub ts_name: Seq<char>,
    pub comments: Seq<Seq<char>>,
    pub need_builder: bool,
    pub generic: Option<usize>,
}

impl View for InterfaceDescriptor {
    type V = InterfaceView;

    open spec fn view(&self) -> InterfaceView {
        InterfaceView {
            dependencies: self.dependencies@,
            fields: views(self.fields@),
            file_name: self.file_name@,
            ts_name: self.ts_name@,
            comments: texts(self.comments@),
            need_builder: self.need_builder,
            generic: self.generic,
        }
    }
}

/// The descriptor of one type.
#[derive(Debug)]
pub enum Descriptor {
    Interface(InterfaceDescriptor),
    Enum(EnumDescriptor),
    BuiltinType(BuiltinTypeDescriptor),
    Generics(GenericDescriptor),
}

/// A descriptor in specifications.
pub ghost enum DescriptorView {
    Interface(InterfaceView),
    Enum(EnumView),
    BuiltinType(BuiltinView),
    Generics(GenericView),
}

impl View for Descriptor {
    type V = DescriptorView;

    open spec fn view(&self) -> DescriptorView {
        match self {
            Descriptor::Interface(d) => DescriptorView::Interface(d@),
            Descriptor::Enum(d) => DescriptorView::Enum(d@),
            Descriptor::BuiltinType(d) => DescriptorView::BuiltinType(d@),
            Descriptor::Generics(d) => DescriptorView::Generics(d@),
        }
    }
}

impl DescriptorView {
    /// The name of the type in TypeScript.
    pub open spec fn ts_name(self) -> Seq<char> {
        match self {
            DescriptorView::Interface(d) => d.ts_name,
            DescriptorView::Enum(d) => d.ts_name,
            DescriptorView::BuiltinType(d) => d.ts_name,
            DescriptorView::Generics(d) => d.ts_name,
        }
    }

    /// The indices of the types that this one refers to.
    pub open spec fn dependencies(self) -> Seq<usize> {
        match self {
            DescriptorView::Interface(d) => d.dependencies,
            DescriptorView::Enum(d) => d.dependencies,
            DescriptorView::BuiltinType(_) => Seq::empty(),
            DescriptorView::Generics(d) => d.dependencies,
        }
    }

    /// Whether the type is a record or a union: a type with a name and a file of its own.
    pub open spec fn is_named(self) -> bool {
        self is Interface || self is Enum
    }

    /// The file of a record or a union; empty otherwise.
    pub open spec fn file_name(self) -> Seq<char> {
        match self {
            DescriptorView::Interface(d) => d.file_name,
            DescriptorView::Enum(d) => d.file_name,
            _ => Seq::empty(),
        }
    }

    /// Whether a field of this type may be left out.
    pub open spec fn optional(self) -> bool {
        match self {
            DescriptorView::Generics(d) => d.optional,
            _ => false,
        }
    }

    /// Whether every dependency is an index below `bound`.
    pub open spec fn below(self, bound: int) -> bool {
        indices_below(self.dependencies(), bound)
    }
}

impl Descriptor {
    /// The name of the type in TypeScript.
    pub fn ts_name(&self) -> (r: &str)
        ensures
            r@ == self@.ts_name(),
    {
        match self {
            Descriptor::Interface(desc) => desc.ts_name.as_str(),
            Descriptor::Enum(desc) => desc.ts_name.as_str(),
            Descriptor::BuiltinType(desc) => desc.ts_name.as_str(),
            Descriptor::Generics(desc) => desc.ts_name.as_str(),
        }
    }

    /// Whether a field of this type may be left out.
    pub fn is_optional(&self) -> (r: bool)
        ensures
            r == self@.optional(),
    {
        match self {
            Descriptor::Generics(desc) => desc.optional,
            _ => false,
        }
    }

    /// Whether every dependency is an index below `bound`.
    pub fn deps_below(&self, bound: usize) -> (r: bool)
        ensures
            r == self@.below(bound as int),
    {
        match self {
            Descriptor::Interface(d) => all_below(&d.dependencies, bound),
            Descriptor::Enum(d) => all_below(&d.dependencies, bound),
            Descriptor::BuiltinType(_) => true,
            Descriptor::Generics(d) => all_below(&d.dependencies, bound),
        }
    }
}

/// Whether every index in `s` is below `bound`.
pub open spec fn indices_below(s: Seq<usize>, bound: int) -> bool {
    forall|k: int| 0 <= k < s.len() ==> #[trigger] s[k] < bound
}

/// Whether every index in `v` is below `bound`.
pub fn all_below(v: &Vec<usize>, bound: usize) -> (r: bool)
    ensures
        r == indices_below(v@, bound as int),
{
    let mut i: usize = 0;
    while i < v.len()
        invariant
            i <= v.len(),
            forall|k: int| 0 <= k < i ==> #[trigger] v@[k] < bound,
        decreases v.len() - i,
    {
        if v[i] >= bound {
            return false;
        }
        i = i + 1;
    }
    true
}

/// The names of parameters with the identities of their types.
pub open spec fn named(params: Seq<(String, TypeKey)>) -> Seq<(Seq<char>, TypeKey)> {
    Seq::new(params.len(), |i: int| (params[i].0@, params[i].1))
}

/// One method of an interface of functions.
pub struct MethodDescriptor {
    pub name: String,
    /// The parameters: the name of each and the identity of its type.
    pub params: Vec<(String, TypeKey)>,
    pub comment: Vec<String>,
    /// The identity of the type of the result, if there is one.
    pub return_type: Option<TypeKey>,
}

/// A method in specifications.
pub ghost struct MethodView {
    pub name: Seq<char>,
    pub params: Seq<(Seq<char>, TypeKey)>,
    pub comment: Seq<Seq<char>>,
    pub return_type: Option<TypeKey>,
}

impl View for MethodDescriptor {
    type V = MethodView;

    open spec fn view(&self) -> MethodView {
        MethodView {
            name: self.name@,
            params: named(self.params@),
            comment: texts(self.comment@),
            return_type: self.return_type,
        }
    }
}

/// An interface of functions, written to a file of its own.
pub struct ApiDescriptor {
    pub name: String,
    pub file_name: String,
    pub methods: Vec<MethodDescriptor>,
    pub comment: Vec<String>,
    /// Whether the results of the methods come as promises.
    pub async_func: bool,
}

/// An interface of functions in specifications.
pub ghost struct ApiView {
    pub name: Seq<char>,
    pub file_name: Seq<char>,
    pub methods: Seq<MethodView>,
    pub comment: Seq<Seq<char>>,
    pub async_func: bool,
}

impl View for ApiDescriptor {
    type V = ApiView;

    open spec fn view(&self) -> ApiView {
        ApiView {
            name: self.name@,
            file_name: self.file_name@,
            methods: views(self.methods@),
            comment: texts(self.comment@),
            async_func: self.async_func,
        }
    }
}

/// The tag literals that unions have given to one type under one tag name,
/// in the order in which they came.
pub struct TagGroup {
    /// The index of the tagged type.
    pub payload: usize,
    /// The name of the tag.
    pub tag: String,
    /// The literals, with repetitions.
    pub literals: Vec<String>,
}

/// A group of tag literals in specifications.
pub ghost struct TagGroupView {
    pub payload: usize,
    pub tag: Seq<char>,
    pub literals: Seq<Seq<char>>,
}

impl View for TagGroup {
    type V = TagGroupView;

    open spec fn view(&self) -> TagGroupView {
        TagGroupView { payload: self.payload, tag: self.tag@, literals: texts(self.literals@) }
    }
}

/// What went wrong with a schema.
#[derive(Debug, Clone, Copy, PartialEq, Eq, Structural)]
pub enum SchemaError {
    /// The rename policy is not one that is known.
    UnknownRenamePolicy,
    /// A record declares a tag.
    TagOnRecord,
    /// A union asks for a builder.
    BuilderOnUnion,
    /// No file is given.
    MissingFileName,
    /// A variant carries more than one type.
    TooManyPayloads,
    /// A type is referred to that is not registered.
    UnregisteredType,
    /// The value of an attribute is not the string that it has to be.
    ExpectedString,
    /// The value of an attribute is not the truth value that it has to be.
    ExpectedBool,
    /// An attribute is not one that is known.
    UnexpectedAttribute,
    /// The declaration is neither a record nor a union.
    UnsupportedData,
    /// The implementation block is that of a trait.
    TraitImpl,
    /// The type of an implementation block is not a named type.
    UnsupportedSelfType,
    /// A parameter of a method is not a name.
    UnsupportedParameter,
}

impl SchemaError {
    /// What the fault is, in words.
    pub open spec fn spec_message(self) -> Seq<char> {
        match self {
            SchemaError::UnknownRenamePolicy => "unexpected literal for case converting"@,
            SchemaError::TagOnRecord => "struct types doesn't support tag"@,
            SchemaError::BuilderOnUnion => "enum does not support builder"@,
            SchemaError::MissingFileName => "file name is required"@,
            SchemaError::TooManyPayloads => "a variant carries more than one type"@,
            SchemaError::UnregisteredType => "a type is referred to that is not registered"@,
            SchemaError::ExpectedString => "a string is required"@,
            SchemaError::ExpectedBool => "expected bool value in skip attr"@,
            SchemaError::UnexpectedAttribute => "unexpected attr"@,
            SchemaError::UnsupportedData => "only a struct or an enum is supported"@,
            SchemaError::TraitImpl => "only inherent impl blocks are supported"@,
            SchemaError::UnsupportedSelfType => "unsupported self type"@,
            SchemaError::UnsupportedParameter => "unsupported parameter pattern"@,
        }
    }

    /// What the fault is, in words.
    pub fn message(self) -> (r: &'static str)
        ensures
            r@ == self.spec_message(),
    {
        match self {
            SchemaError::UnknownRenamePolicy => "unexpected literal for case converting",
            SchemaError::TagOnRecord => "struct types doesn't support tag",
            SchemaError::BuilderOnUnion => "enum does not support builder",
            SchemaError::MissingFileName => "file name is required",
            SchemaError::TooManyPayloads => "a variant carries more than one type",
            SchemaError::UnregisteredType => "a type is referred to that is not registered",
            SchemaError::ExpectedString => "a string is required",
            SchemaError::ExpectedBool => "expected bool value in skip attr",
            SchemaError::UnexpectedAttribute => "unexpected attr",
            SchemaError::UnsupportedData => "only a struct or an enum is supported",
            SchemaError::TraitImpl => "only inherent impl blocks are supported",
            SchemaError::UnsupportedSelfType => "unsupported self type",
            SchemaError::UnsupportedParameter => "unsupported parameter pattern",
        }
    }
}

} // verus!
