//! Declarations as they are written, before they are checked: a record with
//! a tag, a union with a builder, a missing file, an unknown rename policy
//! and a variant with several payloads can all be written, and are refused.

use vstd::prelude::*;
use crate::container::{
    opt_text, text_or_empty, Container, ContainerSchema, Field, FieldSchema, RenameAll,
};
use crate::descriptor::{views, SchemaError};
use crate::meta::{get_lit_str, LitView, MetaNameValue, MetaNameValueView};
use crate::text::{same_text, texts};
use crate::type_ref::TypeRef;

verus! {

/// A field of a record, as it is written.
#[derive(Debug)]
pub struct FieldDecl {
    pub ident: String,
    pub rename: Option<String>,
    pub skip: bool,
    pub tag_value: Option<String>,
    pub comments: Vec<String>,
    pub ty: TypeRef,
}

/// A variant of a union, as it is written.
#[derive(Debug)]
pub struct VariantDecl {
    pub ident: String,
    pub rename: Option<String>,
    pub skip: bool,
    pub tag_value: Option<String>,
    pub comments: Vec<String>,
    /// The types that the variant carries.
    pub payload: Vec<TypeRef>,
}

/// The members of a declaration: the fields of a record, or the variants of a union.
#[derive(Debug)]
pub enum Body {
    Record(Vec<FieldDecl>),
    Union(Vec<VariantDecl>),
}

/// A record or a union, as it is written.
#[derive(Debug)]
pub struct Declaration {
    /// The identity of the type.
    pub id: u64,
    pub ident: String,
    /// The file that the type is written to.
    pub file_name: Option<String>,
    /// The rename policy, by its name.
    pub rename_all: Option<String>,
    pub rename: Option<String>,
    /// The name of the tag.
    pub tag: Option<String>,
    /// Whether a builder is asked for.
    pub builder: bool,
    pub comments: Vec<String>,
    pub body: Body,
}

/// A written field in specifications.
pub ghost struct FieldDeclView {
    pub ident: Seq<char>,
    pub rename: Option<Seq<char>>,
    pub skip: bool,
    pub tag_value: Option<Seq<char>>,
    pub comments: Seq<Seq<char>>,
    pub ty: TypeRef,
}

impl View for FieldDecl {
    type V = FieldDeclView;

    open spec fn view(&self) -> FieldDeclView {
        FieldDeclView {
            ident: self.ident@,
            rename: opt_text(self.rename),
            skip: self.skip,
            tag_value: opt_text(self.tag_value),
            comments: texts(self.comments@),
            ty: self.ty,
        }
    }
}

/// A written variant in specifications.
pub ghost struct VariantDeclView {
    pub ident: Seq<char>,
    pub rename: Option<Seq<char>>,
    pub skip: bool,
    pub tag_value: Option<Seq<char>>,
    pub comments: Seq<Seq<char>>,
    pub payload: Seq<TypeRef>,
}

impl View for VariantDecl {
    type V = VariantDeclView;

    open spec fn view(&self) -> VariantDeclView {
        VariantDeclView {
            ident: self.ident@,
            rename: opt_text(self.rename),
            skip: self.skip,
            tag_value: opt_text(self.tag_value),
            comments: texts(self.comments@),
            payload: self.payload@,
        }
    }
}

/// The written members in specifications.
pub ghost enum BodyView {
    Record(Seq<FieldDeclView>),
    Union(Seq<VariantDeclView>),
}

impl View for Body {
    type V = BodyView;

    open spec fn view(&self) -> BodyView {
        match self {
            Body::Record(fs) => BodyView::Record(views(fs@)),
            Body::Union(vs) => BodyView::Union(views(vs@)),
        }
    }
}

/// A written declaration in specifications.
pub ghost struct DeclarationView {
    pub id: u64,
    pub ident: Seq<char>,
    pub file_name: Option<Seq<char>>,
    pub rename_all: Option<Seq<char>>,
    pub rename: Option<Seq<char>>,
    pub tag: Option<Seq<char>>,
    pub builder: bool,
    pub comments: Seq<Seq<char>>,
    pub body: BodyView,
}

impl View for Declaration {
    type V = DeclarationView;

    open spec fn view(&self) -> DeclarationView {
        DeclarationView {
            id: self.id,
            ident: self.ident@,
            file_name: opt_text(self.file_name),
            rename_all: opt_text(self.rename_all),
            rename: opt_text(self.rename),
            tag: opt_text(self.tag),
            builder: self.builder,
            comments: texts(self.comments@),
            body: self.body@,
        }
    }
}

impl FieldDeclView {
    /// The member of a schema that the written field is.
    pub open spec fn field(self) -> FieldSchema {
        FieldSchema {
            rename: self.rename,
            ident: self.ident,
            ty: Some(self.ty),
            skip: self.skip,
            comments: self.comments,
            tag_value: self.tag_value,
        }
    }
}

impl VariantDeclView {
    /// The member of a schema that the written variant is: its payload is
    /// the first type that it carries, if it carries any.
    pub open spec fn field(self) -> FieldSchema {
        FieldSchema {
            rename: self.rename,
            ident: self.ident,
            ty: if self.payload.len() == 0 {
                None
            } else {
                Some(self.payload[0])
            },
            skip: self.skip,
            comments: self.comments,
            tag_value: self.tag_value,
        }
    }
}

/// Whether some variant carries more than one type.
pub open spec fn too_many_payloads(vs: Seq<VariantDeclView>) -> bool {
    exists|i: int| 0 <= i < vs.len() && (#[trigger] vs[i]).payload.len() > 1
}

impl BodyView {
    /// The members of a schema that the written members are.
    pub open spec fn fields(self) -> Seq<FieldSchema> {
        match self {
            BodyView::Record(fs) => Seq::new(fs.len(), |i: int| fs[i].field()),
            BodyView::Union(vs) => Seq::new(vs.len(), |i: int| vs[i].field()),
        }
    }
}

impl DeclarationView {
    /// Why the declaration is refused, if it is. The rename policy is
    /// looked at first. Then a record must have no tag, and a file; a union
    /// must ask for no builder, have no variant with several payloads, and
    /// have a file; in this order.
    pub open spec fn error(self) -> Option<SchemaError> {
        if self.rename_all is Some && RenameAll::spec_parse(self.rename_all->0) is None {
            Some(SchemaError::UnknownRenamePolicy)
        } else {
            match self.body {
                BodyView::Record(_) => if self.tag is Some {
                    Some(SchemaError::TagOnRecord)
                } else if self.file_name is None {
                    Some(SchemaError::MissingFileName)
                } else {
                    None
                },
                BodyView::Union(vs) => if self.builder {
                    Some(SchemaError::BuilderOnUnion)
                } else if too_many_payloads(vs) {
                    Some(SchemaError::TooManyPayloads)
                } else if self.file_name is None {
                    Some(SchemaError::MissingFileName)
                } else {
                    None
                },
            }
        }
    }

    /// The rename policy of the declaration.
    pub open spec fn policy(self) -> Option<RenameAll> {
        match self.rename_all {
            Some(s) => RenameAll::spec_parse(s),
            None => None,
        }
    }

    /// The schema that the declaration writes.
    pub open spec fn schema(self) -> ContainerSchema {
        ContainerSchema {
            id: self.id,
            file_name: text_or_empty(self.file_name),
            is_enum: self.body is Union,
            fields: self.body.fields(),
            rename_all: self.policy(),
            rename: self.rename,
            ident: self.ident,
            comments: self.comments,
            need_builder: self.builder,
            tag: self.tag,
        }
    }
}

impl Container {
    /// The schema of a declaration, unless the declaration is refused.
    pub fn from_ast(item: Declaration) -> (r: Result<Container, SchemaError>)
        ensures
            match r {
                Ok(c) => item@.error() is None && c@ == item@.schema(),
                Err(e) => item@.error() == Some(e),
            },
    {
        let Declaration { id, ident, file_name, rename_all, rename, tag, builder, comments, body } =
            item;
        let policy = match &rename_all {
            Some(s) => match RenameAll::parse(s.as_str()) {
                Some(p) => Some(p),
                None => {
                    return Err(SchemaError::UnknownRenamePolicy);
                },
            },
            None => None,
        };
        match body {
            Body::Record(decls) => {
                if tag.is_some() {
                    return Err(SchemaError::TagOnRecord);
                }
                let mut fields: Vec<Field> = Vec::new();
                for f in it: decls
                    invariant
                        fields@.len() == it.index(),
                        forall|k: int| 0 <= k < fields@.len() ==> fields@[k]@ == it.seq()[k]@.field(),
                        it.seq() == decls@,
                {
                    fields.push(Field::from_field(f));
                }
                assert(views(fields@) =~= item@.body.fields());
                match file_name {
                    Some(name) => Ok(
                        Container {
                            id,
                            file_name: name,
                            is_enum: false,
                            fields,
                            rename_all: policy,
                            rename,
                            ident,
                            comments,
                            need_builder: builder,
                            tag,
                        },
                    ),
                    None => Err(SchemaError::MissingFileName),
                }
            },
            Body::Union(decls) => {
                if builder {
                    return Err(SchemaError::BuilderOnUnion);
                }
                let mut fields: Vec<Field> = Vec::new();
                for v in it: decls
                    invariant
                        fields@.len() == it.index(),
                        forall|k: int| 0 <= k < fields@.len() ==> fields@[k]@ == it.seq()[k]@.field(),
                        forall|k: int|
                            0 <= k < fields@.len() ==> (#[trigger] it.seq()[k]).payload@.len()
                                <= 1,
                        it.seq() == decls@,
                        item@.error() != Some(SchemaError::UnknownRenamePolicy),
                        item.body == Body::Union(decls),
                        item.builder == false,
                {
                    let ghost written = v;
                    match Field::from_variant(v) {
                        Ok(f) => {
                            fields.push(f);
                        },
                        Err(e) => {
                            assert(views(decls@)[it.index() as int] == written@);
                            assert(too_many_payloads(views(decls@)));
                            return Err(e);
                        },
                    }
                }
                assert(views(fields@) =~= item@.body.fields());
                assert(!too_many_payloads(views(decls@))) by {
                    assert forall|i: int| 0 <= i < views(decls@).len() implies !((
                    #[trigger] views(decls@)[i]).payload.len() > 1) by {
                        assert(decls@[i].payload@.len() <= 1);
                    }
                }
                match file_name {
                    Some(name) => Ok(
                        Container {
                            id,
                            file_name: name,
                            is_enum: true,
                            fields,
                            rename_all: policy,
                            rename,
                            ident,
                            comments,
                            need_builder: builder,
                            tag,
                        },
                    ),
                    None => Err(SchemaError::MissingFileName),
                }
            },
        }
    }
}

impl Field {
    /// The member of a schema that a written field is.
    pub fn from_field(f: FieldDecl) -> (r: Field)
        ensures
            r@ == f@.field(),
    {
        Field {
            rename: f.rename,
            ident: f.ident,
            ty: Some(f.ty),
            skip: f.skip,
            comments: f.comments,
            tag_value: f.tag_value,
        }
    }

    /// The member of a schema that a written variant is. A variant that
    /// carries more than one type is refused.
    pub fn from_variant(v: VariantDecl) -> (r: Result<Field, SchemaError>)
        ensures
            match r {
                Ok(f) => v@.payload.len() <= 1 && f@ == v@.field(),
                Err(e) => v@.payload.len() > 1 && e == SchemaError::TooManyPayloads,
            },
    {
        let VariantDecl { ident, rename, skip, tag_value, comments, payload } = v;
        if payload.len() > 1 {
            return Err(SchemaError::TooManyPayloads);
        }
        let mut payload = payload;
        let ty = payload.pop();
        Ok(Field { rename, ident, ty, skip, comments, tag_value })
    }
}

/// The file that a header names for a declaration.
pub struct GentsWasmAttrs {
    file_name: String,
}

/// What is read of the arguments of a header after one more of them: its
/// value must be a string, and its name `file_name`.
pub open spec fn header_with(file_name: Seq<char>, arg: MetaNameValueView) -> Result<
    Seq<char>,
    SchemaError,
> {
    match arg.value {
        LitView::Str(s) => if arg.path == "file_name"@ {
            Ok(s)
        } else {
            Err(SchemaError::UnexpectedAttribute)
        },
        _ => Err(SchemaError::ExpectedString),
    }
}

/// The file that the arguments of a header name, the last one where there
/// are several, nothing where there is none; the first fault ends the reading.
pub open spec fn header_file(args: Seq<MetaNameValueView>) -> Result<Seq<char>, SchemaError>
    decreases args.len(),
{
    if args.len() == 0 {
        Ok(Seq::empty())
    } else {
        match header_file(args.drop_last()) {
            Ok(name) => header_with(name, args.last()),
            Err(e) => Err(e),
        }
    }
}

/// What the arguments of a header say: the file that they name. A header
/// that names no file is refused.
pub open spec fn header(args: Seq<MetaNameValueView>) -> Result<Seq<char>, SchemaError> {
    match header_file(args) {
        Ok(name) => if name.len() == 0 {
            Err(SchemaError::MissingFileName)
        } else {
            Ok(name)
        },
        Err(e) => Err(e),
    }
}

impl GentsWasmAttrs {
    /// What the arguments of a header say.
    pub fn parse(args: &Vec<MetaNameValue>) -> (r: Result<GentsWasmAttrs, SchemaError>)
        ensures
            match r {
                Ok(a) => header(views(args@)) == Ok::<Seq<char>, SchemaError>(a.spec_file_name()),
                Err(e) => header(views(args@)) == Err::<Seq<char>, SchemaError>(e),
            },
    {
        let mut fault: Option<SchemaError> = None;
        let mut file_name = String::new();
        let mut i: usize = 0;
        assert(views(args@).take(0) =~= Seq::empty());
        while i < args.len()
            invariant
                i <= args.len(),
                header_file(views(args@).take(i as int)) == match fault {
                    Some(e) => Err::<Seq<char>, SchemaError>(e),
                    None => Ok(file_name@),
                },
            decreases args.len() - i,
        {
            let m = &args[i];
            proof {
                let t = views(args@).take(i + 1);
                assert(t.drop_last() =~= views(args@).take(i as int));
                assert(t.last() == m@);
            }
            if fault.is_none() {
                match get_lit_str(&m.value) {
                    Some(s) => {
                        if same_text(m.path.as_str(), "file_name") {
                            file_name = s.clone();
                        } else {
                            fault = Some(SchemaError::UnexpectedAttribute);
                        }
                    },
                    None => {
                        fault = Some(SchemaError::ExpectedString);
                    },
                }
            }
            i = i + 1;
        }
        assert(views(args@).take(args.len() as int) =~= views(args@));
        match fault {
            Some(e) => Err(e),
            None => {
                if file_name.as_str().is_empty() {
                    Err(SchemaError::MissingFileName)
                } else {
                    Ok(GentsWasmAttrs { file_name })
                }
            },
        }
    }

    /// The file that the header names.
    pub closed spec fn spec_file_name(&self) -> Seq<char> {
        self.file_name@
    }

    /// The file that the header names.
    pub fn get_file_name(&self) -> (r: &str)
        ensures
            r@ == self.spec_file_name(),
    {
        self.file_name.as_str()
    }
}

/// The declaration `item` under a header: it is written to the file of the
/// header, and its members are renamed to camel case.
pub fn gents_header(attrs: &GentsWasmAttrs, item: Declaration) -> (r: Declaration)
    ensures
        r@ == (DeclarationView {
            file_name: Some(attrs.spec_file_name()),
            rename_all: Some("camelCase"@),
            ..item@
        }),
{
    let Declaration { id, ident, file_name, rename_all, rename, tag, builder, comments, body } =
        item;
    Declaration {
        id,
        ident,
        file_name: Some(String::from_str(attrs.get_file_name())),
        rename_all: Some(String::from_str("camelCase")),
        rename,
        tag,
        builder,
        comments,
        body,
    }
}

} // verus!
