//! Declarations with their attributes, as they are written, and what the
//! attributes resolve to.

use vstd::prelude::*;
use crate::container::{opt_text, RenameAll};
use crate::declaration::{
    Body, BodyView, Declaration, DeclarationView, FieldDecl, FieldDeclView, VariantDecl,
    VariantDeclView,
};
use crate::descriptor::{lemma_views_push, views, SchemaError};
use crate::meta::{
    comments_of, field_attrs, get_lit_str, get_ts_meta_name_value_items, get_ts_meta_path_items,
    parse_attrs, parse_comments, ts_name_values, ts_paths, Attribute, AttributeView, LitView,
    MetaNameValueView,
};
use crate::text::{same_text, texts};
use crate::type_ref::TypeRef;

verus! {

/// A field of a record with its attributes.
#[derive(Debug)]
pub struct ItemField {
    pub ident: String,
    pub attrs: Vec<Attribute>,
    pub ty: TypeRef,
}

/// A field with its attributes in specifications.
pub ghost struct ItemFieldView {
    pub ident: Seq<char>,
    pub attrs: Seq<AttributeView>,
    pub ty: TypeRef,
}

impl View for ItemField {
    type V = ItemFieldView;

    open spec fn view(&self) -> ItemFieldView {
        ItemFieldView { ident: self.ident@, attrs: views(self.attrs@), ty: self.ty }
    }
}

/// A variant of a union with its attributes.
#[derive(Debug)]
pub struct ItemVariant {
    pub ident: String,
    pub attrs: Vec<Attribute>,
    /// The types that the variant carries.
    pub fields: Vec<TypeRef>,
}

/// A variant with its attributes in specifications.
pub ghost struct ItemVariantView {
    pub ident: Seq<char>,
    pub attrs: Seq<AttributeView>,
    pub fields: Seq<TypeRef>,
}

impl View for ItemVariant {
    type V = ItemVariantView;

    open spec fn view(&self) -> ItemVariantView {
        ItemVariantView { ident: self.ident@, attrs: views(self.attrs@), fields: self.fields@ }
    }
}

/// What a declaration declares.
#[derive(Debug)]
pub enum Data {
    Struct(Vec<ItemField>),
    Enum(Vec<ItemVariant>),
    /// Neither of the two.
    Union,
}

/// What a declaration declares, in specifications.
pub ghost enum DataView {
    Struct(Seq<ItemFieldView>),
    Enum(Seq<ItemVariantView>),
    Union,
}

impl View for Data {
    type V = DataView;

    open spec fn view(&self) -> DataView {
        match self {
            Data::Struct(fs) => DataView::Struct(views(fs@)),
            Data::Enum(vs) => DataView::Enum(views(vs@)),
            Data::Union => DataView::Union,
        }
    }
}

/// A declaration with its attributes.
#[derive(Debug)]
pub struct Item {
    /// The identity of the type.
    pub id: u64,
    pub ident: String,
    pub attrs: Vec<Attribute>,
    pub data: Data,
}

/// A declaration with its attributes in specifications.
pub ghost struct ItemView {
    pub id: u64,
    pub ident: Seq<char>,
    pub attrs: Seq<AttributeView>,
    pub data: DataView,
}

impl View for Item {
    type V = ItemView;

    open spec fn view(&self) -> ItemView {
        ItemView { id: self.id, ident: self.ident@, attrs: views(self.attrs@), data: self.data@ }
    }
}

/// What the attributes of a declaration say.
pub struct ContainerAttrs {
    pub file_name: Option<String>,
    pub rename_all: Option<String>,
    pub rename: Option<String>,
    pub tag: Option<String>,
}

/// What the attributes of a declaration say, in specifications.
pub ghost struct ContainerAttrsView {
    pub file_name: Option<Seq<char>>,
    pub rename_all: Option<Seq<char>>,
    pub rename: Option<Seq<char>>,
    pub tag: Option<Seq<char>>,
}

impl View for ContainerAttrs {
    type V = ContainerAttrsView;

    open spec fn view(&self) -> ContainerAttrsView {
        ContainerAttrsView {
            file_name: opt_text(self.file_name),
            rename_all: opt_text(self.rename_all),
            rename: opt_text(self.rename),
            tag: opt_text(self.tag),
        }
    }
}

impl ContainerAttrsView {
    /// What is said after one more argument. `rename_all`, `file_name`,
    /// `rename` and `tag` must have a string as value, and `rename_all` the
    /// name of a policy; no other argument may stand there.
    pub open spec fn with(self, arg: MetaNameValueView) -> Result<ContainerAttrsView, SchemaError> {
        if arg.path == "rename_all"@ {
            match arg.value {
                LitView::Str(s) => if RenameAll::spec_parse(s) is Some {
                    Ok(ContainerAttrsView { rename_all: Some(s), ..self })
                } else {
                    Err(SchemaError::UnknownRenamePolicy)
                },
                _ => Err(SchemaError::ExpectedString),
            }
        } else if arg.path == "file_name"@ {
            match arg.value {
                LitView::Str(s) => Ok(ContainerAttrsView { file_name: Some(s), ..self }),
                _ => Err(SchemaError::ExpectedString),
            }
        } else if arg.path == "rename"@ {
            match arg.value {
                LitView::Str(s) => Ok(ContainerAttrsView { rename: Some(s), ..self }),
                _ => Err(SchemaError::ExpectedString),
            }
        } else if arg.path == "tag"@ {
            match arg.value {
                LitView::Str(s) => Ok(ContainerAttrsView { tag: Some(s), ..self }),
                _ => Err(SchemaError::ExpectedString),
            }
        } else {
            Err(SchemaError::UnexpectedAttribute)
        }
    }
}

/// What the arguments say of a declaration: each is taken in its turn, a
/// later one replaces an earlier one of the same name, and the first fault
/// ends the reading.
pub open spec fn container_attrs(args: Seq<MetaNameValueView>) -> Result<
    ContainerAttrsView,
    SchemaError,
>
    decreases args.len(),
{
    if args.len() == 0 {
        Ok(ContainerAttrsView { file_name: None, rename_all: None, rename: None, tag: None })
    } else {
        match container_attrs(args.drop_last()) {
            Ok(a) => a.with(args.last()),
            Err(e) => Err(e),
        }
    }
}

/// What has been read of the attributes of a declaration: a fault, or what they say.
pub open spec fn container_outcome(fault: Option<SchemaError>, a: ContainerAttrs) -> Result<
    ContainerAttrsView,
    SchemaError,
> {
    match fault {
        Some(e) => Err(e),
        None => Ok(a@),
    }
}

/// What the attributes of a declaration say.
pub fn parse_container_attrs(attrs: &Vec<Attribute>) -> (r: Result<ContainerAttrs, SchemaError>)
    ensures
        match r {
            Ok(a) => container_attrs(ts_name_values(views(attrs@))) == Ok::<
                ContainerAttrsView,
                SchemaError,
            >(a@),
            Err(e) => container_attrs(ts_name_values(views(attrs@))) == Err::<
                ContainerAttrsView,
                SchemaError,
            >(e),
        },
{
    let mut fault: Option<SchemaError> = None;
    let mut a = ContainerAttrs { file_name: None, rename_all: None, rename: None, tag: None };
    let mut i: usize = 0;
    assert(views(attrs@).take(0) =~= Seq::empty());
    while i < attrs.len()
        invariant
            i <= attrs.len(),
            container_attrs(ts_name_values(views(attrs@).take(i as int))) == container_outcome(
                fault,
                a,
            ),
        decreases attrs.len() - i,
    {
        let attr = &attrs[i];
        let ghost done = ts_name_values(views(attrs@).take(i as int));
        proof {
            let t = views(attrs@).take(i + 1);
            assert(t.drop_last() =~= views(attrs@).take(i as int));
            assert(t.last() == attr@);
        }
        match get_ts_meta_name_value_items(attr) {
            Some(items) => {
                let ghost all = views(items@);
                let mut k: usize = 0;
                assert(done + all.take(0) =~= done);
                while k < items.len()
                    invariant
                        k <= items.len(),
                        all == views(items@),
                        container_attrs(done + all.take(k as int)) == container_outcome(fault, a),
                    decreases items.len() - k,
                {
                    let m = &items[k];
                    proof {
                        assert(all[k as int] == m@);
                        assert((done + all.take(k + 1)).drop_last() =~= done + all.take(k as int));
                        assert((done + all.take(k + 1)).last() == m@);
                    }
                    if fault.is_none() {
                        let name = m.path.as_str();
                        if same_text(name, "rename_all") {
                            match get_lit_str(&m.value) {
                                Some(s) => {
                                    if RenameAll::parse(s.as_str()).is_some() {
                                        a.rename_all = Some(s.clone());
                                    } else {
                                        fault = Some(SchemaError::UnknownRenamePolicy);
                                    }
                                },
                                None => {
                                    fault = Some(SchemaError::ExpectedString);
                                },
                            }
                        } else if same_text(name, "file_name") {
                            match get_lit_str(&m.value) {
                                Some(s) => {
                                    a.file_name = Some(s.clone());
                                },
                                None => {
                                    fault = Some(SchemaError::ExpectedString);
                                },
                            }
                        } else if same_text(name, "rename") {
                            match get_lit_str(&m.value) {
                                Some(s) => {
                                    a.rename = Some(s.clone());
                                },
                                None => {
                                    fault = Some(SchemaError::ExpectedString);
                                },
                            }
                        } else if same_text(name, "tag") {
                            match get_lit_str(&m.value) {
                                Some(s) => {
                                    a.tag = Some(s.clone());
                                },
                                None => {
                                    fault = Some(SchemaError::ExpectedString);
                                },
                            }
                        } else {
                            fault = Some(SchemaError::UnexpectedAttribute);
                        }
                    }
                    k = k + 1;
                }
                assert(all.take(items.len() as int) =~= all);
            },
            None => {
                assert(done + Seq::<MetaNameValueView>::empty() =~= done);
            },
        }
        i = i + 1;
    }
    assert(views(attrs@).take(attrs.len() as int) =~= views(attrs@));
    match fault {
        Some(e) => Err(e),
        None => Ok(a),
    }
}

/// Whether the attributes ask for a builder: whether `builder` stands
/// among the paths of a `ts` attribute.
pub open spec fn asks_builder(attrs: Seq<AttributeView>) -> bool {
    ts_paths(attrs).contains("builder"@)
}

/// Whether the attributes ask for a builder.
pub fn needs_builder(attrs: &Vec<Attribute>) -> (r: bool)
    ensures
        r == asks_builder(views(attrs@)),
{
    let mut r = false;
    let mut i: usize = 0;
    assert(views(attrs@).take(0) =~= Seq::empty());
    while i < attrs.len()
        invariant
            i <= attrs.len(),
            r == ts_paths(views(attrs@).take(i as int)).contains("builder"@),
        decreases attrs.len() - i,
    {
        let attr = &attrs[i];
        let ghost done = ts_paths(views(attrs@).take(i as int));
        proof {
            let t = views(attrs@).take(i + 1);
            assert(t.drop_last() =~= views(attrs@).take(i as int));
            assert(t.last() == attr@);
        }
        match get_ts_meta_path_items(attr) {
            Some(paths) => {
                let ghost all = texts(paths@);
                let mut k: usize = 0;
                assert(done + all.take(0) =~= done);
                while k < paths.len()
                    invariant
                        k <= paths.len(),
                        all == texts(paths@),
                        r == (done + all.take(k as int)).contains("builder"@),
                    decreases paths.len() - k,
                {
                    let ghost before = done + all.take(k as int);
                    let ghost next = done + all.take(k + 1);
                    proof {
                        assert(next =~= before.push(all[k as int]));
                        assert(all[k as int] == paths@[k as int]@);
                        if before.contains("builder"@) {
                            let j = choose|j: int| 0 <= j < before.len() && before[j] == "builder"@;
                            assert(next[j] == "builder"@);
                        }
                        if next.contains("builder"@) && !before.contains("builder"@) {
                            let j = choose|j: int| 0 <= j < next.len() && next[j] == "builder"@;
                            assert(j == before.len());
                        }
                    }
                    if same_text(paths[k].as_str(), "builder") {
                        r = true;
                        assert(next[before.len() as int] == "builder"@);
                    }
                    k = k + 1;
                }
                assert(all.take(paths.len() as int) =~= all);
            },
            None => {
                assert(done + Seq::<Seq<char>>::empty() =~= done);
            },
        }
        i = i + 1;
    }
    assert(views(attrs@).take(attrs.len() as int) =~= views(attrs@));
    r
}

impl ItemFieldView {
    /// The written field that the attributes resolve to.
    pub open spec fn resolve(self) -> Result<FieldDeclView, SchemaError> {
        match field_attrs(ts_name_values(self.attrs)) {
            Ok(a) => Ok(
                FieldDeclView {
                    ident: self.ident,
                    rename: a.rename,
                    skip: a.skip,
                    tag_value: a.tag_value,
                    comments: comments_of(self.attrs),
                    ty: self.ty,
                },
            ),
            Err(e) => Err(e),
        }
    }
}

impl ItemVariantView {
    /// The written variant that the attributes resolve to. A variant that
    /// carries more than one type is refused, after its attributes were read.
    pub open spec fn resolve(self) -> Result<VariantDeclView, SchemaError> {
        match field_attrs(ts_name_values(self.attrs)) {
            Ok(a) => if self.fields.len() > 1 {
                Err(SchemaError::TooManyPayloads)
            } else {
                Ok(
                    VariantDeclView {
                        ident: self.ident,
                        rename: a.rename,
                        skip: a.skip,
                        tag_value: a.tag_value,
                        comments: comments_of(self.attrs),
                        payload: self.fields,
                    },
                )
            },
            Err(e) => Err(e),
        }
    }
}

/// The written fields that the fields resolve to, or the first fault.
pub open spec fn resolve_fields(fields: Seq<ItemFieldView>) -> Result<
    Seq<FieldDeclView>,
    SchemaError,
>
    decreases fields.len(),
{
    if fields.len() == 0 {
        Ok(Seq::empty())
    } else {
        match resolve_fields(fields.drop_last()) {
            Ok(done) => match fields.last().resolve() {
                Ok(f) => Ok(done.push(f)),
                Err(e) => Err(e),
            },
            Err(e) => Err(e),
        }
    }
}

/// The written variants that the variants resolve to, or the first fault.
pub open spec fn resolve_variants(variants: Seq<ItemVariantView>) -> Result<
    Seq<VariantDeclView>,
    SchemaError,
>
    decreases variants.len(),
{
    if variants.len() == 0 {
        Ok(Seq::empty())
    } else {
        match resolve_variants(variants.drop_last()) {
            Ok(done) => match variants.last().resolve() {
                Ok(v) => Ok(done.push(v)),
                Err(e) => Err(e),
            },
            Err(e) => Err(e),
        }
    }
}

impl ItemView {
    /// The declaration that the attributes resolve to, or the first fault.
    /// The attributes of the declaration are read first. Then a record must
    /// have no tag, its fields are read, and it must have a file; a union
    /// must ask for no builder, its variants are read, and it must have a
    /// file. What is neither is refused.
    pub open spec fn resolve(self) -> Result<DeclarationView, SchemaError> {
        match container_attrs(ts_name_values(self.attrs)) {
            Err(e) => Err(e),
            Ok(a) => {
                let builder = asks_builder(self.attrs);
                match self.data {
                    DataView::Struct(fields) => if a.tag is Some {
                        Err(SchemaError::TagOnRecord)
                    } else {
                        match resolve_fields(fields) {
                            Err(e) => Err(e),
                            Ok(fs) => if a.file_name is None {
                                Err(SchemaError::MissingFileName)
                            } else {
                                Ok(self.declaration(a, builder, BodyView::Record(fs)))
                            },
                        }
                    },
                    DataView::Enum(variants) => if builder {
                        Err(SchemaError::BuilderOnUnion)
                    } else {
                        match resolve_variants(variants) {
                            Err(e) => Err(e),
                            Ok(vs) => if a.file_name is None {
                                Err(SchemaError::MissingFileName)
                            } else {
                                Ok(self.declaration(a, builder, BodyView::Union(vs)))
                            },
                        }
                    },
                    DataView::Union => Err(SchemaError::UnsupportedData),
                }
            },
        }
    }

    /// The declaration with what its attributes say and with its members.
    pub open spec fn declaration(
        self,
        a: ContainerAttrsView,
        builder: bool,
        body: BodyView,
    ) -> DeclarationView {
        DeclarationView {
            id: self.id,
            ident: self.ident,
            file_name: a.file_name,
            rename_all: a.rename_all,
            rename: a.rename,
            tag: a.tag,
            builder,
            comments: comments_of(self.attrs),
            body,
        }
    }
}

impl ItemField {
    /// The written field that the attributes resolve to.
    pub fn resolve(self) -> (r: Result<FieldDecl, SchemaError>)
        ensures
            match r {
                Ok(f) => self@.resolve() == Ok::<FieldDeclView, SchemaError>(f@),
                Err(e) => self@.resolve() == Err::<FieldDeclView, SchemaError>(e),
            },
    {
        let comments = parse_comments(&self.attrs);
        match parse_attrs(&self.attrs) {
            Ok(a) => Ok(
                FieldDecl {
                    ident: self.ident,
                    rename: a.rename,
                    skip: a.skip,
                    tag_value: a.tag_value,
                    comments,
                    ty: self.ty,
                },
            ),
            Err(e) => Err(e),
        }
    }
}

impl ItemVariant {
    /// The written variant that the attributes resolve to.
    pub fn resolve(self) -> (r: Result<VariantDecl, SchemaError>)
        ensures
            match r {
                Ok(v) => self@.resolve() == Ok::<VariantDeclView, SchemaError>(v@),
                Err(e) => self@.resolve() == Err::<VariantDeclView, SchemaError>(e),
            },
    {
        let comments = parse_comments(&self.attrs);
        match parse_attrs(&self.attrs) {
            Ok(a) => {
                if self.fields.len() > 1 {
                    return Err(SchemaError::TooManyPayloads);
                }
                Ok(
                    VariantDecl {
                        ident: self.ident,
                        rename: a.rename,
                        skip: a.skip,
                        tag_value: a.tag_value,
                        comments,
                        payload: self.fields,
                    },
                )
            },
            Err(e) => Err(e),
        }
    }
}

/// What has been read of the members: a fault, or the members.
pub open spec fn members_outcome<T: View>(fault: Option<SchemaError>, done: Seq<T>) -> Result<
    Seq<T::V>,
    SchemaError,
> {
    match fault {
        Some(e) => Err(e),
        None => Ok(views(done)),
    }
}

impl Item {
    /// The declaration that the attributes resolve to, or the first fault.
    pub fn resolve(self) -> (r: Result<Declaration, SchemaError>)
        ensures
            match r {
                Ok(d) => self@.resolve() == Ok::<DeclarationView, SchemaError>(d@),
                Err(e) => self@.resolve() == Err::<DeclarationView, SchemaError>(e),
            },
    {
        let comments = parse_comments(&self.attrs);
        let builder = needs_builder(&self.attrs);
        let a = match parse_container_attrs(&self.attrs) {
            Ok(a) => a,
            Err(e) => {
                return Err(e);
            },
        };
        let Item { id, ident, attrs: _, data } = self;
        let body = match data {
            Data::Struct(fields) => {
                if a.tag.is_some() {
                    return Err(SchemaError::TagOnRecord);
                }
                let mut fault: Option<SchemaError> = None;
                let mut done: Vec<FieldDecl> = Vec::new();
                assert(views(fields@).take(0) =~= Seq::empty());
                assert(views(done@) =~= Seq::empty());
                for f in it: fields
                    invariant
                        it.seq() == fields@,
                        resolve_fields(views(fields@).take(it.index() as int)) == members_outcome(
                            fault,
                            done@,
                        ),
                {
                    proof {
                        let t = views(fields@).take(it.index() + 1);
                        assert(t.drop_last() =~= views(fields@).take(it.index() as int));
                        assert(t.last() == f@);
                    }
                    if fault.is_none() {
                        match f.resolve() {
                            Ok(d) => {
                                proof {
                                    lemma_views_push(done@, d);
                                }
                                done.push(d);
                            },
                            Err(e) => {
                                fault = Some(e);
                            },
                        }
                    }
                }
                assert(views(fields@).take(fields@.len() as int) =~= views(fields@));
                match fault {
                    Some(e) => {
                        return Err(e);
                    },
                    None => {},
                }
                Body::Record(done)
            },
            Data::Enum(variants) => {
                if builder {
                    return Err(SchemaError::BuilderOnUnion);
                }
                let mut fault: Option<SchemaError> = None;
                let mut done: Vec<VariantDecl> = Vec::new();
                assert(views(variants@).take(0) =~= Seq::empty());
                assert(views(done@) =~= Seq::empty());
                for v in it: variants
                    invariant
                        it.seq() == variants@,
                        resolve_variants(views(variants@).take(it.index() as int))
                            == members_outcome(fault, done@),
                {
                    proof {
                        let t = views(variants@).take(it.index() + 1);
                        assert(t.drop_last() =~= views(variants@).take(it.index() as int));
                        assert(t.last() == v@);
                    }
                    if fault.is_none() {
                        match v.resolve() {
                            Ok(d) => {
                                proof {
                                    lemma_views_push(done@, d);
                                }
                                done.push(d);
                            },
                            Err(e) => {
                                fault = Some(e);
                            },
                        }
                    }
                }
                assert(views(variants@).take(variants@.len() as int) =~= views(variants@));
                match fault {
                    Some(e) => {
                        return Err(e);
                    },
                    None => {},
                }
                Body::Union(done)
            },
            Data::Union => {
                return Err(SchemaError::UnsupportedData);
            },
        };
        if a.file_name.is_none() {
            return Err(SchemaError::MissingFileName);
        }
        Ok(
            Declaration {
                id,
                ident,
                file_name: a.file_name,
                rename_all: a.rename_all,
                rename: a.rename,
                tag: a.tag,
                builder,
                comments,
                body,
            },
        )
    }
}

/// The attributes of a declaration that are read without fault name a
/// rename policy that is known, if they name any.
pub proof fn lemma_policy_is_known(args: Seq<MetaNameValueView>)
    ensures
        container_attrs(args) matches Ok(a) ==> (a.rename_all matches Some(s)
            ==> RenameAll::spec_parse(s) is Some),
    decreases args.len(),
{
    if args.len() > 0 {
        lemma_policy_is_known(args.drop_last());
    }
}

/// Variants that are resolved without fault carry one type at most.
pub proof fn lemma_resolved_variants(variants: Seq<ItemVariantView>)
    ensures
        resolve_variants(variants) matches Ok(vs) ==> !crate::declaration::too_many_payloads(vs),
    decreases variants.len(),
{
    if variants.len() > 0 {
        lemma_resolved_variants(variants.drop_last());
        match resolve_variants(variants) {
            Ok(vs) => {
                let done = resolve_variants(variants.drop_last())->Ok_0;
                assert forall|i: int| 0 <= i < vs.len() implies !((#[trigger] vs[i]).payload.len()
                    > 1) by {
                    if i < done.len() {
                        assert(vs[i] == done[i]);
                        assert(!(done[i].payload.len() > 1));
                    }
                }
            },
            Err(_) => {},
        }
    }
}

/// A declaration that its attributes resolve to is in order: no fault is
/// found in it when its schema is made.
pub proof fn lemma_resolved_is_accepted(item: ItemView)
    requires
        item.resolve() is Ok,
    ensures
        item.resolve()->Ok_0.error() is None,
{
    lemma_policy_is_known(ts_name_values(item.attrs));
    match item.data {
        DataView::Enum(variants) => {
            lemma_resolved_variants(variants);
        },
        _ => {},
    }
}

} // verus!
