//! The schema of a record or a union, and its registration: the types of
//! its members are registered first, then the type itself, under its identity.

use vstd::prelude::*;
use crate::case::{
    camel_from_pascal, camel_from_snake, convert_camel_from_pascal, convert_camel_from_snake,
};
use crate::descriptor::{
    lemma_views_push, views, Descriptor, DescriptorView, EnumDescriptor, EnumView,
    FieldDescriptor, FieldView, InterfaceDescriptor, InterfaceView, SchemaError,
};
use crate::manager::{
    grown, lemma_registry_grows, tags_with, DescriptorManager, ManagerView,
};
use crate::scalar::TypeKey;
use crate::text::{lemma_texts_push, same_text, texts};
use crate::type_ref::{lemma_grown_transitive, lemma_resolved_grows, TypeRef};

verus! {

/// A rename policy: how the names of the members of a type are written.
#[derive(Debug, Clone, Copy, PartialEq, Eq, Structural)]
pub enum RenameAll {
    /// Fields in snake case and variants in Pascal case become camel case.
    CamelCase,
}

impl RenameAll {
    /// The policy that `s` names, if it names one: `camelCase` is the one that is known.
    pub open spec fn spec_parse(s: Seq<char>) -> Option<RenameAll> {
        if s == "camelCase"@ {
            Some(RenameAll::CamelCase)
        } else {
            None
        }
    }

    /// The policy that `s` names, if it names one.
    pub fn parse(s: &str) -> (r: Option<RenameAll>)
        ensures
            r == RenameAll::spec_parse(s@),
    {
        if same_text(s, "camelCase") {
            Some(RenameAll::CamelCase)
        } else {
            None
        }
    }
}

/// A field of a record, or a variant of a union.
#[derive(Debug)]
pub struct Field {
    /// The name under which the member is written, where it is not the one
    /// that the policy gives.
    pub rename: Option<String>,
    /// The identifier of the member.
    pub ident: String,
    /// The type of the field, or of the payload of the variant; a variant
    /// without payload has none.
    pub ty: Option<TypeRef>,
    /// Whether the member is left out.
    pub skip: bool,
    pub comments: Vec<String>,
    /// The tag literal of the variant, where it is not its name.
    pub tag_value: Option<String>,
}

/// A record or a union.
#[derive(Debug)]
pub struct Container {
    /// The identity of the type: two schemas with the same identity are the same type.
    pub id: u64,
    pub file_name: String,
    pub is_enum: bool,
    pub fields: Vec<Field>,
    pub rename_all: Option<RenameAll>,
    /// The name under which a union is written, where it is not its identifier.
    pub rename: Option<String>,
    pub ident: String,
    pub comments: Vec<String>,
    pub need_builder: bool,
    /// The name of the tag of a union.
    pub tag: Option<String>,
}

/// The text of an optional string.
pub open spec fn opt_text(s: Option<String>) -> Option<Seq<char>> {
    match s {
        Some(v) => Some(v@),
        None => None,
    }
}

/// An optional text, or nothing.
pub open spec fn text_or_empty(s: Option<Seq<char>>) -> Seq<char> {
    match s {
        Some(v) => v,
        None => Seq::empty(),
    }
}

/// A member of a schema in specifications.
pub ghost struct FieldSchema {
    pub rename: Option<Seq<char>>,
    pub ident: Seq<char>,
    pub ty: Option<TypeRef>,
    pub skip: bool,
    pub comments: Seq<Seq<char>>,
    pub tag_value: Option<Seq<char>>,
}

impl View for Field {
    type V = FieldSchema;

    open spec fn view(&self) -> FieldSchema {
        FieldSchema {
            rename: opt_text(self.rename),
            ident: self.ident@,
            ty: self.ty,
            skip: self.skip,
            comments: texts(self.comments@),
            tag_value: opt_text(self.tag_value),
        }
    }
}

/// A record or a union in specifications.
pub ghost struct ContainerSchema {
    pub id: u64,
    pub file_name: Seq<char>,
    pub is_enum: bool,
    pub fields: Seq<FieldSchema>,
    pub rename_all: Option<RenameAll>,
    pub rename: Option<Seq<char>>,
    pub ident: Seq<char>,
    pub comments: Seq<Seq<char>>,
    pub need_builder: bool,
    pub tag: Option<Seq<char>>,
}

impl View for Container {
    type V = ContainerSchema;

    open spec fn view(&self) -> ContainerSchema {
        ContainerSchema {
            id: self.id,
            file_name: self.file_name@,
            is_enum: self.is_enum,
            fields: views(self.fields@),
            rename_all: self.rename_all,
            rename: opt_text(self.rename),
            ident: self.ident@,
            comments: texts(self.comments@),
            need_builder: self.need_builder,
            tag: opt_text(self.tag),
        }
    }
}

impl FieldSchema {
    /// The name under which the member is written: the one given to it, or
    /// else its identifier as the policy has it. Under the camel-case
    /// policy a variant is read as Pascal case and a field as snake case.
    pub open spec fn display_name(self, policy: Option<RenameAll>, is_enum: bool) -> Seq<char> {
        match self.rename {
            Some(s) => s,
            None => match policy {
                None => self.ident,
                Some(RenameAll::CamelCase) => if is_enum {
                    camel_from_pascal(self.ident)
                } else {
                    camel_from_snake(self.ident)
                },
            },
        }
    }

    /// The tag literal of the member: the one given to it, or else the name
    /// under which it is written.
    pub open spec fn literal(self, policy: Option<RenameAll>, is_enum: bool) -> Seq<char> {
        if text_or_empty(self.tag_value).len() > 0 {
            text_or_empty(self.tag_value)
        } else {
            self.display_name(policy, is_enum)
        }
    }

    /// The descriptor of the member; `ds` are the descriptors by which the
    /// names of registered types are found.
    pub open spec fn descriptor(
        self,
        policy: Option<RenameAll>,
        is_enum: bool,
        ds: Seq<DescriptorView>,
    ) -> FieldView {
        FieldView {
            ident: self.display_name(policy, is_enum),
            optional: match self.ty {
                Some(t) => t.is_optional(ds),
                None => false,
            },
            ts_ty: match self.ty {
                Some(t) => t.ts_name(ds),
                None => Seq::empty(),
            },
            comments: self.comments,
            tag_value: text_or_empty(self.tag_value),
        }
    }

    /// Whether the member is kept and has a type.
    pub open spec fn typed(self) -> bool {
        !self.skip && self.ty is Some
    }
}

/// The descriptors of the members that are kept, in their order.
pub open spec fn kept_fields(
    fields: Seq<FieldSchema>,
    policy: Option<RenameAll>,
    is_enum: bool,
    ds: Seq<DescriptorView>,
) -> Seq<FieldView>
    decreases fields.len(),
{
    if fields.len() == 0 {
        Seq::empty()
    } else {
        let rest = kept_fields(fields.drop_last(), policy, is_enum, ds);
        if fields.last().skip {
            rest
        } else {
            rest.push(fields.last().descriptor(policy, is_enum, ds))
        }
    }
}

/// The registry after the types of some members were registered, and the
/// indices of those types.
pub ghost struct Registered {
    pub manager: ManagerView,
    pub deps: Seq<usize>,
}

impl ContainerSchema {
    /// The name under which the type is written: a union may be renamed, a
    /// record keeps its identifier.
    pub open spec fn ts_name(self) -> Seq<char> {
        match self.rename {
            Some(s) => if self.is_enum {
                s
            } else {
                self.ident
            },
            None => self.ident,
        }
    }

    /// Whether the type gives tags to the payloads of its variants: a union
    /// with a tag name does.
    pub open spec fn tagging(self) -> bool {
        self.is_enum && text_or_empty(self.tag).len() > 0
    }

    /// Every reference in the type of a kept member is resolved below `bound`.
    pub open spec fn types_resolved(self, bound: int) -> bool {
        forall|i: int|
            0 <= i < self.fields.len() && (#[trigger] self.fields[i]).typed()
                ==> self.fields[i].ty->0.resolved(bound)
    }

    /// The registration of the types of the first `n` members in `m`: the
    /// type of each kept member is registered, in the order of the members,
    /// and where the type gives tags, the literal of the member is noted
    /// for the type of its payload.
    pub open spec fn members(self, m: ManagerView, n: nat) -> Registered
        decreases n,
    {
        if n == 0 {
            Registered { manager: m, deps: Seq::empty() }
        } else {
            let prev = self.members(m, (n - 1) as nat);
            let f = self.fields[n - 1];
            if f.typed() {
                let (m1, i) = f.ty->0.register(prev.manager);
                let m2 = if self.tagging() {
                    ManagerView {
                        tags: tags_with(
                            m1.tags,
                            i,
                            text_or_empty(self.tag),
                            f.literal(self.rename_all, self.is_enum),
                        ),
                        ..m1
                    }
                } else {
                    m1
                };
                Registered { manager: m2, deps: prev.deps.push(i) }
            } else {
                prev
            }
        }
    }

    /// The descriptor of the type, with its dependencies at `deps`; `ds`
    /// are the descriptors by which the names of registered types are found.
    pub open spec fn descriptor(self, deps: Seq<usize>, ds: Seq<DescriptorView>) -> DescriptorView {
        let fields = kept_fields(self.fields, self.rename_all, self.is_enum, ds);
        if self.is_enum {
            DescriptorView::Enum(
                EnumView {
                    dependencies: deps,
                    fields,
                    file_name: self.file_name,
                    ts_name: self.ts_name(),
                    comments: self.comments,
                    tag: text_or_empty(self.tag),
                    generic: None,
                },
            )
        } else {
            DescriptorView::Interface(
                InterfaceView {
                    dependencies: deps,
                    fields,
                    file_name: self.file_name,
                    ts_name: self.ts_name(),
                    comments: self.comments,
                    need_builder: self.need_builder,
                    generic: None,
                },
            )
        }
    }

    /// The registration of the type in `m`, and its outcome. A known
    /// identity gives its index and changes nothing. A type with a member
    /// whose type is not registered is refused, and nothing changes. Else
    /// the types of the members are registered, and then the type itself.
    pub open spec fn register(self, m: ManagerView) -> (ManagerView, Result<usize, SchemaError>) {
        if m.id_map.contains_key(TypeKey::Named(self.id)) {
            (m, Ok(m.id_map[TypeKey::Named(self.id)]))
        } else if !self.types_resolved(m.descriptors.len() as int) {
            (m, Err(SchemaError::UnregisteredType))
        } else {
            let after = self.members(m, self.fields.len());
            after.manager.registry(
                TypeKey::Named(self.id),
                self.descriptor(after.deps, m.descriptors),
            )
        }
    }
}

/// A copy of the strings of `v`.
pub fn clone_texts(v: &Vec<String>) -> (r: Vec<String>)
    ensures
        texts(r@) == texts(v@),
{
    let mut r: Vec<String> = Vec::new();
    let mut i: usize = 0;
    assert(texts(r@) =~= texts(v@).take(0));
    while i < v.len()
        invariant
            i <= v.len(),
            texts(r@) == texts(v@).take(i as int),
        decreases v.len() - i,
    {
        let s = v[i].clone();
        proof {
            lemma_texts_push(r@, s);
            assert(texts(v@).take(i + 1) =~= texts(v@).take(i as int).push(v@[i as int]@));
        }
        r.push(s);
        i = i + 1;
    }
    assert(texts(v@).take(v.len() as int) =~= texts(v@));
    r
}

/// A copy of an optional string, or an empty string.
fn clone_or_empty(s: &Option<String>) -> (r: String)
    ensures
        r@ == text_or_empty(opt_text(*s)),
{
    match s {
        Some(v) => v.clone(),
        None => String::new(),
    }
}

impl Field {
    /// The name under which the member is written.
    pub fn ts_ident(&self, policy: Option<RenameAll>, is_enum: bool) -> (r: String)
        ensures
            r@ == self@.display_name(policy, is_enum),
    {
        match &self.rename {
            Some(s) => s.clone(),
            None => match policy {
                None => self.ident.clone(),
                Some(RenameAll::CamelCase) => {
                    if is_enum {
                        convert_camel_from_pascal(self.ident.as_str())
                    } else {
                        convert_camel_from_snake(self.ident.as_str())
                    }
                },
            },
        }
    }

    /// The tag literal of the member.
    pub fn tag_literal(&self, policy: Option<RenameAll>, is_enum: bool) -> (r: String)
        ensures
            r@ == self@.literal(policy, is_enum),
    {
        match &self.tag_value {
            Some(v) => {
                if !v.as_str().is_empty() {
                    v.clone()
                } else {
                    self.ts_ident(policy, is_enum)
                }
            },
            None => {
                assert(Seq::<char>::empty().len() == 0);
                self.ts_ident(policy, is_enum)
            },
        }
    }

    /// The descriptor of the member.
    fn describe(&self, policy: Option<RenameAll>, is_enum: bool, all: &Vec<Descriptor>) -> (r:
        FieldDescriptor)
        requires
            self.ty matches Some(t) ==> t.resolved(all.len() as int),
        ensures
            r@ == self@.descriptor(policy, is_enum, views(all@)),
    {
        let ident = self.ts_ident(policy, is_enum);
        let comments = clone_texts(&self.comments);
        let tag_value = clone_or_empty(&self.tag_value);
        match &self.ty {
            Some(t) => FieldDescriptor {
                ident,
                optional: t._is_optional(all),
                ts_ty: t._ts_name(all),
                comments,
                tag_value,
            },
            None => FieldDescriptor {
                ident,
                optional: false,
                ts_ty: String::new(),
                comments,
                tag_value,
            },
        }
    }
}

impl Container {
    /// Whether every reference in the type of a kept member is resolved below `bound`.
    fn check_types(&self, bound: usize) -> (r: bool)
        ensures
            r == self@.types_resolved(bound as int),
    {
        let mut i: usize = 0;
        while i < self.fields.len()
            invariant
                i <= self.fields.len(),
                forall|k: int|
                    0 <= k < i && (#[trigger] self@.fields[k]).typed()
                        ==> self@.fields[k].ty->0.resolved(bound as int),
            decreases self.fields.len() - i,
        {
            let f = &self.fields[i];
            assert(self@.fields[i as int] == f@);
            if !f.skip {
                match &f.ty {
                    Some(t) => {
                        if !t.is_resolved(bound) {
                            assert(self@.fields[i as int].typed());
                            return false;
                        }
                    },
                    None => {},
                }
            }
            i = i + 1;
        }
        true
    }

    /// The descriptors of the members that are kept.
    fn describe_fields(&self, all: &Vec<Descriptor>) -> (r: Vec<FieldDescriptor>)
        requires
            self@.types_resolved(all.len() as int),
        ensures
            views(r@) == kept_fields(self@.fields, self.rename_all, self.is_enum, views(all@)),
    {
        let mut r: Vec<FieldDescriptor> = Vec::new();
        let mut i: usize = 0;
        assert(self@.fields.take(0) =~= Seq::empty());
        assert(views(r@) =~= Seq::empty());
        while i < self.fields.len()
            invariant
                i <= self.fields.len(),
                self@.types_resolved(all.len() as int),
                views(r@) == kept_fields(
                    self@.fields.take(i as int),
                    self.rename_all,
                    self.is_enum,
                    views(all@),
                ),
            decreases self.fields.len() - i,
        {
            let f = &self.fields[i];
            proof {
                let t = self@.fields.take(i + 1);
                assert(t.drop_last() =~= self@.fields.take(i as int));
                assert(t.last() == f@);
                assert(self@.fields[i as int] == f@);
            }
            if !f.skip {
                let fd = f.describe(self.rename_all, self.is_enum, all);
                proof {
                    lemma_views_push(r@, fd);
                }
                r.push(fd);
            }
            i = i + 1;
        }
        assert(self@.fields.take(self.fields.len() as int) =~= self@.fields);
        r
    }

    /// Registers the types of the members, and gives their indices.
    fn register_members(&self, manager: &mut DescriptorManager) -> (deps: Vec<usize>)
        requires
            old(manager)@.wf(),
            self@.types_resolved(old(manager)@.descriptors.len() as int),
        ensures
            final(manager)@.wf(),
            final(manager)@ == self@.members(old(manager)@, self@.fields.len()).manager,
            deps@ == self@.members(old(manager)@, self@.fields.len()).deps,
            grown(old(manager)@, final(manager)@),
            crate::descriptor::indices_below(deps@, final(manager)@.descriptors.len() as int),
    {
        let mut deps: Vec<usize> = Vec::new();
        let mut i: usize = 0;
        while i < self.fields.len()
            invariant
                i <= self.fields.len(),
                manager@.wf(),
                self@.types_resolved(old(manager)@.descriptors.len() as int),
                manager@ == self@.members(old(manager)@, i as nat).manager,
                deps@ == self@.members(old(manager)@, i as nat).deps,
                grown(old(manager)@, manager@),
                crate::descriptor::indices_below(deps@, manager@.descriptors.len() as int),
            decreases self.fields.len() - i,
        {
            let f = &self.fields[i];
            assert(self@.fields[i as int] == f@);
            if !f.skip {
                match &f.ty {
                    Some(t) => {
                        proof {
                            lemma_resolved_grows(
                                *t,
                                old(manager)@.descriptors.len() as int,
                                manager@.descriptors.len() as int,
                            );
                        }
                        let ghost before = manager@;
                        let idx = t.register_resolved(manager);
                        let ghost m1 = manager@;
                        if self.is_tagging() {
                            let literal = f.tag_literal(self.rename_all, self.is_enum);
                            match &self.tag {
                                Some(tag) => {
                                    manager.add_tag(idx, tag.as_str(), literal.as_str());
                                },
                                None => {},
                            }
                        }
                        proof {
                            lemma_grown_transitive(old(manager)@, before, m1);
                            assert(grown(m1, manager@));
                            lemma_grown_transitive(old(manager)@, m1, manager@);
                        }
                        deps.push(idx);
                    },
                    None => {},
                }
            }
            i = i + 1;
        }
        deps
    }

    /// Whether the type gives tags to the payloads of its variants.
    fn is_tagging(&self) -> (r: bool)
        ensures
            r == self@.tagging(),
    {
        match &self.tag {
            Some(t) => self.is_enum && !t.as_str().is_empty(),
            None => {
                assert(Seq::<char>::empty().len() == 0);
                false
            },
        }
    }

    /// The name under which the type is written.
    pub fn _ts_name(&self) -> (r: String)
        ensures
            r@ == self@.ts_name(),
    {
        match &self.rename {
            Some(s) => {
                if self.is_enum {
                    s.clone()
                } else {
                    self.ident.clone()
                }
            },
            None => self.ident.clone(),
        }
    }

    /// Registers the type and gives its index. Registering a type again
    /// gives the same index and changes nothing. The types of its members
    /// are registered before the type itself. A type with a member whose
    /// type is not registered is refused, and nothing changes.
    pub fn _register(&self, manager: &mut DescriptorManager) -> (r: Result<usize, SchemaError>)
        requires
            old(manager)@.wf(),
        ensures
            final(manager)@.wf(),
            (final(manager)@, r) == self@.register(old(manager)@),
    {
        match manager.index_of(TypeKey::Named(self.id)) {
            Some(idx) => {
                return Ok(idx);
            },
            None => {},
        }
        if !self.check_types(manager.len()) {
            return Err(SchemaError::UnregisteredType);
        }
        let fields = self.describe_fields(manager.descriptors());
        let dependencies = self.register_members(manager);
        let file_name = self.file_name.clone();
        let ts_name = self._ts_name();
        let comments = clone_texts(&self.comments);
        let descriptor = if self.is_enum {
            Descriptor::Enum(
                EnumDescriptor {
                    dependencies,
                    fields,
                    file_name,
                    ts_name,
                    comments,
                    tag: clone_or_empty(&self.tag),
                    generic: None,
                },
            )
        } else {
            Descriptor::Interface(
                InterfaceDescriptor {
                    dependencies,
                    fields,
                    file_name,
                    ts_name,
                    comments,
                    need_builder: self.need_builder,
                    generic: None,
                },
            )
        };
        manager.registry(TypeKey::Named(self.id), descriptor)
    }
}

/// The registration of the types of members never removes or changes a descriptor.
pub proof fn lemma_members_grow(c: ContainerSchema, m: ManagerView, n: nat)
    requires
        n <= c.fields.len(),
    ensures
        grown(m, c.members(m, n).manager),
    decreases n,
{
    if n > 0 {
        lemma_members_grow(c, m, (n - 1) as nat);
        let prev = c.members(m, (n - 1) as nat);
        let f = c.fields[n - 1];
        if f.typed() {
            crate::type_ref::lemma_register_grows(f.ty->0, prev.manager);
            let (m1, i) = f.ty->0.register(prev.manager);
            lemma_grown_transitive(m, prev.manager, m1);
            assert(grown(m1, c.members(m, n).manager));
            lemma_grown_transitive(m, m1, c.members(m, n).manager);
        }
    }
}

/// The registration of a type never removes or changes a descriptor, and
/// adds no interface of functions.
pub proof fn lemma_register_grows(c: ContainerSchema, m: ManagerView)
    ensures
        grown(m, c.register(m).0),
{
    if !m.id_map.contains_key(TypeKey::Named(c.id)) && c.types_resolved(m.descriptors.len() as int) {
        lemma_members_grow(c, m, c.fields.len());
        let after = c.members(m, c.fields.len());
        let d = c.descriptor(after.deps, m.descriptors);
        lemma_registry_grows(after.manager, TypeKey::Named(c.id), d);
        lemma_grown_transitive(m, after.manager, after.manager.registry(TypeKey::Named(c.id), d).0);
    }
}

/// The literal that a union writes for a variant is the literal that it
/// gives to the type of the payload of that variant.
pub proof fn lemma_written_literal_is_noted(
    f: FieldSchema,
    policy: Option<RenameAll>,
    is_enum: bool,
    ds: Seq<DescriptorView>,
)
    ensures
        crate::emit::literal(f.descriptor(policy, is_enum, ds)) == f.literal(policy, is_enum),
{
}

/// Idempotence: a type that was registered is found again. Registering it
/// a second time gives the same index and leaves the registry as it is.
pub proof fn lemma_register_idempotent(c: ContainerSchema, m: ManagerView)
    requires
        c.register(m).1 is Ok,
    ensures
        c.register(c.register(m).0) == c.register(m),
{
}

/// Optionality: a member whose value may be absent is written with `?`
/// behind its name and with the type of the value; in the builder its
/// private field may stay unset, and `build` does not check it.
pub proof fn lemma_nullable_is_optional(
    f: FieldSchema,
    policy: Option<RenameAll>,
    is_enum: bool,
    ds: Seq<DescriptorView>,
    inner: TypeRef,
)
    requires
        f.ty == Some(TypeRef::Nullable(Box::new(inner))),
    ensures
        ({
            let d = f.descriptor(policy, is_enum, ds);
            &&& d.optional
            &&& d.ts_ty == inner.ts_name(ds)
            &&& crate::emit::field_lines(d, 1).last() == crate::text::indentation(1) + (d.ident
                + "?: "@ + inner.ts_name(ds))
            &&& crate::emit::builder_field(d) == "private _"@ + d.ident + "?: "@ + inner.ts_name(ds)
            &&& crate::emit::missing_check(d) == Seq::<Seq<char>>::empty()
        }),
{
}

} // verus!
