//! The registry of descriptors: every type is registered once, under its
//! identity, after the types it depends on; the files are written from it.

use std::collections::HashMap;
use vstd::prelude::*;
use crate::api::{
    api_import_set, api_indices, api_is_resolved, api_lines, api_resolved, keys_view, write_api,
};
use crate::descriptor::{
    lemma_views_push, views, ApiDescriptor, ApiView, BuiltinTypeDescriptor, Descriptor,
    DescriptorView, GenericDescriptor, SchemaError, TagGroup, TagGroupView,
};
use crate::emit::{record_lines, tag_fields, tag_fields_exec, union_lines, write_record, write_union};
use crate::imports::{
    add_imports, import_indices, import_set, leaves_first, lemma_reach_all_bounds,
};
use crate::scalar::{lemma_codes_differ, Scalar, TypeKey};
use crate::text::{lemma_texts_push, same_text, texts};
use crate::ts_formatter::{file_text, pairs, File, Import, TsFormatter};

verus! {

broadcast use vstd::std_specs::hash::group_hash_axioms;

/// The generics of the types that have some, by the index of the type.
pub open spec fn generics_view(m: Map<usize, String>) -> Map<usize, Seq<char>> {
    Map::new(|k: usize| m.contains_key(k), |k: usize| m[k]@)
}

/// What a registry holds.
pub ghost struct ManagerView {
    /// The descriptors, in the order of their registration.
    pub descriptors: Seq<DescriptorView>,
    /// The interfaces of functions, in the order in which they were added.
    pub api_descriptors: Seq<ApiView>,
    /// The index of each registered identity.
    pub id_map: Map<TypeKey, usize>,
    /// The generics of the types that have some.
    pub generics_map: Map<usize, Seq<char>>,
    /// The tag literals that unions gave to their payloads.
    pub tags: Seq<TagGroupView>,
}

/// The tags after the literal `literal` came for the type `payload` under
/// the tag name `tag`: it goes to the end of the group of that type and
/// name, or opens a group of its own behind the others.
pub open spec fn tags_with(
    tags: Seq<TagGroupView>,
    payload: usize,
    tag: Seq<char>,
    literal: Seq<char>,
) -> Seq<TagGroupView>
    decreases tags.len(),
{
    if tags.len() == 0 {
        seq![TagGroupView { payload, tag, literals: seq![literal] }]
    } else if tags[0].payload == payload && tags[0].tag == tag {
        seq![TagGroupView { literals: tags[0].literals.push(literal), ..tags[0] }]
            + tags.drop_first()
    } else {
        seq![tags[0]] + tags_with(tags.drop_first(), payload, tag, literal)
    }
}

/// The index of the first descriptor of `ds` that is `d`, if there is one.
pub open spec fn first_index(ds: Seq<DescriptorView>, d: DescriptorView) -> Option<usize>
    decreases ds.len(),
{
    if ds.len() == 0 {
        None
    } else {
        match first_index(ds.drop_last(), d) {
            Some(i) => Some(i),
            None => if ds.last() == d {
                Some((ds.len() - 1) as usize)
            } else {
                None
            },
        }
    }
}

/// Where `d` stands at `i` and nowhere before, `i` is its first index.
pub proof fn lemma_first_index_found(ds: Seq<DescriptorView>, d: DescriptorView, i: int)
    requires
        0 <= i < ds.len(),
        ds[i] == d,
        first_index(ds.take(i), d) is None,
    ensures
        first_index(ds, d) == Some(i as usize),
    decreases ds.len(),
{
    if i == ds.len() - 1 {
        assert(ds.drop_last() =~= ds.take(i));
    } else {
        assert(ds.drop_last().take(i) =~= ds.take(i));
        lemma_first_index_found(ds.drop_last(), d, i);
    }
}

/// No two identities lead to the same index.
pub open spec fn one_index_each(ids: Map<TypeKey, usize>) -> bool {
    forall|a: TypeKey, b: TypeKey|
        #[trigger] ids.contains_key(a) && #[trigger] ids.contains_key(b) && a != b ==> ids[a]
            != ids[b]
}

impl ManagerView {
    /// An empty registry.
    pub open spec fn empty() -> ManagerView {
        ManagerView {
            descriptors: Seq::empty(),
            api_descriptors: Seq::empty(),
            id_map: Map::empty(),
            generics_map: Map::empty(),
            tags: Seq::empty(),
        }
    }

    /// Every dependency stands before the descriptor that names it, every
    /// identity leads to a descriptor, and no two identities lead to the same.
    pub open spec fn wf(self) -> bool {
        &&& leaves_first(self.descriptors)
        &&& forall|k: TypeKey| #[trigger]
            self.id_map.contains_key(k) ==> self.id_map[k] < self.descriptors.len()
        &&& one_index_each(self.id_map)
    }

    /// The registry after one more descriptor, at the end.
    pub open spec fn append(self, d: DescriptorView) -> ManagerView {
        ManagerView { descriptors: self.descriptors.push(d), ..self }
    }

    /// The registry with the descriptor `d`, which has no identity, and the
    /// index of `d`: where `d` is registered already, it is found at its
    /// first index; else it goes to the end.
    pub open spec fn intern(self, d: DescriptorView) -> (ManagerView, usize) {
        match first_index(self.descriptors, d) {
            Some(i) => (self, i),
            None => (self.append(d), self.descriptors.len() as usize),
        }
    }

    /// The registration of `d` under `type_id`, and its outcome. A known
    /// identity gives its index and changes nothing. A new one is refused
    /// if `d` depends on what is not registered; else `d` goes to the end.
    pub open spec fn registry(self, type_id: TypeKey, d: DescriptorView) -> (
        ManagerView,
        Result<usize, SchemaError>,
    ) {
        if self.id_map.contains_key(type_id) {
            (self, Ok(self.id_map[type_id]))
        } else if !d.below(self.descriptors.len() as int) {
            (self, Err(SchemaError::UnregisteredType))
        } else {
            (
                ManagerView {
                    id_map: self.id_map.insert(type_id, self.descriptors.len() as usize),
                    ..self.append(d)
                },
                Ok(self.descriptors.len() as usize),
            )
        }
    }

    /// The generics of the type at `idx` as they are written behind its
    /// name: in angle brackets, or nothing.
    pub open spec fn generics_text(self, idx: usize) -> Seq<char> {
        if self.generics_map.contains_key(idx) {
            "<"@ + self.generics_map[idx] + ">"@
        } else {
            Seq::empty()
        }
    }

    /// The file of the type at `idx`, if it has one: a record or a union has,
    /// unless it is an instance of a generic type.
    pub open spec fn file_of(self, idx: usize) -> Seq<File> {
        match self.descriptors[idx as int] {
            DescriptorView::Interface(d) => if d.generic is Some {
                Seq::empty()
            } else {
                seq![
                    (
                        d.file_name,
                        file_text(
                            import_set(self.descriptors, idx),
                            record_lines(d, self.generics_text(idx), tag_fields(self.tags, idx)),
                        ),
                    ),
                ]
            },
            DescriptorView::Enum(e) => if e.generic is Some {
                Seq::empty()
            } else {
                seq![(e.file_name, file_text(import_set(self.descriptors, idx), union_lines(e)))]
            },
            _ => Seq::empty(),
        }
    }

    /// The files of the first `n` types, in the order of their registration.
    pub open spec fn type_files(self, n: nat) -> Seq<File>
        decreases n,
    {
        if n == 0 {
            Seq::empty()
        } else {
            self.type_files((n - 1) as nat) + self.file_of((n - 1) as usize)
        }
    }

    /// The file of an interface of functions.
    pub open spec fn api_file(self, a: ApiView) -> File {
        (
            a.file_name,
            file_text(
                api_import_set(self.descriptors, self.id_map, a),
                api_lines(self.descriptors, self.id_map, a),
            ),
        )
    }

    /// The files of the interfaces of functions, in the order in which they were added.
    pub open spec fn api_files(self) -> Seq<File> {
        Seq::new(self.api_descriptors.len(), |i: int| self.api_file(self.api_descriptors[i]))
    }

    /// All files, each with its name and its text: those of the types, then
    /// those of the interfaces of functions.
    pub open spec fn files(self) -> Seq<File> {
        self.type_files(self.descriptors.len()) + self.api_files()
    }

    /// Every type that an interface of functions names is registered.
    pub open spec fn apis_resolved(self) -> bool {
        forall|i: int|
            0 <= i < self.api_descriptors.len() ==> api_resolved(
                self.descriptors,
                self.id_map,
                #[trigger] self.api_descriptors[i],
            )
    }
}

/// The registry of the types of one run.
pub struct DescriptorManager {
    descriptors: Vec<Descriptor>,
    api_descriptors: Vec<ApiDescriptor>,
    id_map: HashMap<u128, usize>,
    generics_map: HashMap<usize, String>,
    tags: Vec<TagGroup>,
}

impl View for DescriptorManager {
    type V = ManagerView;

    closed spec fn view(&self) -> ManagerView {
        ManagerView {
            descriptors: views(self.descriptors@),
            api_descriptors: views(self.api_descriptors@),
            id_map: keys_view(self.id_map@),
            generics_map: generics_view(self.generics_map@),
            tags: views(self.tags@),
        }
    }
}

impl Default for DescriptorManager {
    /// An empty registry.
    fn default() -> (r: Self)
        ensures
            r@ == ManagerView::empty(),
            r@.wf(),
    {
        DescriptorManager::new()
    }
}

impl DescriptorManager {
    /// An empty registry.
    pub fn new() -> (r: Self)
        ensures
            r@ == ManagerView::empty(),
            r@.wf(),
    {
        let r = DescriptorManager {
            descriptors: Vec::new(),
            api_descriptors: Vec::new(),
            id_map: HashMap::new(),
            generics_map: HashMap::new(),
            tags: Vec::new(),
        };
        proof {
            assert(views(r.descriptors@) =~= Seq::empty());
            assert(views(r.api_descriptors@) =~= Seq::empty());
            assert(views(r.tags@) =~= Seq::empty());
            assert(generics_view(r.generics_map@) =~= Map::empty());
            assert(keys_view(r.id_map@) =~= Map::empty());
        }
        r
    }

    /// The number of descriptors.
    pub fn len(&self) -> (r: usize)
        ensures
            r == self@.descriptors.len(),
    {
        self.descriptors.len()
    }

    /// The descriptors, in the order of their registration.
    pub fn descriptors(&self) -> (r: &Vec<Descriptor>)
        ensures
            views(r@) == self@.descriptors,
    {
        &self.descriptors
    }

    /// The interfaces of functions, in the order in which they were added.
    pub fn api_descriptors(&self) -> (r: &Vec<ApiDescriptor>)
        ensures
            views(r@) == self@.api_descriptors,
    {
        &self.api_descriptors
    }

    /// The index under which the identity `type_id` is registered, if it is.
    pub fn index_of(&self, type_id: TypeKey) -> (r: Option<usize>)
        ensures
            r == if self@.id_map.contains_key(type_id) {
                Some(self@.id_map[type_id])
            } else {
                None::<usize>
            },
    {
        match self.id_map.get(&type_id.code()) {
            Some(idx) => Some(*idx),
            None => None,
        }
    }

    /// Registers `descriptor` under the identity `type_id` and gives its
    /// index. Registering an identity again gives the same index and
    /// changes nothing. A descriptor that depends on an index that is not
    /// registered yet is refused: every type comes after those it names, so
    /// that no type can lead back to itself.
    pub fn registry(&mut self, type_id: TypeKey, descriptor: Descriptor) -> (r: Result<
        usize,
        SchemaError,
    >)
        requires
            old(self)@.wf(),
        ensures
            final(self)@.wf(),
            (final(self)@, r) == old(self)@.registry(type_id, descriptor@),
    {
        match self.id_map.get(&type_id.code()) {
            Some(idx) => Ok(*idx),
            None => {
                if !descriptor.deps_below(self.descriptors.len()) {
                    return Err(SchemaError::UnregisteredType);
                }
                let idx = self.push(descriptor);
                self.note(type_id, idx);
                Ok(idx)
            },
        }
    }

    /// Puts `descriptor` at the end of the registry, under no identity, and
    /// gives its index.
    pub(crate) fn push(&mut self, descriptor: Descriptor) -> (idx: usize)
        requires
            old(self)@.wf(),
            descriptor@.below(old(self)@.descriptors.len() as int),
        ensures
            final(self)@.wf(),
            final(self)@ == old(self)@.append(descriptor@),
            idx == old(self)@.descriptors.len(),
            forall|k: TypeKey| #[trigger]
                final(self)@.id_map.contains_key(k) ==> final(self)@.id_map[k] < idx,
    {
        let idx = self.descriptors.len();
        proof {
            lemma_views_push(self.descriptors@, descriptor);
            let ds = views(self.descriptors@);
            let next = ds.push(descriptor@);
            assert forall|i: int| 0 <= i < next.len() implies (#[trigger] next[i]).below(i) by {
                if i < ds.len() {
                    assert(next[i] == ds[i]);
                }
            }
        }
        self.descriptors.push(descriptor);
        assert(leaves_first(self@.descriptors));
        assert(self@.id_map == old(self)@.id_map);
        assert forall|k: TypeKey| #[trigger] self@.id_map.contains_key(k) implies self@.id_map[k]
            < idx by {
            assert(old(self)@.id_map.contains_key(k));
        }
        idx
    }

    /// Registers a container, which has no identity: an equal container
    /// that is registered is found again, another one goes to the end.
    pub(crate) fn intern_container(&mut self, g: GenericDescriptor) -> (idx: usize)
        requires
            old(self)@.wf(),
            crate::descriptor::indices_below(
                g@.dependencies,
                old(self)@.descriptors.len() as int,
            ),
        ensures
            final(self)@.wf(),
            (final(self)@, idx) == old(self)@.intern(DescriptorView::Generics(g@)),
            grown(old(self)@, final(self)@),
            final(self)@.tags == old(self)@.tags,
            idx < final(self)@.descriptors.len(),
    {
        let ghost d = DescriptorView::Generics(g@);
        let ghost ds = self@.descriptors;
        let mut i: usize = 0;
        assert(ds.take(0) =~= Seq::empty());
        while i < self.descriptors.len()
            invariant
                i <= self.descriptors.len(),
                *self == *old(self),
                old(self)@.wf(),
                ds == self@.descriptors,
                d == DescriptorView::Generics(g@),
                first_index(ds.take(i as int), d) is None,
            decreases self.descriptors.len() - i,
        {
            assert(ds[i as int] == self.descriptors@[i as int]@);
            let same = match &self.descriptors[i] {
                Descriptor::Generics(other) => same_container(other, &g),
                _ => false,
            };
            if same {
                proof {
                    lemma_first_index_found(ds, d, i as int);
                }
                return i;
            }
            proof {
                assert(ds.take(i + 1).drop_last() =~= ds.take(i as int));
                assert(ds.take(i + 1).last() == ds[i as int]);
            }
            i = i + 1;
        }
        assert(ds.take(self.descriptors.len() as int) =~= ds);
        self.push(Descriptor::Generics(g))
    }

    /// Puts `descriptor` at the end of the registry under the identity
    /// `type_id`, which is new.
    pub(crate) fn push_new(&mut self, type_id: TypeKey, descriptor: Descriptor) -> (idx: usize)
        requires
            old(self)@.wf(),
            !old(self)@.id_map.contains_key(type_id),
            descriptor@.below(old(self)@.descriptors.len() as int),
        ensures
            final(self)@.wf(),
            (final(self)@, Ok::<usize, SchemaError>(idx)) == old(self)@.registry(type_id, descriptor@),
    {
        let idx = self.push(descriptor);
        self.note(type_id, idx);
        idx
    }

    /// Notes that the identity `type_id` is registered at `idx`.
    fn note(&mut self, type_id: TypeKey, idx: usize)
        requires
            old(self)@.wf(),
            idx < old(self)@.descriptors.len(),
            forall|k: TypeKey| #[trigger]
                old(self)@.id_map.contains_key(k) ==> old(self)@.id_map[k] != idx,
        ensures
            final(self)@.wf(),
            final(self)@ == (ManagerView {
                id_map: old(self)@.id_map.insert(type_id, idx),
                ..old(self)@
            }),
    {
        proof {
            assert forall|k: TypeKey| k != type_id implies k.spec_code()
                != type_id.spec_code() by {
                lemma_codes_differ(k, type_id);
            }
            assert(keys_view(self.id_map@.insert(type_id.spec_code(), idx)) =~= keys_view(
                self.id_map@,
            ).insert(type_id, idx));
        }
        self.id_map.insert(type_id.code(), idx);
        proof {
            assert forall|k: TypeKey| #[trigger] self@.id_map.contains_key(k) implies self@.id_map[k]
                < self@.descriptors.len() by {
                if k != type_id {
                    assert(old(self)@.id_map.contains_key(k));
                }
            }
            assert forall|a: TypeKey, b: TypeKey| #[trigger]
                self@.id_map.contains_key(a) && #[trigger] self@.id_map.contains_key(b) && a
                    != b implies self@.id_map[a] != self@.id_map[b] by {
                if a != type_id {
                    assert(old(self)@.id_map.contains_key(a));
                }
                if b != type_id {
                    assert(old(self)@.id_map.contains_key(b));
                }
            }
        }
    }

    /// Adds an interface of functions. The type of borrowed strings is
    /// registered with it.
    pub fn add_api_descriptor(&mut self, descriptor: ApiDescriptor)
        requires
            old(self)@.wf(),
        ensures
            final(self)@.wf(),
            final(self)@ == (ManagerView {
                api_descriptors: old(self)@.api_descriptors.push(descriptor@),
                ..old(self)@.registry(TypeKey::Scalar(Scalar::Str), scalar_view(Scalar::Str)).0
            }),
    {
        self.register_scalar(Scalar::Str);
        proof {
            lemma_views_push(self.api_descriptors@, descriptor);
        }
        self.api_descriptors.push(descriptor);
    }

    /// Registers a builtin scalar type under its own identity and gives its index.
    pub fn register_scalar(&mut self, scalar: Scalar) -> (idx: usize)
        requires
            old(self)@.wf(),
        ensures
            final(self)@.wf(),
            (final(self)@, Ok::<usize, SchemaError>(idx)) == old(self)@.registry(
                TypeKey::Scalar(scalar),
                scalar_view(scalar),
            ),
    {
        let key = TypeKey::Scalar(scalar);
        match self.id_map.get(&key.code()) {
            Some(idx) => *idx,
            None => {
                let d = Descriptor::BuiltinType(BuiltinTypeDescriptor { ts_name: scalar._ts_name() });
                assert(d@ == scalar_view(scalar));
                assert(d@.dependencies() =~= Seq::empty());
                self.push_new(key, d)
            },
        }
    }

    /// Notes the generics of the type at `idx`, as they are written between
    /// the angle brackets behind its name.
    pub fn add_generics_map(&mut self, idx: usize, generics: String)
        requires
            old(self)@.wf(),
        ensures
            final(self)@.wf(),
            final(self)@ == (ManagerView {
                generics_map: old(self)@.generics_map.insert(idx, generics@),
                ..old(self)@
            }),
    {
        proof {
            assert(generics_view(self.generics_map@.insert(idx, generics)) =~= generics_view(
                self.generics_map@,
            ).insert(idx, generics@));
        }
        self.generics_map.insert(idx, generics);
    }

    /// Notes that a union gives the type at `payload` the literal `literal`
    /// under the tag name `tag`.
    pub fn add_tag(&mut self, payload: usize, tag: &str, literal: &str)
        requires
            old(self)@.wf(),
        ensures
            final(self)@.wf(),
            final(self)@ == (ManagerView {
                tags: tags_with(old(self)@.tags, payload, tag@, literal@),
                ..old(self)@
            }),
    {
        let mut i: usize = 0;
        let ghost before = views(self.tags@);
        assert(before.skip(0) =~= before);
        assert(before.take(0) + tags_with(before, payload, tag@, literal@) =~= tags_with(
            before,
            payload,
            tag@,
            literal@,
        ));
        while i < self.tags.len()
            invariant
                i <= self.tags.len(),
                *self == *old(self),
                old(self)@.wf(),
                before == views(self.tags@),
                tags_with(before, payload, tag@, literal@) == before.take(i as int) + tags_with(
                    before.skip(i as int),
                    payload,
                    tag@,
                    literal@,
                ),
            decreases self.tags.len() - i,
        {
            let ghost rest = before.skip(i as int);
            assert(rest[0] == self.tags@[i as int]@);
            assert(rest.drop_first() =~= before.skip(i + 1));
            if self.tags[i].payload == payload && same_text(self.tags[i].tag.as_str(), tag) {
                let s = String::from_str(literal);
                let ghost lits = self.tags@[i as int].literals@;
                proof {
                    lemma_texts_push(lits, s);
                }
                let mut group = self.tags.remove(i);
                group.literals.push(s);
                let ghost g = group@;
                self.tags.insert(i, group);
                proof {
                    assert(views(self.tags@) =~= before.take(i as int) + (seq![g] + before.skip(
                        i + 1,
                    )));
                    lemma_wf_kept(old(self)@, self@);
                }
                return ;
            }
            proof {
                assert(before.take(i + 1) + tags_with(before.skip(i + 1), payload, tag@, literal@)
                    =~= before.take(i as int) + (seq![rest[0]] + tags_with(
                    before.skip(i + 1),
                    payload,
                    tag@,
                    literal@,
                )));
            }
            i = i + 1;
        }
        let mut literals: Vec<String> = Vec::new();
        literals.push(String::from_str(literal));
        let group = TagGroup { payload, tag: String::from_str(tag), literals };
        proof {
            assert(texts(group.literals@) =~= seq![literal@]);
            lemma_views_push(self.tags@, group);
            assert(before.skip(before.len() as int) =~= Seq::empty());
            assert(before.take(before.len() as int) =~= before);
            assert(before + seq![group@] =~= before.push(group@));
        }
        self.tags.push(group);
    }

    /// Whether every type that an interface of functions names is registered.
    pub fn api_types_registered(&self) -> (r: bool)
        ensures
            r == self@.apis_resolved(),
    {
        let mut i: usize = 0;
        while i < self.api_descriptors.len()
            invariant
                i <= self.api_descriptors.len(),
                forall|k: int|
                    0 <= k < i ==> api_resolved(
                        self@.descriptors,
                        self@.id_map,
                        #[trigger] self@.api_descriptors[k],
                    ),
            decreases self.api_descriptors.len() - i,
        {
            if !api_is_resolved(&self.descriptors, &self.id_map, &self.api_descriptors[i]) {
                assert(self@.api_descriptors[i as int] == self.api_descriptors@[i as int]@);
                return false;
            }
            assert(self@.api_descriptors[i as int] == self.api_descriptors@[i as int]@);
            i = i + 1;
        }
        true
    }

    /// The generics of the type at `idx` as they are written behind its name.
    fn generics_string(&self, idx: usize) -> (r: String)
        ensures
            r@ == self@.generics_text(idx),
    {
        match self.generics_map.get(&idx) {
            Some(v) => {
                let mut r = String::from_str("<");
                r.append(v.as_str());
                r.append(">");
                r
            },
            None => String::new(),
        }
    }

    /// The file of the type at `idx`, if it has one.
    fn gen_type_file(&self, idx: usize) -> (r: Option<(String, String)>)
        requires
            self@.wf(),
            idx < self@.descriptors.len(),
        ensures
            match r {
                Some(f) => self@.file_of(idx) == seq![(f.0@, f.1@)],
                None => self@.file_of(idx) == Seq::<File>::empty(),
            },
    {
        let ghost ds = self@.descriptors;
        assert(ds[idx as int] == self.descriptors@[idx as int]@);
        match &self.descriptors[idx] {
            Descriptor::Interface(d) => {
                if d.generic.is_some() {
                    return None;
                }
                let generics = self.generics_string(idx);
                let mut fmt = TsFormatter::new();
                self.add_type_imports(idx, &mut fmt);
                let tags = tag_fields_exec(&self.tags, idx);
                write_record(d, generics.as_str(), &tags, &mut fmt);
                assert(fmt@.lines =~= record_lines(
                    d@,
                    self@.generics_text(idx),
                    tag_fields(self@.tags, idx),
                ));
                Some((d.file_name.clone(), fmt.end_file()))
            },
            Descriptor::Enum(e) => {
                if e.generic.is_some() {
                    return None;
                }
                let mut fmt = TsFormatter::new();
                self.add_type_imports(idx, &mut fmt);
                write_union(e, &mut fmt);
                assert(fmt@.lines =~= union_lines(e@));
                Some((e.file_name.clone(), fmt.end_file()))
            },
            _ => None,
        }
    }

    /// Asks a new formatter for the imports of the type at `idx`.
    fn add_type_imports(&self, idx: usize, fmt: &mut TsFormatter)
        requires
            self@.wf(),
            idx < self@.descriptors.len(),
            old(fmt)@.imports == Set::<Import>::empty(),
        ensures
            final(fmt)@ == (crate::ts_formatter::FormatterView {
                imports: import_set(self@.descriptors, idx),
                ..old(fmt)@
            }),
    {
        let indices = import_indices(&self.descriptors, idx);
        proof {
            let ds = self@.descriptors;
            lemma_reach_all_bounds(ds, ds[idx as int].dependencies(), idx);
            assert forall|k: int| 0 <= k < indices@.len() implies #[trigger] indices@[k]
                < self.descriptors.len() by {
                assert(indices@.to_set().contains(indices@[k]));
            }
        }
        add_imports(&self.descriptors, &indices, fmt);
        assert(Set::<Import>::empty().union(import_set(self@.descriptors, idx)) =~= import_set(
            self@.descriptors,
            idx,
        ));
    }

    /// The file of the interface of functions at `i`.
    fn gen_api_file(&self, i: usize) -> (r: (String, String))
        requires
            self@.wf(),
            self@.apis_resolved(),
            i < self@.api_descriptors.len(),
        ensures
            (r.0@, r.1@) == self@.api_file(self@.api_descriptors[i as int]),
    {
        let api = &self.api_descriptors[i];
        assert(self@.api_descriptors[i as int] == api@);
        let mut fmt = TsFormatter::new();
        let indices = api_indices(&self.descriptors, &self.id_map, api);
        add_imports(&self.descriptors, &indices, &mut fmt);
        write_api(&self.descriptors, &self.id_map, api, &mut fmt);
        proof {
            assert(fmt@.imports =~= api_import_set(self@.descriptors, self@.id_map, api@));
            assert(fmt@.lines =~= api_lines(self@.descriptors, self@.id_map, api@));
        }
        (api.file_name.clone(), fmt.end_file())
    }

    /// Writes every file: the name and the text of each. The types come in
    /// the order of their registration, each record and union with a file of
    /// its own; the interfaces of functions follow. Types that share a file
    /// name give several entries under that name.
    pub fn gen_data(self) -> (out: Vec<(String, String)>)
        requires
            self@.wf(),
            self@.apis_resolved(),
        ensures
            pairs(out@) == self@.files(),
    {
        let mut out: Vec<(String, String)> = Vec::new();
        let n = self.descriptors.len();
        let mut idx: usize = 0;
        assert(pairs(out@) =~= self@.type_files(0));
        while idx < n
            invariant
                idx <= n,
                n == self@.descriptors.len(),
                self@.wf(),
                pairs(out@) == self@.type_files(idx as nat),
            decreases n - idx,
        {
            match self.gen_type_file(idx) {
                Some(f) => {
                    proof {
                        assert(pairs(out@.push(f)) =~= pairs(out@) + seq![(f.0@, f.1@)]);
                    }
                    out.push(f);
                },
                None => {
                    assert(pairs(out@) + Seq::<File>::empty() =~= pairs(out@));
                },
            }
            idx = idx + 1;
        }
        let ghost types = pairs(out@);
        let ghost apis = self@.api_files();
        let m = self.api_descriptors.len();
        let mut i: usize = 0;
        assert(types + apis.take(0) =~= types);
        while i < m
            invariant
                i <= m,
                m == self@.api_descriptors.len(),
                self@.wf(),
                self@.apis_resolved(),
                apis == self@.api_files(),
                pairs(out@) == types + apis.take(i as int),
            decreases m - i,
        {
            let f = self.gen_api_file(i);
            proof {
                assert(pairs(out@.push(f)) =~= pairs(out@).push((f.0@, f.1@)));
                assert(apis.take(i + 1) =~= apis.take(i as int).push(apis[i as int]));
                assert(types + apis.take(i + 1) =~= (types + apis.take(i as int)).push(apis[i as int]));
            }
            out.push(f);
            i = i + 1;
        }
        assert(apis.take(m as int) =~= apis);
        out
    }
}

/// The registry `b` has grown out of `a`: its descriptors start with those
/// of `a`, none was removed or changed, and the identities of `a` lead to
/// the same indices.
pub open spec fn grown(a: ManagerView, b: ManagerView) -> bool {
    &&& a.descriptors.len() <= b.descriptors.len()
    &&& forall|i: int| 0 <= i < a.descriptors.len() ==> #[trigger] b.descriptors[i] == a.descriptors[i]
    &&& forall|k: TypeKey| #[trigger]
        a.id_map.contains_key(k) ==> b.id_map.contains_key(k) && b.id_map[k] == a.id_map[k]
    &&& b.api_descriptors == a.api_descriptors
    &&& b.generics_map == a.generics_map
}

/// A registration never removes or changes a descriptor.
pub proof fn lemma_registry_grows(m: ManagerView, type_id: TypeKey, d: DescriptorView)
    ensures
        grown(m, m.registry(type_id, d).0),
        m.registry(type_id, d).0.tags == m.tags,
{
}

/// The interfaces of functions of a registry stay resolved while it grows.
pub proof fn lemma_grown_keeps_apis(a: ManagerView, b: ManagerView)
    requires
        grown(a, b),
        a.apis_resolved(),
    ensures
        b.apis_resolved(),
{
    assert forall|i: int| 0 <= i < b.api_descriptors.len() implies api_resolved(
        b.descriptors,
        b.id_map,
        #[trigger] b.api_descriptors[i],
    ) by {
        let api = a.api_descriptors[i];
        assert(api_resolved(a.descriptors, a.id_map, api));
        let types = crate::api::api_types(api.methods);
        assert forall|k: int| 0 <= k < types.len() implies b.id_map.contains_key(#[trigger] types[k])
            && b.id_map[types[k]] < b.descriptors.len() by {
            assert(a.id_map.contains_key(types[k]));
        }
    }
}

/// A registry stays well formed while its descriptors and identities stay.
pub proof fn lemma_wf_kept(a: ManagerView, b: ManagerView)
    requires
        a.wf(),
        a.descriptors == b.descriptors,
        a.id_map == b.id_map,
    ensures
        b.wf(),
{
    assert forall|k: TypeKey| #[trigger] b.id_map.contains_key(k) implies b.id_map[k]
        < b.descriptors.len() by {
        assert(a.id_map.contains_key(k));
    }
}

/// Whether two containers are the same: they have the same name and the
/// same arguments, and both or neither may be left out.
fn same_container(a: &GenericDescriptor, b: &GenericDescriptor) -> (r: bool)
    ensures
        r == (a@ == b@),
{
    if a.optional != b.optional || !same_text(a.ts_name.as_str(), b.ts_name.as_str())
        || a.dependencies.len() != b.dependencies.len() {
        return false;
    }
    let mut i: usize = 0;
    while i < a.dependencies.len()
        invariant
            i <= a.dependencies.len(),
            a.dependencies.len() == b.dependencies.len(),
            forall|k: int| 0 <= k < i ==> a.dependencies@[k] == b.dependencies@[k],
        decreases a.dependencies.len() - i,
    {
        if a.dependencies[i] != b.dependencies[i] {
            return false;
        }
        i = i + 1;
    }
    assert(a@.dependencies =~= b@.dependencies);
    true
}

/// The descriptor of a builtin scalar type in specifications.
pub open spec fn scalar_view(s: Scalar) -> DescriptorView {
    DescriptorView::BuiltinType(crate::descriptor::BuiltinView { ts_name: s.spec_ts_name() })
}

/// Idempotence of the registry: once an identity is registered, registering
/// it again, with whatever descriptor, gives the same index and leaves the
/// registry as it is: no descriptor is added.
pub proof fn lemma_registry_idempotent(
    m: ManagerView,
    type_id: TypeKey,
    first: DescriptorView,
    second: DescriptorView,
)
    requires
        m.registry(type_id, first).1 is Ok,
    ensures
        m.registry(type_id, first).0.registry(type_id, second) == m.registry(type_id, first),
{
}

/// A container that is registered is found again: registering it a second
/// time gives the same index and leaves the registry as it is.
pub proof fn lemma_intern_idempotent(m: ManagerView, d: DescriptorView)
    ensures
        m.intern(d).0.intern(d) == m.intern(d),
{
    if first_index(m.descriptors, d) is None {
        let next = m.descriptors.push(d);
        assert(next.drop_last() =~= m.descriptors);
    }
}

/// Every registered type stands in the registry once: two different
/// identities never lead to the same descriptor.
pub proof fn lemma_one_descriptor_each(m: ManagerView, a: TypeKey, b: TypeKey)
    requires
        m.wf(),
        m.id_map.contains_key(a),
        m.id_map.contains_key(b),
        a != b,
    ensures
        m.id_map[a] != m.id_map[b],
        m.id_map[a] < m.descriptors.len(),
{
}

/// The literals that came for the type `payload` under the tag name `tag`,
/// in the order in which they came; none if none came.
pub open spec fn literals_of(tags: Seq<TagGroupView>, payload: usize, tag: Seq<char>) -> Seq<
    Seq<char>,
>
    decreases tags.len(),
{
    if tags.len() == 0 {
        Seq::empty()
    } else if tags[0].payload == payload && tags[0].tag == tag {
        tags[0].literals
    } else {
        literals_of(tags.drop_first(), payload, tag)
    }
}

/// A literal that comes for a type under a tag name goes behind those that
/// came before for that type and name, also where it repeats one of them;
/// the literals of every other type and name stay as they are.
pub proof fn lemma_tags_accumulate(
    tags: Seq<TagGroupView>,
    payload: usize,
    tag: Seq<char>,
    literal: Seq<char>,
    other_payload: usize,
    other_tag: Seq<char>,
)
    ensures
        literals_of(tags_with(tags, payload, tag, literal), payload, tag) == literals_of(
            tags,
            payload,
            tag,
        ).push(literal),
        other_payload != payload || other_tag != tag ==> literals_of(
            tags_with(tags, payload, tag, literal),
            other_payload,
            other_tag,
        ) == literals_of(tags, other_payload, other_tag),
    decreases tags.len(),
{
    let next = tags_with(tags, payload, tag, literal);
    if tags.len() == 0 {
        assert(next.len() == 1 && next[0].payload == payload && next[0].tag == tag);
        assert(next[0].literals =~= Seq::<Seq<char>>::empty().push(literal));
        assert(next.drop_first() =~= Seq::empty());
        assert(literals_of(next.drop_first(), other_payload, other_tag) =~= Seq::empty());
    } else if tags[0].payload == payload && tags[0].tag == tag {
        assert(next.len() > 0 && next[0].payload == payload && next[0].tag == tag);
        assert(next[0].literals == tags[0].literals.push(literal));
        assert(next.drop_first() =~= tags.drop_first());
    } else {
        lemma_tags_accumulate(tags.drop_first(), payload, tag, literal, other_payload, other_tag);
        assert(next.len() > 0 && next[0] == tags[0]);
        assert(next.drop_first() =~= tags_with(tags.drop_first(), payload, tag, literal));
    }
}

/// Only records and unions have files: a builtin type and a container have none.
pub proof fn lemma_only_named_types_have_files(m: ManagerView, idx: usize)
    ensures
        !m.descriptors[idx as int].is_named() ==> m.file_of(idx) == Seq::<File>::empty(),
        m.file_of(idx).len() <= 1,
{
}

} // verus!
