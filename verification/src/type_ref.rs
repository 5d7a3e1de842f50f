//! References to types, as the fields of a schema hold them: a builtin
//! scalar type, a type that is registered already, or a container of such.

use vstd::prelude::*;
use crate::descriptor::{
    Descriptor, DescriptorView, GenericDescriptor, GenericView, SchemaError,
};
use crate::manager::{
    grown, lemma_registry_grows, scalar_view, DescriptorManager, ManagerView,
};
use crate::scalar::{Scalar, TypeKey};

verus! {

/// A reference to a type.
#[derive(Debug)]
pub enum TypeRef {
    /// A builtin scalar type.
    Scalar(Scalar),
    /// The type that is registered at this index.
    Registered(usize),
    /// A sequence of values of one type.
    Sequence(Box<TypeRef>),
    /// A value that may be absent.
    Nullable(Box<TypeRef>),
    /// A value of the first type, or else one of the second.
    Either(Box<TypeRef>, Box<TypeRef>),
    /// A pair of values.
    Pair(Box<TypeRef>, Box<TypeRef>),
    /// A map from keys to values.
    Mapping(Box<TypeRef>, Box<TypeRef>),
}

impl TypeRef {
    /// Every registered type that the reference names has an index below `bound`.
    pub open spec fn resolved(self, bound: int) -> bool
        decreases self,
    {
        match self {
            TypeRef::Scalar(_) => true,
            TypeRef::Registered(i) => i < bound,
            TypeRef::Sequence(t) => t.resolved(bound),
            TypeRef::Nullable(t) => t.resolved(bound),
            TypeRef::Either(a, b) => a.resolved(bound) && b.resolved(bound),
            TypeRef::Pair(a, b) => a.resolved(bound) && b.resolved(bound),
            TypeRef::Mapping(a, b) => a.resolved(bound) && b.resolved(bound),
        }
    }

    /// Whether the reference is to the type of bytes.
    pub open spec fn is_byte(self) -> bool {
        self == TypeRef::Scalar(Scalar::U8)
    }

    /// The name of the type in TypeScript. A sequence of bytes is a
    /// `Uint8Array`; a value that may be absent has the name of the value.
    pub open spec fn ts_name(self, ds: Seq<DescriptorView>) -> Seq<char>
        decreases self,
    {
        match self {
            TypeRef::Scalar(s) => s.spec_ts_name(),
            TypeRef::Registered(i) => ds[i as int].ts_name(),
            TypeRef::Sequence(t) => if t.is_byte() {
                "Uint8Array"@
            } else {
                "readonly "@ + t.ts_name(ds) + "[]"@
            },
            TypeRef::Nullable(t) => t.ts_name(ds),
            TypeRef::Either(a, b) => a.ts_name(ds) + " | "@ + b.ts_name(ds),
            TypeRef::Pair(a, b) => "(readonly ["@ + a.ts_name(ds) + ", "@ + b.ts_name(ds) + "])"@,
            TypeRef::Mapping(a, b) => "Map<"@ + a.ts_name(ds) + ", "@ + b.ts_name(ds) + ">"@,
        }
    }

    /// Whether a field of this type may be left out.
    pub open spec fn is_optional(self, ds: Seq<DescriptorView>) -> bool {
        match self {
            TypeRef::Nullable(_) => true,
            TypeRef::Registered(i) => ds[i as int].optional(),
            _ => false,
        }
    }

    /// The mark of a builtin scalar type; other types have none.
    pub open spec fn tag(self) -> Option<Seq<char>> {
        match self {
            TypeRef::Scalar(s) => Some(s.spec_tag()),
            _ => None,
        }
    }

    /// The descriptor of a container with the arguments at `deps`; `ds` are
    /// the descriptors by which the names of registered types are found.
    pub open spec fn container(self, ds: Seq<DescriptorView>, deps: Seq<usize>) -> DescriptorView {
        DescriptorView::Generics(
            GenericView {
                dependencies: deps,
                ts_name: self.ts_name(ds),
                optional: self is Nullable,
            },
        )
    }

    /// The registration of the type in `m`: the registry afterwards, and the
    /// index of the type. A scalar type is registered under its identity; a
    /// registered type is found at its index; a container has its arguments
    /// registered, from left to right, and is then registered itself: an
    /// equal container that is registered is found again, another one goes
    /// to the end.
    pub open spec fn register(self, m: ManagerView) -> (ManagerView, usize)
        decreases self,
    {
        let ds = m.descriptors;
        match self {
            TypeRef::Scalar(s) => {
                let (next, r) = m.registry(TypeKey::Scalar(s), scalar_view(s));
                (next, r->Ok_0)
            },
            TypeRef::Registered(i) => (m, i),
            TypeRef::Sequence(t) => {
                let (m1, a) = t.register(m);
                m1.intern(self.container(ds, seq![a]))
            },
            TypeRef::Nullable(t) => {
                let (m1, a) = t.register(m);
                m1.intern(self.container(ds, seq![a]))
            },
            TypeRef::Either(x, y) => {
                let (m1, a) = x.register(m);
                let (m2, b) = y.register(m1);
                m2.intern(self.container(ds, seq![a, b]))
            },
            TypeRef::Pair(x, y) => {
                let (m1, a) = x.register(m);
                let (m2, b) = y.register(m1);
                m2.intern(self.container(ds, seq![a, b]))
            },
            TypeRef::Mapping(x, y) => {
                let (m1, a) = x.register(m);
                let (m2, b) = y.register(m1);
                m2.intern(self.container(ds, seq![a, b]))
            },
        }
    }

    /// Whether every registered type that the reference names has an index below `bound`.
    pub fn is_resolved(&self, bound: usize) -> (r: bool)
        ensures
            r == self.resolved(bound as int),
        decreases self,
    {
        match self {
            TypeRef::Scalar(_) => true,
            TypeRef::Registered(i) => *i < bound,
            TypeRef::Sequence(t) => t.is_resolved(bound),
            TypeRef::Nullable(t) => t.is_resolved(bound),
            TypeRef::Either(a, b) => a.is_resolved(bound) && b.is_resolved(bound),
            TypeRef::Pair(a, b) => a.is_resolved(bound) && b.is_resolved(bound),
            TypeRef::Mapping(a, b) => a.is_resolved(bound) && b.is_resolved(bound),
        }
    }

    /// The mark of a builtin scalar type; other types have none.
    pub fn _tag(&self) -> (r: Option<&'static str>)
        ensures
            match r {
                Some(t) => self.tag() == Some(t@),
                None => self.tag() is None,
            },
    {
        match self {
            TypeRef::Scalar(s) => Some(s._tag()),
            _ => None,
        }
    }

    /// Whether the reference is to the type of bytes.
    fn names_byte(&self) -> (r: bool)
        ensures
            r == self.is_byte(),
    {
        match self {
            TypeRef::Scalar(s) => *s == Scalar::U8,
            _ => false,
        }
    }

    /// Whether a field of this type may be left out.
    pub fn _is_optional(&self, all: &Vec<Descriptor>) -> (r: bool)
        requires
            self.resolved(all.len() as int),
        ensures
            r == self.is_optional(crate::descriptor::views(all@)),
    {
        match self {
            TypeRef::Nullable(_) => true,
            TypeRef::Registered(i) => {
                assert(crate::descriptor::views(all@)[*i as int] == all@[*i as int]@);
                all[*i].is_optional()
            },
            _ => false,
        }
    }

    /// The name of the type in TypeScript; `all` are the registered descriptors.
    pub fn _ts_name(&self, all: &Vec<Descriptor>) -> (r: String)
        requires
            self.resolved(all.len() as int),
        ensures
            r@ == self.ts_name(crate::descriptor::views(all@)),
        decreases self,
    {
        match self {
            TypeRef::Scalar(s) => s._ts_name(),
            TypeRef::Registered(i) => {
                assert(crate::descriptor::views(all@)[*i as int] == all@[*i as int]@);
                String::from_str(all[*i].ts_name())
            },
            TypeRef::Sequence(t) => {
                if t.names_byte() {
                    String::from_str("Uint8Array")
                } else {
                    let mut r = String::from_str("readonly ");
                    r.append(t._ts_name(all).as_str());
                    r.append("[]");
                    r
                }
            },
            TypeRef::Nullable(t) => t._ts_name(all),
            TypeRef::Either(a, b) => {
                let mut r = a._ts_name(all);
                r.append(" | ");
                r.append(b._ts_name(all).as_str());
                r
            },
            TypeRef::Pair(a, b) => {
                let mut r = String::from_str("(readonly [");
                r.append(a._ts_name(all).as_str());
                r.append(", ");
                r.append(b._ts_name(all).as_str());
                r.append("])");
                r
            },
            TypeRef::Mapping(a, b) => {
                let mut r = String::from_str("Map<");
                r.append(a._ts_name(all).as_str());
                r.append(", ");
                r.append(b._ts_name(all).as_str());
                r.append(">");
                r
            },
        }
    }

    /// Registers the type, whose references are all resolved, and gives its index.
    pub(crate) fn register_resolved(&self, manager: &mut DescriptorManager) -> (idx: usize)
        requires
            old(manager)@.wf(),
            self.resolved(old(manager)@.descriptors.len() as int),
        ensures
            final(manager)@.wf(),
            (final(manager)@, idx) == self.register(old(manager)@),
            grown(old(manager)@, final(manager)@),
            final(manager)@.tags == old(manager)@.tags,
            idx < final(manager)@.descriptors.len(),
        decreases self,
    {
        match self {
            TypeRef::Scalar(s) => {
                proof {
                    lemma_registry_grows(manager@, TypeKey::Scalar(*s), scalar_view(*s));
                }
                manager.register_scalar(*s)
            },
            TypeRef::Registered(i) => *i,
            TypeRef::Sequence(t) => {
                let name = self._ts_name(manager.descriptors());
                let a = t.register_resolved(manager);
                self.register_container(manager, name, a, None, false)
            },
            TypeRef::Nullable(t) => {
                let name = self._ts_name(manager.descriptors());
                let a = t.register_resolved(manager);
                self.register_container(manager, name, a, None, true)
            },
            TypeRef::Either(x, y) => {
                let name = self._ts_name(manager.descriptors());
                let a = x.register_resolved(manager);
                proof {
                    lemma_resolved_grows(
                        **y,
                        old(manager)@.descriptors.len() as int,
                        manager@.descriptors.len() as int,
                    );
                }
                let ghost m1 = manager@;
                let b = y.register_resolved(manager);
                proof {
                    lemma_grown_transitive(old(manager)@, m1, manager@);
                }
                self.register_container(manager, name, a, Some(b), false)
            },
            TypeRef::Pair(x, y) => {
                let name = self._ts_name(manager.descriptors());
                let a = x.register_resolved(manager);
                proof {
                    lemma_resolved_grows(
                        **y,
                        old(manager)@.descriptors.len() as int,
                        manager@.descriptors.len() as int,
                    );
                }
                let ghost m1 = manager@;
                let b = y.register_resolved(manager);
                proof {
                    lemma_grown_transitive(old(manager)@, m1, manager@);
                }
                self.register_container(manager, name, a, Some(b), false)
            },
            TypeRef::Mapping(x, y) => {
                let name = self._ts_name(manager.descriptors());
                let a = x.register_resolved(manager);
                proof {
                    lemma_resolved_grows(
                        **y,
                        old(manager)@.descriptors.len() as int,
                        manager@.descriptors.len() as int,
                    );
                }
                let ghost m1 = manager@;
                let b = y.register_resolved(manager);
                proof {
                    lemma_grown_transitive(old(manager)@, m1, manager@);
                }
                self.register_container(manager, name, a, Some(b), false)
            },
        }
    }

    /// Registers a container: its name is `name`, its arguments are at `a`
    /// and, if it has two, at `b`.
    fn register_container(
        &self,
        manager: &mut DescriptorManager,
        name: String,
        a: usize,
        b: Option<usize>,
        optional: bool,
    ) -> (idx: usize)
        requires
            old(manager)@.wf(),
            a < old(manager)@.descriptors.len(),
            b matches Some(j) ==> j < old(manager)@.descriptors.len(),
        ensures
            final(manager)@.wf(),
            (final(manager)@, idx) == old(manager)@.intern(
                DescriptorView::Generics(
                    GenericView {
                        dependencies: match b {
                            Some(j) => seq![a, j],
                            None => seq![a],
                        },
                        ts_name: name@,
                        optional,
                    },
                ),
            ),
            idx < final(manager)@.descriptors.len(),
            grown(old(manager)@, final(manager)@),
            final(manager)@.tags == old(manager)@.tags,
    {
        let mut deps: Vec<usize> = Vec::new();
        deps.push(a);
        match b {
            Some(j) => {
                deps.push(j);
                assert(deps@ =~= seq![a, j]);
            },
            None => {
                assert(deps@ =~= seq![a]);
            },
        }
        manager.intern_container(GenericDescriptor { dependencies: deps, ts_name: name, optional })
    }

    /// Registers the type and gives its index. A reference to a type that
    /// is not registered is refused, and nothing changes.
    pub fn _register(&self, manager: &mut DescriptorManager) -> (r: Result<usize, SchemaError>)
        requires
            old(manager)@.wf(),
        ensures
            final(manager)@.wf(),
            match r {
                Ok(idx) => self.resolved(old(manager)@.descriptors.len() as int) && (
                    final(manager)@,
                    idx,
                ) == self.register(old(manager)@),
                Err(e) => !self.resolved(old(manager)@.descriptors.len() as int) && e
                    == SchemaError::UnregisteredType && final(manager)@ == old(manager)@,
            },
    {
        if self.is_resolved(manager.len()) {
            Ok(self.register_resolved(manager))
        } else {
            Err(SchemaError::UnregisteredType)
        }
    }
}

/// A reference that is resolved below a bound is resolved below a larger one.
pub proof fn lemma_resolved_grows(t: TypeRef, low: int, high: int)
    requires
        t.resolved(low),
        low <= high,
    ensures
        t.resolved(high),
    decreases t,
{
    match t {
        TypeRef::Scalar(_) => {},
        TypeRef::Registered(_) => {},
        TypeRef::Sequence(x) => lemma_resolved_grows(*x, low, high),
        TypeRef::Nullable(x) => lemma_resolved_grows(*x, low, high),
        TypeRef::Either(x, y) => {
            lemma_resolved_grows(*x, low, high);
            lemma_resolved_grows(*y, low, high);
        },
        TypeRef::Pair(x, y) => {
            lemma_resolved_grows(*x, low, high);
            lemma_resolved_grows(*y, low, high);
        },
        TypeRef::Mapping(x, y) => {
            lemma_resolved_grows(*x, low, high);
            lemma_resolved_grows(*y, low, high);
        },
    }
}

/// What has grown out of what has grown out of a registry has grown out of it.
pub proof fn lemma_grown_transitive(a: ManagerView, b: ManagerView, c: ManagerView)
    requires
        grown(a, b),
        grown(b, c),
    ensures
        grown(a, c),
{
    assert forall|i: int| 0 <= i < a.descriptors.len() implies #[trigger] c.descriptors[i]
        == a.descriptors[i] by {
        assert(b.descriptors[i] == a.descriptors[i]);
    }
    assert forall|k: TypeKey| #[trigger] a.id_map.contains_key(k) implies c.id_map.contains_key(k)
        && c.id_map[k] == a.id_map[k] by {
        assert(b.id_map.contains_key(k));
    }
}

/// A container that is registered never removes or changes a descriptor.
pub proof fn lemma_intern_grows(m: ManagerView, d: DescriptorView)
    ensures
        grown(m, m.intern(d).0),
        m.intern(d).0.tags == m.tags,
{
}

/// The registration of a type reference never removes or changes a descriptor.
pub proof fn lemma_register_grows(t: TypeRef, m: ManagerView)
    ensures
        grown(m, t.register(m).0),
        t.register(m).0.tags == m.tags,
    decreases t,
{
    match t {
        TypeRef::Scalar(s) => {
            lemma_registry_grows(m, TypeKey::Scalar(s), scalar_view(s));
        },
        TypeRef::Registered(_) => {},
        TypeRef::Sequence(x) => {
            lemma_register_grows(*x, m);
            let m1 = x.register(m).0;
            lemma_intern_grows(m1, t.container(m.descriptors, seq![x.register(m).1]));
            lemma_grown_transitive(m, m1, t.register(m).0);
        },
        TypeRef::Nullable(x) => {
            lemma_register_grows(*x, m);
            let m1 = x.register(m).0;
            lemma_intern_grows(m1, t.container(m.descriptors, seq![x.register(m).1]));
            lemma_grown_transitive(m, m1, t.register(m).0);
        },
        TypeRef::Either(x, y) => {
            lemma_register_grows(*x, m);
            let m1 = x.register(m).0;
            lemma_register_grows(*y, m1);
            let m2 = y.register(m1).0;
            lemma_grown_transitive(m, m1, m2);
            lemma_intern_grows(
                m2,
                t.container(m.descriptors, seq![x.register(m).1, y.register(m1).1]),
            );
            lemma_grown_transitive(m, m2, t.register(m).0);
        },
        TypeRef::Pair(x, y) => {
            lemma_register_grows(*x, m);
            let m1 = x.register(m).0;
            lemma_register_grows(*y, m1);
            let m2 = y.register(m1).0;
            lemma_grown_transitive(m, m1, m2);
            lemma_intern_grows(
                m2,
                t.container(m.descriptors, seq![x.register(m).1, y.register(m1).1]),
            );
            lemma_grown_transitive(m, m2, t.register(m).0);
        },
        TypeRef::Mapping(x, y) => {
            lemma_register_grows(*x, m);
            let m1 = x.register(m).0;
            lemma_register_grows(*y, m1);
            let m2 = y.register(m1).0;
            lemma_grown_transitive(m, m1, m2);
            lemma_intern_grows(
                m2,
                t.container(m.descriptors, seq![x.register(m).1, y.register(m1).1]),
            );
            lemma_grown_transitive(m, m2, t.register(m).0);
        },
    }
}

} // verus!
