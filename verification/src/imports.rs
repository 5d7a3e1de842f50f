//! Which records and unions a declaration has to import: those that its
//! dependencies lead to, through containers.

use vstd::prelude::*;
use crate::descriptor::{views, Descriptor, DescriptorView};
use crate::text::stem;
use crate::ts_formatter::{FormatterView, Import, TsFormatter};

verus! {

/// Every dependency of every descriptor stands before the descriptor itself.
pub open spec fn leaves_first(ds: Seq<DescriptorView>) -> bool {
    forall|i: int| 0 <= i < ds.len() ==> (#[trigger] ds[i]).below(i)
}

/// The records and unions that the type at `idx` stands for in an import
/// list: a record or union stands for itself, a builtin type for nothing,
/// and a container for what its arguments stand for.
pub open spec fn reach(ds: Seq<DescriptorView>, idx: usize) -> Set<usize>
    decreases idx, 1nat, 0nat,
{
    if idx < ds.len() {
        match ds[idx as int] {
            DescriptorView::Interface(_) => set![idx],
            DescriptorView::Enum(_) => set![idx],
            DescriptorView::BuiltinType(_) => Set::empty(),
            DescriptorView::Generics(g) => reach_all(ds, g.dependencies, idx),
        }
    } else {
        Set::empty()
    }
}

/// What the types at `deps` stand for, as far as they are below `bound`.
pub open spec fn reach_all(ds: Seq<DescriptorView>, deps: Seq<usize>, bound: usize) -> Set<usize>
    decreases bound, 0nat, deps.len(),
{
    if deps.len() == 0 {
        Set::empty()
    } else {
        let rest = reach_all(ds, deps.drop_last(), bound);
        if deps.last() < bound {
            rest.union(reach(ds, deps.last()))
        } else {
            rest
        }
    }
}

/// The import of the type `d`: its name, and its file without the extension.
pub open spec fn import_of(d: DescriptorView) -> Import {
    (d.ts_name(), stem(d.file_name()))
}

/// The imports of the records and unions at the indices `s`.
pub open spec fn imports_of(ds: Seq<DescriptorView>, s: Set<usize>) -> Set<Import> {
    s.map(|j: usize| import_of(ds[j as int]))
}

/// The imports of the declaration at `idx`: one for each record or union
/// that its dependencies stand for.
pub open spec fn import_set(ds: Seq<DescriptorView>, idx: usize) -> Set<Import> {
    imports_of(ds, reach_all(ds, ds[idx as int].dependencies(), idx))
}

/// One more index gives one more import.
pub proof fn lemma_imports_of_insert(ds: Seq<DescriptorView>, s: Set<usize>, x: usize)
    ensures
        imports_of(ds, s.insert(x)) == imports_of(ds, s).insert(import_of(ds[x as int])),
{
    let f = |j: usize| import_of(ds[j as int]);
    let a = imports_of(ds, s.insert(x));
    let b = imports_of(ds, s).insert(import_of(ds[x as int]));
    assert forall|p: Import| a.contains(p) <==> b.contains(p) by {
        if a.contains(p) {
            let j = choose|j: usize| s.insert(x).contains(j) && f(j) == p;
            if j != x {
                assert(s.contains(j) && f(j) == p);
            }
        }
        if b.contains(p) {
            if p == import_of(ds[x as int]) {
                assert(s.insert(x).contains(x) && f(x) == p);
            } else {
                let j = choose|j: usize| s.contains(j) && f(j) == p;
                assert(s.insert(x).contains(j) && f(j) == p);
            }
        }
    }
    assert(a =~= b);
}

/// No index gives no import.
pub proof fn lemma_imports_of_empty(ds: Seq<DescriptorView>)
    ensures
        imports_of(ds, Set::empty()) == Set::<Import>::empty(),
{
    assert(imports_of(ds, Set::empty()) =~= Set::<Import>::empty());
}

/// What a type stands for lies at or below its index, and is a record or a union.
pub proof fn lemma_reach_bounds(ds: Seq<DescriptorView>, idx: usize)
    ensures
        forall|j: usize| #[trigger]
            reach(ds, idx).contains(j) ==> j <= idx && j < ds.len() && ds[j as int].is_named(),
        reach(ds, idx).finite(),
    decreases idx, 1nat, 0nat,
{
    if idx < ds.len() {
        match ds[idx as int] {
            DescriptorView::Generics(g) => {
                lemma_reach_all_bounds(ds, g.dependencies, idx);
            },
            _ => {},
        }
    }
}

/// What types below `bound` stand for lies below `bound`, and is a record or a union.
pub proof fn lemma_reach_all_bounds(ds: Seq<DescriptorView>, deps: Seq<usize>, bound: usize)
    ensures
        forall|j: usize| #[trigger]
            reach_all(ds, deps, bound).contains(j) ==> j < bound && j < ds.len()
                && ds[j as int].is_named(),
        reach_all(ds, deps, bound).finite(),
    decreases bound, 0nat, deps.len(),
{
    if deps.len() > 0 {
        lemma_reach_all_bounds(ds, deps.drop_last(), bound);
        if deps.last() < bound {
            lemma_reach_bounds(ds, deps.last());
        }
    }
}

/// Adds `x` to `acc` unless it is there.
fn add_index(acc: &mut Vec<usize>, x: usize)
    ensures
        final(acc)@.to_set() == old(acc)@.to_set().insert(x),
        old(acc)@.no_duplicates() ==> final(acc)@.no_duplicates(),
{
    let mut i: usize = 0;
    while i < acc.len()
        invariant
            i <= acc.len(),
            acc@ == old(acc)@,
            forall|k: int| 0 <= k < i ==> acc@[k] != x,
        decreases acc.len() - i,
    {
        if acc[i] == x {
            assert(acc@.to_set().contains(x));
            assert(acc@.to_set().insert(x) =~= acc@.to_set());
            return ;
        }
        i = i + 1;
    }
    proof {
        acc@.lemma_push_to_set_commute(x);
    }
    acc.push(x);
    assert(old(acc)@.no_duplicates() ==> acc@.no_duplicates()) by {
        if old(acc)@.no_duplicates() {
            assert forall|a: int, b: int|
                0 <= a < acc@.len() && 0 <= b < acc@.len() && a != b implies acc@[a] != acc@[b] by {
                if a < old(acc)@.len() && b < old(acc)@.len() {
                    assert(old(acc)@[a] != old(acc)@[b]);
                }
            }
        }
    }
}

/// Adds to `acc` what the type at `idx` stands for.
pub(crate) fn collect(all: &Vec<Descriptor>, idx: usize, acc: &mut Vec<usize>)
    requires
        idx < all.len(),
        leaves_first(views(all@)),
    ensures
        final(acc)@.to_set() == old(acc)@.to_set().union(reach(views(all@), idx)),
        old(acc)@.no_duplicates() ==> final(acc)@.no_duplicates(),
    decreases idx,
{
    let ghost ds = views(all@);
    assert(ds[idx as int] == all@[idx as int]@);
    match &all[idx] {
        Descriptor::Interface(_) => {
            add_index(acc, idx);
            assert(old(acc)@.to_set().insert(idx) =~= old(acc)@.to_set().union(set![idx]));
        },
        Descriptor::Enum(_) => {
            add_index(acc, idx);
            assert(old(acc)@.to_set().insert(idx) =~= old(acc)@.to_set().union(set![idx]));
        },
        Descriptor::BuiltinType(_) => {
            assert(old(acc)@.to_set().union(Set::empty()) =~= old(acc)@.to_set());
        },
        Descriptor::Generics(d) => {
            assert(ds[idx as int].below(idx as int));
            collect_all(all, &d.dependencies, idx, acc);
        },
    }
}

/// Adds to `acc` what the types at `deps` stand for; all of them are below `bound`.
fn collect_all(all: &Vec<Descriptor>, deps: &Vec<usize>, bound: usize, acc: &mut Vec<usize>)
    requires
        bound <= all.len(),
        leaves_first(views(all@)),
        crate::descriptor::indices_below(deps@, bound as int),
    ensures
        final(acc)@.to_set() == old(acc)@.to_set().union(reach_all(views(all@), deps@, bound)),
        old(acc)@.no_duplicates() ==> final(acc)@.no_duplicates(),
    decreases bound, deps.len(),
{
    let ghost ds = views(all@);
    let mut k: usize = 0;
    assert(deps@.take(0) =~= Seq::empty());
    assert(old(acc)@.to_set().union(Set::empty()) =~= old(acc)@.to_set());
    while k < deps.len()
        invariant
            k <= deps.len(),
            bound <= all.len(),
            ds == views(all@),
            leaves_first(ds),
            crate::descriptor::indices_below(deps@, bound as int),
            acc@.to_set() == old(acc)@.to_set().union(reach_all(ds, deps@.take(k as int), bound)),
            old(acc)@.no_duplicates() ==> acc@.no_duplicates(),
        decreases deps.len() - k,
    {
        let dep = deps[k];
        assert(deps@[k as int] < bound);
        let ghost before = acc@.to_set();
        collect(all, dep, acc);
        proof {
            let t = deps@.take(k + 1);
            assert(t.drop_last() =~= deps@.take(k as int));
            assert(t.last() == dep);
            assert(acc@.to_set() =~= old(acc)@.to_set().union(reach_all(ds, t, bound)));
        }
        k = k + 1;
    }
    assert(deps@.take(deps.len() as int) =~= deps@);
}

/// Whether every dependency of every descriptor stands before the descriptor itself.
pub fn is_leaves_first(all: &Vec<Descriptor>) -> (r: bool)
    ensures
        r == leaves_first(views(all@)),
{
    let mut i: usize = 0;
    while i < all.len()
        invariant
            i <= all.len(),
            forall|k: int| 0 <= k < i ==> (#[trigger] views(all@)[k]).below(k),
        decreases all.len() - i,
    {
        assert(views(all@)[i as int] == all@[i as int]@);
        if !all[i].deps_below(i) {
            return false;
        }
        i = i + 1;
    }
    true
}

/// The indices of the records and unions that the type at `idx` stands for
/// in an import list, each once.
pub fn get_import_deps_idx(all: &Vec<Descriptor>, idx: usize) -> (r: Vec<usize>)
    requires
        idx < all.len(),
        leaves_first(views(all@)),
    ensures
        r@.to_set() == reach(views(all@), idx),
        r@.no_duplicates(),
{
    let mut r: Vec<usize> = Vec::new();
    collect(all, idx, &mut r);
    assert(Set::<usize>::empty().union(reach(views(all@), idx)) =~= reach(views(all@), idx));
    assert(Seq::<usize>::empty().to_set() =~= Set::empty());
    r
}

/// The indices of the records and unions that the declaration at `idx` has
/// to import, each once.
pub(crate) fn import_indices(all: &Vec<Descriptor>, idx: usize) -> (r: Vec<usize>)
    requires
        idx < all.len(),
        leaves_first(views(all@)),
    ensures
        r@.to_set() == reach_all(views(all@), views(all@)[idx as int].dependencies(), idx),
        r@.no_duplicates(),
{
    let mut r: Vec<usize> = Vec::new();
    let ghost ds = views(all@);
    assert(ds[idx as int] == all@[idx as int]@);
    assert(ds[idx as int].below(idx as int));
    assert(Seq::<usize>::empty().to_set() =~= Set::empty());
    match &all[idx] {
        Descriptor::Interface(d) => {
            collect_all(all, &d.dependencies, idx, &mut r);
        },
        Descriptor::Enum(d) => {
            collect_all(all, &d.dependencies, idx, &mut r);
        },
        Descriptor::BuiltinType(_) => {},
        Descriptor::Generics(d) => {
            collect_all(all, &d.dependencies, idx, &mut r);
        },
    }
    assert(Set::<usize>::empty().union(reach_all(ds, ds[idx as int].dependencies(), idx))
        =~= reach_all(ds, ds[idx as int].dependencies(), idx));
    r
}

/// The name and the module of the record or union at `idx`, for an import
/// line: the module is the file without its extension.
pub fn get_import_deps(all: &Vec<Descriptor>, idx: usize) -> (r: (String, String))
    requires
        idx < all.len(),
    ensures
        (r.0@, r.1@) == import_of(all@[idx as int]@),
{
    match &all[idx] {
        Descriptor::Interface(d) => (
            d.ts_name.clone(),
            crate::text::remove_ext(d.file_name.as_str()),
        ),
        Descriptor::Enum(d) => (d.ts_name.clone(), crate::text::remove_ext(d.file_name.as_str())),
        Descriptor::BuiltinType(d) => {
            assert(stem(Seq::empty()) =~= Seq::empty());
            (d.ts_name.clone(), String::new())
        },
        Descriptor::Generics(d) => {
            assert(stem(Seq::empty()) =~= Seq::empty());
            (d.ts_name.clone(), String::new())
        },
    }
}

/// Asks the formatter for the import of each record or union at `indices`.
pub(crate) fn add_imports(all: &Vec<Descriptor>, indices: &Vec<usize>, fmt: &mut TsFormatter)
    requires
        crate::descriptor::indices_below(indices@, all.len() as int),
    ensures
        final(fmt)@ == (FormatterView {
            imports: old(fmt)@.imports.union(imports_of(views(all@), indices@.to_set())),
            ..old(fmt)@
        }),
{
    let ghost ds = views(all@);
    let mut k: usize = 0;
    proof {
        assert(indices@.take(0).to_set() =~= Set::empty());
        lemma_imports_of_empty(ds);
        assert(old(fmt)@.imports.union(Set::empty()) =~= old(fmt)@.imports);
    }
    while k < indices.len()
        invariant
            k <= indices.len(),
            ds == views(all@),
            crate::descriptor::indices_below(indices@, all.len() as int),
            fmt@ == (FormatterView {
                imports: old(fmt)@.imports.union(imports_of(ds, indices@.take(k as int).to_set())),
                ..old(fmt)@
            }),
        decreases indices.len() - k,
    {
        let j = indices[k];
        assert(indices@[k as int] < all.len());
        let (name, file) = get_import_deps(all, j);
        fmt.add_import(name.as_str(), file.as_str());
        proof {
            let a = indices@.take(k as int);
            assert(indices@.take(k + 1) =~= a.push(j));
            a.lemma_push_to_set_commute(j);
            lemma_imports_of_insert(ds, a.to_set(), j);
            assert(ds[j as int] == all@[j as int]@);
            assert(old(fmt)@.imports.union(imports_of(ds, a.to_set())).insert(
                import_of(ds[j as int]),
            ) =~= old(fmt)@.imports.union(imports_of(ds, a.to_set()).insert(import_of(ds[j as int]))));
        }
        k = k + 1;
    }
    assert(indices@.take(indices.len() as int) =~= indices@);
}

/// `path` leads through containers to a record or a union: every type on
/// it but the last is a container that has the next one as an argument,
/// and the last is a record or a union.
pub open spec fn through_containers(ds: Seq<DescriptorView>, path: Seq<usize>) -> bool {
    &&& path.len() > 0
    &&& forall|k: int| 0 <= k < path.len() ==> (#[trigger] path[k]) < ds.len()
    &&& forall|k: int|
        0 <= k < path.len() - 1 ==> ds[(#[trigger] path[k]) as int] is Generics
            && ds[path[k] as int].dependencies().contains(path[k + 1])
    &&& ds[path.last() as int].is_named()
}

/// The declaration at `idx` needs the record or union at `j`: one of its
/// dependencies leads there through containers.
pub open spec fn needs(ds: Seq<DescriptorView>, idx: usize, j: usize) -> bool {
    exists|path: Seq<usize>|
        #[trigger] through_containers(ds, path) && ds[idx as int].dependencies().contains(path[0])
            && path.last() == j
}

/// What types stand for is what one of them stands for.
pub proof fn lemma_reach_all_is_some(
    ds: Seq<DescriptorView>,
    deps: Seq<usize>,
    bound: usize,
    j: usize,
)
    ensures
        reach_all(ds, deps, bound).contains(j) <==> exists|k: int|
            0 <= k < deps.len() && deps[k] < bound && #[trigger] reach(ds, deps[k]).contains(j),
    decreases deps.len(),
{
    if deps.len() > 0 {
        let rest = deps.drop_last();
        lemma_reach_all_is_some(ds, rest, bound, j);
        if reach_all(ds, deps, bound).contains(j) {
            if reach_all(ds, rest, bound).contains(j) {
                let k = choose|k: int|
                    0 <= k < rest.len() && rest[k] < bound && #[trigger] reach(ds, rest[k]).contains(
                        j,
                    );
                assert(deps[k] == rest[k]);
            } else {
                assert(reach(ds, deps[deps.len() - 1]).contains(j));
            }
        }
        if exists|k: int|
            0 <= k < deps.len() && deps[k] < bound && #[trigger] reach(ds, deps[k]).contains(j) {
            let k = choose|k: int|
                0 <= k < deps.len() && deps[k] < bound && #[trigger] reach(ds, deps[k]).contains(j);
            if k < deps.len() - 1 {
                assert(rest[k] == deps[k]);
                assert(reach(ds, rest[k]).contains(j));
            }
        }
    }
}

/// From a type to what it stands for there is a path through containers.
pub proof fn lemma_reach_has_path(ds: Seq<DescriptorView>, i: usize, j: usize) -> (path: Seq<usize>)
    requires
        reach(ds, i).contains(j),
    ensures
        through_containers(ds, path),
        path[0] == i,
        path.last() == j,
    decreases i,
{
    match ds[i as int] {
        DescriptorView::Generics(g) => {
            lemma_reach_all_is_some(ds, g.dependencies, i, j);
            let k = choose|k: int|
                0 <= k < g.dependencies.len() && g.dependencies[k] < i && #[trigger] reach(
                    ds,
                    g.dependencies[k],
                ).contains(j);
            let tail = lemma_reach_has_path(ds, g.dependencies[k], j);
            let path = seq![i] + tail;
            assert forall|n: int| 0 <= n < path.len() - 1 implies ds[(#[trigger] path[n]) as int] is Generics
                && ds[path[n] as int].dependencies().contains(path[n + 1]) by {
                if n == 0 {
                    assert(path[1] == tail[0]);
                    assert(g.dependencies[k] == tail[0]);
                } else {
                    assert(path[n] == tail[n - 1]);
                    assert(path[n + 1] == tail[n]);
                }
            }
            assert forall|n: int| 0 <= n < path.len() implies (#[trigger] path[n]) < ds.len() by {
                if n > 0 {
                    assert(path[n] == tail[n - 1]);
                }
            }
            assert(path.last() == tail.last());
            path
        },
        _ => {
            let path = seq![i];
            path
        },
    }
}

/// Where a path through containers leads is what its first type stands for.
pub proof fn lemma_path_is_reached(ds: Seq<DescriptorView>, path: Seq<usize>)
    requires
        leaves_first(ds),
        through_containers(ds, path),
    ensures
        reach(ds, path[0]).contains(path.last()),
    decreases path.len(),
{
    if path.len() > 1 {
        let tail = path.drop_first();
        assert forall|n: int| 0 <= n < tail.len() - 1 implies ds[(#[trigger] tail[n]) as int] is Generics
            && ds[tail[n] as int].dependencies().contains(tail[n + 1]) by {
            assert(tail[n] == path[n + 1]);
            assert(tail[n + 1] == path[n + 2]);
        }
        assert forall|n: int| 0 <= n < tail.len() implies (#[trigger] tail[n]) < ds.len() by {
            assert(tail[n] == path[n + 1]);
        }
        assert(tail.last() == path.last());
        lemma_path_is_reached(ds, tail);
        let g = ds[path[0] as int]->Generics_0;
        let deps = g.dependencies;
        assert(ds[path[0] as int].dependencies().contains(path[1]));
        let k = choose|k: int| 0 <= k < deps.len() && deps[k] == path[1];
        assert(ds[path[0] as int].below(path[0] as int));
        assert(deps[k] < path[0]);
        assert(reach(ds, deps[k]).contains(path.last()));
        lemma_reach_all_is_some(ds, deps, path[0], path.last());
    }
}

/// Import minimality: a declaration imports exactly the records and unions
/// that its dependencies lead to through containers. Builtin types are
/// never among them, and neither is the declaration itself.
pub proof fn lemma_import_minimality(ds: Seq<DescriptorView>, idx: usize, j: usize)
    requires
        leaves_first(ds),
        idx < ds.len(),
    ensures
        reach_all(ds, ds[idx as int].dependencies(), idx).contains(j) <==> needs(ds, idx, j),
        needs(ds, idx, j) ==> j < idx && ds[j as int].is_named(),
        import_set(ds, idx) == imports_of(ds, Set::new(|n: usize| needs(ds, idx, n))),
{
    let deps = ds[idx as int].dependencies();
    assert(ds[idx as int].below(idx as int));
    lemma_reach_all_bounds(ds, deps, idx);
    lemma_needs_is_reached(ds, idx, j);
    assert forall|n: usize| reach_all(ds, deps, idx).contains(n) <==> needs(ds, idx, n) by {
        lemma_needs_is_reached(ds, idx, n);
    }
    assert(reach_all(ds, deps, idx) =~= Set::new(|n: usize| needs(ds, idx, n)));
}

/// What the dependencies of a declaration stand for is what the declaration needs.
proof fn lemma_needs_is_reached(ds: Seq<DescriptorView>, idx: usize, j: usize)
    requires
        leaves_first(ds),
        idx < ds.len(),
    ensures
        reach_all(ds, ds[idx as int].dependencies(), idx).contains(j) <==> needs(ds, idx, j),
{
    let deps = ds[idx as int].dependencies();
    assert(ds[idx as int].below(idx as int));
    lemma_reach_all_is_some(ds, deps, idx, j);
    if reach_all(ds, deps, idx).contains(j) {
        let k = choose|k: int|
            0 <= k < deps.len() && deps[k] < idx && #[trigger] reach(ds, deps[k]).contains(j);
        let path = lemma_reach_has_path(ds, deps[k], j);
        assert(through_containers(ds, path) && deps.contains(path[0]) && path.last() == j);
    }
    if needs(ds, idx, j) {
        let path = choose|path: Seq<usize>|
            #[trigger] through_containers(ds, path) && deps.contains(path[0]) && path.last() == j;
        lemma_path_is_reached(ds, path);
        let k = choose|k: int| 0 <= k < deps.len() && deps[k] == path[0];
        assert(deps[k] < idx);
        assert(reach(ds, deps[k]).contains(j));
    }
}

} // verus!
