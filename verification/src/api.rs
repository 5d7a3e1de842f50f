//! Interfaces of functions: the types they need, and the lines they are written as.

use std::collections::HashMap;
use vstd::prelude::*;
use crate::descriptor::{views, ApiDescriptor, ApiView, Descriptor, DescriptorView, MethodView};
use crate::imports::{collect, imports_of, leaves_first, lemma_reach_bounds, reach};
use crate::scalar::TypeKey;
use crate::text::indentation;
use crate::ts_formatter::{
    async_method_text, comment_lines, method_text, pairs, Import, Param, TsFormatter,
};

verus! {

broadcast use vstd::std_specs::hash::group_hash_axioms;

/// The index of each identity, from the numbers under which the identities are kept.
pub open spec fn keys_view(m: Map<u128, usize>) -> Map<TypeKey, usize> {
    Map::new(|k: TypeKey| m.contains_key(k.spec_code()), |k: TypeKey| m[k.spec_code()])
}

/// The identities of the types of a method: those of its parameters, then
/// that of its result.
pub open spec fn method_types(m: MethodView) -> Seq<TypeKey> {
    let params = Seq::new(m.params.len(), |i: int| m.params[i].1);
    match m.return_type {
        Some(t) => params.push(t),
        None => params,
    }
}

/// The identities of the types of the methods, in their order.
pub open spec fn api_types(methods: Seq<MethodView>) -> Seq<TypeKey>
    decreases methods.len(),
{
    if methods.len() == 0 {
        Seq::empty()
    } else {
        api_types(methods.drop_last()) + method_types(methods.last())
    }
}

/// Every type of the interface is registered, at an index of `ds`.
pub open spec fn api_resolved(ds: Seq<DescriptorView>, ids: Map<TypeKey, usize>, a: ApiView) -> bool {
    forall|k: int|
        0 <= k < api_types(a.methods).len() ==> ids.contains_key(#[trigger] api_types(a.methods)[k])
            && ids[api_types(a.methods)[k]] < ds.len()
}

/// The records and unions that the types with the identities `types` stand for.
pub open spec fn reach_ids(ds: Seq<DescriptorView>, ids: Map<TypeKey, usize>, types: Seq<TypeKey>) -> Set<
    usize,
>
    decreases types.len(),
{
    if types.len() == 0 {
        Set::empty()
    } else {
        reach_ids(ds, ids, types.drop_last()).union(reach(ds, ids[types.last()]))
    }
}

/// The parameters of a method with the names of their types.
pub open spec fn resolved_params(
    ds: Seq<DescriptorView>,
    ids: Map<TypeKey, usize>,
    params: Seq<(Seq<char>, TypeKey)>,
) -> Seq<Param> {
    Seq::new(params.len(), |i: int| (params[i].0, ds[ids[params[i].1] as int].ts_name()))
}

/// The name of the type of the result of a method, if it has one.
pub open spec fn resolved_return(
    ds: Seq<DescriptorView>,
    ids: Map<TypeKey, usize>,
    ret: Option<TypeKey>,
) -> Option<Seq<char>> {
    match ret {
        Some(t) => Some(ds[ids[t] as int].ts_name()),
        None => None,
    }
}

/// The lines of a method: its comments and its signature.
pub open spec fn method_lines(
    ds: Seq<DescriptorView>,
    ids: Map<TypeKey, usize>,
    m: MethodView,
    async_func: bool,
) -> Seq<Seq<char>> {
    let params = resolved_params(ds, ids, m.params);
    let ret = resolved_return(ds, ids, m.return_type);
    comment_lines(m.comment, 1).push(
        indentation(1) + if async_func {
            async_method_text(m.name, params, ret)
        } else {
            method_text(m.name, params, ret)
        },
    )
}

/// The lines of the methods, in their order.
pub open spec fn methods_lines(
    ds: Seq<DescriptorView>,
    ids: Map<TypeKey, usize>,
    methods: Seq<MethodView>,
    async_func: bool,
) -> Seq<Seq<char>>
    decreases methods.len(),
{
    if methods.len() == 0 {
        Seq::empty()
    } else {
        methods_lines(ds, ids, methods.drop_last(), async_func) + method_lines(
            ds,
            ids,
            methods.last(),
            async_func,
        )
    }
}

/// The lines of an interface of functions.
pub open spec fn api_lines(ds: Seq<DescriptorView>, ids: Map<TypeKey, usize>, a: ApiView) -> Seq<
    Seq<char>,
> {
    seq!["export interface "@ + a.name + ""@ + " {"@] + methods_lines(
        ds,
        ids,
        a.methods,
        a.async_func,
    ) + seq!["}"@]
}

/// The index under which the type with the identity `t` is registered.
fn index_of(ids: &HashMap<u128, usize>, t: TypeKey) -> (r: usize)
    requires
        keys_view(ids@).contains_key(t),
    ensures
        r == keys_view(ids@)[t],
{
    match ids.get(&t.code()) {
        Some(i) => *i,
        None => 0,
    }
}

/// Whether every type of the interface is registered.
pub(crate) fn api_is_resolved(all: &Vec<Descriptor>, ids: &HashMap<u128, usize>, api: &ApiDescriptor) -> (r:
    bool)
    ensures
        r == api_resolved(views(all@), keys_view(ids@), api@),
{
    let ghost ds = views(all@);
    let mut i: usize = 0;
    assert(api@.methods.take(0) =~= Seq::empty());
    while i < api.methods.len()
        invariant
            i <= api.methods.len(),
            ds == views(all@),
            ds.len() == all.len(),
            forall|k: int|
                0 <= k < api_types(api@.methods.take(i as int)).len() ==> keys_view(ids@).contains_key(
                    #[trigger] api_types(api@.methods.take(i as int))[k],
                ) && keys_view(ids@)[api_types(api@.methods.take(i as int))[k]] < ds.len(),
        decreases api.methods.len() - i,
    {
        let m = &api.methods[i];
        let ghost done = api_types(api@.methods.take(i as int));
        let ghost next = api_types(api@.methods.take(i + 1));
        let ghost mt = method_types(m@);
        proof {
            assert(api@.methods.take(i + 1).drop_last() =~= api@.methods.take(i as int));
            assert(api@.methods.take(i + 1).last() == m@);
            assert(next == done + mt);
        }
        let mut j: usize = 0;
        while j < m.params.len()
            invariant
                j <= m.params.len(),
                i < api.methods.len(),
                api@.methods[i as int] == m@,
                done == api_types(api@.methods.take(i as int)),
                ds.len() == all.len(),
                mt == method_types(m@),
                forall|k: int|
                    0 <= k < j ==> keys_view(ids@).contains_key(#[trigger] mt[k]) && keys_view(
                        ids@,
                    )[mt[k]] < ds.len(),
            decreases m.params.len() - j,
        {
            let ok = match ids.get(&m.params[j].1.code()) {
                Some(idx) => *idx < all.len(),
                None => false,
            };
            if !ok {
                proof {
                    let all_types = api_types(api@.methods);
                    lemma_api_types_prefix(api@.methods, i as int);
                    assert(all_types[done.len() + j] == mt[j as int]);
                }
                return false;
            }
            j = j + 1;
        }
        match m.return_type {
            Some(t) => {
                let ok = match ids.get(&t.code()) {
                    Some(idx) => *idx < all.len(),
                    None => false,
                };
                if !ok {
                    proof {
                        let all_types = api_types(api@.methods);
                        lemma_api_types_prefix(api@.methods, i as int);
                        assert(all_types[done.len() + m.params.len()] == mt[m.params.len() as int]);
                    }
                    return false;
                }
            },
            None => {},
        }
        proof {
            assert forall|k: int| 0 <= k < next.len() implies keys_view(ids@).contains_key(#[trigger] next[k])
                && keys_view(ids@)[next[k]] < ds.len() by {
                if k < done.len() {
                    assert(next[k] == done[k]);
                } else {
                    assert(next[k] == mt[k - done.len()]);
                }
            }
        }
        i = i + 1;
    }
    assert(api@.methods.take(api.methods.len() as int) =~= api@.methods);
    true
}

/// The types of the first `i` methods and of the next one open the list of
/// the types of all methods.
pub proof fn lemma_api_types_prefix(methods: Seq<MethodView>, i: int)
    requires
        0 <= i < methods.len(),
    ensures
        ({
            let done = api_types(methods.take(i));
            let mt = method_types(methods[i]);
            let all = api_types(methods);
            &&& done.len() + mt.len() <= all.len()
            &&& forall|k: int| 0 <= k < done.len() ==> all[k] == done[k]
            &&& forall|k: int| 0 <= k < mt.len() ==> all[done.len() + k] == mt[k]
        }),
    decreases methods.len(),
{
    if i == methods.len() - 1 {
        assert(methods.take(i) =~= methods.drop_last());
    } else {
        lemma_api_types_prefix(methods.drop_last(), i);
        assert(methods.drop_last().take(i) =~= methods.take(i));
    }
}

/// The imports of an interface of functions: one for each record or union
/// that the types of its methods stand for.
pub open spec fn api_import_set(ds: Seq<DescriptorView>, ids: Map<TypeKey, usize>, a: ApiView) -> Set<
    Import,
> {
    imports_of(ds, reach_ids(ds, ids, api_types(a.methods)))
}

/// What registered types stand for lies inside the registry.
pub proof fn lemma_reach_ids_bounds(ds: Seq<DescriptorView>, ids: Map<TypeKey, usize>, types: Seq<TypeKey>)
    ensures
        forall|j: usize| #[trigger] reach_ids(ds, ids, types).contains(j) ==> j < ds.len(),
    decreases types.len(),
{
    if types.len() > 0 {
        lemma_reach_ids_bounds(ds, ids, types.drop_last());
        lemma_reach_bounds(ds, ids[types.last()]);
        assert forall|j: usize| #[trigger] reach_ids(ds, ids, types).contains(j) implies j
            < ds.len() by {
            if !reach_ids(ds, ids, types.drop_last()).contains(j) {
                assert(reach(ds, ids[types.last()]).contains(j));
            }
        }
    }
}

/// The indices of the records and unions that the types of the methods
/// stand for, each once.
pub(crate) fn api_indices(all: &Vec<Descriptor>, ids: &HashMap<u128, usize>, api: &ApiDescriptor) -> (r:
    Vec<usize>)
    requires
        leaves_first(views(all@)),
        api_resolved(views(all@), keys_view(ids@), api@),
    ensures
        r@.to_set() == reach_ids(views(all@), keys_view(ids@), api_types(api@.methods)),
        crate::descriptor::indices_below(r@, all.len() as int),
{
    let ghost ds = views(all@);
    let mut r: Vec<usize> = Vec::new();
    let mut i: usize = 0;
    assert(api@.methods.take(0) =~= Seq::empty());
    assert(r@.to_set() =~= Set::empty());
    while i < api.methods.len()
        invariant
            i <= api.methods.len(),
            ds == views(all@),
            leaves_first(ds),
            api_resolved(ds, keys_view(ids@), api@),
            r@.to_set() == reach_ids(ds, keys_view(ids@), api_types(api@.methods.take(i as int))),
        decreases api.methods.len() - i,
    {
        let m = &api.methods[i];
        let ghost done = api_types(api@.methods.take(i as int));
        let ghost mt = method_types(m@);
        proof {
            assert(api@.methods.take(i + 1).drop_last() =~= api@.methods.take(i as int));
            assert(api@.methods.take(i + 1).last() == m@);
            lemma_api_types_prefix(api@.methods, i as int);
            assert(done + mt.take(0) =~= done);
        }
        let mut j: usize = 0;
        while j < m.params.len()
            invariant
                j <= m.params.len(),
                i < api.methods.len(),
                api@.methods[i as int] == m@,
                ds == views(all@),
                leaves_first(ds),
                api_resolved(ds, keys_view(ids@), api@),
                done == api_types(api@.methods.take(i as int)),
                mt == method_types(m@),
                r@.to_set() == reach_ids(ds, keys_view(ids@), done + mt.take(j as int)),
            decreases m.params.len() - j,
        {
            let t = m.params[j].1;
            proof {
                lemma_api_types_prefix(api@.methods, i as int);
                assert(api_types(api@.methods)[done.len() + j] == mt[j as int]);
                assert(mt[j as int] == t);
                let s = done + mt.take(j + 1);
                assert(s.drop_last() =~= done + mt.take(j as int));
                assert(s.last() == t);
            }
            let idx = index_of(ids, t);
            collect(all, idx, &mut r);
            j = j + 1;
        }
        match m.return_type {
            Some(t) => {
                proof {
                    lemma_api_types_prefix(api@.methods, i as int);
                    assert(api_types(api@.methods)[done.len() + m.params.len()] == mt[m.params.len() as int]);
                    assert(mt[m.params.len() as int] == t);
                    let s = done + mt;
                    assert(s.drop_last() =~= done + mt.take(m.params.len() as int));
                    assert(s.last() == t);
                }
                let idx = index_of(ids, t);
                collect(all, idx, &mut r);
            },
            None => {
                assert(mt.take(m.params.len() as int) =~= mt);
            },
        }
        i = i + 1;
    }
    assert(api@.methods.take(api.methods.len() as int) =~= api@.methods);
    proof {
        lemma_reach_ids_bounds(ds, keys_view(ids@), api_types(api@.methods));
        assert forall|k: int| 0 <= k < r@.len() implies #[trigger] r@[k] < all.len() by {
            assert(r@.to_set().contains(r@[k]));
        }
    }
    r
}

/// Writes an interface of functions: the opening line, the methods with
/// their comments, and the closing line.
pub(crate) fn write_api(
    all: &Vec<Descriptor>,
    ids: &HashMap<u128, usize>,
    api: &ApiDescriptor,
    fmt: &mut TsFormatter,
)
    requires
        old(fmt)@.indent == 0,
        api_resolved(views(all@), keys_view(ids@), api@),
    ensures
        final(fmt)@ == old(fmt)@.extend(api_lines(views(all@), keys_view(ids@), api@)),
{
    let ghost ds = views(all@);
    fmt.start_interface(api.name.as_str(), "");
    let ghost start = fmt@;
    let mut i: usize = 0;
    assert(api@.methods.take(0) =~= Seq::empty());
    assert(start.extend(Seq::empty()) =~= start);
    while i < api.methods.len()
        invariant
            i <= api.methods.len(),
            ds == views(all@),
            start.indent == 1,
            api_resolved(ds, keys_view(ids@), api@),
            fmt@ == start.extend(
                methods_lines(ds, keys_view(ids@), api@.methods.take(i as int), api.async_func),
            ),
        decreases api.methods.len() - i,
    {
        let m = &api.methods[i];
        let ghost done = api_types(api@.methods.take(i as int));
        let ghost mt = method_types(m@);
        let ghost want = resolved_params(ds, keys_view(ids@), m@.params);
        proof {
            assert(api@.methods.take(i + 1).drop_last() =~= api@.methods.take(i as int));
            assert(api@.methods.take(i + 1).last() == m@);
            lemma_api_types_prefix(api@.methods, i as int);
        }
        let mut params: Vec<(String, String)> = Vec::new();
        let mut j: usize = 0;
        assert(pairs(params@) =~= want.take(0));
        while j < m.params.len()
            invariant
                j <= m.params.len(),
                i < api.methods.len(),
                api@.methods[i as int] == m@,
                ds == views(all@),
                api_resolved(ds, keys_view(ids@), api@),
                done == api_types(api@.methods.take(i as int)),
                mt == method_types(m@),
                want == resolved_params(ds, keys_view(ids@), m@.params),
                pairs(params@) == want.take(j as int),
            decreases m.params.len() - j,
        {
            let t = m.params[j].1;
            proof {
                lemma_api_types_prefix(api@.methods, i as int);
                assert(api_types(api@.methods)[done.len() + j] == mt[j as int]);
                assert(mt[j as int] == t);
            }
            let idx = index_of(ids, t);
            let p = (m.params[j].0.clone(), String::from_str(all[idx].ts_name()));
            proof {
                assert(ds[idx as int] == all@[idx as int]@);
                assert(pairs(params@.push(p)) =~= want.take(j as int).push(want[j as int]));
                assert(want.take(j + 1) =~= want.take(j as int).push(want[j as int]));
            }
            params.push(p);
            j = j + 1;
        }
        assert(want.take(m.params.len() as int) =~= want);
        let ret: Option<String> = match m.return_type {
            Some(t) => {
                proof {
                    lemma_api_types_prefix(api@.methods, i as int);
                    assert(api_types(api@.methods)[done.len() + m.params.len()] == mt[m.params.len() as int]);
                    assert(mt[m.params.len() as int] == t);
                }
                let idx = index_of(ids, t);
                assert(ds[idx as int] == all@[idx as int]@);
                Some(String::from_str(all[idx].ts_name()))
            },
            None => None,
        };
        fmt.add_comment(m.comment.as_slice());
        if api.async_func {
            fmt.add_async_method(m.name.as_str(), params, ret);
        } else {
            fmt.add_method(m.name.as_str(), params, ret);
        }
        proof {
            let t = api@.methods.take(i + 1);
            assert(fmt@.lines =~= start.lines + methods_lines(ds, keys_view(ids@), t, api.async_func));
        }
        i = i + 1;
    }
    assert(api@.methods.take(api.methods.len() as int) =~= api@.methods);
    fmt.end_interface();
    proof {
        assert(indentation(0) =~= Seq::empty());
        assert(fmt@.lines =~~= old(fmt)@.lines + api_lines(ds, keys_view(ids@), api@));
    }
}

} // verus!
