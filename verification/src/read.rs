//! How the payloads of a binary become the items of a component: none is lost, and each
//! stands in its place.
use vstd::prelude::*;
use crate::parse::{
    aliases_in, canonicals_in, component_exports_in, component_imports_in, component_type_count,
    exports_in, globals_in, imports_in, instances_in, memories_in, operators_in, payloads,
    table_count, InstanceKind, Payload, PayloadKind, ReadError, SectionRange,
};
use crate::tallies::{core_instances, is_instance_of};
use crate::tree::{
    closed, component_item, instantiated, instantiated_in, module_item, tree, walk, walk_step,
    ContentV, ItemV, ModuleContentV, ModuleItemV,
};

verus! {

/// The payload is the section of a core module.
pub open spec fn starts_module(p: Result<Payload, ReadError>) -> bool {
    p matches Ok(p) && p.kind is Nested && p.section is Some && p.section->Some_0.id == 1
}

/// The payload is an end.
pub open spec fn is_end(p: Result<Payload, ReadError>) -> bool {
    p matches Ok(p) && p.kind is End
}

/// After these payloads, the next one is of a core module.
pub open spec fn inside(ps: Seq<Result<Payload, ReadError>>) -> bool
    decreases ps.len(),
{
    if ps.len() == 0 {
        false
    } else if inside(ps.drop_last()) {
        !is_end(ps.last())
    } else {
        starts_module(ps.last())
    }
}

/// How many of the payloads are of the component itself, the sections of core modules among
/// them.
pub open spec fn outer(ps: Seq<Result<Payload, ReadError>>) -> nat
    decreases ps.len(),
{
    if ps.len() == 0 {
        0
    } else if inside(ps.drop_last()) {
        outer(ps.drop_last())
    } else {
        outer(ps.drop_last()) + 1
    }
}

/// How many payloads of the core module have come that is being read.
pub open spec fn inner(ps: Seq<Result<Payload, ReadError>>) -> nat
    decreases ps.len(),
{
    if ps.len() == 0 {
        0
    } else if inside(ps.drop_last()) {
        inner(ps.drop_last()) + 1
    } else {
        0
    }
}

proof fn lemma_walk(bytes: Seq<u8>, ps: Seq<Result<Payload, ReadError>>)
    ensures
        ({
            let w = walk(bytes, ps);
            &&& w.inner is Some <==> inside(ps)
            &&& w.inner is Some ==> w.items.len() + 1 == outer(ps) && w.inner->Some_0.1.len()
                == inner(ps)
            &&& w.inner is None ==> w.items.len() == outer(ps)
            &&& closed(w).len() == outer(ps)
        }),
    decreases ps.len(),
{
    if ps.len() > 0 {
        lemma_walk(bytes, ps.drop_last());
        let w = walk(bytes, ps.drop_last());
        assert(walk(bytes, ps) == walk_step(bytes, w, ps.last()));
    }
}

/// What a payload of the component itself becomes.
pub open spec fn becomes(
    bytes: Seq<u8>,
    p: Result<Payload, ReadError>,
    item: Result<ItemV, ReadError>,
) -> bool {
    match p {
        Err(e) => item == Err::<ItemV, _>(e),
        Ok(p) => if starts_module(Ok(p)) {
            item is Ok && item->Ok_0.section == p.section && item->Ok_0.content is CoreModule
        } else {
            item == component_item(bytes, p)
        },
    }
}

/// What a payload of a core module becomes.
pub open spec fn becomes_inner(
    bytes: Seq<u8>,
    p: Result<Payload, ReadError>,
    item: Result<ModuleItemV, ReadError>,
) -> bool {
    match p {
        Err(e) => item == Err::<ModuleItemV, _>(e),
        Ok(p) => item == module_item(bytes, p),
    }
}

/// The payload at `n`, of the component itself, is the item at its place.
proof fn lemma_outer_item(bytes: Seq<u8>, ps: Seq<Result<Payload, ReadError>>, n: int)
    requires
        0 <= n < ps.len(),
        !inside(ps.take(n)),
    ensures
        outer(ps.take(n)) < closed(walk(bytes, ps)).len(),
        becomes(bytes, ps[n], closed(walk(bytes, ps))[outer(ps.take(n)) as int]),
    decreases ps.len(),
{
    let rest = ps.drop_last();
    let w = walk(bytes, rest);
    lemma_walk(bytes, rest);
    lemma_walk(bytes, ps);
    assert(walk(bytes, ps) == walk_step(bytes, w, ps.last()));
    if n < rest.len() {
        assert(rest.take(n) =~= ps.take(n));
        lemma_outer_item(bytes, rest, n);
    } else {
        assert(ps.take(n) =~= rest);
    }
}

/// The payload at `n`, of a core module, is the item at its place in that module.
proof fn lemma_inner_item(bytes: Seq<u8>, ps: Seq<Result<Payload, ReadError>>, n: int)
    requires
        0 <= n < ps.len(),
        inside(ps.take(n)),
    ensures
        ({
            let t = outer(ps.take(n)) - 1;
            let items = closed(walk(bytes, ps));
            &&& 0 <= t < items.len()
            &&& items[t] is Ok
            &&& items[t]->Ok_0.content matches ContentV::CoreModule(list) && if is_end(ps[n]) {
                list.len() == inner(ps.take(n))
            } else {
                inner(ps.take(n)) < list.len() && becomes_inner(
                    bytes,
                    ps[n],
                    list[inner(ps.take(n)) as int],
                )
            }
        }),
    decreases ps.len(),
{
    let rest = ps.drop_last();
    let w = walk(bytes, rest);
    lemma_walk(bytes, rest);
    lemma_walk(bytes, ps);
    assert(walk(bytes, ps) == walk_step(bytes, w, ps.last()));
    if n < rest.len() {
        assert(rest.take(n) =~= ps.take(n));
        lemma_inner_item(bytes, rest, n);
        let t = outer(ps.take(n)) - 1;
        if is_end(ps[n]) {
            lemma_ended(bytes, ps, n);
        }
    } else {
        assert(ps.take(n) =~= rest);
    }
}

/// Once a core module has ended, the next payload that comes is not of it.
proof fn lemma_ended(bytes: Seq<u8>, ps: Seq<Result<Payload, ReadError>>, n: int)
    requires
        0 <= n < ps.len() - 1,
        inside(ps.take(n)),
        is_end(ps[n]),
    ensures
        outer(ps.take(n)) <= walk(bytes, ps.drop_last()).items.len(),
{
    let rest = ps.drop_last();
    lemma_walk(bytes, rest);
    assert(ps.take(n + 1).drop_last() =~= ps.take(n));
    assert(ps.take(n + 1).last() == ps[n]);
    assert(!inside(ps.take(n + 1)));
    assert(outer(ps.take(n + 1)) == outer(ps.take(n)));
    assert(rest.take(n + 1) =~= ps.take(n + 1));
    lemma_outer_after(rest, n + 1);
}

proof fn lemma_outer_after(ps: Seq<Result<Payload, ReadError>>, n: int)
    requires
        0 <= n <= ps.len(),
        !inside(ps.take(n)),
    ensures
        inside(ps) ==> outer(ps.take(n)) + 1 <= outer(ps),
        outer(ps.take(n)) <= outer(ps),
    decreases ps.len(),
{
    if n == ps.len() {
        assert(ps.take(n) =~= ps);
    } else {
        assert(ps.drop_last().take(n) =~= ps.take(n));
        lemma_outer_after(ps.drop_last(), n);
    }
}

/// There is an item for every payload of the component itself, and for no others; the one
/// that a payload becomes stands behind those of the payloads before it.
pub proof fn law_payloads_become_items(bytes: Seq<u8>, n: int)
    requires
        0 <= n < payloads(bytes).len(),
    ensures
        tree(bytes).len() == outer(payloads(bytes)),
        !inside(payloads(bytes).take(n)) ==> becomes(
            bytes,
            payloads(bytes)[n],
            tree(bytes)[outer(payloads(bytes).take(n)) as int],
        ),
{
    let ps = payloads(bytes);
    lemma_walk(bytes, ps);
    if !inside(ps.take(n)) {
        lemma_outer_item(bytes, ps, n);
    }
}

/// The payloads between the section of a core module and its end are the items of that
/// module, in their order, and there are no others.
pub proof fn law_payloads_become_items_of_modules(bytes: Seq<u8>, n: int)
    requires
        0 <= n < payloads(bytes).len(),
        inside(payloads(bytes).take(n)),
    ensures
        ({
            let before = payloads(bytes).take(n);
            let t = outer(before) - 1;
            &&& 0 <= t < tree(bytes).len()
            &&& tree(bytes)[t] is Ok
            &&& tree(bytes)[t]->Ok_0.content matches ContentV::CoreModule(list) && if is_end(
                payloads(bytes)[n],
            ) {
                list.len() == inner(before)
            } else {
                inner(before) < list.len() && becomes_inner(
                    bytes,
                    payloads(bytes)[n],
                    list[inner(before) as int],
                )
            }
        }),
{
    lemma_inner_item(bytes, payloads(bytes), n);
}

/// A section of a core module is read by its id, from its own bytes, and keeps its place; the
/// body of a function is read for its operators.
pub proof fn law_module_sections_are_read_by_id(bytes: Seq<u8>, p: Payload, s: SectionRange)
    requires
        p.section == Some(s),
        s.start <= s.end <= bytes.len(),
    ensures
        ({
            let data = bytes.subrange(s.start as int, s.end as int);
            let item = module_item(bytes, p);
            &&& item is Ok ==> item->Ok_0.section == Some(s)
            &&& p.kind is Section ==> match s.id {
                2 => item is Ok && item->Ok_0.content == ModuleContentV::Imports(
                    imports_in(data, s.start),
                ),
                4 => match table_count(data, s.start) {
                    Ok(count) => item is Ok && item->Ok_0.content == ModuleContentV::Tables(count),
                    Err(e) => item == Err::<ModuleItemV, _>(e),
                },
                5 => item is Ok && item->Ok_0.content == ModuleContentV::Memories(
                    memories_in(data, s.start),
                ),
                6 => item is Ok && item->Ok_0.content == ModuleContentV::Globals(
                    globals_in(data, s.start),
                ),
                7 => item is Ok && item->Ok_0.content == ModuleContentV::Exports(
                    exports_in(data, s.start),
                ),
                _ => item is Ok && item->Ok_0.content is Other,
            }
        }),
{
}

/// The body of a function is read for its operators, from its own bytes.
pub proof fn law_bodies_are_read(bytes: Seq<u8>, p: Payload, start: usize, end: usize)
    requires
        p.kind == (PayloadKind::Body { start, end }),
    ensures
        start <= end <= bytes.len() ==> module_item(bytes, p) == Ok::<_, ReadError>(
            ModuleItemV {
                section: p.section,
                content: ModuleContentV::Operators(
                    operators_in(bytes.subrange(start as int, end as int), start),
                ),
            },
        ),
        !(start <= end <= bytes.len()) ==> module_item(bytes, p) == Err::<ModuleItemV, _>(
            ReadError { offset: start },
        ),
{
}

/// A section of a component is read by its id, from its own bytes, and keeps its place; a
/// header says of what it is one, and another component in the component is one.
pub proof fn law_component_sections_are_read_by_id(bytes: Seq<u8>, p: Payload)
    ensures
        p.kind matches PayloadKind::Version { component } ==> component_item(bytes, p) == Ok::<
            _,
            ReadError,
        >(ItemV { section: p.section, content: ContentV::Header { component } }),
        p.kind is Nested ==> component_item(bytes, p) == Ok::<_, ReadError>(
            ItemV { section: p.section, content: ContentV::Subcomponent },
        ),
        p.kind is Section && p.section is Some && p.section->Some_0.start <= p.section->Some_0.end
            <= bytes.len() ==> {
            let s = p.section->Some_0;
            let data = bytes.subrange(s.start as int, s.end as int);
            let item = component_item(bytes, p);
            &&& item is Ok ==> item->Ok_0.section == Some(s)
            &&& match s.id {
                2 => item is Ok && item->Ok_0.content == ContentV::Instances(
                    instances_in(data, s.start),
                ),
                6 => item is Ok && item->Ok_0.content == ContentV::Sorts(
                    aliases_in(data, s.start),
                ),
                7 => match component_type_count(data, s.start) {
                    Ok(count) => item is Ok && item->Ok_0.content == ContentV::Types(count),
                    Err(e) => item == Err::<ItemV, _>(e),
                },
                8 => item is Ok && item->Ok_0.content == ContentV::Sorts(
                    canonicals_in(data, s.start),
                ),
                10 => item is Ok && item->Ok_0.content == ContentV::Sorts(
                    component_imports_in(data, s.start),
                ),
                11 => item is Ok && item->Ok_0.content == ContentV::Sorts(
                    component_exports_in(data, s.start),
                ),
                _ => item is Ok && item->Ok_0.content is Other,
            }
        },
{
}

/// A module is known to have an instance exactly if a core instance of the component is one
/// of it.
pub proof fn law_instantiated_modules_have_core_instances(
    items: Seq<Result<ItemV, ReadError>>,
    module: u32,
)
    ensures
        instantiated(items).contains(module) <==> exists|n: int|
            0 <= n < core_instances(items).len() && #[trigger] is_instance_of(
                core_instances(items),
                n,
                module,
            ),
    decreases items.len(),
{
    if items.len() > 0 {
        let rest = items.drop_last();
        law_instantiated_modules_have_core_instances(rest, module);
        let all = core_instances(items);
        let fewer = core_instances(rest);
        let found = instantiated(items);
        let before = instantiated(rest);
        match items.last() {
            Ok(ItemV { content: ContentV::Instances(list), .. }) => {
                lemma_instantiated_in(list, module);
                let own = instantiated_in(list);
                assert(all =~= fewer + list);
                assert(found =~= before + own);
                if before.contains(module) {
                    let x = choose|x: int| 0 <= x < before.len() && before[x] == module;
                    assert(found[x] == module);
                    let n = choose|n: int|
                        0 <= n < fewer.len() && #[trigger] is_instance_of(fewer, n, module);
                    assert(is_instance_of(all, n, module));
                }
                if own.contains(module) {
                    let x = choose|x: int| 0 <= x < own.len() && own[x] == module;
                    assert(found[before.len() + x] == module);
                    let n = choose|n: int|
                        0 <= n < list.len() && #[trigger] is_instance_of(list, n, module);
                    assert(is_instance_of(all, fewer.len() + n, module));
                }
                if exists|n: int|
                    0 <= n < all.len() && #[trigger] is_instance_of(all, n, module) {
                    let n = choose|n: int|
                        0 <= n < all.len() && #[trigger] is_instance_of(all, n, module);
                    if n < fewer.len() {
                        assert(is_instance_of(fewer, n, module));
                    } else {
                        assert(is_instance_of(list, n - fewer.len(), module));
                    }
                }
                if found.contains(module) {
                    let x = choose|x: int| 0 <= x < found.len() && found[x] == module;
                    if x < before.len() {
                        assert(before[x] == module);
                    } else {
                        assert(own[x - before.len()] == module);
                    }
                }
            },
            _ => {
                assert(all =~= fewer);
            },
        }
    }
}

proof fn lemma_instantiated_in(list: Seq<Result<InstanceKind, ReadError>>, module: u32)
    ensures
        instantiated_in(list).contains(module) <==> exists|n: int|
            0 <= n < list.len() && #[trigger] is_instance_of(list, n, module),
    decreases list.len(),
{
    if list.len() > 0 {
        let rest = list.drop_last();
        lemma_instantiated_in(rest, module);
        let found = instantiated_in(list);
        let before = instantiated_in(rest);
        if before.contains(module) {
            let x = choose|x: int| 0 <= x < before.len() && before[x] == module;
            assert(found[x] == module);
            let n = choose|n: int|
                0 <= n < rest.len() && #[trigger] is_instance_of(rest, n, module);
            assert(is_instance_of(list, n, module));
        }
        if is_instance_of(list, list.len() - 1, module) {
            assert(found[found.len() - 1] == module);
        }
        if exists|n: int| 0 <= n < list.len() && #[trigger] is_instance_of(list, n, module) {
            let n = choose|n: int|
                0 <= n < list.len() && #[trigger] is_instance_of(list, n, module);
            if n < rest.len() {
                assert(is_instance_of(rest, n, module));
            }
        }
        if found.contains(module) {
            let x = choose|x: int| 0 <= x < found.len() && found[x] == module;
            if x < before.len() {
                assert(before[x] == module);
            } else {
                assert(is_instance_of(list, list.len() - 1, module));
            }
        }
    }
}

} // verus!
