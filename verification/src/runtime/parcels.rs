//! What an inventory lists of the context that a worker was issued.
use crate::manifest::{Authority, IssuedItem, SuppliedKind};
use crate::runtime::context;
use crate::runtime::context::{
    IssuedCheck, IssuedContext, IssuedFile, IssuedMemory, IssuedSymbol,
};
use crate::runtime::inventory;
use crate::runtime::inventory::{BaseSizes, MeasuredDelta};
use vstd::prelude::*;

verus! {

proof fn lemma_symbols(list: Seq<IssuedSymbol>, sizes: Seq<usize>, k: int, n: int)
    requires
        0 <= k <= list.len(),
    ensures
        ({
            let g = inventory::symbols_gain(list, sizes, k);
            &&& g.issued.len() == k
            &&& !g.truncated
            &&& g.memory.len() == 0
            &&& 0 <= n < k ==> {
                &&& g.issued[n].authority == Authority::PlannerGraphEntity
                &&& g.issued[n].reference == list[n].entity.id
                &&& g.issued[n].delta_id is None
                &&& g.issued[n].bytes == sizes[n]
                &&& g.entities.contains(list[n].entity.id)
            }
        }),
    decreases k,
{
    if k > 0 {
        lemma_symbols(list, sizes, k - 1, n);
        let before = inventory::symbols_gain(list, sizes, k - 1);
        let own = inventory::symbol_gain(list[k - 1], sizes[k - 1]);
        let g = inventory::symbols_gain(list, sizes, k);
        assert(own.issued.len() == 1);
        assert(own.issued[0].reference == list[k - 1].entity.id);
        assert(own.entities[0] == list[k - 1].entity.id);
        if 0 <= n < k - 1 {
            let m = choose|m: int| 0 <= m < before.entities.len() && before.entities[m]
                == list[n].entity.id;
            assert(g.entities[m] == list[n].entity.id);
        } else if n == k - 1 {
            assert(g.entities[before.entities.len() as int] == list[n].entity.id);
        }
    }
}

proof fn lemma_files(list: Seq<IssuedFile>, sizes: Seq<usize>, k: int, n: int)
    requires
        0 <= k <= list.len(),
    ensures
        ({
            let g = inventory::files_gain(list, sizes, k);
            &&& g.issued.len() == k
            &&& !g.truncated
            &&& g.memory.len() == 0
            &&& 0 <= n < k ==> {
                &&& g.issued[n].authority == list[n].authority
                &&& g.issued[n].reference == list[n].path
                &&& g.issued[n].delta_id is None
                &&& g.issued[n].bytes == sizes[n]
                &&& list[n].text is Some ==> exists|p: int|
                    {
                        &&& 0 <= p < g.paths.len()
                        &&& (#[trigger] g.paths[p]).path == list[n].path
                        &&& g.paths[p].kind == SuppliedKind::File
                        &&& g.paths[p].truncated == list[n].truncated
                        &&& g.paths[p].content_hash == list[n].content_hash
                    }
            }
        }),
    decreases k,
{
    if k > 0 {
        lemma_files(list, sizes, k - 1, n);
        let before = inventory::files_gain(list, sizes, k - 1);
        let own = inventory::file_gain(list[k - 1], sizes[k - 1]);
        let g = inventory::files_gain(list, sizes, k);
        assert(own.issued.len() == 1);
        if 0 <= n < k - 1 && list[n].text is Some {
            let p = choose|p: int|
                {
                    &&& 0 <= p < before.paths.len()
                    &&& (#[trigger] before.paths[p]).path == list[n].path
                    &&& before.paths[p].kind == SuppliedKind::File
                    &&& before.paths[p].truncated == list[n].truncated
                    &&& before.paths[p].content_hash == list[n].content_hash
                };
            assert(g.paths[p] == before.paths[p]);
        } else if n == k - 1 && list[n].text is Some {
            assert(own.paths.len() == 1);
            assert(g.paths[before.paths.len() as int] == own.paths[0]);
        }
    }
}

proof fn lemma_memories(list: Seq<IssuedMemory>, sizes: Seq<usize>, k: int, n: int)
    requires
        0 <= k <= list.len(),
    ensures
        ({
            let g = inventory::memories_gain(list, sizes, k);
            &&& g.issued.len() == k
            &&& g.memory.len() == k
            &&& !g.truncated
            &&& 0 <= n < k ==> {
                &&& g.issued[n].authority == Authority::PlannerMemoryRef
                &&& g.issued[n].reference == list[n].id
                &&& g.issued[n].bytes == sizes[n]
                &&& g.memory[n] == list[n].id
            }
        }),
    decreases k,
{
    if k > 0 {
        lemma_memories(list, sizes, k - 1, n);
    }
}

proof fn lemma_checks(list: Seq<IssuedCheck>, sizes: Seq<usize>, k: int, n: int)
    requires
        0 <= k <= list.len(),
    ensures
        ({
            let g = inventory::checks_gain(list, sizes, k);
            &&& g.issued.len() == k
            &&& g.memory.len() == 0
            &&& !g.truncated
            &&& 0 <= n < k ==> {
                &&& g.issued[n].authority == Authority::PlannerVerificationRef
                &&& g.issued[n].reference == list[n].requirement
                &&& g.issued[n].bytes == sizes[n]
            }
        }),
    decreases k,
{
    if k > 0 {
        lemma_checks(list, sizes, k - 1, n);
    }
}

/// The inventory of what a task was issued first lists every symbol, every file, every
/// memory and every check, each with its name, its size and the authority it was issued
/// on, and nothing else; and it says that something was cut exactly where that was said.
pub proof fn law_inventories_list_what_was_issued(
    base: IssuedContext,
    sizes: BaseSizes,
    s: int,
    f: int,
    m: int,
    c: int,
)
    requires
        inventory::measures(base, sizes),
    ensures
        ({
            let g = inventory::base_gain(base, sizes);
            let symbols = base.symbols@.len();
            let files = base.files@.len();
            let memory = base.memory@.len();
            &&& g.issued.len() == symbols + files + memory + base.checks@.len()
            &&& g.truncated == base.truncated
            &&& g.memory.len() == memory
            &&& 0 <= s < symbols ==> g.issued[s].reference == base.symbols@[s].entity.id
                && g.issued[s].authority == Authority::PlannerGraphEntity && g.issued[s].bytes
                == sizes.symbols@[s]
            &&& 0 <= f < files ==> g.issued[symbols + f].reference == base.files@[f].path
                && g.issued[symbols + f].authority == base.files@[f].authority
                && g.issued[symbols + f].bytes == sizes.files@[f]
            &&& 0 <= m < memory ==> g.issued[symbols + files + m].reference == base.memory@[m].id
                && g.issued[symbols + files + m].authority == Authority::PlannerMemoryRef
                && g.memory[m] == base.memory@[m].id
            &&& 0 <= c < base.checks@.len() ==> g.issued[symbols + files + memory + c].reference
                == base.checks@[c].requirement && g.issued[symbols + files + memory + c].authority
                == Authority::PlannerVerificationRef
        }),
{
    lemma_symbols(base.symbols@, sizes.symbols@, base.symbols@.len() as int, s);
    lemma_files(base.files@, sizes.files@, base.files@.len() as int, f);
    lemma_memories(base.memory@, sizes.memory@, base.memory@.len() as int, m);
    lemma_checks(base.checks@, sizes.checks@, base.checks@.len() as int, c);
}

proof fn lemma_items(d: MeasuredDelta, k: int, n: int)
    requires
        0 <= k <= d.delta.items@.len(),
    ensures
        ({
            let g = inventory::items_gain(d, k);
            0 <= n < k ==> g.issued.contains(
                IssuedItem {
                    authority: Authority::ContextDelta,
                    reference: context::reference_of(d.delta.items@[n]),
                    delta_id: Some(d.delta.delta_id),
                    bytes: d.sizes@[n],
                },
            )
        }),
    decreases k,
{
    if 0 <= n < k {
        let x = IssuedItem {
            authority: Authority::ContextDelta,
            reference: context::reference_of(d.delta.items@[n]),
            delta_id: Some(d.delta.delta_id),
            bytes: d.sizes@[n],
        };
        let g = inventory::items_gain(d, k);
        let before = inventory::items_gain(d, k - 1);
        let own = inventory::item_gain(d.delta.delta_id, d.delta.items@[k - 1], d.sizes@[k - 1]);
        if n == k - 1 {
            assert(own.issued[0] == x);
            assert(g.issued[before.issued.len() as int] == x);
        } else {
            lemma_items(d, k - 1, n);
            let m = choose|m: int| 0 <= m < before.issued.len() && before.issued[m] == x;
            assert(g.issued[m] == x);
        }
    }
}

/// Whatever a round granted is listed, with the round that granted it.
pub proof fn law_inventories_list_what_was_granted(list: Seq<MeasuredDelta>, k: int, d: int, n: int)
    requires
        0 <= d < k <= list.len(),
        0 <= n < list[d].delta.items@.len(),
    ensures
        inventory::deltas_gain(list, k).issued.contains(
            IssuedItem {
                authority: Authority::ContextDelta,
                reference: context::reference_of(list[d].delta.items@[n]),
                delta_id: Some(list[d].delta.delta_id),
                bytes: list[d].sizes@[n],
            },
        ),
    decreases k,
{
    let x = IssuedItem {
        authority: Authority::ContextDelta,
        reference: context::reference_of(list[d].delta.items@[n]),
        delta_id: Some(list[d].delta.delta_id),
        bytes: list[d].sizes@[n],
    };
    let g = inventory::deltas_gain(list, k);
    let before = inventory::deltas_gain(list, k - 1);
    let own = inventory::items_gain(list[k - 1], list[k - 1].delta.items@.len() as int);
    if d == k - 1 {
        lemma_items(list[d], list[d].delta.items@.len() as int, n);
        let m = choose|m: int| 0 <= m < own.issued.len() && own.issued[m] == x;
        assert(g.issued[before.issued.len() + m] == x);
    } else {
        law_inventories_list_what_was_granted(list, k - 1, d, n);
        let m = choose|m: int| 0 <= m < before.issued.len() && before.issued[m] == x;
        assert(g.issued[m] == x);
    }
}

} // verus!
