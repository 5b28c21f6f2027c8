//! The cleaning pass: which items it visits and in what order, what each
//! step does to an item's status, and why one step cannot disturb another.
use vstd::prelude::*;
use crate::item::{CleanupItem, ItemStatus, status_advances};
use crate::cleaner::{CleanAction, DeleteError, clean_result, status_after_clean};
use crate::grouping::{
    RowView, categories_of, category_order, group_rows, is_projection, lemma_lt_from_irreflexive,
    members, rows_view, strictly_sorted, text_lt,
};
use crate::session::ResultRow;

verus! {

/// An item that a cleaning pass will visit: selected and not yet `Deleted`.
pub open spec fn is_pending(item: CleanupItem) -> bool {
    item.selected && !(item.status is Deleted)
}

/// The items a cleaning pass visits, in display order: those on item rows
/// that are pending.
pub open spec fn queue_of(rows: Seq<RowView>, items: Seq<CleanupItem>) -> Seq<usize>
    decreases rows.len(),
{
    if rows.len() == 0 {
        Seq::empty()
    } else {
        let prev = queue_of(rows.drop_last(), items);
        match rows.last() {
            RowView::Item(k) => if k < items.len() && is_pending(items[k as int]) {
                prev.push(k)
            } else {
                prev
            },
            _ => prev,
        }
    }
}

/// How many of the first `n` items are pending and of a category in `cats`.
pub open spec fn pending_in(
    items: Seq<CleanupItem>,
    cs: Seq<Seq<char>>,
    cats: Seq<Seq<char>>,
    n: int,
) -> nat
    decreases n,
{
    if n <= 0 {
        0
    } else {
        pending_in(items, cs, cats, n - 1) + if is_pending(items[n - 1]) && cats.contains(cs[n - 1]) {
            1nat
        } else {
            0nat
        }
    }
}

/// How many items are pending.
pub open spec fn pending_count(items: Seq<CleanupItem>) -> nat
    decreases items.len(),
{
    if items.len() == 0 {
        0
    } else {
        pending_count(items.drop_last()) + if is_pending(items.last()) {
            1nat
        } else {
            0nat
        }
    }
}

proof fn lemma_queue_concat(a: Seq<RowView>, b: Seq<RowView>, items: Seq<CleanupItem>)
    ensures
        queue_of(a + b, items) == queue_of(a, items) + queue_of(b, items),
    decreases b.len(),
{
    if b.len() == 0 {
        assert(a + b =~= a);
        assert(queue_of(a, items) + queue_of(b, items) =~= queue_of(a, items));
    } else {
        lemma_queue_concat(a, b.drop_last(), items);
        assert((a + b).drop_last() =~= a + b.drop_last());
        assert((a + b).last() == b.last());
        let qa = queue_of(a, items);
        let qb = queue_of(b.drop_last(), items);
        match b.last() {
            RowView::Item(k) => {
                if k < items.len() && is_pending(items[k as int]) {
                    assert((qa + qb).push(k) =~= qa + qb.push(k));
                }
            },
            _ => {},
        }
    }
}

proof fn lemma_queue_members(items: Seq<CleanupItem>, cs: Seq<Seq<char>>, c: Seq<char>, n: int)
    requires
        0 <= n <= items.len(),
        n <= cs.len(),
        items.len() <= usize::MAX,
    ensures
        queue_of(members(cs, c, n), items).len() == pending_in(items, cs, seq![c], n),
    decreases n,
{
    if n > 0 {
        lemma_queue_members(items, cs, c, n - 1);
        let prev = members(cs, c, n - 1);
        assert(seq![c].contains(cs[n - 1]) <==> cs[n - 1] == c) by {
            if seq![c].contains(cs[n - 1]) {
                let w = choose|w: int| 0 <= w < 1 && seq![c][w] == cs[n - 1];
            }
            if cs[n - 1] == c {
                assert(seq![c][0] == cs[n - 1]);
            }
        }
        assert(((n - 1) as usize) as int == n - 1);
        if cs[n - 1] == c {
            assert(prev.push(RowView::Item((n - 1) as usize)).drop_last() =~= prev);
            if is_pending(items[n - 1]) {
                assert(queue_of(members(cs, c, n), items) == queue_of(prev, items).push(
                    (n - 1) as usize,
                ));
            } else {
                assert(queue_of(members(cs, c, n), items) == queue_of(prev, items));
            }
        } else {
            assert(members(cs, c, n) == prev);
        }
    }
}

proof fn lemma_pending_split(
    items: Seq<CleanupItem>,
    cs: Seq<Seq<char>>,
    cats: Seq<Seq<char>>,
    n: int,
)
    requires
        cats.len() > 0,
        !cats.drop_last().contains(cats.last()),
        0 <= n <= items.len(),
        n <= cs.len(),
    ensures
        pending_in(items, cs, cats, n) == pending_in(items, cs, cats.drop_last(), n) + pending_in(
            items,
            cs,
            seq![cats.last()],
            n,
        ),
    decreases n,
{
    if n > 0 {
        lemma_pending_split(items, cs, cats, n - 1);
        let x = cs[n - 1];
        let rest = cats.drop_last();
        assert(cats =~= rest.push(cats.last()));
        assert(cats.contains(x) <==> rest.contains(x) || x == cats.last()) by {
            if cats.contains(x) {
                let w = choose|w: int| 0 <= w < cats.len() && cats[w] == x;
                if w < rest.len() {
                    assert(rest[w] == x);
                }
            }
            if rest.contains(x) {
                let w = choose|w: int| 0 <= w < rest.len() && rest[w] == x;
                assert(cats[w] == x);
            }
            if x == cats.last() {
                assert(cats[cats.len() - 1] == x);
            }
        }
        assert(seq![cats.last()].contains(x) <==> x == cats.last()) by {
            if x == cats.last() {
                assert(seq![cats.last()][0] == x);
            }
        }
    }
}

proof fn lemma_queue_groups(items: Seq<CleanupItem>, cs: Seq<Seq<char>>, cats: Seq<Seq<char>>)
    requires
        cs.len() == items.len(),
        items.len() <= usize::MAX,
        strictly_sorted(cats),
    ensures
        queue_of(group_rows(cs, cats), items).len() == pending_in(items, cs, cats, cs.len() as int),
    decreases cats.len(),
{
    if cats.len() == 0 {
        assert forall|n: int| 0 <= n <= cs.len() implies pending_in(items, cs, cats, n) == 0 by {
            lemma_pending_none(items, cs, cats, n);
        }
    } else {
        let rest = cats.drop_last();
        let c = cats.last();
        assert(strictly_sorted(rest));
        assert(!rest.contains(c)) by {
            if rest.contains(c) {
                let w = choose|w: int| 0 <= w < rest.len() && rest[w] == c;
                assert(text_lt(cats[w], cats[cats.len() - 1]));
                lemma_lt_from_irreflexive(c, 0);
            }
        }
        lemma_queue_groups(items, cs, rest);
        let head = group_rows(cs, rest);
        let mem = members(cs, c, cs.len() as int);
        lemma_queue_concat(head + seq![RowView::Header(c)] + mem, seq![RowView::Separator], items);
        lemma_queue_concat(head + seq![RowView::Header(c)], mem, items);
        lemma_queue_concat(head, seq![RowView::Header(c)], items);
        assert(seq![RowView::Header(c)].drop_last() =~= Seq::<RowView>::empty());
        assert(seq![RowView::Separator].drop_last() =~= Seq::<RowView>::empty());
        lemma_queue_members(items, cs, c, cs.len() as int);
        lemma_pending_split(items, cs, cats, cs.len() as int);
        assert(group_rows(cs, cats) == head + seq![RowView::Header(c)] + mem + seq![RowView::Separator]);
        assert(queue_of(Seq::<RowView>::empty(), items).len() == 0);
        assert(queue_of(seq![RowView::Header(c)], items).len() == 0);
        assert(queue_of(seq![RowView::Separator], items).len() == 0);
    }
}

proof fn lemma_pending_none(
    items: Seq<CleanupItem>,
    cs: Seq<Seq<char>>,
    cats: Seq<Seq<char>>,
    n: int,
)
    requires
        cats.len() == 0,
    ensures
        pending_in(items, cs, cats, n) == 0,
    decreases n,
{
    if n > 0 {
        lemma_pending_none(items, cs, cats, n - 1);
    }
}

proof fn lemma_pending_all(items: Seq<CleanupItem>, cs: Seq<Seq<char>>, cats: Seq<Seq<char>>, n: int)
    requires
        0 <= n <= items.len(),
        cs.len() == items.len(),
        forall|k: int| 0 <= k < cs.len() ==> cats.contains(#[trigger] cs[k]),
    ensures
        pending_in(items, cs, cats, n) == pending_count(items.subrange(0, n)),
    decreases n,
{
    if n > 0 {
        lemma_pending_all(items, cs, cats, n - 1);
        assert(items.subrange(0, n).drop_last() =~= items.subrange(0, n - 1));
        assert(cats.contains(cs[n - 1]));
    }
}

/// On a well-formed display, the pass visits as many items as are pending:
/// each item appears on exactly one row.
pub proof fn lemma_queue_counts_pending(items: Seq<CleanupItem>, rows: Seq<ResultRow>)
    requires
        is_projection(categories_of(items), rows),
        items.len() <= usize::MAX,
    ensures
        queue_of(rows_view(rows), items).len() == pending_count(items),
{
    let cs = categories_of(items);
    let cats = choose|cats: Seq<Seq<char>>|
        #[trigger] category_order(cs, cats) && rows_view(rows) == group_rows(cs, cats);
    lemma_queue_groups(items, cs, cats);
    lemma_pending_all(items, cs, cats, items.len() as int);
    assert(items.subrange(0, items.len() as int) =~= items);
}

/// The status one cleaning step leaves: what the cleaner gives, or
/// `Failed` with the reason when the removal failed.
pub open spec fn step_status(
    s: ItemStatus,
    action: CleanAction,
    removal: Result<(), DeleteError>,
) -> ItemStatus {
    match clean_result(action, removal) {
        Ok(_) => status_after_clean(s, action, removal),
        Err(e) => ItemStatus::Failed(e.reason),
    }
}

pub open spec fn stepped(
    item: CleanupItem,
    action: CleanAction,
    removal: Result<(), DeleteError>,
) -> CleanupItem {
    CleanupItem { status: step_status(item.status, action, removal), ..item }
}

/// The items after a pass that handles `queue[j]` with `actions[j]`, whose
/// removal gave `removals[j]`, one after another.
pub open spec fn run_batch(
    items: Seq<CleanupItem>,
    queue: Seq<usize>,
    actions: Seq<CleanAction>,
    removals: Seq<Result<(), DeleteError>>,
) -> Seq<CleanupItem>
    decreases queue.len(),
{
    if queue.len() == 0 {
        items
    } else {
        let before = run_batch(items, queue.drop_last(), actions, removals);
        let j = queue.len() - 1;
        before.update(queue.last() as int, stepped(before[queue.last() as int], actions[j], removals[j]))
    }
}

/// A cleaning step never brings an item back to `Scanned` once it has left
/// it.
pub proof fn lemma_status_never_reverts(
    s: ItemStatus,
    action: CleanAction,
    removal: Result<(), DeleteError>,
)
    ensures
        status_advances(s, step_status(s, action, removal)),
{
}

/// In a pass over distinct items, each visited item ends with the status
/// of its own step, whatever the steps of the others gave (a failure
/// included), and every other item is left as it was.
pub proof fn lemma_batch_isolation(
    items: Seq<CleanupItem>,
    queue: Seq<usize>,
    actions: Seq<CleanAction>,
    removals: Seq<Result<(), DeleteError>>,
)
    requires
        queue.len() <= actions.len(),
        queue.len() <= removals.len(),
        forall|j: int| 0 <= j < queue.len() ==> #[trigger] queue[j] < items.len(),
        forall|i: int, j: int| 0 <= i < j < queue.len() ==> queue[i] != queue[j],
    ensures
        run_batch(items, queue, actions, removals).len() == items.len(),
        forall|j: int|
            0 <= j < queue.len() ==> #[trigger] run_batch(items, queue, actions, removals)[queue[j] as int]
                == stepped(items[queue[j] as int], actions[j], removals[j]),
        forall|m: int|
            0 <= m < items.len() && (forall|j: int| 0 <= j < queue.len() ==> queue[j] != m)
                ==> #[trigger] run_batch(items, queue, actions, removals)[m] == items[m],
    decreases queue.len(),
{
    if queue.len() > 0 {
        let q = queue.drop_last();
        lemma_batch_isolation(items, q, actions, removals);
        let before = run_batch(items, q, actions, removals);
        let last = queue.last() as int;
        assert forall|j: int| 0 <= j < queue.len() implies #[trigger] run_batch(
            items,
            queue,
            actions,
            removals,
        )[queue[j] as int] == stepped(items[queue[j] as int], actions[j], removals[j]) by {
            if j < queue.len() - 1 {
                assert(q[j] == queue[j]);
                assert(queue[j] != queue[queue.len() - 1]);
            } else {
                assert forall|i: int| 0 <= i < q.len() implies q[i] != last by {
                    assert(queue[i] != queue[queue.len() - 1]);
                }
            }
        }
        assert forall|m: int|
            0 <= m < items.len() && (forall|j: int| 0 <= j < queue.len() ==> queue[j] != m)
                implies #[trigger] run_batch(items, queue, actions, removals)[m] == items[m] by {
            assert forall|j: int| 0 <= j < q.len() implies q[j] != m by {
                assert(queue[j] != m);
            }
            assert(queue[queue.len() - 1] != m);
        }
    }
}

/// A pass is its steps one after another: applying step `j` alone to the
/// items left by steps `0..j` gives the items left by steps `0..j + 1`.
pub proof fn lemma_batch_step(
    items: Seq<CleanupItem>,
    queue: Seq<usize>,
    actions: Seq<CleanAction>,
    removals: Seq<Result<(), DeleteError>>,
    j: int,
)
    requires
        0 <= j < queue.len(),
    ensures
        run_batch(
            run_batch(items, queue.subrange(0, j), actions, removals),
            seq![queue[j]],
            seq![actions[j]],
            seq![removals[j]],
        ) == run_batch(items, queue.subrange(0, j + 1), actions, removals),
{
    let before = run_batch(items, queue.subrange(0, j), actions, removals);
    assert(queue.subrange(0, j + 1).drop_last() =~= queue.subrange(0, j));
    assert(seq![queue[j]].drop_last() =~= Seq::<usize>::empty());
    assert(run_batch(before, Seq::<usize>::empty(), seq![actions[j]], seq![removals[j]]) == before);
}

} // verus!
