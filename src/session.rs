//! Session controller: the item list, selection, display grouping, cursor
//! navigation and the Viewing -> Confirming -> Cleaning -> Viewing lifecycle.
use vstd::prelude::*;
use crate::item::{CleanupItem, ItemStatus};
use crate::cleaner::{CleanAction, DeleteError, clean_item};
use crate::grouping::{categories_of, is_projection, project, rows_in_range, rows_view};
use crate::pass::{lemma_queue_counts_pending, pending_count, queue_of, run_batch, stepped};
use crate::scanner::saturate;

verus! {

/// The views an operator can switch between.
#[derive(Debug, Clone, Copy, PartialEq, Eq, Structural)]
pub enum Tab {
    Dashboard,
    Results,
    Help,
}

/// One row of the grouped display.
#[derive(Debug, Clone, PartialEq, Eq)]
pub enum ResultRow {
    CategoryHeader(String),
    /// An item, by its index in the item list.
    Item(usize),
    EmptyLine,
}

/// Phase of the session.
#[derive(Debug, Clone, PartialEq, Eq)]
pub enum AppState {
    Viewing,
    Confirming,
    Cleaning { current: usize, total: usize, item_name: String },
}

/// The single-writer session state.
pub struct App {
    pub items: Vec<CleanupItem>,
    pub rendered_rows: Vec<ResultRow>,
    /// The highlighted row, an index into `rendered_rows`.
    pub cursor: Option<usize>,
    pub total_size: u64,
    pub dry_run: bool,
    pub active_tab: Tab,
    pub app_state: AppState,
}

pub open spec fn item_at(rows: Seq<ResultRow>, p: int) -> bool {
    0 <= p < rows.len() && rows[p] is Item
}

/// The position `d` rows after `cur`, wrapping round `len` rows.
pub open spec fn wrap_fwd(cur: int, d: int, len: int) -> int {
    if cur + d < len {
        cur + d
    } else {
        cur + d - len
    }
}

/// The position `d` rows before `cur`, wrapping round `len` rows.
pub open spec fn wrap_back(cur: int, d: int, len: int) -> int {
    if d <= cur {
        cur - d
    } else {
        cur + len - d
    }
}

/// The first item row at distance `d` or more after `cur`, looking at
/// distances up to `rows.len()` (once round the whole display).
pub open spec fn scan_fwd(rows: Seq<ResultRow>, cur: int, d: int) -> Option<int>
    decreases rows.len() + 1 - d,
{
    if d > rows.len() || d < 1 {
        None
    } else if item_at(rows, wrap_fwd(cur, d, rows.len() as int)) {
        Some(wrap_fwd(cur, d, rows.len() as int))
    } else {
        scan_fwd(rows, cur, d + 1)
    }
}

/// The first item row at distance `d` or more before `cur`, wrapping.
pub open spec fn scan_back(rows: Seq<ResultRow>, cur: int, d: int) -> Option<int>
    decreases rows.len() + 1 - d,
{
    if d > rows.len() || d < 1 {
        None
    } else if item_at(rows, wrap_back(cur, d, rows.len() as int)) {
        Some(wrap_back(cur, d, rows.len() as int))
    } else {
        scan_back(rows, cur, d + 1)
    }
}

/// Where `next` leaves the cursor: on the nearest item row after it, wrapping
/// round; an absent cursor counts as standing on the last row. Without item
/// rows the cursor stays.
pub open spec fn moved_forward(rows: Seq<ResultRow>, cursor: Option<usize>) -> Option<usize> {
    if rows.len() == 0 {
        cursor
    } else {
        let cur = match cursor {
            Some(c) => c as int,
            None => rows.len() - 1,
        };
        match scan_fwd(rows, cur, 1) {
            Some(p) => Some(p as usize),
            None => cursor,
        }
    }
}

/// Where `previous` leaves the cursor: on the nearest item row before it,
/// wrapping round; an absent cursor counts as standing on the first row.
pub open spec fn moved_backward(rows: Seq<ResultRow>, cursor: Option<usize>) -> Option<usize> {
    if rows.len() == 0 {
        cursor
    } else {
        let cur = match cursor {
            Some(c) => c as int,
            None => 0,
        };
        match scan_back(rows, cur, 1) {
            Some(p) => Some(p as usize),
            None => cursor,
        }
    }
}

/// The item under the cursor, if the cursor stands on an item row.
pub open spec fn item_under_cursor(rows: Seq<ResultRow>, cursor: Option<usize>) -> Option<usize> {
    match cursor {
        Some(c) => if c < rows.len() {
            match rows[c as int] {
                ResultRow::Item(k) => Some(k),
                _ => None,
            }
        } else {
            None
        },
        None => None,
    }
}

/// `item` with its selection flag flipped.
pub open spec fn flipped(item: CleanupItem) -> CleanupItem {
    CleanupItem { selected: !item.selected, ..item }
}

/// The items after toggling the selection of the item under the cursor.
pub open spec fn toggled_items(
    items: Seq<CleanupItem>,
    rows: Seq<ResultRow>,
    cursor: Option<usize>,
) -> Seq<CleanupItem> {
    match item_under_cursor(rows, cursor) {
        Some(k) => items.update(k as int, flipped(items[k as int])),
        None => items,
    }
}

pub open spec fn next_tab_of(t: Tab) -> Tab {
    match t {
        Tab::Dashboard => Tab::Results,
        Tab::Results => Tab::Help,
        Tab::Help => Tab::Dashboard,
    }
}

pub open spec fn previous_tab_of(t: Tab) -> Tab {
    match t {
        Tab::Dashboard => Tab::Help,
        Tab::Results => Tab::Dashboard,
        Tab::Help => Tab::Results,
    }
}

/// Sum of the items' sizes.
pub open spec fn total_bytes(items: Seq<CleanupItem>) -> nat
    decreases items.len(),
{
    if items.len() == 0 {
        0
    } else {
        total_bytes(items.drop_last()) + items.last().size_bytes as nat
    }
}

/// Item lists that agree in length and in each item's category and size
/// have the same categories and the same total.
proof fn lemma_same_shape(a: Seq<CleanupItem>, b: Seq<CleanupItem>)
    requires
        a.len() == b.len(),
        forall|k: int|
            0 <= k < a.len() ==> (#[trigger] a[k]).category == b[k].category && a[k].size_bytes
                == b[k].size_bytes,
    ensures
        categories_of(a) == categories_of(b),
        total_bytes(a) == total_bytes(b),
    decreases a.len(),
{
    assert(categories_of(a) =~= categories_of(b));
    if a.len() > 0 {
        lemma_same_shape(a.drop_last(), b.drop_last());
    }
}

/// Adds up the items' sizes, saturating at the largest `u64`.
fn sum_sizes(items: &Vec<CleanupItem>) -> (r: u64)
    ensures
        r == saturate(total_bytes(items@)),
{
    let mut total: u64 = 0;
    let mut k: usize = 0;
    while k < items.len()
        invariant
            k <= items@.len(),
            total == saturate(total_bytes(items@.subrange(0, k as int))),
        decreases items@.len() - k,
    {
        assert(items@.subrange(0, k + 1).drop_last() =~= items@.subrange(0, k as int));
        total = total.saturating_add(items[k].size_bytes);
        k += 1;
    }
    assert(items@.subrange(0, k as int) =~= items@);
    total
}

/// The items that a cleaning pass keeps: all but those now `Deleted`, in
/// their order.
pub open spec fn surviving(items: Seq<CleanupItem>) -> Seq<CleanupItem>
    decreases items.len(),
{
    if items.len() == 0 {
        Seq::empty()
    } else if items[0].status is Deleted {
        surviving(items.drop_first())
    } else {
        seq![items[0]] + surviving(items.drop_first())
    }
}

pub open spec fn any_selected(items: Seq<CleanupItem>) -> bool {
    exists|k: int| 0 <= k < items.len() && (#[trigger] items[k]).selected
}

/// How many items are selected.
pub open spec fn selected_count(items: Seq<CleanupItem>) -> nat
    decreases items.len(),
{
    if items.len() == 0 {
        0
    } else {
        selected_count(items.drop_last()) + if items.last().selected {
            1nat
        } else {
            0nat
        }
    }
}

/// Bytes held by the selected items.
pub open spec fn selected_bytes(items: Seq<CleanupItem>) -> nat
    decreases items.len(),
{
    if items.len() == 0 {
        0
    } else {
        selected_bytes(items.drop_last()) + if items.last().selected {
            items.last().size_bytes as nat
        } else {
            0nat
        }
    }
}

/// Whether a session action ends the session, and how it changes the
/// session from `s` to `t`.
pub open spec fn action_outcome(s: App, t: App, action: Action, quit: bool) -> bool {
    match s.app_state {
        AppState::Viewing => match action {
            Action::Quit => quit && t == s,
            Action::ToggleDryRun => !quit && t == App { dry_run: !s.dry_run, ..s },
            Action::ShowTab(tab) => !quit && t == App { active_tab: tab, ..s },
            Action::Next => !quit && t == App {
                cursor: moved_forward(s.rendered_rows@, s.cursor),
                ..s
            },
            Action::Previous => !quit && t == App {
                cursor: moved_backward(s.rendered_rows@, s.cursor),
                ..s
            },
            Action::NextTab => !quit && t == App { active_tab: next_tab_of(s.active_tab), ..s },
            Action::PreviousTab => !quit && t == App {
                active_tab: previous_tab_of(s.active_tab),
                ..s
            },
            Action::ToggleSelection => !quit && t == App { items: t.items, ..s } && t.items@
                == toggled_items(s.items@, s.rendered_rows@, s.cursor),
            Action::RequestClean => !quit && t == App {
                app_state: if any_selected(s.items@) {
                    AppState::Confirming
                } else {
                    AppState::Viewing
                },
                ..s
            },
            _ => !quit && t == s,
        },
        AppState::Confirming => match action {
            Action::Confirm => !quit && t == App { app_state: t.app_state, ..s } && match t.app_state {
                AppState::Cleaning { current, total, item_name } => current == 0 && total
                    == pending_count(s.items@) && item_name@.len() == 0,
                _ => false,
            },
            Action::Cancel => !quit && t == App { app_state: AppState::Viewing, ..s },
            Action::ToggleDryRun => !quit && t == App { dry_run: !s.dry_run, ..s },
            _ => !quit && t == s,
        },
        AppState::Cleaning { .. } => !quit && t == s,
    }
}

/// A decoded operator action.
#[derive(Debug, Clone, Copy, PartialEq, Eq, Structural)]
pub enum Action {
    Quit,
    ToggleDryRun,
    ShowTab(Tab),
    Next,
    Previous,
    NextTab,
    PreviousTab,
    ToggleSelection,
    RequestClean,
    Confirm,
    Cancel,
}

impl App {
    /// The rows are the grouped display of the items, the total is what the
    /// items' sizes add up to, and the cursor stands on a row whenever there
    /// are rows.
    pub open spec fn wf(&self) -> bool {
        &&& rows_in_range(self.rendered_rows@, self.items@.len())
        &&& is_projection(categories_of(self.items@), self.rendered_rows@)
        &&& self.total_size == saturate(total_bytes(self.items@))
        &&& match self.cursor {
            Some(c) => c < self.rendered_rows@.len() || self.rendered_rows@.len() == 0,
            None => true,
        }
    }

    /// A session with no items, in dry-run mode, viewing the dashboard.
    pub fn new() -> (r: App)
        ensures
            r.wf(),
            r.items@.len() == 0,
            r.rendered_rows@.len() == 0,
            r.cursor is None,
            r.total_size == 0,
            r.dry_run,
            r.active_tab == Tab::Dashboard,
            r.app_state is Viewing,
    {
        let r = App {
            items: Vec::new(),
            rendered_rows: Vec::new(),
            cursor: None,
            total_size: 0,
            dry_run: true,
            active_tab: Tab::Dashboard,
            app_state: AppState::Viewing,
        };
        proof {
            let cs = categories_of(r.items@);
            let cats = Seq::<Seq<char>>::empty();
            assert(crate::grouping::category_order(cs, cats));
            assert(crate::grouping::rows_view(r.rendered_rows@) =~= crate::grouping::group_rows(
                cs,
                cats,
            ));
        }
        r
    }

    /// Moves the cursor to the nearest item row after it, wrapping round.
    pub fn next(&mut self)
        requires
            old(self).wf(),
        ensures
            final(self).wf(),
            final(self).cursor == moved_forward(old(self).rendered_rows@, old(self).cursor),
            final(self).items == old(self).items,
            final(self).rendered_rows == old(self).rendered_rows,
            final(self).total_size == old(self).total_size,
            final(self).dry_run == old(self).dry_run,
            final(self).active_tab == old(self).active_tab,
            final(self).app_state == old(self).app_state,
    {
        let len = self.rendered_rows.len();
        if len == 0 {
            return;
        }
        let cur: usize = match self.cursor {
            Some(c) => c,
            None => len - 1,
        };
        let mut d: usize = 0;
        while d < len
            invariant
                old(self).wf(),
                len == self.rendered_rows@.len(),
                cur < len,
                cur as int == match old(self).cursor {
                    Some(c) => c as int,
                    None => len - 1,
                },
                d <= len,
                self.cursor == old(self).cursor,
                self.rendered_rows == old(self).rendered_rows,
                self.items == old(self).items,
                self.total_size == old(self).total_size,
                self.dry_run == old(self).dry_run,
                self.active_tab == old(self).active_tab,
                self.app_state == old(self).app_state,
                scan_fwd(self.rendered_rows@, cur as int, 1) == scan_fwd(
                    self.rendered_rows@,
                    cur as int,
                    d + 1,
                ),
            decreases len - d,
        {
            let e: usize = d + 1;
            let p: usize = if e < len - cur {
                cur + e
            } else {
                e - (len - cur)
            };
            assert(p as int == wrap_fwd(cur as int, e as int, len as int));
            match self.rendered_rows[p] {
                ResultRow::Item(_) => {
                    assert(item_at(self.rendered_rows@, p as int));
                    assert(scan_fwd(self.rendered_rows@, cur as int, e as int) == Some(p as int));
                    self.cursor = Some(p);
                    return;
                },
                _ => {},
            }
            d = e;
        }
    }

    /// Moves the cursor to the nearest item row before it, wrapping round.
    pub fn previous(&mut self)
        requires
            old(self).wf(),
        ensures
            final(self).wf(),
            final(self).cursor == moved_backward(old(self).rendered_rows@, old(self).cursor),
            final(self).items == old(self).items,
            final(self).rendered_rows == old(self).rendered_rows,
            final(self).total_size == old(self).total_size,
            final(self).dry_run == old(self).dry_run,
            final(self).active_tab == old(self).active_tab,
            final(self).app_state == old(self).app_state,
    {
        let len = self.rendered_rows.len();
        if len == 0 {
            return;
        }
        let cur: usize = match self.cursor {
            Some(c) => c,
            None => 0,
        };
        let mut d: usize = 0;
        while d < len
            invariant
                old(self).wf(),
                len == self.rendered_rows@.len(),
                cur < len,
                cur as int == match old(self).cursor {
                    Some(c) => c as int,
                    None => 0,
                },
                d <= len,
                self.cursor == old(self).cursor,
                self.rendered_rows == old(self).rendered_rows,
                self.items == old(self).items,
                self.total_size == old(self).total_size,
                self.dry_run == old(self).dry_run,
                self.active_tab == old(self).active_tab,
                self.app_state == old(self).app_state,
                scan_back(self.rendered_rows@, cur as int, 1) == scan_back(
                    self.rendered_rows@,
                    cur as int,
                    d + 1,
                ),
            decreases len - d,
        {
            let e: usize = d + 1;
            let p: usize = if e <= cur {
                cur - e
            } else {
                len - (e - cur)
            };
            assert(p as int == wrap_back(cur as int, e as int, len as int));
            match self.rendered_rows[p] {
                ResultRow::Item(_) => {
                    assert(item_at(self.rendered_rows@, p as int));
                    assert(scan_back(self.rendered_rows@, cur as int, e as int) == Some(p as int));
                    self.cursor = Some(p);
                    return;
                },
                _ => {},
            }
            d = e;
        }
    }

    /// Flips the selection of the item under the cursor, and of no other.
    pub fn toggle_selection(&mut self)
        requires
            old(self).wf(),
        ensures
            final(self).wf(),
            final(self).items@ == toggled_items(
                old(self).items@,
                old(self).rendered_rows@,
                old(self).cursor,
            ),
            final(self).rendered_rows == old(self).rendered_rows,
            final(self).cursor == old(self).cursor,
            final(self).total_size == old(self).total_size,
            final(self).dry_run == old(self).dry_run,
            final(self).active_tab == old(self).active_tab,
            final(self).app_state == old(self).app_state,
    {
        match self.cursor {
            Some(i) => {
                if i < self.rendered_rows.len() {
                    match self.rendered_rows[i] {
                        ResultRow::Item(k) => {
                            let mut item = self.items.remove(k);
                            item.selected = !item.selected;
                            self.items.insert(k, item);
                            assert(self.items@ =~= old(self).items@.update(
                                k as int,
                                flipped(old(self).items@[k as int]),
                            ));
                            proof {
                                lemma_same_shape(old(self).items@, self.items@);
                            }
                        },
                        _ => {},
                    }
                }
            },
            None => {},
        }
    }

    /// Flips dry-run mode.
    pub fn toggle_dry_run(&mut self)
        ensures
            final(self).dry_run == !old(self).dry_run,
            final(self).items == old(self).items,
            final(self).rendered_rows == old(self).rendered_rows,
            final(self).cursor == old(self).cursor,
            final(self).total_size == old(self).total_size,
            final(self).active_tab == old(self).active_tab,
            final(self).app_state == old(self).app_state,
    {
        self.dry_run = !self.dry_run;
    }

    /// Switches to the next tab, wrapping round.
    pub fn next_tab(&mut self)
        ensures
            final(self).active_tab == next_tab_of(old(self).active_tab),
            final(self).items == old(self).items,
            final(self).rendered_rows == old(self).rendered_rows,
            final(self).cursor == old(self).cursor,
            final(self).total_size == old(self).total_size,
            final(self).dry_run == old(self).dry_run,
            final(self).app_state == old(self).app_state,
    {
        self.active_tab = match self.active_tab {
            Tab::Dashboard => Tab::Results,
            Tab::Results => Tab::Help,
            Tab::Help => Tab::Dashboard,
        };
    }

    /// Switches to the previous tab, wrapping round.
    pub fn previous_tab(&mut self)
        ensures
            final(self).active_tab == previous_tab_of(old(self).active_tab),
            final(self).items == old(self).items,
            final(self).rendered_rows == old(self).rendered_rows,
            final(self).cursor == old(self).cursor,
            final(self).total_size == old(self).total_size,
            final(self).dry_run == old(self).dry_run,
            final(self).app_state == old(self).app_state,
    {
        self.active_tab = match self.active_tab {
            Tab::Dashboard => Tab::Help,
            Tab::Results => Tab::Dashboard,
            Tab::Help => Tab::Results,
        };
    }

    /// Rebuilds the display rows from the item list.
    fn calculate_rendered_rows(&mut self)
        ensures
            is_projection(categories_of(final(self).items@), final(self).rendered_rows@),
            rows_in_range(final(self).rendered_rows@, final(self).items@.len()),
            *final(self) == (App { rendered_rows: final(self).rendered_rows, ..*old(self) }),
    {
        self.rendered_rows = project(&self.items);
    }

    /// Installs a freshly scanned item list: totals and rows are derived from
    /// it, and the cursor lands on the first item row.
    pub fn set_items(&mut self, items: Vec<CleanupItem>)
        ensures
            final(self).wf(),
            final(self).items == items,
            final(self).cursor == if final(self).rendered_rows@.len() == 0 {
                Some(0usize)
            } else {
                moved_forward(final(self).rendered_rows@, Some(0usize))
            },
            final(self).dry_run == old(self).dry_run,
            final(self).active_tab == old(self).active_tab,
            final(self).app_state == old(self).app_state,
    {
        self.items = items;
        self.total_size = sum_sizes(&self.items);
        self.calculate_rendered_rows();
        self.cursor = Some(0);
        if self.rendered_rows.len() > 0 {
            self.next();
        }
    }

    /// Ends a cleaning pass: items now `Deleted` leave the list, the others
    /// stay in order with their selection, and totals, rows and cursor are
    /// derived afresh.
    pub fn cleanup_finished(&mut self)
        ensures
            final(self).wf(),
            final(self).items@ == surviving(old(self).items@),
            final(self).cursor == if final(self).rendered_rows@.len() == 0 {
                Some(0usize)
            } else {
                moved_forward(final(self).rendered_rows@, Some(0usize))
            },
            final(self).dry_run == old(self).dry_run,
            final(self).active_tab == old(self).active_tab,
            final(self).app_state == old(self).app_state,
    {
        let ghost orig = self.items@;
        let mut k: usize = 0;
        assert(orig.subrange(0, 0) + surviving(orig.subrange(0, orig.len() as int)) =~= surviving(
            orig,
        )) by {
            assert(orig.subrange(0, orig.len() as int) =~= orig);
        }
        while k < self.items.len()
            invariant
                k <= self.items@.len(),
                self.items@.subrange(0, k as int) + surviving(
                    self.items@.subrange(k as int, self.items@.len() as int),
                ) == surviving(orig),
                self.dry_run == old(self).dry_run,
                self.active_tab == old(self).active_tab,
                self.app_state == old(self).app_state,
            decreases self.items@.len() - k,
        {
            let ghost before = self.items@;
            let ghost rest = before.subrange(k as int, before.len() as int);
            assert(rest.drop_first() =~= before.subrange(k + 1, before.len() as int));
            if matches!(self.items[k].status, ItemStatus::Deleted) {
                self.items.remove(k);
                assert(self.items@.subrange(0, k as int) =~= before.subrange(0, k as int));
                assert(self.items@.subrange(k as int, self.items@.len() as int) =~= before.subrange(
                    k + 1,
                    before.len() as int,
                ));
            } else {
                assert(before.subrange(0, k + 1) =~= before.subrange(0, k as int) + seq![before[k as int]]);
                assert(before.subrange(0, k as int) + (seq![before[k as int]] + surviving(rest.drop_first()))
                    =~= before.subrange(0, k + 1) + surviving(rest.drop_first()));
                k += 1;
            }
        }
        assert(self.items@.subrange(0, k as int) =~= self.items@);
        assert(self.items@.subrange(k as int, self.items@.len() as int) =~= Seq::<CleanupItem>::empty());
        assert(self.items@ + Seq::<CleanupItem>::empty() =~= self.items@);
        self.total_size = sum_sizes(&self.items);
        self.calculate_rendered_rows();
        self.cursor = Some(0);
        if self.rendered_rows.len() > 0 {
            self.next();
        }
    }

    /// Whether any item is selected.
    pub fn has_selection(&self) -> (r: bool)
        ensures
            r == any_selected(self.items@),
    {
        let mut k: usize = 0;
        while k < self.items.len()
            invariant
                k <= self.items@.len(),
                forall|j: int| 0 <= j < k ==> !(#[trigger] self.items@[j]).selected,
            decreases self.items@.len() - k,
        {
            if self.items[k].selected {
                return true;
            }
            k += 1;
        }
        false
    }

    /// The items a cleaning pass visits, in display order.
    pub fn cleaning_queue(&self) -> (r: Vec<usize>)
        requires
            self.wf(),
        ensures
            r@ == queue_of(rows_view(self.rendered_rows@), self.items@),
            r@.len() == pending_count(self.items@),
            forall|j: int| 0 <= j < r@.len() ==> #[trigger] r@[j] < self.items@.len(),
    {
        let ghost rows = self.rendered_rows@;
        let n_items = self.items.len();
        let mut out: Vec<usize> = Vec::new();
        let mut p: usize = 0;
        while p < self.rendered_rows.len()
            invariant
                n_items == self.items@.len(),
                p <= rows.len(),
                rows == self.rendered_rows@,
                out@ == queue_of(rows_view(rows.subrange(0, p as int)), self.items@),
                forall|j: int| 0 <= j < out@.len() ==> #[trigger] out@[j] < self.items@.len(),
            decreases rows.len() - p,
        {
            assert(rows_view(rows.subrange(0, p + 1)).drop_last() =~= rows_view(
                rows.subrange(0, p as int),
            ));
            match self.rendered_rows[p] {
                ResultRow::Item(k) => {
                    if k < n_items && self.items[k].selected && !matches!(
                        self.items[k].status,
                        ItemStatus::Deleted
                    ) {
                        out.push(k);
                    }
                },
                _ => {},
            }
            p += 1;
        }
        assert(rows.subrange(0, p as int) =~= rows);
        proof {
            lemma_queue_counts_pending(self.items@, self.rendered_rows@);
        }
        out
    }

    /// Applies one decoded operator action; the result says whether the
    /// session ends. Quitting is honoured only while viewing, and nothing but
    /// the pass itself changes the session while it is cleaning.
    pub fn handle_action(&mut self, action: Action) -> (quit: bool)
        requires
            old(self).wf(),
        ensures
            final(self).wf(),
            action_outcome(*old(self), *final(self), action, quit),
    {
        match self.app_state {
            AppState::Viewing => match action {
                Action::Quit => true,
                Action::ToggleDryRun => {
                    self.toggle_dry_run();
                    false
                },
                Action::ShowTab(tab) => {
                    self.active_tab = tab;
                    false
                },
                Action::Next => {
                    self.next();
                    false
                },
                Action::Previous => {
                    self.previous();
                    false
                },
                Action::NextTab => {
                    self.next_tab();
                    false
                },
                Action::PreviousTab => {
                    self.previous_tab();
                    false
                },
                Action::ToggleSelection => {
                    self.toggle_selection();
                    false
                },
                Action::RequestClean => {
                    if self.has_selection() {
                        self.app_state = AppState::Confirming;
                    }
                    false
                },
                _ => false,
            },
            AppState::Confirming => match action {
                Action::Confirm => {
                    let queue = self.cleaning_queue();
                    self.app_state = AppState::Cleaning {
                        current: 0,
                        total: queue.len(),
                        item_name: String::new(),
                    };
                    false
                },
                Action::Cancel => {
                    self.app_state = AppState::Viewing;
                    false
                },
                Action::ToggleDryRun => {
                    self.toggle_dry_run();
                    false
                },
                _ => false,
            },
            AppState::Cleaning { .. } => false,
        }
    }

    /// Reports progress before step `step` of a pass over `queue`: item
    /// `step + 1` of `queue.len()`, with its name.
    pub fn begin_item(&mut self, step: usize, queue: &Vec<usize>)
        requires
            step < queue@.len(),
            queue@[step as int] < old(self).items@.len(),
        ensures
            *final(self) == (App { app_state: final(self).app_state, ..*old(self) }),
            match final(self).app_state {
                AppState::Cleaning { current, total, item_name } => current == step + 1 && total
                    == queue@.len() && item_name == old(self).items@[queue@[step as int] as int].name,
                _ => false,
            },
    {
        let k = queue[step];
        let n = queue.len();
        self.app_state = AppState::Cleaning {
            current: step + 1,
            total: n,
            item_name: self.items[k].name.clone(),
        };
    }

    /// Cleans item `k` with the outcome of `action` (`removal` is what the
    /// removal gave, if the action removes). A failure is recorded in that
    /// item's status as `Failed` with its reason; no other item changes.
    pub fn apply_clean(&mut self, k: usize, action: CleanAction, removal: Result<(), DeleteError>)
        requires
            old(self).wf(),
            k < old(self).items@.len(),
        ensures
            final(self).wf(),
            final(self).items@ == old(self).items@.update(
                k as int,
                stepped(old(self).items@[k as int], action, removal),
            ),
            *final(self) == (App { items: final(self).items, ..*old(self) }),
    {
        let mut item = self.items.remove(k);
        match clean_item(&mut item, action, removal) {
            Ok(()) => {},
            Err(e) => {
                item.status = ItemStatus::Failed(e.reason);
            },
        }
        self.items.insert(k, item);
        assert(self.items@ =~= old(self).items@.update(
            k as int,
            stepped(old(self).items@[k as int], action, removal),
        ));
        proof {
            lemma_same_shape(old(self).items@, self.items@);
        }
    }

    /// Step `step` of a pass over `queue`: reports progress on item
    /// `queue[step]` and cleans it with the outcome of `action` (`removal` is
    /// what the removal gave, if the action removes). The items change as
    /// that single step of `run_batch` says; see `lemma_batch_step` for how
    /// the steps make up the pass.
    pub fn clean_step(
        &mut self,
        step: usize,
        queue: &Vec<usize>,
        action: CleanAction,
        removal: Result<(), DeleteError>,
    )
        requires
            old(self).wf(),
            step < queue@.len(),
            queue@[step as int] < old(self).items@.len(),
        ensures
            final(self).wf(),
            final(self).items@ == run_batch(
                old(self).items@,
                seq![queue@[step as int]],
                seq![action],
                seq![removal],
            ),
            *final(self) == (App {
                items: final(self).items,
                app_state: final(self).app_state,
                ..*old(self)
            }),
            match final(self).app_state {
                AppState::Cleaning { current, total, item_name } => current == step + 1 && total
                    == queue@.len() && item_name == old(self).items@[queue@[step as int] as int].name,
                _ => false,
            },
    {
        let k = queue[step];
        self.begin_item(step, queue);
        self.apply_clean(k, action, removal);
        proof {
            let one = seq![queue@[step as int]];
            assert(one.drop_last() =~= Seq::<usize>::empty());
            assert(run_batch(old(self).items@, Seq::<usize>::empty(), seq![action], seq![removal])
                == old(self).items@);
        }
    }

    /// Ends a cleaning pass: `Deleted` items leave the list and the session
    /// returns to viewing the dashboard.
    pub fn finish_cleaning(&mut self)
        ensures
            final(self).wf(),
            final(self).items@ == surviving(old(self).items@),
            final(self).cursor == if final(self).rendered_rows@.len() == 0 {
                Some(0usize)
            } else {
                moved_forward(final(self).rendered_rows@, Some(0usize))
            },
            final(self).app_state is Viewing,
            final(self).active_tab == Tab::Dashboard,
            final(self).dry_run == old(self).dry_run,
    {
        self.cleanup_finished();
        self.app_state = AppState::Viewing;
        self.active_tab = Tab::Dashboard;
    }

    /// How many items are selected, and the bytes they hold (saturating at
    /// the largest `u64`).
    pub fn selection_summary(&self) -> (r: (usize, u64))
        ensures
            r.0 == selected_count(self.items@),
            r.1 == saturate(selected_bytes(self.items@)),
    {
        let mut count: usize = 0;
        let mut bytes: u64 = 0;
        let mut k: usize = 0;
        while k < self.items.len()
            invariant
                k <= self.items@.len(),
                count == selected_count(self.items@.subrange(0, k as int)),
                count <= k,
                bytes == saturate(selected_bytes(self.items@.subrange(0, k as int))),
            decreases self.items@.len() - k,
        {
            assert(self.items@.subrange(0, k + 1).drop_last() =~= self.items@.subrange(0, k as int));
            if self.items[k].selected {
                count += 1;
                bytes = bytes.saturating_add(self.items[k].size_bytes);
            }
            k += 1;
        }
        assert(self.items@.subrange(0, k as int) =~= self.items@);
        (count, bytes)
    }
}

/// Toggling the selection under the cursor leaves every item of another
/// category exactly as it was.
pub proof fn lemma_toggle_keeps_other_categories(
    items: Seq<CleanupItem>,
    rows: Seq<ResultRow>,
    cursor: Option<usize>,
    j: int,
)
    requires
        rows_in_range(rows, items.len()),
        0 <= j < items.len(),
        item_under_cursor(rows, cursor) is Some,
        items[j].category@ != items[item_under_cursor(rows, cursor)->0 as int].category@,
    ensures
        toggled_items(items, rows, cursor)[j] == items[j],
{
    let c = cursor->0;
    assert(rows[c as int] is Item);
}

} // verus!
