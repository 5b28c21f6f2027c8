//! The display projection: items grouped by category, categories in
//! lexicographic order without repeats, each group framed by a header row
//! and a separator row.
use vstd::prelude::*;
use crate::item::CleanupItem;
use crate::session::ResultRow;

verus! {

/// Lexicographic order on text from position `i` on, by code point, as
/// `String`'s own order is.
pub open spec fn text_lt_from(a: Seq<char>, b: Seq<char>, i: int) -> bool
    decreases a.len() - i,
{
    if i < 0 || i >= a.len() {
        0 <= i < b.len()
    } else if i >= b.len() {
        false
    } else if a[i] != b[i] {
        a[i] < b[i]
    } else {
        text_lt_from(a, b, i + 1)
    }
}

pub open spec fn text_lt(a: Seq<char>, b: Seq<char>) -> bool {
    text_lt_from(a, b, 0)
}

proof fn lemma_lt_from_total(a: Seq<char>, b: Seq<char>, i: int)
    requires
        0 <= i <= a.len(),
        i <= b.len(),
    ensures
        text_lt_from(a, b, i) || text_lt_from(b, a, i) || (a.len() == b.len() && forall|j: int|
            i <= j < a.len() ==> a[j] == b[j]),
    decreases a.len() - i,
{
    if i < a.len() && i < b.len() && a[i] == b[i] {
        lemma_lt_from_total(a, b, i + 1);
        if a.len() == b.len() && forall|j: int| i + 1 <= j < a.len() ==> a[j] == b[j] {
            assert forall|j: int| i <= j < a.len() implies a[j] == b[j] by {
                if j > i {
                }
            }
        }
    }
}

proof fn lemma_lt_total(a: Seq<char>, b: Seq<char>)
    ensures
        text_lt(a, b) || text_lt(b, a) || a == b,
{
    lemma_lt_from_total(a, b, 0);
    if a.len() == b.len() && forall|j: int| 0 <= j < a.len() ==> a[j] == b[j] {
        assert(a =~= b);
    }
}

pub proof fn lemma_lt_from_irreflexive(a: Seq<char>, i: int)
    requires
        0 <= i,
    ensures
        !text_lt_from(a, a, i),
    decreases a.len() - i,
{
    if i < a.len() {
        lemma_lt_from_irreflexive(a, i + 1);
    }
}

proof fn lemma_lt_from_transitive(a: Seq<char>, b: Seq<char>, c: Seq<char>, i: int)
    requires
        0 <= i,
        text_lt_from(a, b, i),
        text_lt_from(b, c, i),
    ensures
        text_lt_from(a, c, i),
    decreases a.len() - i,
{
    if i < a.len() && a[i] == b[i] && b[i] == c[i] {
        lemma_lt_from_transitive(a, b, c, i + 1);
    }
}

/// Compares two texts in lexicographic order.
pub fn text_less(a: &str, b: &str) -> (r: bool)
    ensures
        r == text_lt(a@, b@),
{
    let n = a.unicode_len();
    let m = b.unicode_len();
    let mut i: usize = 0;
    while i < n && i < m
        invariant
            n == a@.len(),
            m == b@.len(),
            i <= n,
            i <= m,
            text_lt(a@, b@) == text_lt_from(a@, b@, i as int),
        decreases n - i,
    {
        let x = a.get_char(i);
        let y = b.get_char(i);
        if x != y {
            return x < y;
        }
        i += 1;
    }
    i < m
}

/// The text of each string.
pub open spec fn texts_of(v: Seq<String>) -> Seq<Seq<char>> {
    v.map_values(|s: String| s@)
}

/// The category of each item, in item order.
pub open spec fn categories_of(items: Seq<CleanupItem>) -> Seq<Seq<char>> {
    items.map_values(|it: CleanupItem| it.category@)
}

pub open spec fn strictly_sorted(cats: Seq<Seq<char>>) -> bool {
    forall|i: int, j: int| 0 <= i < j < cats.len() ==> text_lt(#[trigger] cats[i], #[trigger] cats[j])
}

/// `cats` lists each category that occurs in `cs` exactly once, in
/// lexicographic order.
pub open spec fn category_order(cs: Seq<Seq<char>>, cats: Seq<Seq<char>>) -> bool {
    &&& strictly_sorted(cats)
    &&& forall|k: int| 0 <= k < cs.len() ==> cats.contains(#[trigger] cs[k])
    &&& forall|j: int| 0 <= j < cats.len() ==> cs.contains(#[trigger] cats[j])
}

/// The distinct categories of the items, in lexicographic order.
pub fn sorted_categories(items: &Vec<CleanupItem>) -> (r: Vec<String>)
    ensures
        category_order(categories_of(items@), texts_of(r@)),
{
    let ghost cs = categories_of(items@);
    let mut cats: Vec<String> = Vec::new();
    let mut k: usize = 0;
    while k < items.len()
        invariant
            k <= items@.len(),
            cs == categories_of(items@),
            strictly_sorted(texts_of(cats@)),
            forall|q: int| 0 <= q < k ==> texts_of(cats@).contains(#[trigger] cs[q]),
            forall|j: int|
                0 <= j < cats@.len() ==> cs.contains(#[trigger] texts_of(cats@)[j]),
        decreases items@.len() - k,
    {
        let c = &items[k].category;
        let ghost cv = texts_of(cats@);
        let mut p: usize = 0;
        let mut stop = false;
        while !stop && p < cats.len()
            invariant
                p <= cats@.len(),
                cv == texts_of(cats@),
                forall|q: int| 0 <= q < p ==> text_lt(#[trigger] cv[q], c@),
                stop ==> p < cats@.len() && !text_lt(cv[p as int], c@),
            decreases cats@.len() - p + (if stop {
                0int
            } else {
                1int
            }),
        {
            if text_less(cats[p].as_str(), c.as_str()) {
                p += 1;
            } else {
                stop = true;
            }
        }
        if p < cats.len() && cats[p] == *c {
            assert(cv[p as int] == c@);
        } else {
            proof {
                if p < cv.len() {
                    lemma_lt_total(cv[p as int], c@);
                }
                assert forall|q: int| p <= q < cv.len() implies text_lt(c@, #[trigger] cv[q]) by {
                    if q > p {
                        lemma_lt_from_transitive(c@, cv[p as int], cv[q], 0);
                    }
                }
            }
            cats.insert(p, c.clone());
            let ghost nv = texts_of(cats@);
            assert(nv =~= cv.insert(p as int, c@));
            assert forall|i: int, j: int| 0 <= i < j < nv.len() implies text_lt(
                #[trigger] nv[i],
                #[trigger] nv[j],
            ) by {
                if j == p {
                    assert(nv[i] == cv[i]);
                } else if i == p {
                    assert(nv[j] == cv[j - 1]);
                } else if i < p && j < p {
                } else if i < p {
                    assert(nv[i] == cv[i] && nv[j] == cv[j - 1]);
                    lemma_lt_from_transitive(cv[i], c@, cv[j - 1], 0);
                    assert(text_lt(cv[i], c@));
                } else {
                    assert(nv[i] == cv[i - 1] && nv[j] == cv[j - 1]);
                }
            }
            assert forall|q: int| 0 <= q < k implies nv.contains(#[trigger] cs[q]) by {
                let w = choose|w: int| 0 <= w < cv.len() && cv[w] == cs[q];
                if w < p {
                    assert(nv[w] == cs[q]);
                } else {
                    assert(nv[w + 1] == cs[q]);
                }
            }
            assert(nv[p as int] == cs[k as int]);
            assert forall|j: int| 0 <= j < nv.len() implies cs.contains(#[trigger] nv[j]) by {
                if j < p {
                    assert(nv[j] == cv[j]);
                } else if j == p {
                    assert(cs[k as int] == nv[j]);
                } else {
                    assert(nv[j] == cv[j - 1]);
                }
            }
        }
        assert(texts_of(cats@).contains(cs[k as int]));
        k += 1;
    }
    cats
}

/// What a display row shows, with texts as plain sequences.
pub enum RowView {
    Header(Seq<char>),
    Item(usize),
    Separator,
}

pub open spec fn row_view(r: ResultRow) -> RowView {
    match r {
        ResultRow::CategoryHeader(c) => RowView::Header(c@),
        ResultRow::Item(k) => RowView::Item(k),
        ResultRow::EmptyLine => RowView::Separator,
    }
}

pub open spec fn rows_view(rows: Seq<ResultRow>) -> Seq<RowView> {
    rows.map_values(|r: ResultRow| row_view(r))
}

/// The item rows of category `c` among the first `n` items, in item order.
pub open spec fn members(cs: Seq<Seq<char>>, c: Seq<char>, n: int) -> Seq<RowView>
    decreases n,
{
    if n <= 0 {
        Seq::empty()
    } else {
        let prev = members(cs, c, n - 1);
        if cs[n - 1] == c {
            prev.push(RowView::Item((n - 1) as usize))
        } else {
            prev
        }
    }
}

/// One block per category of `cats`, in that order: the header, the
/// category's items in item order, then a separator.
pub open spec fn group_rows(cs: Seq<Seq<char>>, cats: Seq<Seq<char>>) -> Seq<RowView>
    decreases cats.len(),
{
    if cats.len() == 0 {
        Seq::empty()
    } else {
        group_rows(cs, cats.drop_last()) + seq![RowView::Header(cats.last())] + members(
            cs,
            cats.last(),
            cs.len() as int,
        ) + seq![RowView::Separator]
    }
}

/// `rows` is the grouped display of items whose categories are `cs`.
pub open spec fn is_projection(cs: Seq<Seq<char>>, rows: Seq<ResultRow>) -> bool {
    exists|cats: Seq<Seq<char>>|
        #[trigger] category_order(cs, cats) && rows_view(rows) == group_rows(cs, cats)
}

/// Every item row of `rows` names one of `n` items.
pub open spec fn rows_in_range(rows: Seq<ResultRow>, n: nat) -> bool {
    forall|p: int|
        #![trigger rows[p]]
        0 <= p < rows.len() ==> match rows[p] {
            ResultRow::Item(k) => k < n,
            _ => true,
        }
}

/// Derives the display rows from the item list.
pub fn project(items: &Vec<CleanupItem>) -> (r: Vec<ResultRow>)
    ensures
        is_projection(categories_of(items@), r@),
        rows_in_range(r@, items@.len()),
{
    let ghost cs = categories_of(items@);
    let cats = sorted_categories(items);
    let ghost tv = texts_of(cats@);
    let mut rows: Vec<ResultRow> = Vec::new();
    let mut ci: usize = 0;
    while ci < cats.len()
        invariant
            ci <= cats@.len(),
            cs == categories_of(items@),
            tv == texts_of(cats@),
            rows_view(rows@) == group_rows(cs, tv.subrange(0, ci as int)),
            rows_in_range(rows@, items@.len()),
        decreases cats@.len() - ci,
    {
        let cat = &cats[ci];
        rows.push(ResultRow::CategoryHeader(cat.clone()));
        let ghost head = group_rows(cs, tv.subrange(0, ci as int)) + seq![RowView::Header(cat@)];
        assert(rows_view(rows@) =~= head);
        let mut k: usize = 0;
        while k < items.len()
            invariant
                k <= items@.len(),
                cs == categories_of(items@),
                rows_view(rows@) == head + members(cs, cat@, k as int),
                rows_in_range(rows@, items@.len()),
            decreases items@.len() - k,
        {
            let ghost prev = rows@;
            if items[k].category == *cat {
                rows.push(ResultRow::Item(k));
                assert(rows_view(rows@) =~= rows_view(prev).push(RowView::Item(k)));
            }
            k += 1;
        }
        let ghost prev = rows@;
        rows.push(ResultRow::EmptyLine);
        assert(rows_view(rows@) =~= rows_view(prev).push(RowView::Separator));
        assert(tv.subrange(0, ci + 1).drop_last() =~= tv.subrange(0, ci as int));
        assert(tv.subrange(0, ci + 1).last() == cat@);
        ci += 1;
    }
    assert(tv.subrange(0, ci as int) =~= tv);
    rows
}

/// Bytes held by the items of category `c`.
pub open spec fn category_bytes(items: Seq<CleanupItem>, c: Seq<char>) -> nat
    decreases items.len(),
{
    if items.len() == 0 {
        0
    } else {
        category_bytes(items.drop_last(), c) + if items.last().category@ == c {
            items.last().size_bytes as nat
        } else {
            0nat
        }
    }
}

/// Each distinct category, in lexicographic order, with the bytes its items
/// hold (saturating at the largest `u64`).
pub fn category_totals(items: &Vec<CleanupItem>) -> (r: Vec<(String, u64)>)
    ensures
        category_order(
            categories_of(items@),
            r@.map_values(|e: (String, u64)| e.0@),
        ),
        forall|j: int|
            0 <= j < r@.len() ==> (#[trigger] r@[j]).1 == crate::scanner::saturate(
                category_bytes(items@, r@[j].0@),
            ),
{
    let cats = sorted_categories(items);
    let mut out: Vec<(String, u64)> = Vec::new();
    let mut ci: usize = 0;
    while ci < cats.len()
        invariant
            ci <= cats@.len(),
            out@.len() == ci,
            forall|j: int| 0 <= j < ci ==> (#[trigger] out@[j]).0@ == cats@[j]@,
            forall|j: int|
                0 <= j < ci ==> (#[trigger] out@[j]).1 == crate::scanner::saturate(
                    category_bytes(items@, out@[j].0@),
                ),
        decreases cats@.len() - ci,
    {
        let cat = &cats[ci];
        let mut total: u64 = 0;
        let mut k: usize = 0;
        while k < items.len()
            invariant
                k <= items@.len(),
                total == crate::scanner::saturate(
                    category_bytes(items@.subrange(0, k as int), cat@),
                ),
            decreases items@.len() - k,
        {
            assert(items@.subrange(0, k + 1).drop_last() =~= items@.subrange(0, k as int));
            if items[k].category == *cat {
                total = total.saturating_add(items[k].size_bytes);
            }
            k += 1;
        }
        assert(items@.subrange(0, k as int) =~= items@);
        out.push((cat.clone(), total));
        ci += 1;
    }
    assert(out@.map_values(|e: (String, u64)| e.0@) =~= texts_of(cats@));
    out
}

} // verus!
