//! Scanner: resolves raw target paths, sums regular-file sizes and turns the
//! targets that exist into items.
use vstd::prelude::*;
use crate::item::{CleanupItem, ItemStatus};
use crate::registry::{TargetView, target_view, targets_view};

verus! {

/// Whether a freshly scanned item starts selected: nothing is selected until
/// the operator chooses.
pub const SELECTED_BY_DEFAULT: bool = false;

/// What a directory walk reports of one entry it reached.
#[derive(Debug, Clone, Copy, PartialEq, Eq)]
pub struct EntryMeta {
    pub is_file: bool,
    pub len: u64,
}

/// Joins `rest` onto `base` as a path: an absolute `rest` replaces `base`,
/// and one separator stands between them.
pub open spec fn join_path(base: Seq<char>, rest: Seq<char>) -> Seq<char> {
    if rest.len() > 0 && rest[0] == '/' {
        rest
    } else if base.len() == 0 || base.last() == '/' {
        base + rest
    } else {
        base + seq!['/'] + rest
    }
}

/// `s` without one leading `c`, if it has one.
pub open spec fn strip_lead(s: Seq<char>, c: char) -> Seq<char> {
    if s.len() > 0 && s[0] == c {
        s.drop_first()
    } else {
        s
    }
}

/// A raw path that begins with `~` has the home directory put in place of
/// the `~` (and of one separator after it); any other path is literal, as is
/// every path when no home directory is known.
pub open spec fn resolved_path(raw: Seq<char>, home: Option<Seq<char>>) -> Seq<char> {
    if raw.len() > 0 && raw[0] == '~' {
        match home {
            Some(h) => join_path(h, strip_lead(raw.drop_first(), '/')),
            None => raw,
        }
    } else {
        raw
    }
}

/// The home directory's text, if one is known.
pub open spec fn home_view(home: Option<&str>) -> Option<Seq<char>> {
    match home {
        Some(h) => Some(h@),
        None => None,
    }
}

/// Joins `rest` onto `base` as a path.
pub fn join(base: &str, rest: &str) -> (r: String)
    ensures
        r@ == join_path(base@, rest@),
{
    let rn = rest.unicode_len();
    if rn > 0 && rest.get_char(0) == '/' {
        return rest.to_owned();
    }
    let hn = base.unicode_len();
    if hn == 0 || base.get_char(hn - 1) == '/' {
        base.to_owned().concat(rest)
    } else {
        proof {
            reveal_strlit("/");
        }
        let r = base.to_owned().concat("/").concat(rest);
        assert(r@ =~= base@ + seq!['/'] + rest@);
        r
    }
}

fn tail_from(s: &str, from: usize) -> (r: String)
    requires
        from <= s@.len(),
    ensures
        r@ == s@.subrange(from as int, s@.len() as int),
{
    let n = s.unicode_len();
    s.substring_char(from, n).to_owned()
}

/// Resolves a raw rule path against the home directory.
pub fn resolve_path(raw: &str, home: Option<&str>) -> (r: String)
    ensures
        r@ == resolved_path(raw@, home_view(home)),
{
    let n = raw.unicode_len();
    if n == 0 || raw.get_char(0) != '~' || home.is_none() {
        return raw.to_owned();
    }
    let h = home.unwrap();
    let mut from: usize = 1;
    if n > 1 && raw.get_char(1) == '/' {
        from = 2;
    }
    let rest = tail_from(raw, from);
    assert(rest@ =~= strip_lead(raw@.drop_first(), '/'));
    join(h, rest.as_str())
}

/// Resolves the raw path of every target, keeping category and name.
pub fn resolve_targets(targets: &Vec<(String, String, String)>, home: Option<&str>) -> (r: Vec<
    (String, String, String),
>)
    ensures
        r@.len() == targets@.len(),
        forall|k: int|
            0 <= k < r@.len() ==> #[trigger] target_view(r@[k]) == (
                targets@[k].0@,
                targets@[k].1@,
                resolved_path(targets@[k].2@, home_view(home)),
            ),
{
    let mut out: Vec<(String, String, String)> = Vec::new();
    let mut k: usize = 0;
    while k < targets.len()
        invariant
            k <= targets@.len(),
            out@.len() == k,
            forall|j: int|
                0 <= j < k ==> #[trigger] target_view(out@[j]) == (
                    targets@[j].0@,
                    targets@[j].1@,
                    resolved_path(targets@[j].2@, home_view(home)),
                ),
        decreases targets@.len() - k,
    {
        let t = &targets[k];
        let p = resolve_path(t.2.as_str(), home);
        out.push((t.0.clone(), t.1.clone(), p));
        k += 1;
    }
    out
}

/// Bytes that one walked entry contributes: its length if it is a regular
/// file; an entry that could not be read, a directory or a symlink gives none.
pub open spec fn entry_bytes(e: Option<EntryMeta>) -> nat {
    match e {
        Some(m) => if m.is_file {
            m.len as nat
        } else {
            0
        },
        None => 0,
    }
}

/// Total bytes of regular files among the walked entries.
pub open spec fn file_bytes(es: Seq<Option<EntryMeta>>) -> nat
    decreases es.len(),
{
    if es.len() == 0 {
        0
    } else {
        file_bytes(es.drop_last()) + entry_bytes(es.last())
    }
}

/// `n` where it fits in a `u64`, else the largest `u64`.
pub open spec fn saturate(n: nat) -> u64 {
    if n <= u64::MAX {
        n as u64
    } else {
        u64::MAX
    }
}

/// Sums the lengths of the regular files among the entries of one walk,
/// skipping entries that could not be read.
pub fn scan_path(entries: &Vec<Option<EntryMeta>>) -> (r: u64)
    ensures
        r == saturate(file_bytes(entries@)),
{
    let mut total: u64 = 0;
    let mut k: usize = 0;
    while k < entries.len()
        invariant
            k <= entries@.len(),
            total == saturate(file_bytes(entries@.subrange(0, k as int))),
        decreases entries@.len() - k,
    {
        assert(entries@.subrange(0, k + 1).drop_last() =~= entries@.subrange(0, k as int));
        match entries[k] {
            Some(m) => {
                if m.is_file {
                    total = total.saturating_add(m.len);
                }
            },
            None => {},
        }
        k += 1;
    }
    assert(entries@.subrange(0, k as int) =~= entries@);
    total
}

/// The targets that exist, each with its measured size, in target order.
/// A probe of `None` means the resolved path did not exist.
pub open spec fn scanned(ts: Seq<TargetView>, probes: Seq<Option<u64>>) -> Seq<(TargetView, u64)>
    decreases ts.len(),
{
    if ts.len() == 0 || probes.len() == 0 {
        Seq::empty()
    } else {
        let prev = scanned(ts.drop_last(), probes.drop_last());
        match probes.last() {
            Some(size) => prev.push((ts.last(), size)),
            None => prev,
        }
    }
}

/// A freshly scanned item for target `t` of `size` bytes.
pub open spec fn is_fresh_item(item: CleanupItem, t: TargetView, size: u64) -> bool {
    &&& item.category@ == t.0
    &&& item.name@ == t.1
    &&& item.path@ == t.2
    &&& item.size_bytes == size
    &&& item.selected == SELECTED_BY_DEFAULT
    &&& item.status is Scanned
}

/// Turns resolved targets into items. `probes[k]` is what measuring target
/// `k` found: `None` if its path did not exist, else its size. A target
/// whose path did not exist yields no item at all.
pub fn scan_targets(targets: Vec<(String, String, String)>, probes: &Vec<Option<u64>>) -> (r: Vec<
    CleanupItem,
>)
    requires
        targets@.len() == probes@.len(),
    ensures
        r@.len() == scanned(targets_view(targets@), probes@).len(),
        forall|k: int|
            0 <= k < r@.len() ==> is_fresh_item(
                #[trigger] r@[k],
                scanned(targets_view(targets@), probes@)[k].0,
                scanned(targets_view(targets@), probes@)[k].1,
            ),
{
    let ghost tv = targets_view(targets@);
    let mut out: Vec<CleanupItem> = Vec::new();
    let mut k: usize = 0;
    while k < targets.len()
        invariant
            k <= targets@.len(),
            targets@.len() == probes@.len(),
            tv == targets_view(targets@),
            out@.len() == scanned(tv.subrange(0, k as int), probes@.subrange(0, k as int)).len(),
            forall|j: int|
                0 <= j < out@.len() ==> is_fresh_item(
                    #[trigger] out@[j],
                    scanned(tv.subrange(0, k as int), probes@.subrange(0, k as int))[j].0,
                    scanned(tv.subrange(0, k as int), probes@.subrange(0, k as int))[j].1,
                ),
        decreases targets@.len() - k,
    {
        assert(tv.subrange(0, k + 1).drop_last() =~= tv.subrange(0, k as int));
        assert(probes@.subrange(0, k + 1).drop_last() =~= probes@.subrange(0, k as int));
        match probes[k] {
            Some(size) => {
                let t = &targets[k];
                out.push(
                    CleanupItem {
                        name: t.1.clone(),
                        category: t.0.clone(),
                        path: t.2.clone(),
                        size_bytes: size,
                        selected: SELECTED_BY_DEFAULT,
                        status: ItemStatus::Scanned,
                    },
                );
            },
            None => {},
        }
        k += 1;
    }
    assert(tv.subrange(0, k as int) =~= tv);
    assert(probes@.subrange(0, k as int) =~= probes@);
    out
}

/// A target whose path did not exist contributes nothing: the scan result
/// is the same as if the target had never been listed.
pub proof fn lemma_missing_target_excluded(
    ts: Seq<TargetView>,
    probes: Seq<Option<u64>>,
    k: int,
)
    requires
        ts.len() == probes.len(),
        0 <= k < ts.len(),
        probes[k] is None,
    ensures
        scanned(ts, probes) == scanned(ts.remove(k), probes.remove(k)),
    decreases ts.len(),
{
    if k == ts.len() - 1 {
        assert(ts.remove(k) =~= ts.drop_last());
        assert(probes.remove(k) =~= probes.drop_last());
    } else {
        lemma_missing_target_excluded(ts.drop_last(), probes.drop_last(), k);
        assert(ts.remove(k).drop_last() =~= ts.drop_last().remove(k));
        assert(probes.remove(k).drop_last() =~= probes.drop_last().remove(k));
    }
}

/// Every scanned entry comes from a target whose path existed, with the
/// size measured for it.
pub proof fn lemma_scanned_exist(ts: Seq<TargetView>, probes: Seq<Option<u64>>, j: int)
    requires
        ts.len() == probes.len(),
        0 <= j < scanned(ts, probes).len(),
    ensures
        exists|k: int|
            0 <= k < ts.len() && ts[k] == scanned(ts, probes)[j].0 && #[trigger] probes[k]
                == Some(scanned(ts, probes)[j].1),
    decreases ts.len(),
{
    let prev = scanned(ts.drop_last(), probes.drop_last());
    if j < prev.len() {
        lemma_scanned_exist(ts.drop_last(), probes.drop_last(), j);
        let k = choose|k: int|
            0 <= k < ts.drop_last().len() && ts.drop_last()[k] == prev[j].0
                && #[trigger] probes.drop_last()[k] == Some(prev[j].1);
        assert(probes[k] == probes.drop_last()[k]);
    } else {
        assert(probes[ts.len() - 1] == Some(scanned(ts, probes)[j].1));
    }
}

/// Measuring a walk in two parts and adding gives the size of the whole.
pub proof fn lemma_file_bytes_split(a: Seq<Option<EntryMeta>>, b: Seq<Option<EntryMeta>>)
    ensures
        file_bytes(a + b) == file_bytes(a) + file_bytes(b),
    decreases b.len(),
{
    if b.len() == 0 {
        assert(a + b =~= a);
    } else {
        lemma_file_bytes_split(a, b.drop_last());
        assert((a + b).drop_last() =~= a + b.drop_last());
    }
}

/// The size of a walk does not depend on the order in which its entries
/// were visited.
pub proof fn lemma_file_bytes_order_independent(
    a: Seq<Option<EntryMeta>>,
    b: Seq<Option<EntryMeta>>,
)
    requires
        a.to_multiset() == b.to_multiset(),
    ensures
        file_bytes(a) == file_bytes(b),
    decreases a.len(),
{
    broadcast use vstd::seq_lib::group_to_multiset_ensures;

    if a.len() == 0 {
        assert(a.to_multiset().len() == a.len());
        assert(b.to_multiset().len() == b.len());
        assert(b.len() == 0);
    } else {
        let x = a.last();
        assert(a.drop_last().push(x) =~= a);
        assert(b.to_multiset().count(x) > 0);
        assert(b.contains(x));
        let i = choose|i: int| 0 <= i < b.len() && b[i] == x;
        let b2 = b.remove(i);
        assert(a.remove(a.len() - 1) =~= a.drop_last());
        lemma_file_bytes_order_independent(a.drop_last(), b2);
        let pre = b.subrange(0, i);
        let post = b.subrange(i + 1, b.len() as int);
        assert(b2 =~= pre + post);
        assert(b =~= (pre + seq![x]) + post);
        lemma_file_bytes_split(pre + seq![x], post);
        lemma_file_bytes_split(pre, seq![x]);
        lemma_file_bytes_split(pre, post);
        assert((pre + seq![x]).drop_last() =~= pre);
        assert(seq![x].drop_last() =~= Seq::<Option<EntryMeta>>::empty());
    }
}

/// What `scan_path` reports for two walks of the same tree, visited in any
/// two orders, is the same; and where the total fits in a `u64` it is
/// exactly the sum of the regular files' lengths.
pub proof fn lemma_scan_size_exact(a: Seq<Option<EntryMeta>>, b: Seq<Option<EntryMeta>>)
    requires
        a.to_multiset() == b.to_multiset(),
    ensures
        saturate(file_bytes(a)) == saturate(file_bytes(b)),
        file_bytes(a) <= u64::MAX ==> saturate(file_bytes(a)) as nat == file_bytes(a),
{
    lemma_file_bytes_order_independent(a, b);
}

} // verus!
