//! The activity heatmap: described sessions bucketed into a
//! (ISO week, weekday) grid.

use vstd::prelude::*;
use crate::model::ActivityHeatmapCell;
use crate::store::{Catalog, SessionEntry, StoredMetadata};
use crate::timeparse::{parse_modified, parsed_date, week_and_day, week_and_day_of};

verus! {

/// A session that counts toward analytics: its metadata parses and carries
/// a non-empty description.
pub open spec fn described(e: SessionEntry) -> bool {
    e.metadata matches StoredMetadata::Present(m) && m.description@.len() > 0
}

/// The heatmap bucket of an entry: the 0-based ISO week and Sunday-based
/// weekday of its modification date; `None` when the stamp does not parse.
pub open spec fn entry_bucket(e: SessionEntry) -> Option<(int, int)> {
    match parsed_date(e.modified@) {
        Some((y, m, d)) => match week_and_day_of(y, m, d) {
            Some((w, wd)) => Some((w - 1, wd)),
            None => None,
        },
        None => None,
    }
}

/// How many described sessions of the catalog fall into bucket `(w, d)`.
pub open spec fn bucket_count(s: Seq<SessionEntry>, w: int, d: int) -> nat
    decreases s.len(),
{
    if s.len() == 0 {
        0
    } else {
        bucket_count(s.drop_last(), w, d) + if described(s.last()) && entry_bucket(s.last())
            == Some((w, d)) {
            1nat
        } else {
            0nat
        }
    }
}

proof fn lemma_bucket_count_step(s: Seq<SessionEntry>, i: int, w: int, d: int)
    requires
        0 <= i < s.len(),
    ensures
        bucket_count(s.subrange(0, i + 1), w, d) == bucket_count(s.subrange(0, i), w, d) + if
            described(s[i]) && entry_bucket(s[i]) == Some((w, d)) {
            1nat
        } else {
            0nat
        },
{
    assert(s.subrange(0, i + 1).drop_last() =~= s.subrange(0, i));
    assert(s.subrange(0, i + 1).last() == s[i]);
}

proof fn lemma_bucket_count_le_len(s: Seq<SessionEntry>, w: int, d: int)
    ensures
        bucket_count(s, w, d) <= s.len(),
    decreases s.len(),
{
    if s.len() > 0 {
        lemma_bucket_count_le_len(s.drop_last(), w, d);
    }
}

fn find_cell(cells: &Vec<ActivityHeatmapCell>, w0: usize, d0: usize) -> (r: Option<usize>)
    ensures
        match r {
            Some(k) => k < cells@.len() && cells@[k as int].week == w0 && cells@[k as int].day
                == d0,
            None => forall|k: int|
                0 <= k < cells@.len() ==> !((#[trigger] cells@[k]).week == w0 && cells@[k].day
                    == d0),
        },
{
    let mut k: usize = 0;
    while k < cells.len()
        invariant
            k <= cells@.len(),
            forall|j: int|
                0 <= j < k ==> !((#[trigger] cells@[j]).week == w0 && cells@[j].day == d0),
        decreases cells@.len() - k,
    {
        if cells[k].week == w0 && cells[k].day == d0 {
            return Some(k);
        }
        k = k + 1;
    }
    None
}

/// Buckets every described session with a parseable modification date by
/// `(ISO week - 1, weekday)` with Sunday as day 0, and emits one cell per
/// non-empty bucket.  Cell emission order is unspecified; the cells, their
/// counts, and their being pairwise distinct and complete are not.
pub fn get_activity_heatmap(catalog: &Catalog) -> (r: Vec<ActivityHeatmapCell>)
    ensures
        forall|k: int|
            0 <= k < r@.len() ==> (#[trigger] r@[k]).count == bucket_count(
                catalog.entries@,
                r@[k].week as int,
                r@[k].day as int,
            ),
        forall|k: int|
            0 <= k < r@.len() ==> (#[trigger] r@[k]).count > 0 && r@[k].week <= 52 && r@[k].day
                <= 6,
        forall|k1: int, k2: int|
            0 <= k1 < k2 < r@.len() ==> !((#[trigger] r@[k1]).week == (#[trigger] r@[k2]).week
                && r@[k1].day == r@[k2].day),
        forall|w: int, d: int|
            #[trigger] bucket_count(catalog.entries@, w, d) > 0 ==> exists|k: int|
                0 <= k < r@.len() && (#[trigger] r@[k]).week == w && r@[k].day == d,
{
    let entries = &catalog.entries;
    let mut cells: Vec<ActivityHeatmapCell> = Vec::new();
    let mut i: usize = 0;
    while i < entries.len()
        invariant
            i <= entries@.len(),
            forall|k: int|
                0 <= k < cells@.len() ==> (#[trigger] cells@[k]).count == bucket_count(
                    entries@.subrange(0, i as int),
                    cells@[k].week as int,
                    cells@[k].day as int,
                ),
            forall|k: int|
                0 <= k < cells@.len() ==> (#[trigger] cells@[k]).count > 0 && cells@[k].week
                    <= 52 && cells@[k].day <= 6,
            forall|k1: int, k2: int|
                0 <= k1 < k2 < cells@.len() ==> !((#[trigger] cells@[k1]).week
                    == (#[trigger] cells@[k2]).week && cells@[k1].day == cells@[k2].day),
            forall|w: int, d: int|
                #[trigger] bucket_count(entries@.subrange(0, i as int), w, d) > 0 ==> exists|
                    k: int,
                |
                    0 <= k < cells@.len() && (#[trigger] cells@[k]).week == w && cells@[k].day
                        == d,
        decreases entries@.len() - i,
    {
        let ghost pre = entries@.subrange(0, i as int);
        let ghost e_spec = entries@[i as int];
        let e = &entries[i];
        let mut skip: bool = true;
        let mut w0: usize = 0;
        let mut d0: usize = 0;
        match &e.metadata {
            StoredMetadata::Present(m) => {
                if !m.description.as_str().is_empty() {
                    match parse_modified(e.modified.as_str()) {
                        Some((y, mo, dy)) => {
                            match week_and_day(y, mo, dy) {
                                Some((w, wd)) => {
                                    skip = false;
                                    w0 = (w - 1) as usize;
                                    d0 = wd as usize;
                                    proof {
                                        assert(described(e_spec));
                                        assert(entry_bucket(e_spec) == Some(
                                            (w0 as int, d0 as int),
                                        ));
                                    }
                                },
                                None => {
                                    proof {
                                        assert(false);
                                    }
                                },
                            }
                        },
                        None => {
                            proof {
                                assert(entry_bucket(e_spec) is None);
                            }
                        },
                    }
                }
            },
            _ => {},
        }
        if skip {
            proof {
                assert(!(described(e_spec) && entry_bucket(e_spec) matches Some(b)));
                assert forall|k: int| 0 <= k < cells@.len() implies (#[trigger] cells@[k]).count
                    == bucket_count(
                    entries@.subrange(0, i + 1),
                    cells@[k].week as int,
                    cells@[k].day as int,
                ) by {
                    lemma_bucket_count_step(
                        entries@,
                        i as int,
                        cells@[k].week as int,
                        cells@[k].day as int,
                    );
                }
                assert forall|w: int, d: int|
                    #[trigger] bucket_count(entries@.subrange(0, i + 1), w, d) > 0 implies exists|
                    k: int,
                |
                    0 <= k < cells@.len() && (#[trigger] cells@[k]).week == w && cells@[k].day
                        == d by {
                    lemma_bucket_count_step(entries@, i as int, w, d);
                }
            }
        } else {
            let ghost cells0 = cells@;
            match find_cell(&cells, w0, d0) {
                Some(k) => {
                    proof {
                        lemma_bucket_count_le_len(pre, w0 as int, d0 as int);
                    }
                    let c = cells[k];
                    cells.set(k, ActivityHeatmapCell { week: c.week, day: c.day, count: c.count + 1 });
                    proof {
                        assert forall|k2: int|
                            0 <= k2 < cells@.len() implies (#[trigger] cells@[k2]).count
                            == bucket_count(
                            entries@.subrange(0, i + 1),
                            cells@[k2].week as int,
                            cells@[k2].day as int,
                        ) by {
                            lemma_bucket_count_step(
                                entries@,
                                i as int,
                                cells@[k2].week as int,
                                cells@[k2].day as int,
                            );
                            if k2 != k {
                                assert(cells@[k2] == cells0[k2]);
                                assert(!(cells0[k2].week == w0 && cells0[k2].day == d0));
                            }
                        }
                        assert forall|w: int, d: int|
                            #[trigger] bucket_count(entries@.subrange(0, i + 1), w, d)
                            > 0 implies exists|k2: int|
                            0 <= k2 < cells@.len() && (#[trigger] cells@[k2]).week == w
                                && cells@[k2].day == d by {
                            lemma_bucket_count_step(entries@, i as int, w, d);
                            if w == w0 as int && d == d0 as int {
                                assert(cells@[k as int].week == w && cells@[k as int].day == d);
                            } else {
                                let k2 = choose|k2: int|
                                    0 <= k2 < cells0.len() && (#[trigger] cells0[k2]).week == w
                                        && cells0[k2].day == d;
                                assert(cells@[k2].week == w && cells@[k2].day == d);
                            }
                        }
                    }
                },
                None => {
                    proof {
                        if bucket_count(pre, w0 as int, d0 as int) > 0 {
                            let k = choose|k: int|
                                0 <= k < cells0.len() && (#[trigger] cells0[k]).week == w0 as int
                                    && cells0[k].day == d0 as int;
                            assert(false);
                        }
                    }
                    cells.push(ActivityHeatmapCell { week: w0, day: d0, count: 1 });
                    proof {
                        assert forall|k2: int|
                            0 <= k2 < cells@.len() implies (#[trigger] cells@[k2]).count
                            == bucket_count(
                            entries@.subrange(0, i + 1),
                            cells@[k2].week as int,
                            cells@[k2].day as int,
                        ) by {
                            lemma_bucket_count_step(
                                entries@,
                                i as int,
                                cells@[k2].week as int,
                                cells@[k2].day as int,
                            );
                            if k2 < cells0.len() {
                                assert(cells@[k2] == cells0[k2]);
                                assert(!(cells0[k2].week == w0 && cells0[k2].day == d0));
                            }
                        }
                        assert forall|w: int, d: int|
                            #[trigger] bucket_count(entries@.subrange(0, i + 1), w, d)
                            > 0 implies exists|k2: int|
                            0 <= k2 < cells@.len() && (#[trigger] cells@[k2]).week == w
                                && cells@[k2].day == d by {
                            lemma_bucket_count_step(entries@, i as int, w, d);
                            if w == w0 as int && d == d0 as int {
                                assert(cells@[cells@.len() - 1].week == w && cells@[cells@.len()
                                    - 1].day == d);
                            } else {
                                let k2 = choose|k2: int|
                                    0 <= k2 < cells0.len() && (#[trigger] cells0[k2]).week == w
                                        && cells0[k2].day == d;
                                assert(cells@[k2].week == w && cells@[k2].day == d);
                            }
                        }
                    }
                },
            }
        }
        i = i + 1;
    }
    proof {
        assert(entries@.subrange(0, entries@.len() as int) =~= entries@);
    }
    cells
}

} // verus!
