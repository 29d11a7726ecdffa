//! Usage insights aggregated over the catalog: described-session count,
//! working-directory ranking, token total, summed durations, and recent
//! daily activity.

use vstd::prelude::*;
use crate::heatmap::described;
use crate::model::{MAX_EPOCH_SECS, SessionInsights};
use crate::store::{Catalog, SessionEntry, StoredLog, StoredMetadata, wf_entries, wf_entry};
use crate::strorder::{lex_le, str_lex_le, str_view_eq, lemma_lex_le_total, lemma_lex_le_trans};
use crate::timeparse::{parse_modified, parsed_date};
use crate::fmtdate::{date_label, format_date};

verus! {

/// What one session contributes to the token total: its accumulated total
/// when strictly positive; a missing or non-positive value contributes
/// nothing — negative values are excluded, never subtracted.
pub open spec fn entry_tokens(e: SessionEntry) -> int {
    match e.metadata {
        StoredMetadata::Present(m) => match m.accumulated_total_tokens {
            Some(t) => if t > 0 {
                t as int
            } else {
                0
            },
            None => 0,
        },
        _ => 0,
    }
}

/// The token total over the described sessions.
pub open spec fn token_sum(s: Seq<SessionEntry>) -> int
    decreases s.len(),
{
    if s.len() == 0 {
        0
    } else {
        token_sum(s.drop_last()) + if described(s.last()) {
            entry_tokens(s.last())
        } else {
            0
        }
    }
}

/// What one session contributes to the summed duration: the seconds between
/// its first and last message; a log with fewer than two messages (or none
/// readable) contributes zero.
pub open spec fn entry_duration(e: SessionEntry) -> int {
    match e.log {
        StoredLog::Present(v) => if v@.len() >= 2 {
            v@.last().created - v@[0].created
        } else {
            0
        },
        _ => 0,
    }
}

/// The summed duration in seconds over the described sessions.
pub open spec fn duration_sum(s: Seq<SessionEntry>) -> int
    decreases s.len(),
{
    if s.len() == 0 {
        0
    } else {
        duration_sum(s.drop_last()) + if described(s.last()) {
            entry_duration(s.last())
        } else {
            0
        }
    }
}

/// How many sessions carry a non-empty description: the analytics
/// population.
pub open spec fn described_count(s: Seq<SessionEntry>) -> nat
    decreases s.len(),
{
    if s.len() == 0 {
        0
    } else {
        described_count(s.drop_last()) + if described(s.last()) {
            1nat
        } else {
            0nat
        }
    }
}

/// A mathematical total clamped into the `i64` range.
pub open spec fn clip_i64(x: int) -> int {
    if x > i64::MAX as int {
        i64::MAX as int
    } else if x < i64::MIN as int {
        i64::MIN as int
    } else {
        x
    }
}

proof fn lemma_agg_step(s: Seq<SessionEntry>, i: int)
    requires
        0 <= i < s.len(),
    ensures
        described_count(s.subrange(0, i + 1)) == described_count(s.subrange(0, i)) + if described(
            s[i],
        ) {
            1nat
        } else {
            0nat
        },
        token_sum(s.subrange(0, i + 1)) == token_sum(s.subrange(0, i)) + if described(s[i]) {
            entry_tokens(s[i])
        } else {
            0
        },
        duration_sum(s.subrange(0, i + 1)) == duration_sum(s.subrange(0, i)) + if described(
            s[i],
        ) {
            entry_duration(s[i])
        } else {
            0
        },
{
    assert(s.subrange(0, i + 1).drop_last() =~= s.subrange(0, i));
    assert(s.subrange(0, i + 1).last() == s[i]);
}

proof fn lemma_entry_duration_bounds(e: SessionEntry)
    requires
        wf_entry(e),
    ensures
        -MAX_EPOCH_SECS <= entry_duration(e) <= MAX_EPOCH_SECS,
{
    match e.log {
        StoredLog::Present(v) => {
            if v@.len() >= 2 {
                assert(crate::model::wf_message(v@[0]));
                assert(crate::model::wf_message(v@[v@.len() - 1]));
            }
        },
        _ => {},
    }
}

/// With no described session at all, every total is zero.
pub proof fn lemma_zero_described(s: Seq<SessionEntry>)
    requires
        described_count(s) == 0,
    ensures
        token_sum(s) == 0,
        duration_sum(s) == 0,
    decreases s.len(),
{
    if s.len() > 0 {
        lemma_zero_described(s.drop_last());
    }
}

/// The token total never decreases when a session is added, and a session
/// whose accumulated total is negative (or absent) leaves it unchanged:
/// such values are excluded, never subtracted.
pub proof fn lemma_token_sum_never_decreases(s: Seq<SessionEntry>, e: SessionEntry)
    ensures
        token_sum(s.push(e)) >= token_sum(s),
        (match e.metadata {
            StoredMetadata::Present(m) => match m.accumulated_total_tokens {
                Some(t) => t <= 0,
                None => true,
            },
            _ => true,
        }) ==> token_sum(s.push(e)) == token_sum(s),
{
    assert(s.push(e).drop_last() =~= s);
    assert(s.push(e).last() == e);
}

/// The described-session count, the clamped token total, and the clamped
/// duration total, in one pass.
fn scalar_totals(entries: &Vec<SessionEntry>) -> (r: (usize, i64, i64))
    requires
        wf_entries(entries@),
    ensures
        r.0 == described_count(entries@),
        r.1 == clip_i64(token_sum(entries@)),
        r.2 == clip_i64(duration_sum(entries@)),
{
    let mut count: usize = 0;
    let mut tok: i128 = 0;
    let mut dur: i128 = 0;
    let mut i: usize = 0;
    while i < entries.len()
        invariant
            i <= entries@.len(),
            wf_entries(entries@),
            count == described_count(entries@.subrange(0, i as int)),
            count <= i,
            tok == token_sum(entries@.subrange(0, i as int)),
            0 <= tok <= i * 0x7fff_ffff,
            dur == duration_sum(entries@.subrange(0, i as int)),
            -(i * MAX_EPOCH_SECS as int) <= dur <= i * MAX_EPOCH_SECS as int,
        decreases entries@.len() - i,
    {
        proof {
            lemma_agg_step(entries@, i as int);
        }
        let e = &entries[i];
        let is_described: bool = match &e.metadata {
            StoredMetadata::Present(m) => !m.description.as_str().is_empty(),
            _ => false,
        };
        if is_described {
            count = count + 1;
            match &e.metadata {
                StoredMetadata::Present(m) => {
                    match m.accumulated_total_tokens {
                        Some(t) => {
                            if t > 0 {
                                tok = tok + t as i128;
                            }
                        },
                        None => {},
                    }
                },
                _ => {},
            }
            match &e.log {
                StoredLog::Present(v) => {
                    if v.len() >= 2 {
                        proof {
                            lemma_entry_duration_bounds(entries@[i as int]);
                        }
                        let first = v[0].created;
                        let last = v[v.len() - 1].created;
                        dur = dur + (last as i128 - first as i128);
                    }
                },
                _ => {},
            }
        }
        i = i + 1;
    }
    proof {
        assert(entries@.subrange(0, entries@.len() as int) =~= entries@);
    }
    let total_tokens: i64 = if tok > i64::MAX as i128 {
        i64::MAX
    } else {
        tok as i64
    };
    let total_duration: i64 = if dur > i64::MAX as i128 {
        i64::MAX
    } else if dur < i64::MIN as i128 {
        i64::MIN
    } else {
        dur as i64
    };
    (count, total_tokens, total_duration)
}

/// The working directory a session is counted under.
pub open spec fn entry_dir(e: SessionEntry) -> Seq<char> {
    match e.metadata {
        StoredMetadata::Present(m) => m.working_dir@,
        _ => Seq::<char>::empty(),
    }
}

/// How many described sessions use the given working directory (by exact
/// string match).
pub open spec fn dir_count(s: Seq<SessionEntry>, dir: Seq<char>) -> nat
    decreases s.len(),
{
    if s.len() == 0 {
        0
    } else {
        dir_count(s.drop_last(), dir) + if described(s.last()) && entry_dir(s.last()) == dir {
            1nat
        } else {
            0nat
        }
    }
}

/// The ranking order: count descending, ties by directory ascending.
pub open spec fn rank_le(c1: int, d1: Seq<char>, c2: int, d2: Seq<char>) -> bool {
    c1 > c2 || (c1 == c2 && lex_le(d1, d2))
}

pub open spec fn pair_le(a: (String, usize), b: (String, usize)) -> bool {
    rank_le(a.1 as int, a.0@, b.1 as int, b.0@)
}

proof fn lemma_pair_le_total(a: (String, usize), b: (String, usize))
    ensures
        pair_le(a, b) || pair_le(b, a),
{
    if a.1 == b.1 {
        lemma_lex_le_total(a.0@, b.0@);
    }
}

proof fn lemma_pair_le_trans(a: (String, usize), b: (String, usize), c: (String, usize))
    requires
        pair_le(a, b),
        pair_le(b, c),
    ensures
        pair_le(a, c),
{
    if a.1 == b.1 && b.1 == c.1 {
        lemma_lex_le_trans(a.0@, b.0@, c.0@);
    }
}

fn pair_le_exec(a: &(String, usize), b: &(String, usize)) -> (r: bool)
    ensures
        r == pair_le(*a, *b),
{
    if a.1 > b.1 {
        true
    } else if a.1 < b.1 {
        false
    } else {
        str_lex_le(a.0.as_str(), b.0.as_str())
    }
}

proof fn lemma_dir_count_step(s: Seq<SessionEntry>, i: int, dir: Seq<char>)
    requires
        0 <= i < s.len(),
    ensures
        dir_count(s.subrange(0, i + 1), dir) == dir_count(s.subrange(0, i), dir) + if described(
            s[i],
        ) && entry_dir(s[i]) == dir {
            1nat
        } else {
            0nat
        },
{
    assert(s.subrange(0, i + 1).drop_last() =~= s.subrange(0, i));
    assert(s.subrange(0, i + 1).last() == s[i]);
}

proof fn lemma_dir_count_le_len(s: Seq<SessionEntry>, dir: Seq<char>)
    ensures
        dir_count(s, dir) <= s.len(),
    decreases s.len(),
{
    if s.len() > 0 {
        lemma_dir_count_le_len(s.drop_last(), dir);
    }
}

/// With no described session, no directory has a count.
pub proof fn lemma_dir_count_zero(s: Seq<SessionEntry>, dir: Seq<char>)
    requires
        described_count(s) == 0,
    ensures
        dir_count(s, dir) == 0,
    decreases s.len(),
{
    if s.len() > 0 {
        lemma_dir_count_zero(s.drop_last(), dir);
    }
}

/// One `(directory, count)` pair per used directory, in first-use order.
fn collect_dirs(entries: &Vec<SessionEntry>) -> (r: Vec<(String, usize)>)
    ensures
        forall|k: int|
            0 <= k < r@.len() ==> (#[trigger] r@[k]).1 == dir_count(entries@, r@[k].0@)
                && r@[k].1 > 0,
        forall|k1: int, k2: int| 0 <= k1 < k2 < r@.len() ==> r@[k1].0@ != r@[k2].0@,
        forall|dir: Seq<char>|
            #[trigger] dir_count(entries@, dir) > 0 ==> exists|k: int|
                0 <= k < r@.len() && (#[trigger] r@[k]).0@ == dir,
{
    let mut pairs: Vec<(String, usize)> = Vec::new();
    let mut i: usize = 0;
    while i < entries.len()
        invariant
            i <= entries@.len(),
            forall|k: int|
                0 <= k < pairs@.len() ==> (#[trigger] pairs@[k]).1 == dir_count(
                    entries@.subrange(0, i as int),
                    pairs@[k].0@,
                ) && pairs@[k].1 > 0,
            forall|k1: int, k2: int| 0 <= k1 < k2 < pairs@.len() ==> pairs@[k1].0@ != pairs@[k2].0@,
            forall|dir: Seq<char>|
                #[trigger] dir_count(entries@.subrange(0, i as int), dir) > 0 ==> exists|k: int|
                    0 <= k < pairs@.len() && (#[trigger] pairs@[k]).0@ == dir,
        decreases entries@.len() - i,
    {
        let ghost pre = entries@.subrange(0, i as int);
        let ghost e_spec = entries@[i as int];
        let e = &entries[i];
        let mut dir_opt: Option<&String> = None;
        match &e.metadata {
            StoredMetadata::Present(m) => {
                if !m.description.as_str().is_empty() {
                    dir_opt = Some(&m.working_dir);
                }
            },
            _ => {},
        }
        if dir_opt.is_none() {
            proof {
                assert(!described(e_spec));
                assert forall|k: int| 0 <= k < pairs@.len() implies (#[trigger] pairs@[k]).1
                    == dir_count(entries@.subrange(0, i + 1), pairs@[k].0@) by {
                    lemma_dir_count_step(entries@, i as int, pairs@[k].0@);
                }
                assert forall|dir: Seq<char>|
                    #[trigger] dir_count(entries@.subrange(0, i + 1), dir) > 0 implies exists|
                    k: int,
                |
                    0 <= k < pairs@.len() && (#[trigger] pairs@[k]).0@ == dir by {
                    lemma_dir_count_step(entries@, i as int, dir);
                }
            }
        } else {
            let dir: &String = dir_opt.unwrap();
            proof {
                assert(described(e_spec));
                assert(dir@ == entry_dir(e_spec));
            }
            let ghost pairs0 = pairs@;
            let mut k: usize = 0;
            let mut found: bool = false;
            while k < pairs.len() && !found
                invariant
                    k <= pairs@.len(),
                    pairs@ == pairs0,
                    !found ==> forall|j: int|
                        0 <= j < k ==> (#[trigger] pairs@[j]).0@ != dir@,
                    found ==> k < pairs@.len() && pairs@[k as int].0@ == dir@,
                decreases pairs@.len() - k + if found {
                    0int
                } else {
                    1int
                },
            {
                if str_view_eq(pairs[k].0.as_str(), dir.as_str()) {
                    found = true;
                } else {
                    k = k + 1;
                }
            }
            if found {
                proof {
                    lemma_dir_count_le_len(pre, dir@);
                }
                let c = pairs[k].1;
                let key = pairs[k].0.clone();
                pairs.set(k, (key, c + 1));
                proof {
                    assert(pairs@[k as int].0@ == dir@);
                    assert forall|k2: int| 0 <= k2 < pairs@.len() implies (#[trigger] pairs@[k2]).1
                        == dir_count(entries@.subrange(0, i + 1), pairs@[k2].0@) && pairs@[k2].1
                        > 0 by {
                        lemma_dir_count_step(entries@, i as int, pairs@[k2].0@);
                        if k2 != k {
                            assert(pairs@[k2] == pairs0[k2]);
                            assert(pairs0[k2].0@ != dir@);
                        }
                    }
                    assert forall|d2: Seq<char>|
                        #[trigger] dir_count(entries@.subrange(0, i + 1), d2) > 0 implies exists|
                        k2: int,
                    |
                        0 <= k2 < pairs@.len() && (#[trigger] pairs@[k2]).0@ == d2 by {
                        lemma_dir_count_step(entries@, i as int, d2);
                        if d2 == dir@ {
                            assert(pairs@[k as int].0@ == d2);
                        } else {
                            let k2 = choose|k2: int|
                                0 <= k2 < pairs0.len() && (#[trigger] pairs0[k2]).0@ == d2;
                            assert(pairs@[k2].0@ == d2);
                        }
                    }
                }
            } else {
                proof {
                    if dir_count(pre, dir@) > 0 {
                        let k2 = choose|k2: int|
                            0 <= k2 < pairs0.len() && (#[trigger] pairs0[k2]).0@ == dir@;
                        assert(false);
                    }
                }
                pairs.push((dir.clone(), 1));
                proof {
                    assert forall|k2: int| 0 <= k2 < pairs@.len() implies (#[trigger] pairs@[k2]).1
                        == dir_count(entries@.subrange(0, i + 1), pairs@[k2].0@) && pairs@[k2].1
                        > 0 by {
                        lemma_dir_count_step(entries@, i as int, pairs@[k2].0@);
                        if k2 < pairs0.len() {
                            assert(pairs@[k2] == pairs0[k2]);
                            assert(pairs0[k2].0@ != dir@);
                        }
                    }
                    assert forall|d2: Seq<char>|
                        #[trigger] dir_count(entries@.subrange(0, i + 1), d2) > 0 implies exists|
                        k2: int,
                    |
                        0 <= k2 < pairs@.len() && (#[trigger] pairs@[k2]).0@ == d2 by {
                        lemma_dir_count_step(entries@, i as int, d2);
                        if d2 == dir@ {
                            assert(pairs@[pairs@.len() - 1].0@ == d2);
                        } else {
                            let k2 = choose|k2: int|
                                0 <= k2 < pairs0.len() && (#[trigger] pairs0[k2]).0@ == d2;
                            assert(pairs@[k2].0@ == d2);
                        }
                    }
                }
            }
        }
        i = i + 1;
    }
    proof {
        assert(entries@.subrange(0, entries@.len() as int) =~= entries@);
    }
    pairs
}

/// Pairs sorted by the ranking order when every earlier one is `pair_le`
/// every later one.
pub open spec fn pairs_sorted(s: Seq<(String, usize)>) -> bool {
    forall|i: int, j: int| 0 <= i < j < s.len() ==> pair_le(#[trigger] s[i], #[trigger] s[j])
}

/// Insertion sort under the ranking order; a sorted permutation, keeping
/// distinct keys distinct.
fn sort_pairs(v: Vec<(String, usize)>) -> (r: Vec<(String, usize)>)
    requires
        forall|k1: int, k2: int| 0 <= k1 < k2 < v@.len() ==> v@[k1].0@ != v@[k2].0@,
    ensures
        pairs_sorted(r@),
        r@.to_multiset() == v@.to_multiset(),
        forall|k1: int, k2: int| 0 <= k1 < k2 < r@.len() ==> r@[k1].0@ != r@[k2].0@,
{
    broadcast use vstd::seq_lib::group_to_multiset_ensures;

    let mut out: Vec<(String, usize)> = Vec::new();
    let mut i: usize = 0;
    proof {
        assert(v@.subrange(0, 0).to_multiset() =~= vstd::multiset::Multiset::<
            (String, usize),
        >::empty());
        assert(out@.to_multiset() =~= vstd::multiset::Multiset::<(String, usize)>::empty());
    }
    while i < v.len()
        invariant
            i <= v@.len(),
            forall|k1: int, k2: int| 0 <= k1 < k2 < v@.len() ==> v@[k1].0@ != v@[k2].0@,
            pairs_sorted(out@),
            out@.to_multiset() == v@.subrange(0, i as int).to_multiset(),
            forall|k1: int, k2: int| 0 <= k1 < k2 < out@.len() ==> out@[k1].0@ != out@[k2].0@,
        decreases v@.len() - i,
    {
        let x = (v[i].0.clone(), v[i].1);
        proof {
            assert(x == v@[i as int]);
        }
        let ghost pre = v@.subrange(0, i as int);
        let ghost out0 = out@;
        proof {
            assert forall|k: int| 0 <= k < out0.len() implies out0[k].0@ != x.0@ by {
                let y = out0[k];
                out0.to_multiset_ensures();
                pre.to_multiset_ensures();
                assert(out0.contains(y));
                assert(out0.to_multiset().count(y) > 0);
                assert(pre.to_multiset().count(y) > 0);
                assert(pre.contains(y));
                let m = choose|m: int| 0 <= m < pre.len() && pre[m] == y;
                assert(v@[m] == y);
            }
        }
        let mut j: usize = 0;
        while j < out.len() && pair_le_exec(&out[j], &x)
            invariant
                j <= out@.len(),
                out@ == out0,
                forall|k: int| 0 <= k < j ==> pair_le(#[trigger] out@[k], x),
            decreases out@.len() - j,
        {
            j = j + 1;
        }
        proof {
            if j < out0.len() {
                lemma_pair_le_total(out0[j as int], x);
            }
            assert forall|k: int| j <= k < out0.len() implies pair_le(x, #[trigger] out0[k]) by {
                if k > j {
                    assert(pair_le(out0[j as int], out0[k]));
                    lemma_pair_le_trans(x, out0[j as int], out0[k]);
                }
            }
        }
        out.insert(j, x);
        proof {
            broadcast use vstd::seq_lib::to_multiset_insert;

            assert(out@ == out0.insert(j as int, x));
            out0.insert_ensures(j as int, x);
            assert forall|i1: int, i2: int| 0 <= i1 < i2 < out@.len() implies pair_le(
                out@[i1],
                out@[i2],
            ) by {
                if i1 < j && i2 < j {
                    assert(pair_le(out0[i1], out0[i2]));
                } else if i1 < j && i2 == j {
                    assert(pair_le(out0[i1], x));
                } else if i1 < j && i2 > j {
                    assert(pair_le(out0[i1], out0[i2 - 1]));
                } else if i1 == j && i2 > j {
                    assert(pair_le(x, out0[i2 - 1]));
                } else if i1 > j && i2 > j {
                    assert(pair_le(out0[i1 - 1], out0[i2 - 1]));
                }
            }
            assert(out0.insert(j as int, x).to_multiset() == out0.to_multiset().insert(x));
            assert(v@.subrange(0, i + 1) =~= pre.push(v@[i as int]));
            pre.to_multiset_ensures();
            assert(pre.push(v@[i as int]).to_multiset() =~= pre.to_multiset().insert(v@[i as int]));
            assert(out@.to_multiset() == v@.subrange(0, i + 1).to_multiset());
        }
        i = i + 1;
    }
    proof {
        assert(v@.subrange(0, v@.len() as int) =~= v@);
    }
    out
}

/// The directory ranking is right: at most three rows, ranked by count
/// descending with ties broken by directory ascending, one row per used
/// directory with its exact count, and every used directory left out ranks
/// no better than the last one included.
pub open spec fn dirs_ranking_ok(s: Seq<SessionEntry>, out: Seq<(String, usize)>) -> bool {
    &&& out.len() <= 3
    &&& pairs_sorted(out)
    &&& forall|k: int|
        0 <= k < out.len() ==> (#[trigger] out[k]).1 == dir_count(s, out[k].0@) && out[k].1 > 0
    &&& forall|k1: int, k2: int| 0 <= k1 < k2 < out.len() ==> out[k1].0@ != out[k2].0@
    &&& forall|dir: Seq<char>|
        #[trigger] dir_count(s, dir) > 0 ==> (exists|k: int|
            0 <= k < out.len() && (#[trigger] out[k]).0@ == dir) || (out.len() == 3 && rank_le(
            out[2].1 as int,
            out[2].0@,
            dir_count(s, dir) as int,
            dir,
        ))
}

/// The up-to-three most used working directories of the described sessions.
pub fn most_active_dirs(catalog: &Catalog) -> (r: Vec<(String, usize)>)
    ensures
        dirs_ranking_ok(catalog.entries@, r@),
{
    broadcast use vstd::seq_lib::group_to_multiset_ensures;

    let all = collect_dirs(&catalog.entries);
    let sorted = sort_pairs(all);
    let ghost entries = catalog.entries@;
    proof {
        assert(sorted@.to_multiset().len() == sorted@.len());
        assert(all@.to_multiset().len() == all@.len());
        assert forall|k: int| 0 <= k < sorted@.len() implies (#[trigger] sorted@[k]).1
            == dir_count(entries, sorted@[k].0@) && sorted@[k].1 > 0 by {
            let y = sorted@[k];
            assert(sorted@.contains(y));
            assert(sorted@.to_multiset().count(y) > 0);
            assert(all@.contains(y));
            let m = choose|m: int| 0 <= m < all@.len() && all@[m] == y;
            assert(all@[m].1 == dir_count(entries, all@[m].0@));
        }
        assert forall|dir: Seq<char>|
            #[trigger] dir_count(entries, dir) > 0 implies exists|k: int|
            0 <= k < sorted@.len() && (#[trigger] sorted@[k]).0@ == dir by {
            let k0 = choose|k0: int| 0 <= k0 < all@.len() && (#[trigger] all@[k0]).0@ == dir;
            let y = all@[k0];
            assert(all@.contains(y));
            assert(all@.to_multiset().count(y) > 0);
            assert(sorted@.contains(y));
            let k = choose|k: int| 0 <= k < sorted@.len() && sorted@[k] == y;
            assert(sorted@[k].0@ == dir);
        }
    }
    let mut top: Vec<(String, usize)> = Vec::new();
    let mut i: usize = 0;
    let n = if sorted.len() < 3 {
        sorted.len()
    } else {
        3
    };
    while i < n
        invariant
            i <= n,
            n <= sorted@.len(),
            n <= 3,
            top@ == sorted@.subrange(0, i as int),
        decreases n - i,
    {
        top.push((sorted[i].0.clone(), sorted[i].1));
        proof {
            assert(top@ =~= sorted@.subrange(0, i + 1));
        }
        i = i + 1;
    }
    proof {
        assert forall|dir: Seq<char>|
            #[trigger] dir_count(entries, dir) > 0 implies (exists|k: int|
            0 <= k < top@.len() && (#[trigger] top@[k]).0@ == dir) || (top@.len() == 3 && rank_le(
            top@[2].1 as int,
            top@[2].0@,
            dir_count(entries, dir) as int,
            dir,
        )) by {
            let k = choose|k: int| 0 <= k < sorted@.len() && (#[trigger] sorted@[k]).0@ == dir;
            if k < n {
                assert(top@[k].0@ == dir);
            } else {
                assert(n == 3);
                assert(pair_le(sorted@[2], sorted@[k]));
                assert(sorted@[k].1 == dir_count(entries, dir));
                assert(top@[2] == sorted@[2]);
            }
        }
    }
    top
}

/// How many described sessions were modified on the given calendar date.
pub open spec fn date_count(s: Seq<SessionEntry>, y: int, m: int, d: int) -> nat
    decreases s.len(),
{
    if s.len() == 0 {
        0
    } else {
        date_count(s.drop_last(), y, m, d) + if described(s.last()) && parsed_date(
            s.last().modified@,
        ) == Some((y, m, d)) {
            1nat
        } else {
            0nat
        }
    }
}

/// Calendar order on dates, most recent first; equal dates compare both
/// ways.
pub open spec fn ymd_le(y1: int, m1: int, d1: int, y2: int, m2: int, d2: int) -> bool {
    y1 > y2 || (y1 == y2 && (m1 > m2 || (m1 == m2 && d1 >= d2)))
}

fn date_le_exec(a: &((i32, u32, u32), usize), b: &((i32, u32, u32), usize)) -> (r: bool)
    ensures
        r == ymd_le(
            a.0.0 as int,
            a.0.1 as int,
            a.0.2 as int,
            b.0.0 as int,
            b.0.1 as int,
            b.0.2 as int,
        ),
{
    if a.0.0 != b.0.0 {
        a.0.0 > b.0.0
    } else if a.0.1 != b.0.1 {
        a.0.1 > b.0.1
    } else {
        a.0.2 >= b.0.2
    }
}

proof fn lemma_date_count_step(s: Seq<SessionEntry>, i: int, y: int, m: int, d: int)
    requires
        0 <= i < s.len(),
    ensures
        date_count(s.subrange(0, i + 1), y, m, d) == date_count(s.subrange(0, i), y, m, d)
            + if described(s[i]) && parsed_date(s[i].modified@) == Some((y, m, d)) {
            1nat
        } else {
            0nat
        },
{
    assert(s.subrange(0, i + 1).drop_last() =~= s.subrange(0, i));
    assert(s.subrange(0, i + 1).last() == s[i]);
}

proof fn lemma_date_count_le_len(s: Seq<SessionEntry>, y: int, m: int, d: int)
    ensures
        date_count(s, y, m, d) <= s.len(),
    decreases s.len(),
{
    if s.len() > 0 {
        lemma_date_count_le_len(s.drop_last(), y, m, d);
    }
}

/// With no described session, no date has activity.
pub proof fn lemma_date_count_zero(s: Seq<SessionEntry>, y: int, m: int, d: int)
    requires
        described_count(s) == 0,
    ensures
        date_count(s, y, m, d) == 0,
    decreases s.len(),
{
    if s.len() > 0 {
        lemma_date_count_zero(s.drop_last(), y, m, d);
    }
}

/// The recent-activity buckets are right: at most seven rows, sorted by
/// date descending, one row per active date with its exact count and a
/// month in 1..=12 and day in 1..=31, and every active date left out is no
/// more recent than the last one included.
pub open spec fn recent_dates_ok(s: Seq<SessionEntry>, out: Seq<((i32, u32, u32), usize)>) -> bool {
    &&& out.len() <= 7
    &&& forall|k1: int, k2: int|
        0 <= k1 < k2 < out.len() ==> ymd_le(
            (#[trigger] out[k1]).0.0 as int,
            out[k1].0.1 as int,
            out[k1].0.2 as int,
            (#[trigger] out[k2]).0.0 as int,
            out[k2].0.1 as int,
            out[k2].0.2 as int,
        )
    &&& forall|k: int|
        0 <= k < out.len() ==> (#[trigger] out[k]).1 == date_count(
            s,
            out[k].0.0 as int,
            out[k].0.1 as int,
            out[k].0.2 as int,
        ) && out[k].1 > 0 && 1 <= out[k].0.1 <= 12 && 1 <= out[k].0.2 <= 31
    &&& forall|k1: int, k2: int| 0 <= k1 < k2 < out.len() ==> out[k1].0 != out[k2].0
    &&& forall|y: int, m: int, d: int|
        #[trigger] date_count(s, y, m, d) > 0 ==> (exists|k: int|
            0 <= k < out.len() && (#[trigger] out[k]).0.0 == y && out[k].0.1 == m && out[k].0.2
                == d) || (out.len() == 7 && ymd_le(
            out[6].0.0 as int,
            out[6].0.1 as int,
            out[6].0.2 as int,
            y,
            m,
            d,
        ))
}

/// One `(date, count)` pair per active calendar date, in first-use order.
fn collect_dates(entries: &Vec<SessionEntry>) -> (r: Vec<((i32, u32, u32), usize)>)
    ensures
        forall|k: int|
            0 <= k < r@.len() ==> (#[trigger] r@[k]).1 == date_count(
                entries@,
                r@[k].0.0 as int,
                r@[k].0.1 as int,
                r@[k].0.2 as int,
            ) && r@[k].1 > 0 && 1 <= r@[k].0.1 <= 12 && 1 <= r@[k].0.2 <= 31,
        forall|k1: int, k2: int| 0 <= k1 < k2 < r@.len() ==> r@[k1].0 != r@[k2].0,
        forall|y: int, m: int, d: int|
            #[trigger] date_count(entries@, y, m, d) > 0 ==> exists|k: int|
                0 <= k < r@.len() && (#[trigger] r@[k]).0.0 == y && r@[k].0.1 == m && r@[k].0.2
                    == d,
{
    let mut pairs: Vec<((i32, u32, u32), usize)> = Vec::new();
    let mut i: usize = 0;
    while i < entries.len()
        invariant
            i <= entries@.len(),
            forall|k: int|
                0 <= k < pairs@.len() ==> (#[trigger] pairs@[k]).1 == date_count(
                    entries@.subrange(0, i as int),
                    pairs@[k].0.0 as int,
                    pairs@[k].0.1 as int,
                    pairs@[k].0.2 as int,
                ) && pairs@[k].1 > 0 && 1 <= pairs@[k].0.1 <= 12 && 1 <= pairs@[k].0.2 <= 31,
            forall|k1: int, k2: int| 0 <= k1 < k2 < pairs@.len() ==> pairs@[k1].0 != pairs@[k2].0,
            forall|y: int, m: int, d: int|
                #[trigger] date_count(entries@.subrange(0, i as int), y, m, d) > 0 ==> exists|
                    k: int,
                |
                    0 <= k < pairs@.len() && (#[trigger] pairs@[k]).0.0 == y && pairs@[k].0.1 == m
                        && pairs@[k].0.2 == d,
        decreases entries@.len() - i,
    {
        let ghost pre = entries@.subrange(0, i as int);
        let ghost e_spec = entries@[i as int];
        let e = &entries[i];
        let mut key_opt: Option<(i32, u32, u32)> = None;
        match &e.metadata {
            StoredMetadata::Present(md) => {
                if !md.description.as_str().is_empty() {
                    match parse_modified(e.modified.as_str()) {
                        Some((y, m, d)) => {
                            key_opt = Some((y, m, d));
                            proof {
                                assert(described(e_spec));
                                assert(parsed_date(e_spec.modified@) == Some(
                                    (y as int, m as int, d as int),
                                ));
                            }
                        },
                        None => {},
                    }
                }
            },
            _ => {},
        }
        if key_opt.is_none() {
            proof {
                assert forall|k: int| 0 <= k < pairs@.len() implies (#[trigger] pairs@[k]).1
                    == date_count(
                    entries@.subrange(0, i + 1),
                    pairs@[k].0.0 as int,
                    pairs@[k].0.1 as int,
                    pairs@[k].0.2 as int,
                ) by {
                    lemma_date_count_step(
                        entries@,
                        i as int,
                        pairs@[k].0.0 as int,
                        pairs@[k].0.1 as int,
                        pairs@[k].0.2 as int,
                    );
                }
                assert forall|y: int, m: int, d: int|
                    #[trigger] date_count(entries@.subrange(0, i + 1), y, m, d) > 0 implies exists|
                    k: int,
                |
                    0 <= k < pairs@.len() && (#[trigger] pairs@[k]).0.0 == y && pairs@[k].0.1 == m
                        && pairs@[k].0.2 == d by {
                    lemma_date_count_step(entries@, i as int, y, m, d);
                }
            }
        } else {
            let key = key_opt.unwrap();
            let ghost pairs0 = pairs@;
            let mut k: usize = 0;
            let mut found: bool = false;
            while k < pairs.len() && !found
                invariant
                    k <= pairs@.len(),
                    pairs@ == pairs0,
                    !found ==> forall|j: int| 0 <= j < k ==> (#[trigger] pairs@[j]).0 != key,
                    found ==> k < pairs@.len() && pairs@[k as int].0 == key,
                decreases pairs@.len() - k + if found {
                    0int
                } else {
                    1int
                },
            {
                let p = &pairs[k];
                if p.0.0 == key.0 && p.0.1 == key.1 && p.0.2 == key.2 {
                    found = true;
                } else {
                    k = k + 1;
                }
            }
            if found {
                proof {
                    lemma_date_count_le_len(pre, key.0 as int, key.1 as int, key.2 as int);
                }
                let c = pairs[k].1;
                pairs.set(k, (key, c + 1));
                proof {
                    assert forall|k2: int| 0 <= k2 < pairs@.len() implies (#[trigger] pairs@[k2]).1
                        == date_count(
                        entries@.subrange(0, i + 1),
                        pairs@[k2].0.0 as int,
                        pairs@[k2].0.1 as int,
                        pairs@[k2].0.2 as int,
                    ) && pairs@[k2].1 > 0 by {
                        lemma_date_count_step(
                            entries@,
                            i as int,
                            pairs@[k2].0.0 as int,
                            pairs@[k2].0.1 as int,
                            pairs@[k2].0.2 as int,
                        );
                        if k2 != k {
                            assert(pairs@[k2] == pairs0[k2]);
                            assert(pairs0[k2].0 != key);
                        }
                    }
                    assert forall|y: int, m: int, d: int|
                        #[trigger] date_count(entries@.subrange(0, i + 1), y, m, d)
                        > 0 implies exists|k2: int|
                        0 <= k2 < pairs@.len() && (#[trigger] pairs@[k2]).0.0 == y
                            && pairs@[k2].0.1 == m && pairs@[k2].0.2 == d by {
                        lemma_date_count_step(entries@, i as int, y, m, d);
                        if y == key.0 as int && m == key.1 as int && d == key.2 as int {
                            assert(pairs@[k as int].0 == key);
                        } else {
                            let k2 = choose|k2: int|
                                0 <= k2 < pairs0.len() && (#[trigger] pairs0[k2]).0.0 == y
                                    && pairs0[k2].0.1 == m && pairs0[k2].0.2 == d;
                            assert(pairs@[k2].0 == pairs0[k2].0);
                        }
                    }
                }
            } else {
                proof {
                    if date_count(pre, key.0 as int, key.1 as int, key.2 as int) > 0 {
                        let k2 = choose|k2: int|
                            0 <= k2 < pairs0.len() && (#[trigger] pairs0[k2]).0.0 == key.0 as int
                                && pairs0[k2].0.1 == key.1 as int && pairs0[k2].0.2
                                == key.2 as int;
                        assert(pairs0[k2].0 == key);
                        assert(false);
                    }
                }
                pairs.push((key, 1));
                proof {
                    assert forall|k2: int| 0 <= k2 < pairs@.len() implies (#[trigger] pairs@[k2]).1
                        == date_count(
                        entries@.subrange(0, i + 1),
                        pairs@[k2].0.0 as int,
                        pairs@[k2].0.1 as int,
                        pairs@[k2].0.2 as int,
                    ) && pairs@[k2].1 > 0 by {
                        lemma_date_count_step(
                            entries@,
                            i as int,
                            pairs@[k2].0.0 as int,
                            pairs@[k2].0.1 as int,
                            pairs@[k2].0.2 as int,
                        );
                        if k2 < pairs0.len() {
                            assert(pairs@[k2] == pairs0[k2]);
                            assert(pairs0[k2].0 != key);
                        }
                    }
                    assert forall|y: int, m: int, d: int|
                        #[trigger] date_count(entries@.subrange(0, i + 1), y, m, d)
                        > 0 implies exists|k2: int|
                        0 <= k2 < pairs@.len() && (#[trigger] pairs@[k2]).0.0 == y
                            && pairs@[k2].0.1 == m && pairs@[k2].0.2 == d by {
                        lemma_date_count_step(entries@, i as int, y, m, d);
                        if y == key.0 as int && m == key.1 as int && d == key.2 as int {
                            assert(pairs@[pairs@.len() - 1].0 == key);
                        } else {
                            let k2 = choose|k2: int|
                                0 <= k2 < pairs0.len() && (#[trigger] pairs0[k2]).0.0 == y
                                    && pairs0[k2].0.1 == m && pairs0[k2].0.2 == d;
                            assert(pairs@[k2].0 == pairs0[k2].0);
                        }
                    }
                }
            }
        }
        i = i + 1;
    }
    proof {
        assert(entries@.subrange(0, entries@.len() as int) =~= entries@);
    }
    pairs
}

/// Insertion sort by date, most recent first; a sorted permutation, keeping
/// distinct keys distinct.
fn sort_dates(v: Vec<((i32, u32, u32), usize)>) -> (r: Vec<((i32, u32, u32), usize)>)
    requires
        forall|k1: int, k2: int| 0 <= k1 < k2 < v@.len() ==> v@[k1].0 != v@[k2].0,
    ensures
        forall|k1: int, k2: int|
            0 <= k1 < k2 < r@.len() ==> ymd_le(
                (#[trigger] r@[k1]).0.0 as int,
                r@[k1].0.1 as int,
                r@[k1].0.2 as int,
                (#[trigger] r@[k2]).0.0 as int,
                r@[k2].0.1 as int,
                r@[k2].0.2 as int,
            ),
        r@.to_multiset() == v@.to_multiset(),
        forall|k1: int, k2: int| 0 <= k1 < k2 < r@.len() ==> r@[k1].0 != r@[k2].0,
    decreases v@.len(),
{
    broadcast use vstd::seq_lib::group_to_multiset_ensures;

    let mut out: Vec<((i32, u32, u32), usize)> = Vec::new();
    let mut i: usize = 0;
    proof {
        assert(v@.subrange(0, 0).to_multiset() =~= vstd::multiset::Multiset::<
            ((i32, u32, u32), usize),
        >::empty());
        assert(out@.to_multiset() =~= vstd::multiset::Multiset::<
            ((i32, u32, u32), usize),
        >::empty());
    }
    while i < v.len()
        invariant
            i <= v@.len(),
            forall|k1: int, k2: int| 0 <= k1 < k2 < v@.len() ==> v@[k1].0 != v@[k2].0,
            forall|k1: int, k2: int|
                0 <= k1 < k2 < out@.len() ==> ymd_le(
                    (#[trigger] out@[k1]).0.0 as int,
                    out@[k1].0.1 as int,
                    out@[k1].0.2 as int,
                    (#[trigger] out@[k2]).0.0 as int,
                    out@[k2].0.1 as int,
                    out@[k2].0.2 as int,
                ),
            out@.to_multiset() == v@.subrange(0, i as int).to_multiset(),
            forall|k1: int, k2: int| 0 <= k1 < k2 < out@.len() ==> out@[k1].0 != out@[k2].0,
        decreases v@.len() - i,
    {
        let x = v[i];
        let ghost pre = v@.subrange(0, i as int);
        let ghost out0 = out@;
        proof {
            assert forall|k: int| 0 <= k < out0.len() implies out0[k].0 != x.0 by {
                let y = out0[k];
                out0.to_multiset_ensures();
                pre.to_multiset_ensures();
                assert(out0.contains(y));
                assert(out0.to_multiset().count(y) > 0);
                assert(pre.to_multiset().count(y) > 0);
                assert(pre.contains(y));
                let m = choose|m: int| 0 <= m < pre.len() && pre[m] == y;
                assert(v@[m] == y);
            }
        }
        let mut j: usize = 0;
        while j < out.len() && date_le_exec(&out[j], &x)
            invariant
                j <= out@.len(),
                out@ == out0,
                forall|k: int|
                    0 <= k < j ==> ymd_le(
                        (#[trigger] out@[k]).0.0 as int,
                        out@[k].0.1 as int,
                        out@[k].0.2 as int,
                        x.0.0 as int,
                        x.0.1 as int,
                        x.0.2 as int,
                    ),
            decreases out@.len() - j,
        {
            j = j + 1;
        }
        out.insert(j, x);
        proof {
            broadcast use vstd::seq_lib::to_multiset_insert;

            assert(out@ == out0.insert(j as int, x));
            out0.insert_ensures(j as int, x);
            assert(out0.insert(j as int, x).to_multiset() == out0.to_multiset().insert(x));
            assert(v@.subrange(0, i + 1) =~= pre.push(v@[i as int]));
            pre.to_multiset_ensures();
            assert(pre.push(v@[i as int]).to_multiset() =~= pre.to_multiset().insert(v@[i as int]));
            assert(out@.to_multiset() == v@.subrange(0, i + 1).to_multiset());
        }
        i = i + 1;
    }
    proof {
        assert(v@.subrange(0, v@.len() as int) =~= v@);
    }
    out
}

/// The up-to-seven most recent active calendar dates of the described
/// sessions, each with its session count, most recent first.
pub fn recent_activity_dates(catalog: &Catalog) -> (r: Vec<((i32, u32, u32), usize)>)
    ensures
        recent_dates_ok(catalog.entries@, r@),
{
    broadcast use vstd::seq_lib::group_to_multiset_ensures;

    let all = collect_dates(&catalog.entries);
    let sorted = sort_dates(all);
    let ghost entries = catalog.entries@;
    proof {
        assert(sorted@.to_multiset().len() == sorted@.len());
        assert(all@.to_multiset().len() == all@.len());
        assert forall|k: int| 0 <= k < sorted@.len() implies (#[trigger] sorted@[k]).1
            == date_count(
            entries,
            sorted@[k].0.0 as int,
            sorted@[k].0.1 as int,
            sorted@[k].0.2 as int,
        ) && sorted@[k].1 > 0 && 1 <= sorted@[k].0.1 <= 12 && 1 <= sorted@[k].0.2 <= 31 by {
            let y = sorted@[k];
            assert(sorted@.contains(y));
            assert(sorted@.to_multiset().count(y) > 0);
            assert(all@.contains(y));
            let m = choose|m: int| 0 <= m < all@.len() && all@[m] == y;
            assert(all@[m] == y);
        }
        assert forall|y: int, m: int, d: int|
            #[trigger] date_count(entries, y, m, d) > 0 implies exists|k: int|
            0 <= k < sorted@.len() && (#[trigger] sorted@[k]).0.0 == y && sorted@[k].0.1 == m
                && sorted@[k].0.2 == d by {
            let k0 = choose|k0: int|
                0 <= k0 < all@.len() && (#[trigger] all@[k0]).0.0 == y && all@[k0].0.1 == m
                    && all@[k0].0.2 == d;
            let p = all@[k0];
            assert(all@.contains(p));
            assert(all@.to_multiset().count(p) > 0);
            assert(sorted@.contains(p));
            let k = choose|k: int| 0 <= k < sorted@.len() && sorted@[k] == p;
            assert(sorted@[k].0.0 == y);
        }
    }
    let mut top: Vec<((i32, u32, u32), usize)> = Vec::new();
    let mut i: usize = 0;
    let n = if sorted.len() < 7 {
        sorted.len()
    } else {
        7
    };
    while i < n
        invariant
            i <= n,
            n <= sorted@.len(),
            n <= 7,
            top@ == sorted@.subrange(0, i as int),
        decreases n - i,
    {
        top.push(sorted[i]);
        proof {
            assert(top@ =~= sorted@.subrange(0, i + 1));
        }
        i = i + 1;
    }
    proof {
        assert forall|y: int, m: int, d: int|
            #[trigger] date_count(entries, y, m, d) > 0 implies (exists|k: int|
            0 <= k < top@.len() && (#[trigger] top@[k]).0.0 == y && top@[k].0.1 == m && top@[k].0.2
                == d) || (top@.len() == 7 && ymd_le(
            top@[6].0.0 as int,
            top@[6].0.1 as int,
            top@[6].0.2 as int,
            y,
            m,
            d,
        )) by {
            let k = choose|k: int|
                0 <= k < sorted@.len() && (#[trigger] sorted@[k]).0.0 == y && sorted@[k].0.1 == m
                    && sorted@[k].0.2 == d;
            if k < n {
                assert(top@[k].0.0 == y && top@[k].0.1 == m && top@[k].0.2 == d);
            } else {
                assert(n == 7);
                assert(ymd_le(
                    sorted@[6].0.0 as int,
                    sorted@[6].0.1 as int,
                    sorted@[6].0.2 as int,
                    sorted@[k].0.0 as int,
                    sorted@[k].0.1 as int,
                    sorted@[k].0.2 as int,
                ));
                assert(top@[6] == sorted@[6]);
            }
        }
    }
    top
}

/// Labels match the dated buckets row for row: same counts, and the string
/// is the date's `YYYY-MM-DD` label.
pub open spec fn labels_match(
    keys: Seq<((i32, u32, u32), usize)>,
    out: Seq<(String, usize)>,
) -> bool {
    &&& out.len() == keys.len()
    &&& forall|k: int|
        0 <= k < out.len() ==> (#[trigger] out[k]).0@ == date_label(
            (#[trigger] keys[k]).0.0 as int,
            keys[k].0.1 as int,
            keys[k].0.2 as int,
        ) && out[k].1 == keys[k].1
}

/// Computes the usage insights of the whole catalog: the described-session
/// count, the ranked working directories, the clamped token and duration
/// totals, and the daily counts of the most recent active dates.  With no
/// described session every total is zero and both lists are empty — never
/// an error.
pub fn get_session_insights(catalog: &Catalog) -> (r: SessionInsights)
    requires
        catalog.wf(),
    ensures
        r.total_sessions == described_count(catalog.entries@),
        r.total_tokens == clip_i64(token_sum(catalog.entries@)),
        r.total_duration_secs == clip_i64(duration_sum(catalog.entries@)),
        dirs_ranking_ok(catalog.entries@, r.most_active_dirs@),
        exists|keys: Seq<((i32, u32, u32), usize)>|
            recent_dates_ok(catalog.entries@, keys) && labels_match(keys, r.recent_activity@),
        described_count(catalog.entries@) == 0 ==> r.total_tokens == 0 && r.total_duration_secs
            == 0 && r.most_active_dirs@.len() == 0 && r.recent_activity@.len() == 0,
{
    let (total_sessions, total_tokens, total_duration_secs) = scalar_totals(&catalog.entries);
    let dirs = most_active_dirs(catalog);
    let dates = recent_activity_dates(catalog);
    let mut recent_activity: Vec<(String, usize)> = Vec::new();
    let mut i: usize = 0;
    while i < dates.len()
        invariant
            i <= dates@.len(),
            recent_dates_ok(catalog.entries@, dates@),
            recent_activity@.len() == i,
            forall|k: int|
                0 <= k < i ==> (#[trigger] recent_activity@[k]).0@ == date_label(
                    (#[trigger] dates@[k]).0.0 as int,
                    dates@[k].0.1 as int,
                    dates@[k].0.2 as int,
                ) && recent_activity@[k].1 == dates@[k].1,
        decreases dates@.len() - i,
    {
        let ((y, m, d), c) = dates[i];
        recent_activity.push((format_date(y, m, d), c));
        i = i + 1;
    }
    proof {
        assert(labels_match(dates@, recent_activity@));
        if described_count(catalog.entries@) == 0 {
            lemma_zero_described(catalog.entries@);
            if dirs@.len() > 0 {
                lemma_dir_count_zero(catalog.entries@, dirs@[0].0@);
            }
            if dates@.len() > 0 {
                lemma_date_count_zero(
                    catalog.entries@,
                    dates@[0].0.0 as int,
                    dates@[0].0.1 as int,
                    dates@[0].0.2 as int,
                );
            }
        }
    }
    SessionInsights {
        total_sessions,
        most_active_dirs: dirs,
        total_duration_secs,
        total_tokens,
        recent_activity,
    }
}

} // verus!
