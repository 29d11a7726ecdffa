//! Catalog enumeration: every readable session, sorted deterministically by
//! modification timestamp with ties broken by identifier ascending.

use vstd::prelude::*;
use vstd::multiset::Multiset;
use crate::model::{SessionInfo, SessionListResponse, SessionMetadata, SortOrder, is_default_metadata};
use crate::store::{Catalog, SessionEntry, StoredMetadata, wf_entries};
use crate::strorder::{
    lex_le, lex_lt, str_lex_le, str_view_eq, lemma_lex_le_antisym, lemma_lex_le_total,
    lemma_lex_le_trans,
};

verus! {

/// The deterministic listing order: primary key the modification timestamp
/// (per the requested order), ties broken by identifier ascending.
pub open spec fn info_le(a: SessionInfo, b: SessionInfo, order: SortOrder) -> bool {
    if a.modified@ == b.modified@ {
        lex_le(a.id@, b.id@)
    } else {
        match order {
            SortOrder::Ascending => lex_lt(a.modified@, b.modified@),
            SortOrder::Descending => lex_lt(b.modified@, a.modified@),
        }
    }
}

proof fn lemma_lex_lt_trans(a: Seq<char>, b: Seq<char>, c: Seq<char>)
    requires
        lex_lt(a, b),
        lex_lt(b, c),
    ensures
        lex_lt(a, c),
{
    lemma_lex_le_trans(a, b, c);
    if a == c {
        lemma_lex_le_antisym(a, b);
    }
}

proof fn lemma_info_le_total(a: SessionInfo, b: SessionInfo, order: SortOrder)
    ensures
        info_le(a, b, order) || info_le(b, a, order),
{
    if a.modified@ == b.modified@ {
        lemma_lex_le_total(a.id@, b.id@);
    } else {
        lemma_lex_le_total(a.modified@, b.modified@);
    }
}

proof fn lemma_info_le_trans(a: SessionInfo, b: SessionInfo, c: SessionInfo, order: SortOrder)
    requires
        info_le(a, b, order),
        info_le(b, c, order),
    ensures
        info_le(a, c, order),
{
    if a.modified@ == b.modified@ && b.modified@ == c.modified@ {
        lemma_lex_le_trans(a.id@, b.id@, c.id@);
    } else if a.modified@ != b.modified@ && b.modified@ != c.modified@ {
        match order {
            SortOrder::Ascending => lemma_lex_lt_trans(a.modified@, b.modified@, c.modified@),
            SortOrder::Descending => lemma_lex_lt_trans(c.modified@, b.modified@, a.modified@),
        }
    }
}

/// The listing is sorted when every earlier row is `info_le` every later one.
pub open spec fn infos_sorted(s: Seq<SessionInfo>, order: SortOrder) -> bool {
    forall|i: int, j: int|
        0 <= i < j < s.len() ==> info_le(#[trigger] s[i], #[trigger] s[j], order)
}

/// Executable comparison deciding `info_le`.
fn info_le_exec(a: &SessionInfo, b: &SessionInfo, order: SortOrder) -> (r: bool)
    ensures
        r == info_le(*a, *b, order),
{
    if str_view_eq(a.modified.as_str(), b.modified.as_str()) {
        str_lex_le(a.id.as_str(), b.id.as_str())
    } else {
        match order {
            SortOrder::Ascending => str_lex_le(a.modified.as_str(), b.modified.as_str()),
            SortOrder::Descending => str_lex_le(b.modified.as_str(), a.modified.as_str()),
        }
    }
}

/// Insertion sort under `info_le`: a sorted permutation of the input.
/// Distinct identifiers stay distinct.
fn sort_infos(v: Vec<SessionInfo>, order: SortOrder) -> (r: Vec<SessionInfo>)
    requires
        forall|k1: int, k2: int| 0 <= k1 < k2 < v@.len() ==> v@[k1].id@ != v@[k2].id@,
    ensures
        infos_sorted(r@, order),
        r@.to_multiset() == v@.to_multiset(),
        forall|k1: int, k2: int| 0 <= k1 < k2 < r@.len() ==> r@[k1].id@ != r@[k2].id@,
{
    broadcast use vstd::seq_lib::group_to_multiset_ensures;

    let mut out: Vec<SessionInfo> = Vec::new();
    let mut i: usize = 0;
    proof {
        assert(v@.subrange(0, 0).to_multiset() =~= Multiset::<SessionInfo>::empty());
        assert(out@.to_multiset() =~= Multiset::<SessionInfo>::empty());
    }
    while i < v.len()
        invariant
            i <= v@.len(),
            forall|k1: int, k2: int| 0 <= k1 < k2 < v@.len() ==> v@[k1].id@ != v@[k2].id@,
            infos_sorted(out@, order),
            out@.to_multiset() == v@.subrange(0, i as int).to_multiset(),
            forall|k1: int, k2: int| 0 <= k1 < k2 < out@.len() ==> out@[k1].id@ != out@[k2].id@,
        decreases v@.len() - i,
    {
        let x = v[i].clone();
        let ghost pre = v@.subrange(0, i as int);
        let ghost out0 = out@;
        proof {
            assert forall|k: int| 0 <= k < out0.len() implies out0[k].id@ != x.id@ by {
                let y = out0[k];
                out0.to_multiset_ensures();
                pre.to_multiset_ensures();
                assert(out0.contains(y));
                assert(out0.to_multiset().count(y) > 0);
                assert(pre.to_multiset().count(y) > 0);
                assert(pre.contains(y));
                let m = choose|m: int| 0 <= m < pre.len() && pre[m] == y;
                assert(v@[m] == y);
            }
        }
        let mut j: usize = 0;
        while j < out.len() && info_le_exec(&out[j], &x, order)
            invariant
                j <= out@.len(),
                out@ == out0,
                forall|k: int| 0 <= k < j ==> info_le(#[trigger] out@[k], x, order),
            decreases out@.len() - j,
        {
            j = j + 1;
        }
        proof {
            if j < out0.len() {
                lemma_info_le_total(out0[j as int], x, order);
            }
            assert forall|k: int| j <= k < out0.len() implies info_le(
                x,
                #[trigger] out0[k],
                order,
            ) by {
                if k > j {
                    assert(info_le(out0[j as int], out0[k], order));
                    lemma_info_le_trans(x, out0[j as int], out0[k], order);
                }
            }
        }
        out.insert(j, x);
        proof {
            broadcast use vstd::seq_lib::to_multiset_insert;

            assert(out@ == out0.insert(j as int, x));
            out0.insert_ensures(j as int, x);
            assert forall|i1: int, i2: int| 0 <= i1 < i2 < out@.len() implies info_le(
                out@[i1],
                out@[i2],
                order,
            ) by {
                if i1 < j && i2 < j {
                    assert(info_le(out0[i1], out0[i2], order));
                } else if i1 < j && i2 == j {
                    assert(info_le(out0[i1], x, order));
                } else if i1 < j && i2 > j {
                    assert(info_le(out0[i1], out0[i2 - 1], order));
                } else if i1 == j && i2 > j {
                    assert(info_le(x, out0[i2 - 1], order));
                } else if i1 > j && i2 > j {
                    assert(info_le(out0[i1 - 1], out0[i2 - 1], order));
                }
            }
            assert(out0.insert(j as int, x).to_multiset() == out0.to_multiset().insert(x));
            assert(v@.subrange(0, i + 1) =~= pre.push(v@[i as int]));
            pre.to_multiset_ensures();
            assert(pre.push(v@[i as int]).to_multiset() =~= pre.to_multiset().insert(v@[i as int]));
            assert(out@.to_multiset() == v@.subrange(0, i + 1).to_multiset());
        }
        i = i + 1;
    }
    proof {
        assert(v@.subrange(0, v@.len() as int) =~= v@);
    }
    out
}

/// Whether an entry's record can be read for listing: its metadata parses,
/// or none was ever persisted (which reads as the default).  An unparsable
/// record is excluded from the listing rather than failing the whole call.
pub open spec fn listable(e: SessionEntry) -> bool {
    !(e.metadata is Corrupt)
}

/// How many entries a listing includes.
pub open spec fn count_listed(s: Seq<SessionEntry>) -> nat
    decreases s.len(),
{
    if s.len() == 0 {
        0
    } else {
        count_listed(s.drop_last()) + if listable(s.last()) {
            1nat
        } else {
            0nat
        }
    }
}

/// A listing row faithful to one entry: same identifier and stamp, the
/// stored metadata when it parses, the default when none was persisted.
pub open spec fn info_matches(info: SessionInfo, e: SessionEntry) -> bool {
    &&& info.id == e.id
    &&& info.modified == e.modified
    &&& match e.metadata {
        StoredMetadata::Present(m) => info.metadata == m,
        StoredMetadata::Missing => is_default_metadata(info.metadata),
        StoredMetadata::Corrupt => false,
    }
}

/// The row is faithful to some entry of the catalog.
pub open spec fn info_listed(s: Seq<SessionEntry>, info: SessionInfo) -> bool {
    exists|j: int| 0 <= j < s.len() && info_matches(info, #[trigger] s[j])
}

proof fn lemma_count_listed_step(s: Seq<SessionEntry>, i: int)
    requires
        0 <= i < s.len(),
    ensures
        count_listed(s.subrange(0, i + 1)) == count_listed(s.subrange(0, i)) + if listable(
            s[i],
        ) {
            1nat
        } else {
            0nat
        },
{
    assert(s.subrange(0, i + 1).drop_last() =~= s.subrange(0, i));
    assert(s.subrange(0, i + 1).last() == s[i]);
}

proof fn lemma_completeness_step(entries: Seq<SessionEntry>, src0: Seq<int>, src1: Seq<int>, i: int)
    requires
        0 <= i < entries.len(),
        forall|j: int|
            0 <= j < i && listable(#[trigger] entries[j]) ==> exists|k: int|
                0 <= k < src0.len() && src0[k] == j,
        listable(entries[i]) ==> src1 == src0.push(i),
        !listable(entries[i]) ==> src1 == src0,
    ensures
        forall|j: int|
            0 <= j < i + 1 && listable(#[trigger] entries[j]) ==> exists|k: int|
                0 <= k < src1.len() && src1[k] == j,
{
    assert forall|j: int|
        0 <= j < i + 1 && listable(#[trigger] entries[j]) implies exists|k: int|
        0 <= k < src1.len() && src1[k] == j by {
        if j == i {
            assert(src1[src1.len() - 1] == i);
        } else {
            let k = choose|k: int| 0 <= k < src0.len() && src0[k] == j;
            assert(src1[k] == j);
        }
    }
}

/// One listing row per readable entry, in catalog order.
fn collect_infos(entries: &Vec<SessionEntry>) -> (r: Vec<SessionInfo>)
    requires
        wf_entries(entries@),
    ensures
        r@.len() == count_listed(entries@),
        forall|k: int| 0 <= k < r@.len() ==> info_listed(entries@, #[trigger] r@[k]),
        forall|k1: int, k2: int| 0 <= k1 < k2 < r@.len() ==> r@[k1].id@ != r@[k2].id@,
        forall|j: int|
            0 <= j < entries@.len() && listable(#[trigger] entries@[j]) ==> exists|k: int|
                0 <= k < r@.len() && r@[k].id@ == entries@[j].id@,
{
    let mut out: Vec<SessionInfo> = Vec::new();
    let ghost mut src: Seq<int> = Seq::empty();
    let mut i: usize = 0;
    while i < entries.len()
        invariant
            i <= entries@.len(),
            wf_entries(entries@),
            src.len() == out@.len(),
            out@.len() == count_listed(entries@.subrange(0, i as int)),
            forall|k: int| 0 <= k < src.len() ==> 0 <= #[trigger] src[k] < i,
            forall|k1: int, k2: int| 0 <= k1 < k2 < src.len() ==> src[k1] < src[k2],
            forall|k: int|
                0 <= k < src.len() ==> info_matches(#[trigger] out@[k], entries@[src[k]]),
            forall|j: int|
                0 <= j < i && listable(#[trigger] entries@[j]) ==> exists|k: int|
                    0 <= k < src.len() && src[k] == j,
        decreases entries@.len() - i,
    {
        proof {
            lemma_count_listed_step(entries@, i as int);
        }
        let ghost src0 = src;
        let e = &entries[i];
        match &e.metadata {
            StoredMetadata::Corrupt => {
                proof {
                    lemma_completeness_step(entries@, src0, src, i as int);
                }
            },
            StoredMetadata::Missing => {
                out.push(
                    SessionInfo {
                        id: e.id.clone(),
                        modified: e.modified.clone(),
                        metadata: SessionMetadata::default(),
                    },
                );
                proof {
                    src = src.push(i as int);
                    lemma_completeness_step(entries@, src0, src, i as int);
                }
            },
            StoredMetadata::Present(m) => {
                out.push(
                    SessionInfo {
                        id: e.id.clone(),
                        modified: e.modified.clone(),
                        metadata: m.clone(),
                    },
                );
                proof {
                    src = src.push(i as int);
                    lemma_completeness_step(entries@, src0, src, i as int);
                }
            },
        }
        i = i + 1;
    }
    proof {
        assert(entries@.subrange(0, entries@.len() as int) =~= entries@);
        assert forall|k1: int, k2: int|
            0 <= k1 < k2 < out@.len() implies out@[k1].id@ != out@[k2].id@ by {
            assert(info_matches(out@[k1], entries@[src[k1]]));
            assert(info_matches(out@[k2], entries@[src[k2]]));
            assert(src[k1] < src[k2]);
            assert(entries@[src[k1]].id@ != entries@[src[k2]].id@);
        }
        assert forall|k: int| 0 <= k < out@.len() implies info_listed(
            entries@,
            #[trigger] out@[k],
        ) by {
            assert(info_matches(out@[k], entries@[src[k]]));
        }
        assert forall|j: int|
            0 <= j < entries@.len() && listable(#[trigger] entries@[j]) implies exists|k: int|
            0 <= k < out@.len() && out@[k].id@ == entries@[j].id@ by {
            let k = choose|k: int| 0 <= k < src.len() && src[k] == j;
            assert(info_matches(out@[k], entries@[j]));
            assert(out@[k].id@ == entries@[j].id@);
        }
    }
    out
}

/// Enumerates every readable session of the catalog, sorted by modification
/// timestamp per `order` with ties broken by identifier ascending.  One
/// unreadable record is excluded, never a reason to fail the call; an empty
/// catalog yields an empty listing.
pub fn list_sessions(catalog: &Catalog, order: SortOrder) -> (r: SessionListResponse)
    requires
        catalog.wf(),
    ensures
        infos_sorted(r.sessions@, order),
        r.sessions@.len() == count_listed(catalog.entries@),
        forall|k: int|
            0 <= k < r.sessions@.len() ==> info_listed(catalog.entries@, #[trigger] r.sessions@[k]),
        forall|k1: int, k2: int|
            0 <= k1 < k2 < r.sessions@.len() ==> r.sessions@[k1].id@ != r.sessions@[k2].id@,
        forall|j: int|
            0 <= j < catalog.entries@.len() && listable(#[trigger] catalog.entries@[j])
                ==> exists|k: int|
                0 <= k < r.sessions@.len() && r.sessions@[k].id@ == catalog.entries@[j].id@,
        catalog.entries@.len() == 0 ==> r.sessions@.len() == 0,
{
    broadcast use vstd::seq_lib::group_to_multiset_ensures;

    let infos = collect_infos(&catalog.entries);
    let sorted = sort_infos(infos, order);
    proof {
        assert(sorted@.to_multiset().len() == sorted@.len());
        assert(infos@.to_multiset().len() == infos@.len());
        assert forall|k: int| 0 <= k < sorted@.len() implies info_listed(
            catalog.entries@,
            #[trigger] sorted@[k],
        ) by {
            let y = sorted@[k];
            assert(sorted@.contains(y));
            assert(sorted@.to_multiset().count(y) > 0);
            assert(infos@.contains(y));
            let m = choose|m: int| 0 <= m < infos@.len() && infos@[m] == y;
            assert(info_listed(catalog.entries@, infos@[m]));
        }
        assert forall|j: int|
            0 <= j < catalog.entries@.len() && listable(#[trigger] catalog.entries@[j]) implies
            exists|k: int|
            0 <= k < sorted@.len() && sorted@[k].id@ == catalog.entries@[j].id@ by {
            let k0 = choose|k0: int|
                0 <= k0 < infos@.len() && infos@[k0].id@ == catalog.entries@[j].id@;
            let y = infos@[k0];
            assert(infos@.contains(y));
            assert(infos@.to_multiset().count(y) > 0);
            assert(sorted@.contains(y));
            let k = choose|k: int| 0 <= k < sorted@.len() && sorted@[k] == y;
            assert(sorted@[k].id@ == catalog.entries@[j].id@);
        }
    }
    SessionListResponse { sessions: sorted }
}

} // verus!
