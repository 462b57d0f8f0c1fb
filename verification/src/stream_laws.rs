//! What reading the stream catalog gives, row by row.
use crate::decimal::{a_numeral_reads_back, decimal, numerals_are_unique};
use crate::ids::TabletId;
use crate::lineage::{climb, climb_adds};
use crate::meta::MetadataModel;
use crate::pitr::segments_for_generation;
use crate::rows::SplitLineage;
use crate::sorted_map::{listing, listing_exists};
use crate::streams::{
    chain_of, chain_rows, final_shard_above, in_chain, labelled, parent_shard_id, shard_id,
    shard_rows, shards_for_label, view_type_of,
};
use crate::value::Key;
use vstd::prelude::*;

verus! {

/// A tablet's chain of segments lists those of the table under the label, each once, as the catalog
/// has it, in ascending order of epoch.
pub proof fn a_chain_lists_the_segments_of_its_tablet(
    m: MetadataModel,
    table: Seq<char>,
    label: Seq<char>,
    tablet: TabletId,
)
    requires
        m.stream_shards.dom().finite(),
    ensures
        ({
            let rows = chain_rows(
                m,
                listing::<(TabletId, u64)>(chain_of(m, table, label, tablet)),
            );
            &&& forall|i: int|
                0 <= i < rows.len() ==> {
                    let (e, row) = #[trigger] rows[i];
                    &&& m.stream_shards.contains_key((tablet, e))
                    &&& row == m.stream_shards[(tablet, e)]
                    &&& row.table == table
                    &&& row.label == label
                }
            &&& forall|i: int, j: int|
                0 <= i < j < rows.len() ==> (#[trigger] rows[i]).0 < (#[trigger] rows[j]).0
            &&& forall|e: u64| #[trigger]
                m.stream_shards.contains_key((tablet, e)) && m.stream_shards[(tablet, e)].table
                    == table && m.stream_shards[(tablet, e)].label == label ==> exists|i: int|
                    0 <= i < rows.len() && (#[trigger] rows[i]).0 == e
        }),
{
    let set = chain_of(m, table, label, tablet);
    m.stream_shards.dom().lemma_len_filter(in_chain(m.stream_shards, table, label, tablet));
    listing_exists::<(TabletId, u64)>(set);
    let ids = listing::<(TabletId, u64)>(set);
    let rows = chain_rows(m, ids);
    assert forall|i: int| 0 <= i < rows.len() implies ({
        let (e, row) = #[trigger] rows[i];
        &&& m.stream_shards.contains_key((tablet, e))
        &&& row == m.stream_shards[(tablet, e)]
        &&& row.table == table
        &&& row.label == label
    }) by {
        assert(ids.contains(ids[i]));
    }
    assert forall|i: int, j: int| 0 <= i < j < rows.len() implies (#[trigger] rows[i]).0 < (
    #[trigger] rows[j]).0 by {
        assert(ids.contains(ids[i]) && ids.contains(ids[j]));
        assert(<(TabletId, u64)>::before(ids[i], ids[j]));
    }
    assert forall|e: u64| #[trigger]
        m.stream_shards.contains_key((tablet, e)) && m.stream_shards[(tablet, e)].table == table
            && m.stream_shards[(tablet, e)].label == label implies exists|i: int|
        0 <= i < rows.len() && (#[trigger] rows[i]).0 == e by {
        assert(set.contains((tablet, e)));
        assert(ids.contains((tablet, e)));
        let i = choose|i: int| 0 <= i < ids.len() && ids[i] == (tablet, e);
        assert(rows[i].0 == e);
    }
}

/// The segments of a table under a label are listed each once, as the catalog has them, in
/// ascending order of tablet and epoch.
pub proof fn the_segments_of_a_label_are_listed_as_they_are(
    m: MetadataModel,
    table: Seq<char>,
    label: Seq<char>,
)
    requires
        m.stream_shards.dom().finite(),
    ensures
        ({
            let rows = shard_rows(
                m,
                listing::<(TabletId, u64)>(shards_for_label(m, table, label)),
            );
            &&& forall|i: int|
                0 <= i < rows.len() ==> {
                    let (t, e, row) = #[trigger] rows[i];
                    &&& m.stream_shards.contains_key((t, e))
                    &&& row == m.stream_shards[(t, e)]
                    &&& row.table == table
                    &&& row.label == label
                }
            &&& forall|i: int, j: int|
                0 <= i < j < rows.len() ==> {
                    let (t, e, _) = #[trigger] rows[i];
                    let (u, f, _) = #[trigger] rows[j];
                    t.0 < u.0 || (t == u && e < f)
                }
            &&& forall|k: (TabletId, u64)| #[trigger]
                m.stream_shards.contains_key(k) && m.stream_shards[k].table == table
                    && m.stream_shards[k].label == label ==> exists|i: int|
                    0 <= i < rows.len() && (#[trigger] rows[i]).0 == k.0 && rows[i].1 == k.1
        }),
{
    let set = shards_for_label(m, table, label);
    m.stream_shards.dom().lemma_len_filter(labelled(m.stream_shards, table, label));
    listing_exists::<(TabletId, u64)>(set);
    let ids = listing::<(TabletId, u64)>(set);
    let rows = shard_rows(m, ids);
    assert forall|i: int| 0 <= i < rows.len() implies ({
        let (t, e, row) = #[trigger] rows[i];
        &&& m.stream_shards.contains_key((t, e))
        &&& row == m.stream_shards[(t, e)]
        &&& row.table == table
        &&& row.label == label
    }) by {
        assert(ids.contains(ids[i]));
        assert(ids[i] == (ids[i].0, ids[i].1));
    }
    assert forall|i: int, j: int| 0 <= i < j < rows.len() implies ({
        let (t, e, _) = #[trigger] rows[i];
        let (u, f, _) = #[trigger] rows[j];
        t.0 < u.0 || (t == u && e < f)
    }) by {
        assert(<(TabletId, u64)>::before(ids[i], ids[j]));
    }
    assert forall|k: (TabletId, u64)| #[trigger]
        m.stream_shards.contains_key(k) && m.stream_shards[k].table == table
            && m.stream_shards[k].label == label implies exists|i: int|
        0 <= i < rows.len() && (#[trigger] rows[i]).0 == k.0 && rows[i].1 == k.1 by {
        assert(set.contains(k));
        assert(ids.contains(k));
        let i = choose|i: int| 0 <= i < ids.len() && ids[i] == k;
        assert(rows[i].0 == k.0);
    }
}

/// A table has segments under a label, or of a generation, exactly if the catalog has one.
pub proof fn what_has_segments(
    m: MetadataModel,
    table: Seq<char>,
    label: Seq<char>,
    generation: u64,
    k: (TabletId, u64),
)
    ensures
        shards_for_label(m, table, label).contains(k) <==> m.stream_shards.contains_key(k)
            && m.stream_shards[k].table == table && m.stream_shards[k].label == label,
        segments_for_generation(m, table, generation).contains(k) <==> m.pitr_segments.contains_key(
            k,
        ) && m.pitr_segments[k].table == table && m.pitr_segments[k].generation == generation,
{
}

/// The view type under a label is that of the stream while the stream has the label; after that it
/// is that of a segment of the label, the first one. Without either there is none.
pub proof fn a_label_keeps_its_view_type(m: MetadataModel, table: Seq<char>, label: Seq<char>)
    requires
        m.stream_shards.dom().finite(),
    ensures
        ({
            let streams = m.schemas.contains_key(table) && m.schemas[table].stream is Some
                && m.schemas[table].stream->0.label == label;
            let v = view_type_of(m, table, label);
            &&& streams ==> v == Some(m.schemas[table].stream->0.view_type)
            &&& !streams && v is Some ==> exists|k: (TabletId, u64)|
                {
                    &&& #[trigger] m.stream_shards.contains_key(k)
                    &&& m.stream_shards[k].table == table
                    &&& m.stream_shards[k].label == label
                    &&& m.stream_shards[k].view_type == v->0
                    &&& forall|l: (TabletId, u64)| #[trigger]
                        m.stream_shards.contains_key(l) && m.stream_shards[l].table == table
                            && m.stream_shards[l].label == label ==> k.0.0 < l.0.0 || (k.0 == l.0
                            && k.1 <= l.1)
                }
            &&& !streams && v is None ==> forall|k: (TabletId, u64)| #[trigger]
                m.stream_shards.contains_key(k) ==> m.stream_shards[k].table != table
                    || m.stream_shards[k].label != label
        }),
{
    let set = shards_for_label(m, table, label);
    m.stream_shards.dom().lemma_len_filter(labelled(m.stream_shards, table, label));
    listing_exists::<(TabletId, u64)>(set);
    let ids = listing::<(TabletId, u64)>(set);
    if ids.len() > 0 {
        let k = ids[0];
        assert(ids.contains(k));
        assert(m.stream_shards.contains_key(k));
        assert forall|l: (TabletId, u64)| #[trigger]
            m.stream_shards.contains_key(l) && m.stream_shards[l].table == table
                && m.stream_shards[l].label == label implies k.0.0 < l.0.0 || (k.0 == l.0 && k.1
            <= l.1) by {
            assert(set.contains(l));
            assert(ids.contains(l));
            let i = choose|i: int| 0 <= i < ids.len() && ids[i] == l;
            if i > 0 {
                assert(<(TabletId, u64)>::before(ids[0], ids[i]));
            }
        }
    } else {
        assert forall|k: (TabletId, u64)| #[trigger] m.stream_shards.contains_key(k) implies
            m.stream_shards[k].table != table || m.stream_shards[k].label != label by {
            if set.contains(k) {
                assert(ids.contains(k));
            }
        }
    }
}

/// Whether `n` steps above `tablet`, past splits whose parents sealed nothing, there is a split
/// whose parent `p` sealed `e` last.
pub open spec fn sealed_above(
    lineage: Map<TabletId, SplitLineage>,
    tablet: TabletId,
    n: nat,
    p: TabletId,
    e: u64,
) -> bool {
    &&& climb(lineage, tablet, n) is Some
    &&& lineage.contains_key(climb(lineage, tablet, n)->0)
    &&& lineage[climb(lineage, tablet, n)->0].parent == p
    &&& lineage[climb(lineage, tablet, n)->0].parents_final_epoch == Some(e)
    &&& forall|k: nat|
        k < n ==> lineage.contains_key((#[trigger] climb(lineage, tablet, k))->0)
            && lineage[climb(lineage, tablet, k)->0].parents_final_epoch is None
}

proof fn the_segment_above(
    lineage: Map<TabletId, SplitLineage>,
    tablet: TabletId,
    budget: nat,
    p: TabletId,
    e: u64,
)
    ensures
        final_shard_above(lineage, tablet, budget) == Some((p, e)) <==> exists|n: nat|
            n <= budget && sealed_above(lineage, tablet, n, p, e),
    decreases budget,
{
    assert(climb(lineage, tablet, 0) == Some(tablet));
    if lineage.contains_key(tablet) {
        let row = lineage[tablet];
        assert(climb(lineage, tablet, 1) == Some(row.parent));
        if row.parents_final_epoch is Some {
            if final_shard_above(lineage, tablet, budget) == Some((p, e)) {
                assert(sealed_above(lineage, tablet, 0, p, e));
            }
            if exists|n: nat| n <= budget && sealed_above(lineage, tablet, n, p, e) {
                let n = choose|n: nat| n <= budget && sealed_above(lineage, tablet, n, p, e);
                if n > 0 {
                    assert(lineage[climb(lineage, tablet, 0)->0].parents_final_epoch is None);
                }
            }
        } else if budget > 0 {
            let rest = (budget - 1) as nat;
            the_segment_above(lineage, row.parent, rest, p, e);
            if final_shard_above(lineage, tablet, budget) == Some((p, e)) {
                let n = choose|n: nat| n <= rest && sealed_above(lineage, row.parent, n, p, e);
                climb_adds(lineage, tablet, 1, n);
                assert forall|k: nat| k < n + 1 implies lineage.contains_key(
                    (#[trigger] climb(lineage, tablet, k))->0,
                ) && lineage[climb(lineage, tablet, k)->0].parents_final_epoch is None by {
                    if k > 0 {
                        climb_adds(lineage, tablet, 1, (k - 1) as nat);
                        assert(1 + (k - 1) as nat == k);
                        assert(lineage.contains_key(
                            climb(lineage, row.parent, (k - 1) as nat)->0,
                        ));
                    }
                }
                assert(sealed_above(lineage, tablet, 1 + n, p, e));
            }
            if exists|n: nat| n <= budget && sealed_above(lineage, tablet, n, p, e) {
                let n = choose|n: nat| n <= budget && sealed_above(lineage, tablet, n, p, e);
                assert(n > 0);
                let l = (n - 1) as nat;
                climb_adds(lineage, tablet, 1, l);
                assert(1 + l == n);
                assert forall|k: nat| k < l implies lineage.contains_key(
                    (#[trigger] climb(lineage, row.parent, k))->0,
                ) && lineage[climb(lineage, row.parent, k)->0].parents_final_epoch is None by {
                    climb_adds(lineage, tablet, 1, k);
                    assert(lineage.contains_key(climb(lineage, tablet, 1 + k)->0));
                }
                assert(sealed_above(lineage, row.parent, l, p, e));
            }
        } else {
            if exists|n: nat| n <= budget && sealed_above(lineage, tablet, n, p, e) {
                let n = choose|n: nat| n <= budget && sealed_above(lineage, tablet, n, p, e);
                assert(n == 0);
            }
        }
    } else {
        if exists|n: nat| n <= budget && sealed_above(lineage, tablet, n, p, e) {
            let n = choose|n: nat| n <= budget && sealed_above(lineage, tablet, n, p, e);
            if n > 0 {
                assert(lineage.contains_key(climb(lineage, tablet, 0)->0));
            }
        }
    }
}

/// Before a segment comes the tablet's previous one. Before a tablet's first comes the last one
/// that was sealed above it: that of the nearest tablet it was split from, past those that sealed
/// nothing. Without such a tablet nothing comes before.
pub proof fn what_comes_before_a_segment(m: MetadataModel, tablet: TabletId, epoch: u64)
    ensures
        epoch > 0 ==> parent_shard_id(m, tablet, epoch) == Some(
            shard_id(tablet, (epoch - 1) as u64),
        ),
        epoch == 0 ==> {
            &&& forall|n: nat, p: TabletId, e: u64| #[trigger]
                sealed_above(m.split_lineage, tablet, n, p, e) && n <= m.split_lineage.dom().len()
                    ==> parent_shard_id(m, tablet, epoch) == Some(shard_id(p, e))
            &&& (forall|n: nat, p: TabletId, e: u64| #[trigger]
                sealed_above(m.split_lineage, tablet, n, p, e) ==> n > m.split_lineage.dom().len())
                ==> parent_shard_id(m, tablet, epoch) is None
        },
{
    let l = m.split_lineage;
    let budget = l.dom().len();
    if epoch == 0 {
        assert forall|n: nat, p: TabletId, e: u64| #[trigger]
            sealed_above(l, tablet, n, p, e) && n <= budget implies parent_shard_id(
            m,
            tablet,
            epoch,
        ) == Some(shard_id(p, e)) by {
            the_segment_above(l, tablet, budget, p, e);
        }
        if final_shard_above(l, tablet, budget) is Some {
            let (p, e) = final_shard_above(l, tablet, budget)->0;
            the_segment_above(l, tablet, budget, p, e);
            let n = choose|n: nat| n <= budget && sealed_above(l, tablet, n, p, e);
            assert(sealed_above(l, tablet, n, p, e));
        }
    }
}

proof fn up_to_the_dash(a: Seq<char>, x: Seq<char>, b: Seq<char>, y: Seq<char>)
    requires
        a + "-"@ + x == b + "-"@ + y,
        forall|i: int| 0 <= i < a.len() ==> #[trigger] a[i] != '-',
        forall|i: int| 0 <= i < b.len() ==> #[trigger] b[i] != '-',
    ensures
        a == b,
        x == y,
{
    reveal_strlit("-");
    let l = a + "-"@ + x;
    let r = b + "-"@ + y;
    assert(l[a.len() as int] == '-');
    assert(r[b.len() as int] == '-');
    if a.len() < b.len() {
        assert(r[a.len() as int] == b[a.len() as int]);
    } else if b.len() < a.len() {
        assert(l[b.len() as int] == a[b.len() as int]);
    }
    assert(a =~= l.subrange(0, a.len() as int));
    assert(b =~= r.subrange(0, a.len() as int));
    assert(x =~= l.subrange(a.len() as int + 1, l.len() as int));
    assert(y =~= r.subrange(a.len() as int + 1, r.len() as int));
}

/// The name of a segment is that of no other: it tells the tablet and the epoch.
pub proof fn segment_names_are_unique(t: TabletId, e: u64, u: TabletId, f: u64)
    requires
        shard_id(t, e) == shard_id(u, f),
    ensures
        t == u,
        e == f,
{
    let (a, x) = (decimal(t.0 as nat), decimal(e as nat));
    let (b, y) = (decimal(u.0 as nat), decimal(f as nat));
    let head = "shardId-"@;
    let n = head.len() as int;
    a_numeral_reads_back(t.0 as nat);
    a_numeral_reads_back(u.0 as nat);
    let (l, r) = (shard_id(t, e), shard_id(u, f));
    assert(l.subrange(n, l.len() as int) =~= a + "-"@ + x);
    assert(r.subrange(n, r.len() as int) =~= b + "-"@ + y);
    assert forall|i: int| 0 <= i < a.len() implies #[trigger] a[i] != '-' by {}
    assert forall|i: int| 0 <= i < b.len() implies #[trigger] b[i] != '-' by {}
    up_to_the_dash(a, x, b, y);
    numerals_are_unique(t.0 as nat, u.0 as nat);
    numerals_are_unique(e as nat, f as nat);
}

} // verus!
