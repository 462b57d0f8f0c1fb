//! A bounded window over the latest key changes, for readers that only lag a little.
use crate::mirror::{KeyWrite, KeyWriteModel};
use crate::value::Value;
use std::collections::VecDeque;
use vstd::prelude::*;

verus! {

/// How many entries a ring keeps unless it is told otherwise.
pub const DEFAULT_MAX_ENTRIES: usize = 1024;

/// How many bytes a ring keeps unless it is told otherwise.
pub const DEFAULT_MAX_BYTES: usize = 4 * 1024 * 1024;

/// What the index of an entry counts against the byte bound.
pub const INDEX_BYTES: usize = 8;

/// The changes that were made at one index.
#[derive(Debug, PartialEq, Eq)]
pub struct DeltaEntry {
    /// The index.
    pub index: u64,
    /// The changes; a command that changed nothing has none.
    pub writes: Vec<KeyWrite>,
}

/// The mathematical value of a [`DeltaEntry`].
#[verifier::ext_equal]
pub struct DeltaEntryModel {
    pub index: u64,
    pub writes: Seq<KeyWriteModel>,
}

impl DeepView for DeltaEntry {
    type V = DeltaEntryModel;

    open spec fn deep_view(&self) -> DeltaEntryModel {
        DeltaEntryModel { index: self.index, writes: self.writes.deep_view() }
    }
}

/// How many bytes a change holds.
pub open spec fn write_size(w: KeyWriteModel) -> nat {
    match w {
        KeyWriteModel::Put(k, v) => k.len() + v.len(),
        KeyWriteModel::Delete(k) => k.len(),
    }
}

/// How many bytes changes hold.
pub open spec fn writes_size(ws: Seq<KeyWriteModel>) -> nat
    decreases ws.len(),
{
    if ws.len() == 0 {
        0
    } else {
        writes_size(ws.drop_last()) + write_size(ws.last())
    }
}

/// What an entry counts against the byte bound.
pub open spec fn size_of_entry(e: DeltaEntryModel) -> nat {
    INDEX_BYTES as nat + writes_size(e.writes)
}

/// What entries count against the byte bound.
pub open spec fn total_size(es: Seq<DeltaEntryModel>) -> nat
    decreases es.len(),
{
    if es.len() == 0 {
        0
    } else {
        total_size(es.drop_last()) + size_of_entry(es.last())
    }
}

/// Every entry has a higher index than the ones before it.
pub open spec fn rising(es: Seq<DeltaEntryModel>) -> bool {
    forall|i: int, j: int|
        0 <= i < j < es.len() ==> (#[trigger] es[i]).index < (#[trigger] es[j]).index
}

/// What is kept of entries: the oldest go while there is more than one and a bound is exceeded.
pub open spec fn kept(es: Seq<DeltaEntryModel>, max_entries: nat, max_bytes: nat) -> Seq<
    DeltaEntryModel,
>
    decreases es.len(),
{
    if es.len() > 1 && (es.len() > max_entries || total_size(es) > max_bytes) {
        kept(es.drop_first(), max_entries, max_bytes)
    } else {
        es
    }
}

/// The changes of the entries after `last_seen` up to `upto`, in order.
pub open spec fn changes(es: Seq<DeltaEntryModel>, last_seen: u64, upto: u64) -> Seq<KeyWriteModel>
    decreases es.len(),
{
    if es.len() == 0 {
        Seq::empty()
    } else {
        let before = changes(es.drop_last(), last_seen, upto);
        if last_seen < es.last().index <= upto {
            before + es.last().writes
        } else {
            before
        }
    }
}

/// What a reader at `last_seen` is told to catch up to `upto`: nothing where it has nothing to
/// catch up, no answer where the entries do not reach back or forward far enough, else every
/// change between.
pub open spec fn answer(es: Seq<DeltaEntryModel>, last_seen: u64, upto: u64) -> Option<
    Seq<KeyWriteModel>,
> {
    if last_seen >= upto {
        Some(Seq::empty())
    } else if es.len() == 0 || last_seen + 1 < es[0].index || es.last().index < upto {
        None
    } else {
        Some(changes(es, last_seen, upto))
    }
}

proof fn total_size_split(es: Seq<DeltaEntryModel>)
    requires
        es.len() > 0,
    ensures
        total_size(es) == size_of_entry(es[0]) + total_size(es.drop_first()),
    decreases es.len(),
{
    if es.len() > 1 {
        total_size_split(es.drop_last());
        assert(es.drop_first().drop_last() =~= es.drop_last().drop_first());
    } else {
        assert(es.drop_first() =~= Seq::empty());
        assert(es.drop_last() =~= Seq::empty());
    }
}

proof fn writes_size_prefix(ws: Seq<KeyWriteModel>, n: int)
    requires
        0 <= n <= ws.len(),
    ensures
        writes_size(ws.take(n)) <= writes_size(ws),
    decreases ws.len() - n,
{
    if n < ws.len() {
        writes_size_prefix(ws, n + 1);
        assert(ws.take(n + 1).drop_last() =~= ws.take(n));
    } else {
        assert(ws.take(n) =~= ws);
    }
}

/// What an entry counts against the byte bound.
pub fn entry_size(entry: &DeltaEntry) -> (r: usize)
    requires
        size_of_entry(entry.deep_view()) <= usize::MAX,
    ensures
        r == size_of_entry(entry.deep_view()),
{
    let ghost all = entry.writes.deep_view();
    let mut sum: usize = INDEX_BYTES;
    let mut i: usize = 0;
    assert(all.take(0) =~= Seq::empty());
    while i < entry.writes.len()
        invariant
            i <= entry.writes@.len(),
            all == entry.writes.deep_view(),
            all.len() == entry.writes@.len(),
            INDEX_BYTES as nat + writes_size(all) <= usize::MAX,
            sum == INDEX_BYTES as nat + writes_size(all.take(i as int)),
        decreases entry.writes@.len() - i,
    {
        proof {
            writes_size_prefix(all, i + 1);
            assert(all.take(i + 1).drop_last() =~= all.take(i as int));
            assert(all.take(i + 1).last() == entry.writes@[i as int].deep_view());
        }
        let size: usize = match &entry.writes[i] {
            KeyWrite::Put(k, v) => k.len() + v.len(),
            KeyWrite::Delete(k) => k.len(),
        };
        sum = sum + size;
        i = i + 1;
    }
    assert(all.take(i as int) =~= all);
    sum
}

/// A bounded window over the latest changes; the oldest entries leave first.
#[derive(Debug)]
pub struct DeltaRing {
    entries: VecDeque<DeltaEntry>,
    bytes: usize,
    max_entries: usize,
    max_bytes: usize,
}

impl DeltaRing {
    /// What the ring holds, oldest first.
    pub closed spec fn held(self) -> Seq<DeltaEntryModel> {
        self.entries.deep_view()
    }

    /// How many entries it may hold.
    pub closed spec fn entry_bound(self) -> usize {
        self.max_entries
    }

    /// How many bytes it may hold.
    pub closed spec fn byte_bound(self) -> usize {
        self.max_bytes
    }

    #[verifier::type_invariant]
    spec fn well_formed(self) -> bool {
        &&& rising(self.held())
        &&& self.bytes == total_size(self.held())
    }

    /// An empty ring with the given bounds.
    #[must_use]
    pub fn with_bounds(max_entries: usize, max_bytes: usize) -> (r: Self)
        ensures
            r.held() == Seq::<DeltaEntryModel>::empty(),
            r.entry_bound() == max_entries,
            r.byte_bound() == max_bytes,
    {
        let entries: VecDeque<DeltaEntry> = VecDeque::new();
        assert(entries.deep_view() =~= Seq::empty());
        DeltaRing { entries, bytes: 0, max_entries, max_bytes }
    }

    /// Empties the ring.
    pub fn clear(&mut self)
        ensures
            final(self).held() == Seq::<DeltaEntryModel>::empty(),
            final(self).entry_bound() == old(self).entry_bound(),
            final(self).byte_bound() == old(self).byte_bound(),
    {
        *self = DeltaRing::with_bounds(self.max_entries, self.max_bytes);
    }

    /// Adds the changes that were made at `index`, and lets the oldest entries go while a bound is
    /// exceeded; the entry just added stays.
    pub fn push(&mut self, index: u64, writes: Vec<KeyWrite>)
        requires
            old(self).held().len() > 0 ==> old(self).held().last().index < index,
            total_size(old(self).held()) + INDEX_BYTES + writes_size(writes.deep_view())
                <= usize::MAX,
        ensures
            final(self).held() == kept(
                old(self).held().push(DeltaEntryModel { index, writes: writes.deep_view() }),
                old(self).entry_bound() as nat,
                old(self).byte_bound() as nat,
            ),
            rising(final(self).held()),
            final(self).held().len() > 0,
            final(self).held().len() == 1 || (final(self).held().len() <= old(self).entry_bound()
                && total_size(final(self).held()) <= old(self).byte_bound()),
            index > 0 ==> answer(final(self).held(), (index - 1) as u64, index) == Some(
                writes.deep_view(),
            ),
            final(self).entry_bound() == old(self).entry_bound(),
            final(self).byte_bound() == old(self).byte_bound(),
    {
        let ghost before = self.held();
        let max_entries: usize = self.max_entries;
        let max_bytes: usize = self.max_bytes;
        let mut taken: DeltaRing = DeltaRing::with_bounds(max_entries, max_bytes);
        std::mem::swap(self, &mut taken);
        proof {
            use_type_invariant(&taken);
        }
        let mut entries: VecDeque<DeltaEntry> = taken.entries;
        let mut bytes: usize = taken.bytes;
        let entry = DeltaEntry { index, writes };
        let ghost added = entry.deep_view();
        let size: usize = entry_size(&entry);
        bytes = bytes + size;
        entries.push_back(entry);
        let ghost all = before.push(added);
        proof {
            assert(all.drop_last() =~= before);
            assert(entries.deep_view() =~= all);
        }
        while entries.len() > 1 && (entries.len() > max_entries || bytes > max_bytes)
            invariant
                entries@.len() >= 1,
                rising(entries.deep_view()),
                bytes == total_size(entries.deep_view()),
                kept(entries.deep_view(), max_entries as nat, max_bytes as nat) == kept(
                    all,
                    max_entries as nat,
                    max_bytes as nat,
                ),
            decreases entries@.len(),
        {
            let ghost was = entries.deep_view();
            proof {
                total_size_split(was);
                assert(was.len() == entries@.len());
                assert(was[0] == entries@[0].deep_view());
            }
            if let Some(evicted) = entries.pop_front() {
                proof {
                    assert(entries.deep_view() =~= was.drop_first());
                    assert(evicted.deep_view() == was[0]);
                }
                let gone: usize = entry_size(&evicted);
                bytes = bytes - gone;
            }
        }
        proof {
            the_newest_entries_are_kept(all, max_entries as nat, max_bytes as nat);
            the_pushed_entry_is_answered(all, max_entries as nat, max_bytes as nat);
        }
        *self = DeltaRing { entries, bytes, max_entries, max_bytes };
    }

    /// The changes after `last_seen` up to `upto`, in order, or `None` if the ring does not hold
    /// all of them.
    #[must_use]
    pub fn writes_since(&self, last_seen: u64, upto: u64) -> (r: Option<Vec<KeyWrite>>)
        ensures
            r.deep_view() == answer(self.held(), last_seen, upto),
    {
        let mut writes: Vec<KeyWrite> = Vec::new();
        assert(writes.deep_view() =~= Seq::empty());
        if last_seen >= upto {
            return Some(writes);
        }
        let n: usize = self.entries.len();
        let ghost es = self.held();
        assert(es.len() == self.entries@.len());
        if n == 0 {
            return None;
        }
        assert(es[0].index == self.entries@[0].index);
        assert(es.last().index == self.entries@[n - 1].index);
        if last_seen + 1 < self.entries[0].index {
            return None;
        }
        if self.entries[n - 1].index < upto {
            return None;
        }
        let mut i: usize = 0;
        assert(es.take(0) =~= Seq::empty());
        while i < n
            invariant
                i <= n,
                n == self.entries@.len(),
                es == self.held(),
                es.len() == n,
                writes.deep_view() == changes(es.take(i as int), last_seen, upto),
            decreases n - i,
        {
            let entry: &DeltaEntry = &self.entries[i];
            proof {
                assert(es.take(i + 1).drop_last() =~= es.take(i as int));
                assert(es.take(i + 1).last() == entry.deep_view());
            }
            if entry.index > last_seen && entry.index <= upto {
                let ghost before = writes.deep_view();
                let mut more: Vec<KeyWrite> = entry.writes.dup();
                let ghost extra = more.deep_view();
                writes.append(&mut more);
                assert(writes.deep_view() =~= before + extra);
            }
            i = i + 1;
        }
        assert(es.take(i as int) =~= es);
        Some(writes)
    }

    /// How many entries the ring holds.
    #[must_use]
    pub fn len(&self) -> (r: usize)
        ensures
            r == self.held().len(),
    {
        self.entries.len()
    }

    /// What the entries of the ring count against the byte bound.
    #[must_use]
    pub fn bytes(&self) -> (r: usize)
        ensures
            r == total_size(self.held()),
    {
        proof {
            use_type_invariant(self);
        }
        self.bytes
    }
}

impl Default for DeltaRing {
    fn default() -> (r: Self)
        ensures
            r.held() == Seq::<DeltaEntryModel>::empty(),
            r.entry_bound() == DEFAULT_MAX_ENTRIES,
            r.byte_bound() == DEFAULT_MAX_BYTES,
    {
        DeltaRing::with_bounds(DEFAULT_MAX_ENTRIES, DEFAULT_MAX_BYTES)
    }
}

/// What is kept is the end of what there was: the newest entry always stays, and either it is alone
/// or both bounds hold.
pub proof fn the_newest_entries_are_kept(
    es: Seq<DeltaEntryModel>,
    max_entries: nat,
    max_bytes: nat,
) -> (n: int)
    requires
        es.len() > 0,
    ensures
        0 <= n < es.len(),
        kept(es, max_entries, max_bytes) == es.skip(n),
        kept(es, max_entries, max_bytes).len() == 1 || (kept(es, max_entries, max_bytes).len()
            <= max_entries && total_size(kept(es, max_entries, max_bytes)) <= max_bytes),
        forall|k: int|
            0 <= k < n ==> es.skip(k).len() > max_entries || total_size(#[trigger] es.skip(k))
                > max_bytes,
    decreases es.len(),
{
    if es.len() > 1 && (es.len() > max_entries || total_size(es) > max_bytes) {
        let n = the_newest_entries_are_kept(es.drop_first(), max_entries, max_bytes);
        assert(es.drop_first().skip(n) =~= es.skip(n + 1));
        assert forall|k: int| 0 <= k < n + 1 implies es.skip(k).len() > max_entries || total_size(
            #[trigger] es.skip(k),
        ) > max_bytes by {
            if k > 0 {
                assert(es.drop_first().skip(k - 1) =~= es.skip(k));
            } else {
                assert(es.skip(0) =~= es);
            }
        }
        n + 1
    } else {
        assert(es.skip(0) =~= es);
        0
    }
}

/// An answer misses nothing: whatever was pushed and has left the ring since, a reader that is
/// answered is told every change after `last_seen` up to `upto`.
pub proof fn an_answer_misses_nothing(
    pushed: Seq<DeltaEntryModel>,
    gone: int,
    last_seen: u64,
    upto: u64,
)
    requires
        rising(pushed),
        0 <= gone <= pushed.len(),
        answer(pushed.skip(gone), last_seen, upto) is Some,
        last_seen < upto,
    ensures
        answer(pushed.skip(gone), last_seen, upto) == Some(changes(pushed, last_seen, upto)),
{
    let es = pushed.skip(gone);
    assert(es[0] == pushed[gone]);
    changes_skip(pushed, gone, last_seen, upto);
}

proof fn changes_skip(pushed: Seq<DeltaEntryModel>, gone: int, last_seen: u64, upto: u64)
    requires
        0 <= gone < pushed.len(),
        rising(pushed),
        last_seen + 1 >= pushed[gone].index,
    ensures
        changes(pushed.skip(gone), last_seen, upto) == changes(pushed, last_seen, upto),
    decreases pushed.len(),
{
    let rest = pushed.drop_last();
    assert(pushed.skip(gone).last() == pushed.last());
    if gone < rest.len() {
        assert(rest[gone] == pushed[gone]);
        changes_skip(rest, gone, last_seen, upto);
        assert(pushed.skip(gone).drop_last() =~= rest.skip(gone));
    } else {
        assert(pushed.skip(gone).drop_last() =~= Seq::empty());
        assert(forall|i: int|
            0 <= i < rest.len() ==> (#[trigger] rest[i]).index < pushed[gone].index);
        nothing_before(rest, last_seen, upto, pushed[gone].index);
        nothing_before(pushed.skip(gone).drop_last(), last_seen, upto, pushed[gone].index);
    }
}

proof fn nothing_before(es: Seq<DeltaEntryModel>, last_seen: u64, upto: u64, index: u64)
    requires
        forall|i: int| 0 <= i < es.len() ==> (#[trigger] es[i]).index < index,
        last_seen + 1 >= index,
    ensures
        changes(es, last_seen, upto) == Seq::<KeyWriteModel>::empty(),
    decreases es.len(),
{
    if es.len() > 0 {
        assert(es.last() == es[es.len() - 1]);
        nothing_before(es.drop_last(), last_seen, upto, index);
    }
}

/// The entry that was pushed last is never let go: whatever the bounds, a reader that lacks it
/// alone is told its changes.
pub proof fn the_pushed_entry_is_answered(
    es: Seq<DeltaEntryModel>,
    max_entries: nat,
    max_bytes: nat,
)
    requires
        es.len() > 0,
        rising(es),
    ensures
        es.last().index > 0 ==> answer(
            kept(es, max_entries, max_bytes),
            (es.last().index - 1) as u64,
            es.last().index,
        ) == Some(es.last().writes),
{
    let n = the_newest_entries_are_kept(es, max_entries, max_bytes);
    let k = es.skip(n);
    let index = es.last().index;
    assert(k.last() == es.last());
    assert(k[0] == es[n]);
    if index > 0 {
        let last_seen = (index - 1) as u64;
        assert forall|i: int| 0 <= i < k.drop_last().len() implies (
        #[trigger] k.drop_last()[i]).index < index by {
            assert(k.drop_last()[i] == es[n + i]);
            assert(es[n + i].index < es[es.len() - 1].index);
        }
        nothing_before(k.drop_last(), last_seen, index, index);
        assert(changes(k, last_seen, index) =~= es.last().writes);
    }
}

/// Catching up in two steps is catching up in one.
pub proof fn catching_up_in_two_steps(es: Seq<DeltaEntryModel>, from: u64, over: u64, upto: u64)
    requires
        rising(es),
        from <= over <= upto,
    ensures
        changes(es, from, upto) == changes(es, from, over) + changes(es, over, upto),
        answer(es, from, over) is Some && answer(es, over, upto) is Some ==> answer(es, from, upto)
            == Some(answer(es, from, over)->0 + answer(es, over, upto)->0),
{
    changes_in_two_steps(es, from, over, upto);
    changes_of_no_step(es, from);
    changes_of_no_step(es, upto);
    let first = changes(es, from, over);
    let second = changes(es, over, upto);
    assert(Seq::<KeyWriteModel>::empty() + second =~= second);
    assert(first + Seq::<KeyWriteModel>::empty() =~= first);
    if from == over {
        assert(Seq::<KeyWriteModel>::empty() + answer(es, over, upto)->0 =~= answer(
            es,
            over,
            upto,
        )->0);
    }
}

proof fn changes_of_no_step(es: Seq<DeltaEntryModel>, at: u64)
    ensures
        changes(es, at, at) == Seq::<KeyWriteModel>::empty(),
    decreases es.len(),
{
    if es.len() > 0 {
        changes_of_no_step(es.drop_last(), at);
    }
}

proof fn changes_in_two_steps(es: Seq<DeltaEntryModel>, from: u64, over: u64, upto: u64)
    requires
        rising(es),
        from <= over <= upto,
    ensures
        changes(es, from, upto) == changes(es, from, over) + changes(es, over, upto),
    decreases es.len(),
{
    if es.len() > 0 {
        let rest = es.drop_last();
        let index = es.last().index;
        changes_in_two_steps(rest, from, over, upto);
        if from < index <= over {
            assert forall|i: int| 0 <= i < rest.len() implies (#[trigger] rest[i]).index
                < index by {
                assert(es[i].index < es[es.len() - 1].index);
            }
            nothing_before(rest, over, upto, index);
        }
        assert(changes(es, from, upto) =~= changes(es, from, over) + changes(es, over, upto));
    } else {
        assert(changes(es, from, upto) =~= changes(es, from, over) + changes(es, over, upto));
    }
}

/// A change counts the bytes of its key, and of its value if it puts one. An entry counts eight
/// bytes and its changes, and entries count what each of them counts.
pub proof fn every_byte_counts_once(
    es: Seq<DeltaEntryModel>,
    e: DeltaEntryModel,
    key: Seq<u8>,
    value: Seq<u8>,
)
    ensures
        size_of_entry(DeltaEntryModel { index: e.index, writes: Seq::empty() }) == 8,
        size_of_entry(
            DeltaEntryModel {
                index: e.index,
                writes: e.writes.push(KeyWriteModel::Put(key, value)),
            },
        ) == size_of_entry(e) + key.len() + value.len(),
        size_of_entry(
            DeltaEntryModel { index: e.index, writes: e.writes.push(KeyWriteModel::Delete(key)) },
        ) == size_of_entry(e) + key.len(),
        total_size(Seq::empty()) == 0,
        total_size(es.push(e)) == total_size(es) + size_of_entry(e),
{
    assert(e.writes.push(KeyWriteModel::Put(key, value)).drop_last() =~= e.writes);
    assert(e.writes.push(KeyWriteModel::Delete(key)).drop_last() =~= e.writes);
    assert(es.push(e).drop_last() =~= es);
}

/// A reader is answered exactly if it lacks nothing, or the entries reach back to the first index
/// that it lacks and forward to the last.
pub proof fn a_covered_reader_is_answered(es: Seq<DeltaEntryModel>, last_seen: u64, upto: u64)
    ensures
        answer(es, last_seen, upto) is Some <==> upto <= last_seen || (es.len() > 0 && es[0].index
            <= last_seen + 1 && upto <= es[es.len() - 1].index),
        upto <= last_seen ==> answer(es, last_seen, upto) == Some(Seq::<KeyWriteModel>::empty()),
{
}

/// An answer is made up of the changes of the entries in between, whole and in order: each further
/// entry adds its changes at the end if it lies in between, and nothing if it does not.
pub proof fn an_answer_is_made_up_of_entries(
    es: Seq<DeltaEntryModel>,
    e: DeltaEntryModel,
    last_seen: u64,
    upto: u64,
)
    ensures
        changes(Seq::empty(), last_seen, upto).len() == 0,
        last_seen < e.index <= upto ==> changes(es.push(e), last_seen, upto) == changes(
            es,
            last_seen,
            upto,
        ) + e.writes,
        !(last_seen < e.index <= upto) ==> changes(es.push(e), last_seen, upto) == changes(
            es,
            last_seen,
            upto,
        ),
        last_seen < upto && answer(es, last_seen, upto) is Some ==> answer(es, last_seen, upto)
            == Some(changes(es, last_seen, upto)),
{
    assert(es.push(e).drop_last() =~= es);
}

} // verus!
