use vstd::prelude::*;
use spmc::{Receiver, Sender};
use crate::interfaces::InterfaceTrait;
use super::parameter::ParameterTrait;

verus! {

/// One timestamped, identity-tagged chunk of bytes read from an interface.
#[derive(Clone, Debug)]
pub struct DataProcessor {
    ifcode: u64,
    id: u64,
    timestamp_sec: u64,
    timestamp_nsec: u64,
    data_size: u64,
    data: Vec<u8>,
}

impl DataProcessor {
    /// The interface that produced the record.
    pub closed spec fn source_of(&self) -> u64 {
        self.ifcode
    }

    /// The grouping key of the record.
    pub closed spec fn key_of(&self) -> u64 {
        self.id
    }

    pub closed spec fn seconds_of(&self) -> u64 {
        self.timestamp_sec
    }

    pub closed spec fn nanoseconds_of(&self) -> u64 {
        self.timestamp_nsec
    }

    pub closed spec fn declared_len_of(&self) -> u64 {
        self.data_size
    }

    pub closed spec fn payload_of(&self) -> Seq<u8> {
        self.data@
    }

    pub fn new(
        ifcode: u64,
        id: u64,
        timestamp_sec: u64,
        timestamp_nsec: u64,
        data_size: u64,
        data: Vec<u8>,
    ) -> (r: Self)
        ensures
            r.source_of() == ifcode,
            r.key_of() == id,
            r.seconds_of() == timestamp_sec,
            r.nanoseconds_of() == timestamp_nsec,
            r.declared_len_of() == data_size,
            r.payload_of() == data@,
    {
        DataProcessor { ifcode, id, timestamp_sec, timestamp_nsec, data_size, data }
    }

    pub fn ifcode(&self) -> (r: u64)
        ensures
            r == self.source_of(),
    {
        self.ifcode
    }

    pub fn id(&self) -> (r: u64)
        ensures
            r == self.key_of(),
    {
        self.id
    }

    pub fn timestamp_sec(&self) -> (r: u64)
        ensures
            r == self.seconds_of(),
    {
        self.timestamp_sec
    }

    pub fn timestamp_nsec(&self) -> (r: u64)
        ensures
            r == self.nanoseconds_of(),
    {
        self.timestamp_nsec
    }

    pub fn data_size(&self) -> (r: u64)
        ensures
            r == self.declared_len_of(),
    {
        self.data_size
    }

    pub fn data(&self) -> (r: &[u8])
        ensures
            r@ == self.payload_of(),
    {
        self.data.as_slice()
    }
}

/// The most groups a `GroupingMap` keeps waiting for their missing records.
/// When a record opens a new group beyond this count, the oldest waiting
/// group is dropped.
pub const MAX_PENDING_GROUPS: usize = 256;

/// The records gathered so far under one key.
struct Group {
    id: u64,
    records: Vec<DataProcessor>,
}

/// What became of a record handed to `GroupingMap::insert`.
#[derive(Clone, Copy, Debug, PartialEq, Eq, Structural)]
pub enum InsertOutcome {
    /// The record joined the group of its key.
    Added,
    /// The record opened a new group, and the oldest waiting group, with
    /// this key, was dropped to make room.
    AddedEvicting(u64),
    /// A group with a key at least as large as the record's was already
    /// emitted: the record was dropped.
    Stale,
    /// The group of its key already held one record per source: the record
    /// was dropped.
    GroupFull,
    /// The map was full and every waiting group is newer than the record:
    /// the record was dropped.
    TooOld,
}

/// The records `gs` hold, key by key, in the order of `gs`.
spec fn entries_of(gs: Seq<Group>) -> Seq<(u64, Seq<DataProcessor>)> {
    gs.map_values(|g: Group| (g.id, g.records@))
}

/// The groups among `p` that hold exactly `n` records, in the order of `p`.
pub open spec fn complete_groups(p: Seq<(u64, Seq<DataProcessor>)>, n: nat) -> Seq<Seq<DataProcessor>>
    decreases p.len(),
{
    if p.len() == 0 {
        Seq::empty()
    } else {
        let rest = complete_groups(p.drop_last(), n);
        if p.last().1.len() == n {
            rest.push(p.last().1)
        } else {
            rest
        }
    }
}

/// The index of the last group among `p` that holds exactly `n` records, or
/// -1 when there is none.
pub open spec fn last_complete(p: Seq<(u64, Seq<DataProcessor>)>, n: nat) -> int
    decreases p.len(),
{
    if p.len() == 0 {
        -1
    } else if p.last().1.len() == n {
        p.len() - 1
    } else {
        last_complete(p.drop_last(), n)
    }
}

/// Keys strictly increase along `p`.
pub open spec fn keys_increasing(p: Seq<(u64, Seq<DataProcessor>)>) -> bool {
    forall|i: int, j: int| 0 <= i < j < p.len() ==> p[i].0 < p[j].0
}

/// Each group of `p` holds between one and `n` records, all filed under the
/// group's key.
pub open spec fn groups_sound(p: Seq<(u64, Seq<DataProcessor>)>, n: nat) -> bool {
    &&& forall|i: int| 0 <= i < p.len() ==> 1 <= #[trigger] p[i].1.len() <= n
    &&& forall|i: int, j: int|
        0 <= i < p.len() && 0 <= j < p[i].1.len() ==> (#[trigger] p[i].1[j]).key_of() == p[i].0
}

proof fn lemma_insert_records(
    q: Seq<(u64, Seq<DataProcessor>)>,
    p: Seq<(u64, Seq<DataProcessor>)>,
    pos: int,
    n: nat,
    record: DataProcessor,
)
    requires
        groups_sound(p, n),
        n >= 1,
        0 <= pos <= p.len(),
        q == p.insert(pos, (record.key_of(), seq![record])),
    ensures
        groups_sound(q, n),
{
    assert forall|a: int| 0 <= a < q.len() implies 1 <= #[trigger] q[a].1.len() <= n by {
        if a < pos {
            assert(q[a] == p[a]);
        } else if a > pos {
            assert(q[a] == p[a - 1]);
        }
    }
    assert forall|a: int, b: int|
        0 <= a < q.len() && 0 <= b < q[a].1.len() implies (#[trigger] q[a].1[b]).key_of() == q[a].0 by {
        if a < pos {
            assert(q[a] == p[a]);
        } else if a > pos {
            assert(q[a] == p[a - 1]);
        }
    }
}

/// `q` is `p` with `e` placed somewhere.
pub open spec fn inserted_in_order(
    p: Seq<(u64, Seq<DataProcessor>)>,
    q: Seq<(u64, Seq<DataProcessor>)>,
    e: (u64, Seq<DataProcessor>),
) -> bool {
    exists|pos: int| 0 <= pos <= p.len() && q == p.insert(pos, e)
}

proof fn lemma_insert_keeps_order(
    q: Seq<(u64, Seq<DataProcessor>)>,
    p: Seq<(u64, Seq<DataProcessor>)>,
    pos: int,
    k: u64,
)
    requires
        keys_increasing(p),
        0 <= pos <= p.len(),
        forall|a: int| 0 <= a < pos ==> #[trigger] p[a].0 < k,
        forall|a: int| pos <= a < p.len() ==> k < #[trigger] p[a].0,
        q == p.insert(pos, (k, q[pos].1)),
    ensures
        keys_increasing(q),
        inserted_in_order(p, q, q[pos]),
{
    assert forall|a: int, b: int| 0 <= a < b < q.len() implies q[a].0 < q[b].0 by {
        if b < pos {
            assert(q[a] == p[a] && q[b] == p[b]);
        } else if b == pos {
            assert(q[a] == p[a]);
        } else if a == pos {
            assert(q[b] == p[b - 1]);
        } else if a < pos {
            assert(q[a] == p[a] && q[b] == p[b - 1]);
        } else {
            assert(q[a] == p[a - 1] && q[b] == p[b - 1]);
        }
    }
}

/// `after` and `out` are what consolidating `before` leaves and emits: the
/// complete groups up to the newest complete one leave in key order, the
/// incomplete groups older than it are dropped, and the newest emitted key
/// becomes the high-water mark.
pub open spec fn consolidation(
    before: GroupingMap,
    after: GroupingMap,
    out: Seq<Seq<DataProcessor>>,
) -> bool {
    let p = before.pending();
    let n = before.sources_spec();
    let j = last_complete(p, n);
    &&& after.sources_spec() == n
    &&& out == complete_groups(p.take(j + 1), n)
    &&& after.pending() == p.skip(j + 1)
    &&& after.last_emitted_spec() == if j < 0 {
        before.last_emitted_spec()
    } else {
        Some(p[j].0)
    }
}

proof fn lemma_mark_grows(before: GroupingMap, after: GroupingMap, out: Seq<Seq<DataProcessor>>)
    requires
        before.wf(),
        consolidation(before, after, out),
    ensures
        before.last_emitted_spec() matches Some(m) ==> (after.last_emitted_spec() matches Some(m2)
            && m <= m2),
{
    lemma_last_complete_range(before.pending(), before.sources_spec());
}

proof fn lemma_last_complete_range(p: Seq<(u64, Seq<DataProcessor>)>, n: nat)
    ensures
        -1 <= last_complete(p, n) < p.len(),
        last_complete(p, n) >= 0 ==> p[last_complete(p, n)].1.len() == n,
        forall|i: int| last_complete(p, n) < i < p.len() ==> #[trigger] p[i].1.len() != n,
    decreases p.len(),
{
    if p.len() > 0 {
        let r = p.drop_last();
        lemma_last_complete_range(r, n);
        assert forall|i: int| last_complete(p, n) < i < p.len() implies #[trigger] p[i].1.len() != n by {
            if i < p.len() - 1 {
                assert(p[i] == r[i]);
            }
        }
    }
}

/// After a consolidation no complete group is left waiting.
proof fn lemma_none_complete_left(before: GroupingMap, after: GroupingMap, out: Seq<Seq<DataProcessor>>)
    requires
        before.wf(),
        consolidation(before, after, out),
    ensures
        forall|i: int|
            0 <= i < after.pending().len() ==> #[trigger] after.pending()[i].1.len()
                < before.sources_spec(),
{
    let p = before.pending();
    let n = before.sources_spec();
    let j = last_complete(p, n);
    lemma_last_complete_range(p, n);
    assert forall|i: int| 0 <= i < after.pending().len() implies #[trigger] after.pending()[i].1.len()
        < n by {
        assert(after.pending()[i] == p[j + 1 + i]);
    }
}

/// Groups records by their key until one record per source has arrived for a
/// key. Complete groups leave in increasing key order; once a key has been
/// emitted, every older key is dropped for good.
pub struct GroupingMap {
    groups: Vec<Group>,
    sources: usize,
    last_emitted: Option<u64>,
}

impl GroupingMap {
    /// The waiting groups as (key, records), in increasing key order.
    pub closed spec fn pending(&self) -> Seq<(u64, Seq<DataProcessor>)> {
        entries_of(self.groups@)
    }

    /// How many records make a group complete.
    pub closed spec fn sources_spec(&self) -> nat {
        self.sources as nat
    }

    /// The largest key emitted so far.
    pub closed spec fn last_emitted_spec(&self) -> Option<u64> {
        self.last_emitted
    }

    pub closed spec fn wf(&self) -> bool {
        let p = self.pending();
        &&& keys_increasing(p)
        &&& p.len() <= MAX_PENDING_GROUPS
        &&& groups_sound(p, self.sources as nat)
        &&& self.last_emitted matches Some(m) ==> forall|i: int| 0 <= i < p.len() ==> m < #[trigger] p[i].0
    }

    pub fn new(sources: usize) -> (r: Self)
        ensures
            r.wf(),
            r.pending() == Seq::<(u64, Seq<DataProcessor>)>::empty(),
            r.sources_spec() == sources,
            r.last_emitted_spec() is None,
    {
        let r = GroupingMap { groups: Vec::new(), sources, last_emitted: None };
        assert(r.pending() =~= Seq::<(u64, Seq<DataProcessor>)>::empty());
        r
    }

    /// Files `record` under its key. A record whose key is not newer than
    /// the last emitted one, or whose group is already complete, is dropped.
    /// A record that opens a new group while `MAX_PENDING_GROUPS` groups wait
    /// pushes out the oldest waiting group, or is dropped when it is older
    /// than all of them.
    pub fn insert(&mut self, record: DataProcessor) -> (r: InsertOutcome)
        requires
            old(self).wf(),
        ensures
            final(self).wf(),
            final(self).sources_spec() == old(self).sources_spec(),
            final(self).last_emitted_spec() == old(self).last_emitted_spec(),
            ({
                let p = old(self).pending();
                let q = final(self).pending();
                let k = record.key_of();
                let n = old(self).sources_spec();
                if old(self).last_emitted_spec() matches Some(m) && k <= m {
                    r == InsertOutcome::Stale && q == p
                } else if exists|i: int| 0 <= i < p.len() && #[trigger] p[i].0 == k {
                    forall|i: int|
                        0 <= i < p.len() && #[trigger] p[i].0 == k ==> if p[i].1.len() >= n {
                            r == InsertOutcome::GroupFull && q == p
                        } else {
                            r == InsertOutcome::Added && q == p.update(i, (k, p[i].1.push(record)))
                        }
                } else if n == 0 {
                    r == InsertOutcome::GroupFull && q == p
                } else if p.len() < MAX_PENDING_GROUPS {
                    r == InsertOutcome::Added && inserted_in_order(p, q, (k, seq![record]))
                } else if k < p[0].0 {
                    r == InsertOutcome::TooOld && q == p
                } else {
                    r == InsertOutcome::AddedEvicting(p[0].0) && inserted_in_order(
                        p.skip(1),
                        q,
                        (k, seq![record]),
                    )
                }
            }),
    {
        let ghost p = self.pending();
        let k = record.id;
        if let Some(m) = self.last_emitted {
            if k <= m {
                return InsertOutcome::Stale;
            }
        }
        let n_sources = self.sources;
        let mut i: usize = 0;
        while i < self.groups.len() && self.groups[i].id < k
            invariant
                self.pending() == p,
                i <= p.len(),
                forall|a: int| 0 <= a < i ==> #[trigger] p[a].0 < k,
            decreases p.len() - i,
        {
            assert(p[i as int].0 == self.groups@[i as int].id);
            i += 1;
        }
        if i < self.groups.len() && self.groups[i].id == k {
            assert(p[i as int].0 == k);
            assert(p[i as int].1 == self.groups@[i as int].records@);
            if self.groups[i].records.len() >= n_sources {
                return InsertOutcome::GroupFull;
            }
            let mut g = self.groups.remove(i);
            g.records.push(record);
            self.groups.insert(i, g);
            assert(self.pending() =~= p.update(i as int, (k, p[i as int].1.push(record))));
            proof {
                let q = self.pending();
                assert forall|a: int, b: int|
                    0 <= a < q.len() && 0 <= b < q[a].1.len() implies (#[trigger] q[a].1[b]).key_of()
                    == q[a].0 by {
                    if a != i {
                        assert(q[a] == p[a]);
                    }
                }
            }
            return InsertOutcome::Added;
        }
        proof {
            if i < p.len() {
                assert(p[i as int].0 == self.groups@[i as int].id);
            }
            assert forall|a: int| i <= a < p.len() implies k < #[trigger] p[a].0 by {
                if a > i {
                    assert(p[i as int].0 < p[a].0);
                }
            }
        }
        if n_sources == 0 {
            proof {
                if p.len() > 0 {
                    assert(1 <= p[0].1.len() <= n_sources);
                }
            }
            return InsertOutcome::GroupFull;
        }
        let mut records: Vec<DataProcessor> = Vec::new();
        records.push(record);
        let g = Group { id: k, records };
        assert(records@ =~= seq![record]);
        if self.groups.len() < MAX_PENDING_GROUPS {
            self.groups.insert(i, g);
            assert(self.pending() =~= p.insert(i as int, (k, seq![record])));
            proof {
                lemma_insert_keeps_order(self.pending(), p, i as int, k);
                lemma_insert_records(self.pending(), p, i as int, n_sources as nat, record);
            }
            return InsertOutcome::Added;
        }
        if i == 0 {
            return InsertOutcome::TooOld;
        }
        let evicted = self.groups.remove(0);
        self.groups.insert(i - 1, g);
        let ghost p1 = p.skip(1);
        assert(self.pending() =~= p1.insert(i - 1, (k, seq![record])));
        assert(evicted.id == p[0].0);
        proof {
            assert forall|a: int| 0 <= a < i - 1 implies #[trigger] p1[a].0 < k by {
                assert(p1[a] == p[a + 1]);
            }
            lemma_insert_keeps_order(self.pending(), p1, i - 1, k);
            assert forall|a: int| i - 1 <= a < p1.len() implies k < #[trigger] p1[a].0 by {
                assert(p1[a] == p[a + 1]);
            }
            assert(keys_increasing(p1)) by {
                assert forall|a: int, b: int| 0 <= a < b < p1.len() implies p1[a].0 < p1[b].0 by {
                    assert(p1[a] == p[a + 1] && p1[b] == p[b + 1]);
                }
            }
            assert(groups_sound(p1, n_sources as nat)) by {
                assert forall|a: int| 0 <= a < p1.len() implies 1 <= #[trigger] p1[a].1.len()
                    <= n_sources by {
                    assert(p1[a] == p[a + 1]);
                }
                assert forall|a: int, b: int|
                    0 <= a < p1.len() && 0 <= b < p1[a].1.len() implies (
                    #[trigger] p1[a].1[b]).key_of() == p1[a].0 by {
                    assert(p1[a] == p[a + 1]);
                }
            }
            lemma_insert_records(self.pending(), p1, i - 1, n_sources as nat, record);
        }
        InsertOutcome::AddedEvicting(evicted.id)
    }

    /// Removes every complete group and returns their records, in increasing
    /// key order. The newest emitted key becomes the high-water mark: every
    /// waiting group older than it is dropped without being emitted.
    pub fn consolidate(&mut self) -> (out: Vec<Vec<DataProcessor>>)
        requires
            old(self).wf(),
        ensures
            final(self).wf(),
            consolidation(*old(self), *final(self), out@.map_values(|g: Vec<DataProcessor>| g@)),
    {
        let ghost p = self.pending();
        let ghost n = self.sources as nat;
        let n_sources = self.sources;
        let mut found = false;
        let mut j: usize = 0;
        let mut i: usize = 0;
        while i < self.groups.len()
            invariant
                self.wf(),
                self.pending() == p,
                self.sources == n_sources,
                n == n_sources,
                i <= p.len(),
                found ==> j < i && last_complete(p.take(i as int), n) == j,
                !found ==> last_complete(p.take(i as int), n) == -1,
            decreases p.len() - i,
        {
            assert(p.take(i + 1).drop_last() =~= p.take(i as int));
            assert(p[i as int].1 == self.groups@[i as int].records@);
            if self.groups[i].records.len() == n_sources {
                j = i;
                found = true;
            }
            i += 1;
        }
        assert(p.take(p.len() as int) =~= p);
        if !found {
            assert(p.take(0) =~= Seq::<(u64, Seq<DataProcessor>)>::empty());
            assert(p.skip(0) =~= p);
            let out: Vec<Vec<DataProcessor>> = Vec::new();
            assert(out@.map_values(|g: Vec<DataProcessor>| g@) =~= Seq::<Seq<DataProcessor>>::empty());
            return out;
        }
        let emitted = self.groups[j].id;
        let ghost old_groups = self.groups@;
        let mut taken = self.groups.split_off(j + 1);
        std::mem::swap(&mut self.groups, &mut taken);
        let ghost head = p.take(j + 1);
        assert(entries_of(taken@) =~= head);
        assert(self.pending() =~= p.skip(j + 1));
        let mut out: Vec<Vec<DataProcessor>> = Vec::new();
        let mut k: usize = 0;
        let len = taken.len();
        assert(entries_of(taken@) =~= head.skip(0));
        assert(out@.map_values(|g: Vec<DataProcessor>| g@) =~= complete_groups(head.take(0), n));
        while k < len
            invariant
                len as nat == head.len(),
                k <= len,
                taken@.len() == len - k,
                entries_of(taken@) =~= head.skip(k as int),
                out@.map_values(|g: Vec<DataProcessor>| g@) == complete_groups(head.take(k as int), n),
                n == n_sources,
            decreases len - k,
        {
            let ghost before = taken@;
            let g = taken.remove(0);
            assert forall|a: int| 0 <= a < taken@.len() implies #[trigger] entries_of(taken@)[a]
                == head.skip(k + 1)[a] by {
                assert(taken@[a] == before[a + 1]);
                assert(entries_of(before)[a + 1] == head.skip(k as int)[a + 1]);
            }
            assert(entries_of(taken@) =~= head.skip(k + 1));
            assert(head.take(k + 1).drop_last() =~= head.take(k as int));
            assert(head[k as int] == entries_of(before)[0]);
            let ghost prev = out@;
            if g.records.len() == n_sources {
                out.push(g.records);
                assert(out@.map_values(|g: Vec<DataProcessor>| g@) =~= prev.map_values(
                    |g: Vec<DataProcessor>| g@,
                ).push(head[k as int].1));
            }
            k += 1;
        }
        assert(head.take(len as int) =~= head);
        self.last_emitted = Some(emitted);
        proof {
            let q = self.pending();
            assert forall|a: int| 0 <= a < q.len() implies emitted < #[trigger] q[a].0 by {
                assert(q[a] == p[j + 1 + a]);
            }
        }
        out
    }

    pub fn sources(&self) -> (r: usize)
        ensures
            r == self.sources_spec(),
    {
        self.sources
    }

    pub fn pending_count(&self) -> (r: usize)
        ensures
            r == self.pending().len(),
    {
        self.groups.len()
    }

    pub fn last_emitted(&self) -> (r: Option<u64>)
        ensures
            r == self.last_emitted_spec(),
    {
        self.last_emitted
    }
}

/// The key a group of records is filed under.
pub open spec fn group_key(g: Seq<DataProcessor>) -> u64 {
    g[0].key_of()
}

/// The indices in `p` of the groups that hold exactly `n` records.
spec fn complete_indices(p: Seq<(u64, Seq<DataProcessor>)>, n: nat) -> Seq<int>
    decreases p.len(),
{
    if p.len() == 0 {
        Seq::empty()
    } else {
        let rest = complete_indices(p.drop_last(), n);
        if p.last().1.len() == n {
            rest.push(p.len() - 1)
        } else {
            rest
        }
    }
}

proof fn lemma_complete_groups_come_from(q: Seq<(u64, Seq<DataProcessor>)>, n: nat)
    ensures
        complete_indices(q, n).len() == complete_groups(q, n).len(),
        forall|a: int|
            0 <= a < complete_indices(q, n).len() ==> {
                let i = #[trigger] complete_indices(q, n)[a];
                &&& 0 <= i < q.len()
                &&& q[i].1.len() == n
                &&& complete_groups(q, n)[a] == q[i].1
            },
        forall|a: int, b: int|
            0 <= a < b < complete_indices(q, n).len() ==> #[trigger] complete_indices(q, n)[a]
                < #[trigger] complete_indices(q, n)[b],
    decreases q.len(),
{
    if q.len() > 0 {
        let r = q.drop_last();
        lemma_complete_groups_come_from(r, n);
        let ci = complete_indices(q, n);
        let pi = complete_indices(r, n);
        assert forall|a: int| 0 <= a < pi.len() implies r[#[trigger] pi[a]] == q[pi[a]] by {}
    }
}

proof fn lemma_complete_groups_ordered(q: Seq<(u64, Seq<DataProcessor>)>, n: nat)
    requires
        keys_increasing(q),
        groups_sound(q, n),
    ensures
        forall|a: int, b: int|
            0 <= a < b < complete_groups(q, n).len() ==> group_key(
                #[trigger] complete_groups(q, n)[a],
            ) < group_key(#[trigger] complete_groups(q, n)[b]),
{
    lemma_complete_groups_come_from(q, n);
    let ci = complete_indices(q, n);
    let cg = complete_groups(q, n);
    assert forall|a: int, b: int| 0 <= a < b < cg.len() implies group_key(#[trigger] cg[a])
        < group_key(#[trigger] cg[b]) by {
        let i = ci[a];
        let j = ci[b];
        assert(i < j);
        assert(q[i].1[0].key_of() == q[i].0);
        assert(q[j].1[0].key_of() == q[j].0);
    }
}

proof fn lemma_last_complete_is_last(p: Seq<(u64, Seq<DataProcessor>)>, n: nat, c: int)
    requires
        0 <= c < p.len(),
        p[c].1.len() == n,
    ensures
        c <= last_complete(p, n),
    decreases p.len(),
{
    if c < p.len() - 1 && p.last().1.len() != n {
        lemma_last_complete_is_last(p.drop_last(), n, c);
    }
}

proof fn lemma_prefix_sound(p: Seq<(u64, Seq<DataProcessor>)>, n: nat, len: int)
    requires
        keys_increasing(p),
        groups_sound(p, n),
        0 <= len <= p.len(),
    ensures
        keys_increasing(p.take(len)),
        groups_sound(p.take(len), n),
{
    let t = p.take(len);
    assert forall|i: int| 0 <= i < t.len() implies 1 <= #[trigger] t[i].1.len() <= n by {
        assert(t[i] == p[i]);
    }
    assert forall|i: int, j: int|
        0 <= i < t.len() && 0 <= j < t[i].1.len() implies (#[trigger] t[i].1[j]).key_of() == t[i].0 by {
        assert(t[i] == p[i]);
    }
}

/// What every well-formed map holds: waiting keys increase, each waiting
/// group has between one and one-per-source records, all filed under the
/// group's key, at most `MAX_PENDING_GROUPS` groups wait, and every waiting
/// key is newer than the last emitted one.
pub proof fn law_map_invariant(m: GroupingMap)
    requires
        m.wf(),
    ensures
        keys_increasing(m.pending()),
        groups_sound(m.pending(), m.sources_spec()),
        m.pending().len() <= MAX_PENDING_GROUPS,
        m.last_emitted_spec() matches Some(mark) ==> forall|i: int|
            0 <= i < m.pending().len() ==> mark < #[trigger] m.pending()[i].0,
{
}

/// Groups leave in increasing key order: each group that a consolidation
/// emits holds one record per source, all under one key; the keys of one
/// consolidation increase, and all are newer than any key emitted before.
pub proof fn law_emission_order(before: GroupingMap, after: GroupingMap, out: Seq<Seq<DataProcessor>>)
    requires
        before.wf(),
        consolidation(before, after, out),
    ensures
        forall|a: int|
            0 <= a < out.len() ==> (#[trigger] out[a]).len() == before.sources_spec() && out[a].len()
                >= 1,
        forall|a: int, b: int|
            0 <= a < out.len() && 0 <= b < out[a].len() ==> (#[trigger] out[a][b]).key_of()
                == group_key(out[a]),
        forall|a: int, b: int|
            0 <= a < b < out.len() ==> group_key(#[trigger] out[a]) < group_key(#[trigger] out[b]),
        forall|a: int|
            0 <= a < out.len() ==> (before.last_emitted_spec() matches Some(m) ==> m < group_key(
                #[trigger] out[a],
            )),
        out.len() > 0 ==> after.last_emitted_spec() == Some(group_key(out.last())),
        out.len() == 0 ==> after.last_emitted_spec() == before.last_emitted_spec(),
{
    let p = before.pending();
    let n = before.sources_spec();
    let j = last_complete(p, n);
    lemma_last_complete_range(p, n);
    lemma_prefix_sound(p, n, j + 1);
    let t = p.take(j + 1);
    lemma_complete_groups_come_from(t, n);
    lemma_complete_groups_ordered(t, n);
    if j < 0 {
        assert(t =~= Seq::<(u64, Seq<DataProcessor>)>::empty());
    } else {
        assert(t.last() == p[j]);
        assert(out == complete_groups(t.drop_last(), n).push(p[j].1));
        assert(p[j].1[0].key_of() == p[j].0);
    }
    let ci = complete_indices(t, n);
    assert forall|a: int| 0 <= a < out.len() implies {
        &&& (#[trigger] out[a]).len() == n
        &&& out[a].len() >= 1
        &&& forall|b: int| 0 <= b < out[a].len() ==> (#[trigger] out[a][b]).key_of() == group_key(out[a])
        &&& (before.last_emitted_spec() matches Some(m) ==> m < group_key(out[a]))
    } by {
        let i = ci[a];
        assert(t[i] == p[i]);
        assert(out[a][0].key_of() == p[i].0);
    }
}

/// A group that is still missing records when a newer group is emitted is
/// dropped: it is not emitted, it no longer waits, and the high-water mark
/// passes its key, so records that arrive for it later are refused as stale.
pub proof fn law_stale_group_dropped(
    before: GroupingMap,
    after: GroupingMap,
    out: Seq<Seq<DataProcessor>>,
    stale: int,
    newer: int,
)
    requires
        before.wf(),
        consolidation(before, after, out),
        0 <= stale < before.pending().len(),
        before.pending()[stale].1.len() < before.sources_spec(),
        0 <= newer < before.pending().len(),
        before.pending()[newer].1.len() == before.sources_spec(),
        before.pending()[stale].0 < before.pending()[newer].0,
    ensures
        forall|a: int| 0 <= a < out.len() ==> group_key(#[trigger] out[a]) != before.pending()[stale].0,
        forall|i: int|
            0 <= i < after.pending().len() ==> (#[trigger] after.pending()[i]).0
                != before.pending()[stale].0,
        after.last_emitted_spec() matches Some(m) && before.pending()[stale].0 < m,
{
    let p = before.pending();
    let n = before.sources_spec();
    let k = p[stale].0;
    let j = last_complete(p, n);
    lemma_last_complete_range(p, n);
    lemma_last_complete_is_last(p, n, newer);
    lemma_prefix_sound(p, n, j + 1);
    let t = p.take(j + 1);
    lemma_complete_groups_come_from(t, n);
    let ci = complete_indices(t, n);
    assert(newer <= j);
    assert(k < p[j].0) by {
        if newer < j {
            assert(p[newer].0 < p[j].0);
        }
    }
    assert forall|a: int| 0 <= a < out.len() implies group_key(#[trigger] out[a]) != k by {
        let i = ci[a];
        assert(t[i] == p[i]);
        assert(out[a][0].key_of() == p[i].0);
        if i < stale {
            assert(p[i].0 < p[stale].0);
        } else if i > stale {
            assert(p[stale].0 < p[i].0);
        }
    }
    assert forall|i: int| 0 <= i < after.pending().len() implies (#[trigger] after.pending()[i]).0
        != k by {
        assert(after.pending()[i] == p[j + 1 + i]);
        assert(p[j].0 < p[j + 1 + i].0);
    }
}

#[verifier::external_type_specification]
#[verifier::external_body]
#[verifier::reject_recursive_types(T)]
pub struct ExReceiver<T: Send>(Receiver<T>);

#[verifier::external_type_specification]
#[verifier::external_body]
#[verifier::reject_recursive_types(T)]
pub struct ExSender<T: Send>(Sender<T>);

/// Relies on `spmc::Receiver::try_recv`: takes the next queued record, if
/// any, without blocking. Which record comes depends on the producer.
#[verifier::external_body]
fn try_receive(receiver: &Receiver<DataProcessor>) -> (r: Option<DataProcessor>) {
    receiver.try_recv().ok()
}

/// Relies on `spmc::Sender::send`: queues the group for the receivers, or
/// hands the same group back when no receiver is left.
#[verifier::external_body]
fn send_group(sender: &mut Sender<Vec<DataProcessor>>, group: Vec<DataProcessor>) -> (r: Result<
    (),
    Vec<DataProcessor>,
>)
    ensures
        r matches Err(back) ==> back@ == group@,
{
    sender.send(group).map_err(|e| e.0)
}

/// What one round of `ReceiverMultiplexer::poll` did.
#[derive(Clone, Copy, Debug, PartialEq, Eq, Structural)]
pub struct PollReport {
    /// Records taken from the input channels.
    pub received: usize,
    /// Complete groups handed to the output channel.
    pub emitted: usize,
    /// Complete groups that the output channel refused.
    pub undelivered: usize,
}

/// Aligns records from several input channels into complete groups, one
/// record per input, and passes each group on to the output channel.
pub struct ReceiverMultiplexer {
    input_data: Vec<Receiver<DataProcessor>>,
    output_data: Option<Sender<Vec<DataProcessor>>>,
    data_map: GroupingMap,
}

impl ReceiverMultiplexer {
    /// How many input channels feed the multiplexer.
    pub closed spec fn inputs(&self) -> nat {
        self.input_data@.len()
    }

    pub closed spec fn has_output(&self) -> bool {
        self.output_data is Some
    }

    /// The grouping state.
    pub closed spec fn grouping(&self) -> GroupingMap {
        self.data_map
    }

    pub closed spec fn wf(&self) -> bool {
        &&& self.data_map.wf()
        &&& self.data_map.sources_spec() == self.input_data@.len()
    }

    pub fn new(
        input_data: Vec<Receiver<DataProcessor>>,
        output_data: Option<Sender<Vec<DataProcessor>>>,
    ) -> (r: Self)
        ensures
            r.wf(),
            r.inputs() == input_data@.len(),
            r.has_output() == output_data is Some,
            r.grouping().pending().len() == 0,
            r.grouping().last_emitted_spec() is None,
    {
        let n = input_data.len();
        ReceiverMultiplexer { input_data, output_data, data_map: GroupingMap::new(n) }
    }

    /// Adds an input channel. Grouping starts afresh, now expecting one record
    /// more per group.
    pub fn add_input_receiver(&mut self, receiver: Receiver<DataProcessor>)
        requires
            old(self).inputs() < usize::MAX,
        ensures
            final(self).wf(),
            final(self).inputs() == old(self).inputs() + 1,
            final(self).has_output() == old(self).has_output(),
            final(self).grouping().pending().len() == 0,
            final(self).grouping().last_emitted_spec() is None,
    {
        self.input_data.push(receiver);
        self.data_map = GroupingMap::new(self.input_data.len());
    }

    pub fn set_output_sender(&mut self, sender: Sender<Vec<DataProcessor>>)
        ensures
            final(self).has_output(),
            final(self).inputs() == old(self).inputs(),
            final(self).grouping() == old(self).grouping(),
            old(self).wf() ==> final(self).wf(),
    {
        self.output_data = Some(sender);
    }

    pub fn input_count(&self) -> (r: usize)
        ensures
            r == self.inputs(),
    {
        self.input_data.len()
    }

    /// One round of work: takes at most one record from each input channel
    /// and files it; then, when an output channel is set, sends every group
    /// that became complete, in increasing key order.
    pub fn poll(&mut self) -> (r: PollReport)
        requires
            old(self).wf(),
        ensures
            final(self).wf(),
            final(self).inputs() == old(self).inputs(),
            final(self).has_output() == old(self).has_output(),
            r.received <= old(self).inputs(),
            !old(self).has_output() ==> r.emitted == 0 && r.undelivered == 0,
            old(self).grouping().last_emitted_spec() matches Some(m) ==> (
            final(self).grouping().last_emitted_spec() matches Some(m2) && m <= m2),
            old(self).has_output() ==> forall|i: int|
                0 <= i < final(self).grouping().pending().len()
                    ==> #[trigger] final(self).grouping().pending()[i].1.len() < final(self).inputs(),
            old(self).has_output() ==> exists|mid: GroupingMap, out: Seq<Seq<DataProcessor>>|
                #![trigger consolidation(mid, final(self).grouping(), out)]
                mid.wf() && consolidation(mid, final(self).grouping(), out) && r.emitted
                    + r.undelivered == out.len(),
    {
        let ghost mark = self.data_map.last_emitted_spec();
        let mut received: usize = 0;
        let mut i: usize = 0;
        while i < self.input_data.len()
            invariant
                self.wf(),
                received <= i <= self.input_data@.len(),
                self.input_data@.len() == old(self).input_data@.len(),
                self.output_data is Some == old(self).output_data is Some,
                self.data_map.last_emitted_spec() == mark,
                mark == old(self).data_map.last_emitted_spec(),
            decreases self.input_data@.len() - i,
        {
            if let Some(record) = try_receive(&self.input_data[i]) {
                self.data_map.insert(record);
                received += 1;
            }
            i += 1;
        }
        let mut emitted: usize = 0;
        let mut undelivered: usize = 0;
        if let Some(sender) = &mut self.output_data {
            let ghost before = self.data_map;
            let mut groups = self.data_map.consolidate();
            let ghost out = groups@.map_values(|g: Vec<DataProcessor>| g@);
            proof {
                lemma_mark_grows(before, self.data_map, out);
                lemma_none_complete_left(before, self.data_map, out);
                assert(before.wf() && consolidation(before, self.data_map, out));
            }
            let total = groups.len();
            assert(out.len() == total);
            while groups.len() > 0
                invariant
                    emitted + undelivered + groups@.len() == total,
                decreases groups@.len(),
            {
                let group = groups.remove(0);
                match send_group(sender, group) {
                    Ok(()) => emitted += 1,
                    Err(_) => undelivered += 1,
                }
            }
        }
        PollReport { received, emitted, undelivered }
    }
}

/// A named transform from a batch of records to a batch of records, with its
/// own parameters.
pub trait AlgorithmBlock {
    type Param: ParameterTrait;

    fn get_name(&self) -> String;

    fn get_description(&self) -> String;

    fn get_parameters(&self) -> Vec<Self::Param>;

    fn get_parameter(&self, name: &str) -> Option<&Self::Param>;

    fn process(&mut self, input: Vec<Box<DataProcessor>>) -> Vec<Box<DataProcessor>>;
}

/// Threads one batch through the blocks in order: the output of each block
/// is the input of the next. With no blocks the batch comes back unchanged.
pub fn run_chain<B: AlgorithmBlock>(blocks: &mut Vec<B>, input: Vec<Box<DataProcessor>>) -> (r: Vec<
    Box<DataProcessor>,
>)
    ensures
        final(blocks)@.len() == old(blocks)@.len(),
        old(blocks)@.len() == 0 ==> r@ == input@,
{
    let mut batch = input;
    let mut i: usize = 0;
    while i < blocks.len()
        invariant
            i <= blocks@.len(),
            blocks@.len() == old(blocks)@.len(),
            i == 0 ==> batch@ == input@,
        decreases blocks@.len() - i,
    {
        let mut block = blocks.remove(i);
        batch = block.process(batch);
        blocks.insert(i, block);
        i += 1;
    }
    batch
}

/// A chain of algorithm blocks wired between a multiplexer of inputs and
/// output interfaces, with its own start and stop.
pub trait ProcessingSequence {
    type Block: AlgorithmBlock;

    type Interface: InterfaceTrait;

    fn get_name(&self) -> String;

    fn get_description(&self) -> String;

    fn get_algorithm_blocks(&self) -> Vec<Box<Self::Block>>;

    fn append_algorithm_block(&mut self, new_block: Box<Self::Block>);

    fn get_input_interface(&self) -> Option<Box<Self::Interface>>;

    fn get_output_interface(&self) -> Option<Box<Self::Interface>>;

    fn append_input_interface(&mut self, new_interface: Box<Self::Interface>);

    fn append_output_interface(&mut self, new_interface: Box<Self::Interface>);

    fn append_receiver(&mut self, receiver: ReceiverMultiplexer);

    fn append_sender(&mut self, sender: Sender<DataProcessor>);

    fn start(&mut self);

    fn stop(&mut self);
}

} // verus!
