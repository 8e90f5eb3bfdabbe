//! Append-only registration of metrics, in shards of fixed-size chunks.
use crate::metric::{
    drain, empty_slot, incremented, label_of, policy_of, recorded, slot_view, snapshot, Metric,
    MetricSnapshot, MetricType, Slot, SnapshotView,
};
use crate::plan::{MetricPolicy, ProfileMeta, ProfilePlan, ProfileView};
use crate::state::{
    state_recorded, state_views, states_map, states_sorted, StateMap, StateRegistry, StateSnapshot,
    StateType,
};
use vstd::hash_map::StringHashMap;
use vstd::prelude::*;

verus! {

/// How many metrics one chunk holds.
pub const CHUNK_SIZE: usize = 256;

/// How many shards a registry has.
pub const SHARD_COUNT: usize = 64;

/// How many metric types there are.
const KIND_COUNT: usize = 14;

/// Where the slot of a metric is: a shard, and a position in the order of its registrations.
#[derive(Clone, Copy, Debug, PartialEq, Eq, Structural)]
pub struct ItemPtr {
    pub shard: usize,
    pub index: usize,
}

/// One registered metric: how it is shown and what was counted for it.
#[verifier::ext_equal]
pub struct EntryView {
    pub profile: ProfileView,
    pub slot: Slot,
}

/// What makes a metric the same one: its type and name, or, for a plan, its identity.
pub type MetricKey = (Option<MetricType>, Seq<char>);

/// The key of a metric.
pub open spec fn key_of(profile: ProfileView) -> MetricKey {
    match profile {
        ProfileView::Single { name, kind } => (Some(kind), name),
        ProfileView::Fanout(plan) => (None, plan.identity),
    }
}

/// The position of each metric type among all types.
spec fn ordinal(kind: MetricType) -> int {
    match kind {
        MetricType::Log => 0,
        MetricType::Redis => 1,
        MetricType::Mc => 2,
        MetricType::McDetail => 3,
        MetricType::Mysql => 4,
        MetricType::Http => 5,
        MetricType::HttpAll => 6,
        MetricType::Api => 7,
        MetricType::Api3xx => 8,
        MetricType::Api4xx => 9,
        MetricType::Api5xx => 10,
        MetricType::Apito => 11,
        MetricType::Service => 12,
        MetricType::RpcServiceWhole => 13,
    }
}

fn kind_index(kind: MetricType) -> (index: usize)
    ensures
        index == ordinal(kind),
        index < KIND_COUNT,
{
    match kind {
        MetricType::Log => 0,
        MetricType::Redis => 1,
        MetricType::Mc => 2,
        MetricType::McDetail => 3,
        MetricType::Mysql => 4,
        MetricType::Http => 5,
        MetricType::HttpAll => 6,
        MetricType::Api => 7,
        MetricType::Api3xx => 8,
        MetricType::Api4xx => 9,
        MetricType::Api5xx => 10,
        MetricType::Apito => 11,
        MetricType::Service => 12,
        MetricType::RpcServiceWhole => 13,
    }
}

/// Metadata for up to `CHUNK_SIZE` metrics.
///
/// Entries are written once, in increasing order, and never change.
pub struct MetaChunk {
    entries: Vec<ProfileMeta>,
}

impl MetaChunk {
    fn new() -> (chunk: MetaChunk)
        ensures
            chunk.entries@.len() == 0,
    {
        MetaChunk { entries: Vec::with_capacity(CHUNK_SIZE) }
    }

    /// Adds the next entry of the chunk.
    fn publish(&mut self, offset: usize, meta: ProfileMeta)
        requires
            offset < CHUNK_SIZE,
            offset == old(self).entries@.len(),
        ensures
            final(self).entries@ == old(self).entries@.push(meta),
    {
        self.entries.push(meta);
    }

    fn published_len(&self) -> (len: usize)
        ensures
            len == self.entries@.len(),
    {
        self.entries.len()
    }

    fn get(&self, offset: usize) -> (meta: &ProfileMeta)
        requires
            offset < self.entries@.len(),
        ensures
            *meta == self.entries@[offset as int],
    {
        &self.entries[offset]
    }
}

/// Which chunks of a shard visitors may read. It changes only when a chunk is added.
#[derive(Clone, Copy, Debug, PartialEq, Eq, Structural)]
pub struct ShardIndex {
    pub chunks: usize,
}

/// A registration shard with its published visitor index.
pub struct Shard {
    /// For each metric type, the positions of its metrics by name.
    by_type: Vec<StringHashMap<usize>>,
    /// The positions of the metrics with a plan, by identity.
    by_identity: StringHashMap<usize>,
    slots: Vec<Vec<Slot>>,
    meta_chunks: Vec<MetaChunk>,
    len: usize,
    published_index: ShardIndex,
}

impl View for Shard {
    type V = Seq<EntryView>;

    closed spec fn view(&self) -> Seq<EntryView> {
        Seq::new(
            self.len as nat,
            |i: int|
                EntryView {
                    profile: self.meta_chunks@[i / 256].entries@[i % 256]@,
                    slot: self.slots@[i / 256]@[i % 256],
                },
        )
    }
}

impl Shard {
    /// The chunks are filled one after the other.
    spec fn chunks_wf(&self) -> bool {
        &&& self.meta_chunks@.len() == self.slots@.len()
        &&& self.meta_chunks@.len() == (self.len + 255) / 256
        &&& self.published_index.chunks == self.meta_chunks@.len()
        &&& forall|c: int|
            0 <= c < self.slots@.len() ==> (#[trigger] self.slots@[c])@.len() == CHUNK_SIZE
        &&& forall|c: int|
            0 <= c < self.meta_chunks@.len() ==> (#[trigger] self.meta_chunks@[c]).entries@.len()
                == if self.len - 256 * c >= 256 {
                256int
            } else {
                self.len - 256 * c
            }
        &&& forall|c: int, o: int|
            0 <= c < self.slots@.len() && 0 <= o < 256 && 256 * c + o >= self.len
                ==> #[trigger] self.slots@[c]@[o] == empty_slot()
    }

    /// The position that the lookup tables give for a key.
    spec fn position(&self, key: MetricKey) -> Option<usize> {
        match key.0 {
            Some(kind) => {
                let table = self.by_type@[ordinal(kind)]@;
                if table.contains_key(key.1) {
                    Some(table[key.1])
                } else {
                    None
                }
            },
            None => {
                if self.by_identity@.contains_key(key.1) {
                    Some(self.by_identity@[key.1])
                } else {
                    None
                }
            },
        }
    }

    /// The lookup tables lead from each key to its entry and nowhere else.
    spec fn tables_wf(&self) -> bool {
        &&& self.by_type@.len() == KIND_COUNT
        &&& forall|key: MetricKey|
            (#[trigger] self.position(key)) matches Some(i) ==> i < self@.len() && key_of(
                self@[i as int].profile,
            ) == key
        &&& forall|i: int|
            0 <= i < self@.len() ==> self.position(key_of((#[trigger] self@[i]).profile)) == Some(
                i as usize,
            )
    }

    /// Chunks and lookup tables are in order, and no key is there twice.
    pub closed spec fn wf(&self) -> bool {
        &&& self.chunks_wf()
        &&& self.tables_wf()
    }

    /// The published visitor index.
    pub closed spec fn index_view(&self) -> ShardIndex {
        self.published_index
    }

    /// The published index always covers the chunks that hold the metrics, and no others.
    pub proof fn law_index_counts_chunks(&self)
        requires
            self.wf(),
        ensures
            self.index_view().chunks == (self@.len() + 255) / 256,
    {
    }

    /// An empty shard.
    pub fn new() -> (shard: Shard)
        ensures
            shard.wf(),
            shard@ == Seq::<EntryView>::empty(),
            shard.index_view().chunks == 0,
    {
        let mut by_type: Vec<StringHashMap<usize>> = Vec::new();
        while by_type.len() < KIND_COUNT
            invariant
                by_type@.len() <= KIND_COUNT,
                forall|k: int|
                    0 <= k < by_type@.len() ==> (#[trigger] by_type@[k])@ == Map::<
                        Seq<char>,
                        usize,
                    >::empty(),
            decreases KIND_COUNT - by_type@.len(),
        {
            by_type.push(StringHashMap::new());
        }
        let shard = Shard {
            by_type,
            by_identity: StringHashMap::new(),
            slots: Vec::new(),
            meta_chunks: Vec::new(),
            len: 0,
            published_index: ShardIndex { chunks: 0 },
        };
        assert(shard@ =~= Seq::<EntryView>::empty());
        shard
    }

    /// The visitor index that is currently published.
    pub fn published_index(&self) -> (index: ShardIndex)
        ensures
            index == self.index_view(),
    {
        self.published_index
    }

    /// The position of a metric that is already registered here.
    fn existing(&self, name: &str, kind: Option<MetricType>) -> (position: Option<usize>)
        requires
            self.wf(),
        ensures
            position matches Some(i) ==> i < self@.len() && key_of(self@[i as int].profile) == (
                kind,
                name@,
            ),
            position is None ==> forall|i: int|
                0 <= i < self@.len() ==> key_of((#[trigger] self@[i]).profile) != (kind, name@),
    {
        let ghost key: MetricKey = (kind, name@);
        assert(self.position(key) is None || self.position(key) is Some);
        match kind {
            Some(kind) => match self.by_type[kind_index(kind)].get(name) {
                Some(i) => Some(*i),
                None => None,
            },
            None => match self.by_identity.get(name) {
                Some(i) => Some(*i),
                None => None,
            },
        }
    }

    /// Appends a metric with an empty slot and returns its position. A full last chunk makes
    /// this add a chunk, and publish it.
    fn insert(&mut self, meta: ProfileMeta) -> (position: usize)
        requires
            old(self).wf(),
            old(self)@.len() < usize::MAX,
            forall|i: int|
                0 <= i < old(self)@.len() ==> key_of((#[trigger] old(self)@[i]).profile) != key_of(
                    meta@,
                ),
        ensures
            final(self).wf(),
            final(self)@ == old(self)@.push(EntryView { profile: meta@, slot: empty_slot() }),
            position == old(self)@.len(),
            final(self).index_view().chunks == old(self).index_view().chunks + if old(self)@.len()
                % 256 == 0 {
                1int
            } else {
                0
            },
    {
        let index: usize = self.len;
        let chunk_index: usize = index / CHUNK_SIZE;
        let offset: usize = index % CHUNK_SIZE;
        let is_new_chunk = self.meta_chunks.len() <= chunk_index;

        if is_new_chunk {
            let mut chunk: Vec<Slot> = Vec::with_capacity(CHUNK_SIZE);
            while chunk.len() < CHUNK_SIZE
                invariant
                    chunk@.len() <= CHUNK_SIZE,
                    forall|o: int| 0 <= o < chunk@.len() ==> #[trigger] chunk@[o] == empty_slot(),
                decreases CHUNK_SIZE - chunk@.len(),
            {
                chunk.push(Slot::new());
            }
            self.slots.push(chunk);
            self.meta_chunks.push(MetaChunk::new());
        }

        match &meta {
            ProfileMeta::Single { name, kind } => {
                self.by_type[kind_index(*kind)].insert(name.clone(), index);
            },
            ProfileMeta::Fanout(plan) => {
                self.by_identity.insert(plan.identity.clone(), index);
            },
        }
        self.meta_chunks[chunk_index].publish(offset, meta);
        self.len += 1;

        if is_new_chunk {
            self.published_index = ShardIndex { chunks: self.meta_chunks.len() };
        }
        proof {
            let pushed = old(self)@.push(EntryView { profile: meta@, slot: empty_slot() });
            assert(self@ =~= pushed);
            let new_key = key_of(meta@);
            assert forall|key: MetricKey| #[trigger]
                self.position(key) == if key == new_key {
                    Some(index)
                } else {
                    old(self).position(key)
                } by {}
            assert(self.chunks_wf());
            assert forall|i: int| 0 <= i < self@.len() implies self.position(
                key_of((#[trigger] self@[i]).profile),
            ) == Some(i as usize) by {
                if i < index {
                    assert(self@[i] == old(self)@[i]);
                }
            }
            assert(self.tables_wf());
        }
        index
    }

    /// Registers a metric here, unless it is here already, and returns its position.
    pub fn register(&mut self, name: &str, kind: MetricType) -> (position: usize)
        requires
            old(self).wf(),
            shard_has(old(self)@, (Some(kind), name@)) || old(self)@.len() < usize::MAX,
        ensures
            final(self).wf(),
            position < final(self)@.len(),
            key_of(final(self)@[position as int].profile) == (Some(kind), name@),
            shard_has(old(self)@, (Some(kind), name@)) ==> final(self)@ == old(self)@
                && final(self).index_view() == old(self).index_view(),
            !shard_has(old(self)@, (Some(kind), name@)) ==> {
                &&& final(self)@ == old(self)@.push(
                    EntryView {
                        profile: ProfileView::Single { name: name@, kind },
                        slot: empty_slot(),
                    },
                )
                &&& position == old(self)@.len()
                &&& final(self).index_view().chunks == old(self).index_view().chunks + if old(
                    self,
                )@.len() % 256 == 0 {
                    1int
                } else {
                    0
                }
            },
    {
        match self.existing(name, Some(kind)) {
            Some(position) => position,
            None => self.insert(ProfileMeta::Single { name: name.to_string(), kind }),
        }
    }

    /// How many metrics visitors can see: the sum of the published chunk lengths.
    pub fn len(&self) -> (len: usize)
        requires
            self.wf(),
        ensures
            len == self@.len(),
    {
        let mut len: usize = 0;
        let mut c: usize = 0;
        while c < self.published_index.chunks
            invariant
                self.wf(),
                c <= self.published_index.chunks,
                len == if 256 * c <= self.len {
                    256 * c
                } else {
                    self.len as int
                },
            decreases self.published_index.chunks - c,
        {
            len += self.meta_chunks[c].published_len();
            c += 1;
        }
        len
    }

    /// The metadata of every metric that visitors can see, in the order of registration.
    fn metas(&self) -> (metas: Vec<&ProfileMeta>)
        requires
            self.wf(),
        ensures
            metas@.len() == self@.len(),
            forall|i: int|
                0 <= i < self@.len() ==> (#[trigger] metas@[i])@ == self@[i].profile,
    {
        let mut metas: Vec<&ProfileMeta> = Vec::new();
        let mut c: usize = 0;
        while c < self.published_index.chunks
            invariant
                self.wf(),
                c <= self.published_index.chunks,
                metas@.len() == if 256 * c <= self.len {
                    256 * c
                } else {
                    self.len as int
                },
                forall|i: int|
                    0 <= i < metas@.len() ==> (#[trigger] metas@[i])@ == self@[i].profile,
            decreases self.published_index.chunks - c,
        {
            let chunk = &self.meta_chunks[c];
            let len: usize = chunk.published_len();
            let mut offset: usize = 0;
            while offset < len
                invariant
                    self.wf(),
                    c < self.published_index.chunks,
                    *chunk == self.meta_chunks@[c as int],
                    len == chunk.entries@.len(),
                    offset <= len,
                    metas@.len() == 256 * c + offset,
                    forall|i: int|
                        0 <= i < metas@.len() ==> (#[trigger] metas@[i])@ == self@[i].profile,
                decreases len - offset,
            {
                assert((256 * c + offset) / 256 == c && (256 * c + offset) % 256 == offset);
                metas.push(chunk.get(offset));
                offset += 1;
            }
            c += 1;
        }
        metas
    }

    /// The metadata of one metric.
    fn meta(&self, index: usize) -> (meta: &ProfileMeta)
        requires
            self.wf(),
            index < self@.len(),
        ensures
            meta@ == self@[index as int].profile,
    {
        self.meta_chunks[index / CHUNK_SIZE].get(index % CHUNK_SIZE)
    }

    /// The slot of one metric.
    fn slot(&self, index: usize) -> (slot: &Slot)
        requires
            self.wf(),
            index < self@.len(),
        ensures
            *slot == self@[index as int].slot,
    {
        &self.slots[index / CHUNK_SIZE][index % CHUNK_SIZE]
    }

    /// Gives the slot of one metric new counters.
    fn put_slot(&mut self, index: usize, slot: Slot)
        requires
            old(self).wf(),
            index < old(self)@.len(),
        ensures
            final(self).wf(),
            final(self)@ == old(self)@.update(
                index as int,
                EntryView { slot, ..old(self)@[index as int] },
            ),
            final(self).index_view() == old(self).index_view(),
    {
        self.slots[index / CHUNK_SIZE].set(index % CHUNK_SIZE, slot);
        proof {
            let updated = old(self)@.update(
                index as int,
                EntryView { slot, ..old(self)@[index as int] },
            );
            assert(self@ =~= updated);
            assert forall|key: MetricKey| #[trigger]
                self.position(key) == old(self).position(key) by {}
            assert forall|i: int| 0 <= i < self@.len() implies (#[trigger] self@[i]).profile
                == old(self)@[i].profile by {}
            assert(self.chunks_wf());
            assert forall|i: int| 0 <= i < self@.len() implies self.position(
                key_of((#[trigger] self@[i]).profile),
            ) == Some(i as usize) by {
                assert(old(self).position(key_of(old(self)@[i].profile)) == Some(i as usize));
            }
        }
    }
}

/// Whether a key stands in a shard.
pub open spec fn shard_has(entries: Seq<EntryView>, key: MetricKey) -> bool {
    exists|i: int| 0 <= i < entries.len() && key_of((#[trigger] entries[i]).profile) == key
}

/// What a registry holds: its metrics, shard by shard in the order of registration, and the
/// latest states.
#[verifier::ext_equal]
pub struct RegistryView {
    pub shards: Seq<Seq<EntryView>>,
    pub states: StateMap,
}

/// How many metrics a sequence of shards holds.
pub open spec fn total_len(shards: Seq<Seq<EntryView>>) -> nat
    decreases shards.len(),
{
    if shards.len() == 0 {
        0
    } else {
        total_len(shards.drop_last()) + shards.last().len()
    }
}

impl RegistryView {
    /// Whether there is a metric at `item`.
    pub open spec fn holds(self, item: ItemPtr) -> bool {
        &&& item.shard < self.shards.len()
        &&& item.index < self.shards[item.shard as int].len()
    }

    /// The metric at `item`.
    pub open spec fn entry(self, item: ItemPtr) -> EntryView {
        self.shards[item.shard as int][item.index as int]
    }

    /// Whether a metric with this key is registered.
    pub open spec fn has(self, key: MetricKey) -> bool {
        exists|item: ItemPtr|
            self.holds(item) && key_of((#[trigger] self.entry(item)).profile) == key
    }

    /// No key is registered twice.
    pub open spec fn distinct(self) -> bool {
        forall|a: ItemPtr, b: ItemPtr|
            self.holds(a) && self.holds(b) && key_of((#[trigger] self.entry(a)).profile) == key_of(
                (#[trigger] self.entry(b)).profile,
            ) ==> a == b
    }

    /// The same registry with other counters for one metric.
    pub open spec fn with_slot(self, item: ItemPtr, slot: Slot) -> RegistryView {
        let entries = self.shards[item.shard as int];
        let entry = EntryView { slot, ..entries[item.index as int] };
        RegistryView {
            shards: self.shards.update(
                item.shard as int,
                entries.update(item.index as int, entry),
            ),
            ..self
        }
    }

    /// The same registry with one more metric, at the end of a shard.
    pub open spec fn with_entry(self, shard: int, entry: EntryView) -> RegistryView {
        RegistryView { shards: self.shards.update(shard, self.shards[shard].push(entry)), ..self }
    }
}

/// `after` is `before` with a metric registered as `fresh`, and `item` leads to that metric. If
/// there was one with the same key, nothing changed. Otherwise a new metric with empty counters
/// stands at the end of one shard.
pub open spec fn registration(
    before: RegistryView,
    after: RegistryView,
    fresh: ProfileView,
    item: ItemPtr,
) -> bool {
    &&& after.holds(item)
    &&& key_of(after.entry(item).profile) == key_of(fresh)
    &&& before.has(key_of(fresh)) ==> after == before
    &&& !before.has(key_of(fresh)) ==> {
        &&& item.shard < before.shards.len()
        &&& item.index == before.shards[item.shard as int].len()
        &&& after == before.with_entry(
            item.shard as int,
            EntryView { profile: fresh, slot: empty_slot() },
        )
    }
}

/// What an operation adds to the sums of its slot: its length in nanoseconds, and a failure if it
/// failed.
pub open spec fn counted(before: Slot, after: Slot, nanos: int, success: bool) -> bool {
    &&& after.elapsed_ns == (before.elapsed_ns + if nanos < 0x1_0000_0000_0000_0000 {
        nanos
    } else {
        0xffff_ffff_ffff_ffff
    }) % 0x1_0000_0000_0000_0000
    &&& success ==> after.failure == before.failure
    &&& !success ==> after.failure == (before.failure + 1) % 0x1_0000_0000_0000_0000
}

/// How many metrics there are after a registration: one more if the metric is new.
pub open spec fn len_after_registration(before: RegistryView, key: MetricKey) -> nat {
    if before.has(key) {
        total_len(before.shards)
    } else {
        total_len(before.shards) + 1
    }
}

/// The shard that a hash selects: its low bits.
pub open spec fn shard_of(hash: u64) -> int {
    hash as int % 64
}

/// Other entries in one shard change the number of metrics by as much as its own.
pub proof fn lemma_total_len_update(shards: Seq<Seq<EntryView>>, at: int, entries: Seq<EntryView>)
    requires
        0 <= at < shards.len(),
    ensures
        total_len(shards.update(at, entries)) == total_len(shards) - shards[at].len()
            + entries.len(),
    decreases shards.len(),
{
    if at == shards.len() - 1 {
        assert(shards.update(at, entries).drop_last() =~= shards.drop_last());
    } else {
        assert(shards.update(at, entries).drop_last() =~= shards.drop_last().update(at, entries));
        lemma_total_len_update(shards.drop_last(), at, entries);
    }
}

/// A shard holds no more metrics than all shards together.
proof fn lemma_shard_len_bound(shards: Seq<Seq<EntryView>>, at: int)
    requires
        0 <= at < shards.len(),
    ensures
        shards[at].len() <= total_len(shards),
    decreases shards.len(),
{
    if at < shards.len() - 1 {
        lemma_shard_len_bound(shards.drop_last(), at);
    }
}

/// Trusted: `ahash::RandomState`, a hasher with its keys. Nothing is claimed of what is inside.
#[verifier::external_type_specification]
#[verifier::external_body]
pub struct ExRandomState(ahash::RandomState);

/// A hasher with random keys.
///
/// Trusted: `ahash::RandomState::new`. Nothing is claimed of the keys.
#[verifier::external_body]
fn random_hasher() -> (hasher: ahash::RandomState)
{
    ahash::RandomState::new()
}

/// The hash that selects the shard of a new metric.
///
/// Trusted: `ahash::RandomState::hash_one`. The hash depends on the random keys of the hasher, so
/// nothing is claimed of it: registration is right for every hash.
#[verifier::external_body]
fn hash_one(hasher: &ahash::RandomState, name: &str, kind: Option<MetricType>) -> (hash: u64)
{
    hasher.hash_one((name, kind))
}

/// One row that a visitor sees.
pub struct VisitedMetric<'a> {
    pub name: &'a str,
    pub metric_type: &'a str,
    pub snapshot: MetricSnapshot,
}

/// What a [`VisitedMetric`] says, with its texts as character sequences.
#[verifier::ext_equal]
pub struct VisitView {
    pub name: Seq<char>,
    pub metric_type: Seq<char>,
    pub snapshot: SnapshotView,
}

impl<'a> View for VisitedMetric<'a> {
    type V = VisitView;

    open spec fn view(&self) -> VisitView {
        VisitView { name: self.name@, metric_type: self.metric_type@, snapshot: self.snapshot@ }
    }
}

/// The rows that a visitor sees of a metric that is shown as `profile`: one, or, for a plan, one
/// for each direct output.
pub open spec fn profile_visits(profile: ProfileView, snapshot: SnapshotView) -> Seq<VisitView> {
    match profile {
        ProfileView::Single { name, kind } => seq![
            VisitView { name, metric_type: label_of(kind), snapshot },
        ],
        ProfileView::Fanout(plan) => Seq::new(
            plan.outputs.len(),
            |i: int|
                VisitView {
                    name: plan.outputs[i].name,
                    metric_type: plan.outputs[i].metric_type,
                    snapshot,
                },
        ),
    }
}

/// The rows that a visitor sees of one metric.
pub open spec fn entry_visits(entry: EntryView) -> Seq<VisitView> {
    profile_visits(entry.profile, slot_view(entry.slot))
}

/// The rows that a visitor sees of the metrics of one shard.
pub open spec fn shard_visits(entries: Seq<EntryView>) -> Seq<VisitView>
    decreases entries.len(),
{
    if entries.len() == 0 {
        seq![]
    } else {
        shard_visits(entries.drop_last()) + entry_visits(entries.last())
    }
}

/// The rows that a visitor sees, shard by shard.
pub open spec fn all_visits(shards: Seq<Seq<EntryView>>) -> Seq<VisitView>
    decreases shards.len(),
{
    if shards.len() == 0 {
        seq![]
    } else {
        all_visits(shards.drop_last()) + shard_visits(shards.last())
    }
}

/// Every metric, shard by shard.
pub open spec fn all_items(shards: Seq<Seq<EntryView>>) -> Seq<ItemPtr>
    decreases shards.len(),
{
    if shards.len() == 0 {
        seq![]
    } else {
        all_items(shards.drop_last()) + Seq::new(
            shards.last().len(),
            |i: int| ItemPtr { shard: (shards.len() - 1) as usize, index: i as usize },
        )
    }
}

/// The views of a sequence of visited rows.
pub open spec fn visit_views(rows: Seq<VisitedMetric<'_>>) -> Seq<VisitView> {
    Seq::new(rows.len(), |i: int| rows[i]@)
}

/// All metrics and states of a process.
pub struct Registry {
    shards: Vec<Shard>,
    /// A keyed fast hasher avoids repeatedly paying SipHash's long-string cost while preserving
    /// collision-steering resistance for shard selection.
    shard_hasher: ahash::RandomState,
    states: StateRegistry,
}

impl View for Registry {
    type V = RegistryView;

    closed spec fn view(&self) -> RegistryView {
        RegistryView {
            shards: Seq::new(self.shards@.len(), |s: int| self.shards@[s]@),
            states: self.states@,
        }
    }
}

impl Registry {
    /// Every shard, and the states, are stored as they should be.
    pub closed spec fn storage_wf(&self) -> bool {
        &&& forall|s: int| 0 <= s < self.shards@.len() ==> (#[trigger] self.shards@[s]).wf()
        &&& self.states.wf()
    }

    /// The shards are in order, no key is registered twice, and all metrics can be counted.
    pub open spec fn wf(&self) -> bool {
        &&& self.storage_wf()
        &&& self@.shards.len() == SHARD_COUNT
        &&& self@.distinct()
        &&& total_len(self@.shards) <= usize::MAX
    }

    /// A metric with this key is there, or one more metric can still be counted.
    pub open spec fn has_room(&self, key: MetricKey) -> bool {
        self@.has(key) || total_len(self@.shards) < usize::MAX
    }

    /// An empty registry.
    pub fn new() -> (registry: Registry)
        ensures
            registry.wf(),
            registry@.shards == Seq::new(64, |s: int| Seq::<EntryView>::empty()),
            total_len(registry@.shards) == 0,
            registry@.states == StateMap::empty(),
    {
        let mut shards: Vec<Shard> = Vec::with_capacity(SHARD_COUNT);
        while shards.len() < SHARD_COUNT
            invariant
                shards@.len() <= SHARD_COUNT,
                forall|s: int|
                    0 <= s < shards@.len() ==> (#[trigger] shards@[s]).wf() && shards@[s]@
                        == Seq::<EntryView>::empty(),
                total_len(Seq::new(shards@.len(), |s: int| Seq::<EntryView>::empty())) == 0,
            decreases SHARD_COUNT - shards@.len(),
        {
            shards.push(Shard::new());
            proof {
                let longer = Seq::new(shards@.len(), |s: int| Seq::<EntryView>::empty());
                assert(longer.drop_last() =~= Seq::new(
                    (shards@.len() - 1) as nat,
                    |s: int| Seq::<EntryView>::empty(),
                ));
            }
        }
        let registry = Registry {
            shards,
            shard_hasher: random_hasher(),
            states: StateRegistry::new(),
        };
        assert(registry@.shards =~= Seq::new(64, |s: int| Seq::<EntryView>::empty()));
        registry
    }

    /// Where a metric is registered, if it is. The lookup starts at the shard that its hash
    /// selects.
    fn find(&self, start: usize, name: &str, kind: Option<MetricType>) -> (found: Option<ItemPtr>)
        requires
            self.wf(),
            start < SHARD_COUNT,
        ensures
            found matches Some(item) ==> self@.holds(item) && key_of(self@.entry(item).profile) == (
                kind,
                name@,
            ),
            found is None ==> !self@.has((kind, name@)),
    {
        if let Some(index) = self.shards[start].existing(name, kind) {
            return Some(ItemPtr { shard: start, index });
        }
        let mut shard: usize = 0;
        while shard < self.shards.len()
            invariant
                self.wf(),
                shard <= self.shards@.len(),
                forall|s: int, i: int|
                    0 <= s < shard && 0 <= i < self.shards@[s]@.len() ==> key_of(
                        (#[trigger] self.shards@[s]@[i]).profile,
                    ) != (kind, name@),
            decreases self.shards@.len() - shard,
        {
            if let Some(index) = self.shards[shard].existing(name, kind) {
                return Some(ItemPtr { shard, index });
            }
            shard += 1;
        }
        assert forall|item: ItemPtr| self@.holds(item) implies key_of(
            (#[trigger] self@.entry(item)).profile,
        ) != (kind, name@) by {
            assert(self@.entry(item) == self.shards@[item.shard as int]@[item.index as int]);
        }
        None
    }

    /// Appends a metric that is not registered yet to a shard.
    fn append(&mut self, shard: usize, meta: ProfileMeta) -> (item: ItemPtr)
        requires
            old(self).wf(),
            shard < SHARD_COUNT,
            !old(self)@.has(key_of(meta@)),
            total_len(old(self)@.shards) < usize::MAX,
        ensures
            final(self).wf(),
            item.shard == shard,
            registration(old(self)@, final(self)@, meta@, item),
            total_len(final(self)@.shards) == total_len(old(self)@.shards) + 1,
    {
        let ghost fresh = EntryView { profile: meta@, slot: empty_slot() };
        let ghost before = self@;
        proof {
            lemma_shard_len_bound(before.shards, shard as int);
            lemma_total_len_update(
                before.shards,
                shard as int,
                before.shards[shard as int].push(fresh),
            );
            assert forall|i: int| 0 <= i < self.shards@[shard as int]@.len() implies key_of(
                (#[trigger] self.shards@[shard as int]@[i]).profile,
            ) != key_of(meta@) by {
                let item = ItemPtr { shard, index: i as usize };
                assert(before.holds(item));
                assert(before.entry(item) == self.shards@[shard as int]@[i]);
            }
        }
        let index: usize = self.shards[shard].insert(meta);
        let item = ItemPtr { shard, index };
        proof {
            let after = self@;
            assert(after =~= before.with_entry(shard as int, fresh));
            assert forall|a: ItemPtr, b: ItemPtr|
                after.holds(a) && after.holds(b) && key_of((#[trigger] after.entry(a)).profile)
                    == key_of((#[trigger] after.entry(b)).profile) implies a == b by {
                if a != item {
                    assert(before.holds(a) && before.entry(a) == after.entry(a));
                }
                if b != item {
                    assert(before.holds(b) && before.entry(b) == after.entry(b));
                }
            }
        }
        item
    }

    /// Registers a metric whose hash is known.
    pub fn register_hashed(&mut self, hash: u64, name: &str, kind: MetricType) -> (metric: Metric)
        requires
            old(self).wf(),
            old(self).has_room((Some(kind), name@)),
        ensures
            final(self).wf(),
            registration(
                old(self)@,
                final(self)@,
                ProfileView::Single { name: name@, kind },
                metric.item,
            ),
            total_len(final(self)@.shards) == len_after_registration(
                old(self)@,
                (Some(kind), name@),
            ),
            final(self)@.entry(metric.item).profile == (ProfileView::Single { name: name@, kind }),
            !old(self)@.has((Some(kind), name@)) ==> metric.item.shard == shard_of(hash),
            metric.policy == policy_of(kind),
    {
        let shard: usize = shard_index(hash);
        let item = match self.find(shard, name, Some(kind)) {
            Some(item) => item,
            None => self.append(shard, ProfileMeta::Single { name: name.to_string(), kind }),
        };
        Metric::new(item, kind.policy())
    }

    /// Registers a plan whose hash is known. A plan with the same identity that is already there
    /// stays as it is.
    pub fn register_profile_hashed(&mut self, hash: u64, plan: ProfilePlan) -> (metric: Metric)
        requires
            old(self).wf(),
            old(self).has_room((None, plan@.identity)),
        ensures
            final(self).wf(),
            registration(old(self)@, final(self)@, ProfileView::Fanout(plan@), metric.item),
            total_len(final(self)@.shards) == len_after_registration(
                old(self)@,
                (None, plan@.identity),
            ),
            !old(self)@.has((None, plan@.identity)) ==> metric.item.shard == shard_of(hash),
            final(self)@.entry(metric.item).profile matches ProfileView::Fanout(stored)
                && metric.policy == stored.policy,
    {
        let shard: usize = shard_index(hash);
        match self.find(shard, plan.identity.as_str(), None) {
            Some(item) => Metric::new(item, self.policy_at(item)),
            None => {
                let policy = plan.policy;
                Metric::new(self.append(shard, ProfileMeta::Fanout(plan)), policy)
            },
        }
    }

    /// The policy of the metric at `item`.
    fn policy_at(&self, item: ItemPtr) -> (policy: MetricPolicy)
        requires
            self.wf(),
            self@.holds(item),
        ensures
            policy == match self@.entry(item).profile {
                ProfileView::Single { kind, .. } => policy_of(kind),
                ProfileView::Fanout(plan) => plan.policy,
            },
    {
        match self.shards[item.shard].meta(item.index) {
            ProfileMeta::Single { kind, .. } => kind.policy(),
            ProfileMeta::Fanout(plan) => plan.policy,
        }
    }

    /// Registers a metric, unless one with the same type and name is there.
    pub fn register(&mut self, name: &str, kind: MetricType) -> (metric: Metric)
        requires
            old(self).wf(),
            old(self).has_room((Some(kind), name@)),
        ensures
            final(self).wf(),
            registration(
                old(self)@,
                final(self)@,
                ProfileView::Single { name: name@, kind },
                metric.item,
            ),
            total_len(final(self)@.shards) == len_after_registration(
                old(self)@,
                (Some(kind), name@),
            ),
            final(self)@.entry(metric.item).profile == (ProfileView::Single { name: name@, kind }),
            metric.policy == policy_of(kind),
    {
        let hash: u64 = hash_one(&self.shard_hasher, name, Some(kind));
        self.register_hashed(hash, name, kind)
    }

    /// Registers a plan, unless one with the same identity is there.
    pub fn register_profile(&mut self, plan: ProfilePlan) -> (metric: Metric)
        requires
            old(self).wf(),
            old(self).has_room((None, plan@.identity)),
        ensures
            final(self).wf(),
            registration(old(self)@, final(self)@, ProfileView::Fanout(plan@), metric.item),
            total_len(final(self)@.shards) == len_after_registration(
                old(self)@,
                (None, plan@.identity),
            ),
            final(self)@.entry(metric.item).profile matches ProfileView::Fanout(stored)
                && metric.policy == stored.policy,
    {
        let hash: u64 = hash_one(&self.shard_hasher, plan.identity.as_str(), None);
        self.register_profile_hashed(hash, plan)
    }

    /// How many metrics are registered.
    pub fn len(&self) -> (len: usize)
        requires
            self.wf(),
        ensures
            len == total_len(self@.shards),
    {
        let mut len: usize = 0;
        let mut shard: usize = 0;
        proof {
            assert(self@.shards.take(0).len() == 0);
        }
        while shard < self.shards.len()
            invariant
                self.wf(),
                shard <= self.shards@.len(),
                len == total_len(self@.shards.take(shard as int)),
            decreases self.shards@.len() - shard,
        {
            proof {
                let next = self@.shards.take(shard + 1);
                assert(next.drop_last() =~= self@.shards.take(shard as int));
                lemma_total_len_prefix(self@.shards, shard + 1);
            }
            len += self.shards[shard].len();
            shard += 1;
        }
        assert(self@.shards.take(shard as int) =~= self@.shards);
        len
    }

    /// Whether there is a metric at `item`.
    pub fn contains(&self, item: ItemPtr) -> (contained: bool)
        requires
            self.wf(),
        ensures
            contained == self@.holds(item),
    {
        item.shard < self.shards.len() && item.index < self.shards[item.shard].len()
    }

    /// Where every metric is, shard by shard.
    pub fn items(&self) -> (items: Vec<ItemPtr>)
        requires
            self.wf(),
        ensures
            items@ == all_items(self@.shards),
    {
        let mut items: Vec<ItemPtr> = Vec::new();
        let mut shard: usize = 0;
        assert(self@.shards.take(0).len() == 0);
        while shard < self.shards.len()
            invariant
                self.wf(),
                shard <= self.shards@.len(),
                items@ == all_items(self@.shards.take(shard as int)),
            decreases self.shards@.len() - shard,
        {
            let ghost before = items@;
            let len: usize = self.shards[shard].len();
            let mut index: usize = 0;
            while index < len
                invariant
                    index <= len,
                    items@ == before + Seq::new(
                        index as nat,
                        |i: int| ItemPtr { shard, index: i as usize },
                    ),
                decreases len - index,
            {
                items.push(ItemPtr { shard, index });
                index += 1;
                assert(items@ =~= before + Seq::new(
                    index as nat,
                    |i: int| ItemPtr { shard, index: i as usize },
                ));
            }
            proof {
                let next = self@.shards.take(shard + 1);
                assert(next.drop_last() =~= self@.shards.take(shard as int));
                assert(items@ =~= all_items(next));
            }
            shard += 1;
        }
        assert(self@.shards.take(shard as int) =~= self@.shards);
        items
    }

    /// Reads every metric, shard by shard. Direct outputs of plans are all visited; flush-time
    /// aggregates are not.
    pub fn visit(&self) -> (rows: Vec<VisitedMetric<'_>>)
        requires
            self.wf(),
        ensures
            visit_views(rows@) == all_visits(self@.shards),
    {
        let mut rows: Vec<VisitedMetric<'_>> = Vec::new();
        let mut s: usize = 0;
        assert(self@.shards.take(0).len() == 0);
        assert(visit_views(rows@) =~= all_visits(self@.shards.take(0)));
        while s < self.shards.len()
            invariant
                self.wf(),
                s <= self.shards@.len(),
                visit_views(rows@) == all_visits(self@.shards.take(s as int)),
            decreases self.shards@.len() - s,
        {
            let shard = &self.shards[s];
            let metas = shard.metas();
            let ghost entries = self@.shards[s as int];
            let ghost before = visit_views(rows@);
            let mut i: usize = 0;
            assert(before + shard_visits(entries.take(0)) =~= before);
            while i < metas.len()
                invariant
                    self.wf(),
                    s < self.shards@.len(),
                    *shard == self.shards@[s as int],
                    entries == shard@,
                    i <= metas@.len(),
                    metas@.len() == entries.len(),
                    forall|k: int|
                        0 <= k < entries.len() ==> (#[trigger] metas@[k])@ == entries[k].profile,
                    visit_views(rows@) == before + shard_visits(entries.take(i as int)),
                decreases metas@.len() - i,
            {
                let ghost done = visit_views(rows@);
                let current = snapshot(shard.slot(i));
                push_visits(&mut rows, metas[i], current);
                proof {
                    let next = entries.take(i + 1);
                    assert(next.drop_last() =~= entries.take(i as int));
                    assert(visit_views(rows@) =~= before + shard_visits(next));
                }
                i += 1;
            }
            proof {
                assert(entries.take(i as int) =~= entries);
                let next = self@.shards.take(s + 1);
                assert(next.drop_last() =~= self@.shards.take(s as int));
            }
            s += 1;
        }
        assert(self@.shards.take(s as int) =~= self@.shards);
        rows
    }

    /// Reads the counters of the metric at `item`.
    pub fn snapshot(&self, item: ItemPtr) -> (current: MetricSnapshot)
        requires
            self.wf(),
            self@.holds(item),
        ensures
            current@ == slot_view(self@.entry(item).slot),
    {
        snapshot(self.shards[item.shard].slot(item.index))
    }

    /// Gives the metric at `item` new counters.
    fn put_slot(&mut self, item: ItemPtr, slot: Slot)
        requires
            old(self).wf(),
            old(self)@.holds(item),
        ensures
            final(self).wf(),
            final(self)@ == old(self)@.with_slot(item, slot),
    {
        let ghost before = self@;
        self.shards[item.shard].put_slot(item.index, slot);
        proof {
            let after = self@;
            assert(after =~= before.with_slot(item, slot));
            lemma_total_len_update(
                before.shards,
                item.shard as int,
                after.shards[item.shard as int],
            );
            assert forall|a: ItemPtr| after.holds(a) == before.holds(a) by {}
            assert forall|a: ItemPtr| before.holds(a) implies (#[trigger] after.entry(a)).profile
                == before.entry(a).profile by {}
            assert forall|a: ItemPtr, b: ItemPtr|
                after.holds(a) && after.holds(b) && key_of((#[trigger] after.entry(a)).profile)
                    == key_of((#[trigger] after.entry(b)).profile) implies a == b by {
                assert(before.holds(a) && before.holds(b));
                assert(key_of(before.entry(a).profile) == key_of(before.entry(b).profile));
            }
        }
    }

    /// Records one completed operation for the metric at `item`.
    pub fn record(&mut self, item: ItemPtr, policy: MetricPolicy, nanos: u128, success: bool)
        requires
            old(self).wf(),
            old(self)@.holds(item),
        ensures
            final(self).wf(),
            final(self)@ == old(self)@.with_slot(
                item,
                recorded(old(self)@.entry(item).slot, policy, nanos as int, success),
            ),
            counted(
                old(self)@.entry(item).slot,
                final(self)@.entry(item).slot,
                nanos as int,
                success,
            ),
    {
        proof {
            crate::metric::law_operation_counts_where_it_belongs(
                old(self)@.entry(item).slot,
                policy,
                nanos as nat,
                success,
            );
        }
        let mut slot: Slot = *self.shards[item.shard].slot(item.index);
        slot.record(policy, nanos, success);
        self.put_slot(item, slot);
    }

    /// Records one count-only occurrence for the metric at `item`.
    pub fn increment(&mut self, item: ItemPtr)
        requires
            old(self).wf(),
            old(self)@.holds(item),
        ensures
            final(self).wf(),
            final(self)@ == old(self)@.with_slot(item, incremented(old(self)@.entry(item).slot)),
            final(self)@.entry(item).slot.interval1 == (old(self)@.entry(item).slot.interval1 + 1)
                % 0x1_0000_0000_0000_0000,
    {
        proof {
            crate::metric::law_occurrence_counts_in_the_first_bucket(old(self)@.entry(item).slot);
        }
        let mut slot: Slot = *self.shards[item.shard].slot(item.index);
        slot.increment();
        self.put_slot(item, slot);
    }

    /// Reads the counters of the metric at `item` and resets them.
    pub fn drain(&mut self, item: ItemPtr) -> (drained: MetricSnapshot)
        requires
            old(self).wf(),
            old(self)@.holds(item),
        ensures
            final(self).wf(),
            final(self)@ == old(self)@.with_slot(item, empty_slot()),
            drained@ == slot_view(old(self)@.entry(item).slot),
    {
        let mut slot: Slot = *self.shards[item.shard].slot(item.index);
        let drained = drain(&mut slot);
        self.put_slot(item, slot);
        drained
    }

    /// How the metric at `item` is shown.
    pub fn meta(&self, item: ItemPtr) -> (meta: &ProfileMeta)
        requires
            self.wf(),
            self@.holds(item),
        ensures
            meta@ == self@.entry(item).profile,
    {
        self.shards[item.shard].meta(item.index)
    }

    /// Records the latest value of one field of one state.
    pub fn record_state(&mut self, state_type: StateType, name: &str, key: &str, value: &str)
        requires
            old(self).wf(),
        ensures
            final(self).wf(),
            final(self)@ == (RegistryView {
                states: state_recorded(old(self)@.states, state_type, name@, key@, value@),
                ..old(self)@
            }),
            final(self)@.states.contains_key((state_type, name@)),
            final(self)@.states[(state_type, name@)].contains_key(key@),
            final(self)@.states[(state_type, name@)][key@] == value@,
    {
        let ghost before = self@;
        self.states.record(state_type, name, key, value);
        proof {
            assert(self@.shards =~= before.shards);
            assert forall|a: ItemPtr| self@.holds(a) == before.holds(a) && #[trigger] self@.entry(a)
                == before.entry(a) by {}
            assert(self@.distinct());
        }
    }

    /// Copies out all states, sorted.
    pub fn state_snapshot(&self) -> (snapshots: Vec<StateSnapshot>)
        requires
            self.wf(),
        ensures
            states_sorted(state_views(snapshots@)),
            states_map(state_views(snapshots@)) == self@.states,
    {
        self.states.snapshot()
    }
}

proof fn lemma_total_len_prefix(shards: Seq<Seq<EntryView>>, n: int)
    requires
        0 <= n <= shards.len(),
    ensures
        total_len(shards.take(n)) <= total_len(shards),
    decreases shards.len(),
{
    if n == shards.len() {
        assert(shards.take(n) =~= shards);
    } else {
        lemma_total_len_prefix(shards.drop_last(), n);
        assert(shards.drop_last().take(n) =~= shards.take(n));
    }
}

/// The shard that a hash selects.
fn shard_index(hash: u64) -> (shard: usize)
    ensures
        shard == shard_of(hash),
        shard < SHARD_COUNT,
{
    // The shard count is a power of two. AHash's mixed output makes selecting the low bits safe.
    assert(hash & 63 == hash % 64) by (bit_vector);
    (hash & 63) as usize
}

/// Adds the rows that a visitor sees of one metric.
fn push_visits<'a>(rows: &mut Vec<VisitedMetric<'a>>, meta: &'a ProfileMeta, current: MetricSnapshot)
    ensures
        visit_views(final(rows)@) == visit_views(old(rows)@) + profile_visits(meta@, current@),
{
    let ghost before = visit_views(rows@);
    match meta {
        ProfileMeta::Single { name, kind } => {
            let (metric_type, _) = kind.output();
            rows.push(VisitedMetric { name: name.as_str(), metric_type, snapshot: current });
        },
        ProfileMeta::Fanout(plan) => {
            let ghost all = profile_visits(meta@, current@);
            let mut i: usize = 0;
            while i < plan.outputs.len()
                invariant
                    i <= plan.outputs@.len(),
                    all == profile_visits(ProfileView::Fanout(plan@), current@),
                    visit_views(rows@) == before + all.take(i as int),
                decreases plan.outputs@.len() - i,
            {
                let ghost done = visit_views(rows@);
                rows.push(
                    VisitedMetric {
                        name: plan.outputs[i].name.as_str(),
                        metric_type: plan.outputs[i].metric_type.as_str(),
                        snapshot: current,
                    },
                );
                assert(visit_views(rows@) =~= done.push(all[i as int]));
                assert(visit_views(rows@) =~= before + all.take(i + 1));
                i += 1;
            }
        },
    }
    assert(visit_views(rows@) =~= before + profile_visits(meta@, current@));
}

} // verus!
