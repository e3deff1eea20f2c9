//! The cache: what each source last produced, by provider and path. Time is
//! handed in as milliseconds of a monotonic clock.

use vstd::prelude::*;

use crate::text::{opt_str, opt_text, owned, borrowed, same_option, same_text, split_on};
use crate::value::{
    clone_fields, fields_model, lookup_path, path_lookup, Json, Value,
};

verus! {

/// What a source last produced.
#[derive(Debug)]
pub struct SourceEntry {
    pub name: String,
    pub fields: Vec<(String, Value)>,
    pub refreshed_ms: u128,
    /// How often new data is expected, if it is.
    pub interval_secs: Option<u64>,
}

/// The mathematical content of a [`SourceEntry`].
pub struct SourceEntryView {
    pub name: Seq<char>,
    pub fields: Map<Seq<char>, Json>,
    pub refreshed_ms: u128,
    pub interval_secs: Option<u64>,
}

impl View for SourceEntry {
    type V = SourceEntryView;

    open spec fn view(&self) -> SourceEntryView {
        SourceEntryView {
            name: self.name@,
            fields: fields_model(self.fields@),
            refreshed_ms: self.refreshed_ms,
            interval_secs: self.interval_secs,
        }
    }
}

/// Milliseconds from `since` to `now`, or 0 if the clock reads earlier.
pub open spec fn elapsed_ms(since: u128, now: u128) -> u128 {
    if now >= since {
        (now - since) as u128
    } else {
        0
    }
}

impl SourceEntryView {
    pub open spec fn age_ms(self, now: u128) -> u128 {
        elapsed_ms(self.refreshed_ms, now)
    }

    /// Data is stale once it is older than the interval at which new data is
    /// expected.
    pub open spec fn is_stale(self, now: u128) -> bool {
        self.interval_secs matches Some(secs) && self.age_ms(now) > secs * 1000
    }
}

/// Milliseconds from `since` to `now`, or 0 if the clock reads earlier.
pub fn elapsed(since: u128, now: u128) -> (ms: u128)
    ensures
        ms == elapsed_ms(since, now),
{
    if now >= since {
        now - since
    } else {
        0
    }
}

impl SourceEntry {
    /// The age of the data.
    pub fn age_ms(&self, now: u128) -> (age: u128)
        ensures
            age == self@.age_ms(now),
    {
        elapsed(self.refreshed_ms, now)
    }

    /// Whether the data is older than it should be.
    pub fn is_stale(&self, now: u128) -> (stale: bool)
        ensures
            stale == self@.is_stale(now),
    {
        match self.interval_secs {
            Some(secs) => self.age_ms(now) > (secs as u128) * 1000,
            None => false,
        }
    }
}

/// The sources cached for one provider and path.
#[derive(Debug)]
pub struct CacheEntry {
    pub provider: String,
    pub path: Option<String>,
    pub sources: Vec<SourceEntry>,
}

/// The mathematical content of a [`CacheEntry`].
pub struct EntryView {
    pub provider: Seq<char>,
    pub path: Option<Seq<char>>,
    pub sources: Seq<SourceEntryView>,
}

impl View for CacheEntry {
    type V = EntryView;

    open spec fn view(&self) -> EntryView {
        EntryView {
            provider: self.provider@,
            path: opt_text(self.path),
            sources: self.sources@.map_values(|s: SourceEntry| s@),
        }
    }
}

/// The age of the oldest of the sources.
pub open spec fn oldest_age(sources: Seq<SourceEntryView>, now: u128) -> u128
    decreases sources.len(),
{
    if sources.len() == 0 {
        0
    } else {
        let before = oldest_age(sources.drop_last(), now);
        let last = sources.last().age_ms(now);
        if last > before {
            last
        } else {
            before
        }
    }
}

/// The fields of all sources together; the source listed last counts where two
/// have the same field.
pub open spec fn merged_fields(sources: Seq<SourceEntryView>) -> Map<Seq<char>, Json>
    decreases sources.len(),
{
    if sources.len() == 0 {
        Map::empty()
    } else {
        merged_fields(sources.drop_last()).union_prefer_right(sources.last().fields)
    }
}

/// The index of the source of the given name, or -1.
pub open spec fn entry_index(sources: Seq<SourceEntryView>, name: Seq<char>) -> int
    decreases sources.len(),
{
    if sources.len() == 0 {
        -1
    } else if sources.last().name == name {
        sources.len() - 1
    } else {
        entry_index(sources.drop_last(), name)
    }
}

/// What the dotted path `field` addresses in the first source that has it, and
/// when that source was refreshed.
pub open spec fn find_in_sources(
    sources: Seq<SourceEntryView>,
    field: Seq<char>,
) -> Option<(Json, u128)>
    decreases sources.len(),
{
    if sources.len() == 0 {
        None
    } else {
        match path_lookup(sources[0].fields, split_on(field, '.')) {
            Some(value) => Some((value, sources[0].refreshed_ms)),
            None => find_in_sources(sources.drop_first(), field),
        }
    }
}

impl EntryView {
    pub open spec fn age_ms(self, now: u128) -> u128 {
        oldest_age(self.sources, now)
    }

    pub open spec fn is_stale(self, now: u128) -> bool {
        exists|i: int| 0 <= i < self.sources.len() && (#[trigger] self.sources[i]).is_stale(now)
    }
}

/// The mathematical content of a [`Cache`]: its entries in the order in which
/// they were first stored.
pub struct CacheView {
    pub entries: Seq<EntryView>,
}

/// The index of the entry for the given provider and path, or -1.
pub open spec fn slot_index(
    entries: Seq<EntryView>,
    provider: Seq<char>,
    path: Option<Seq<char>>,
) -> int
    decreases entries.len(),
{
    if entries.len() == 0 {
        -1
    } else if entries.last().provider == provider && entries.last().path == path {
        entries.len() - 1
    } else {
        slot_index(entries.drop_last(), provider, path)
    }
}

/// `sources` with `entry` in place of what its name held before.
pub open spec fn put_entry(
    sources: Seq<SourceEntryView>,
    entry: SourceEntryView,
) -> Seq<SourceEntryView> {
    let at = entry_index(sources, entry.name);
    if at >= 0 {
        sources.update(at, entry)
    } else {
        sources.push(entry)
    }
}

/// No two sources of an entry share a name.
pub open spec fn distinct_sources(sources: Seq<SourceEntryView>) -> bool {
    forall|i: int, j: int|
        0 <= i < j < sources.len() ==> (#[trigger] sources[i]).name != (#[trigger] sources[j]).name
}

impl CacheView {
    /// The sources cached for `provider` at `path`.
    pub open spec fn entry(self, provider: Seq<char>, path: Option<Seq<char>>) -> Option<EntryView> {
        let at = slot_index(self.entries, provider, path);
        if at >= 0 {
            Some(self.entries[at])
        } else {
            None
        }
    }

    pub open spec fn source(
        self,
        provider: Seq<char>,
        path: Option<Seq<char>>,
        source: Seq<char>,
    ) -> Option<SourceEntryView> {
        match self.entry(provider, path) {
            Some(e) => {
                let at = entry_index(e.sources, source);
                if at >= 0 {
                    Some(e.sources[at])
                } else {
                    None
                }
            },
            None => None,
        }
    }

    pub open spec fn field(
        self,
        provider: Seq<char>,
        path: Option<Seq<char>>,
        field: Seq<char>,
    ) -> Option<(Json, u128)> {
        match self.entry(provider, path) {
            Some(e) => find_in_sources(e.sources, field),
            None => None,
        }
    }

    /// The cache after `entry` was stored for `provider` at `path`.
    pub open spec fn put(
        self,
        provider: Seq<char>,
        path: Option<Seq<char>>,
        entry: SourceEntryView,
    ) -> CacheView {
        let at = slot_index(self.entries, provider, path);
        if at >= 0 {
            CacheView {
                entries: self.entries.update(
                    at,
                    EntryView { provider, path, sources: put_entry(self.entries[at].sources, entry) },
                ),
            }
        } else {
            CacheView {
                entries: self.entries.push(EntryView { provider, path, sources: seq![entry] }),
            }
        }
    }

    /// The cache without the entry for `provider` at `path`.
    pub open spec fn without(self, provider: Seq<char>, path: Option<Seq<char>>) -> CacheView {
        let at = slot_index(self.entries, provider, path);
        if at >= 0 {
            CacheView { entries: self.entries.remove(at) }
        } else {
            self
        }
    }

    /// No two entries share a provider and path, and no two sources of an entry
    /// share a name.
    pub open spec fn distinct(self) -> bool {
        &&& forall|i: int, j: int|
            0 <= i < j < self.entries.len() ==> !((#[trigger] self.entries[i]).provider == (
            #[trigger] self.entries[j]).provider && self.entries[i].path == self.entries[j].path)
        &&& forall|i: int|
            0 <= i < self.entries.len() ==> distinct_sources((#[trigger] self.entries[i]).sources)
    }
}

/// What each source last produced, by provider and path.
#[derive(Debug)]
pub struct Cache {
    slots: Vec<CacheEntry>,
}

impl View for Cache {
    type V = CacheView;

    closed spec fn view(&self) -> CacheView {
        CacheView { entries: self.slots@.map_values(|e: CacheEntry| e@) }
    }
}

pub proof fn lemma_slot_index(entries: Seq<EntryView>, provider: Seq<char>, path: Option<Seq<char>>)
    ensures
        -1 <= slot_index(entries, provider, path) < entries.len(),
        slot_index(entries, provider, path) >= 0 ==> {
            &&& entries[slot_index(entries, provider, path)].provider == provider
            &&& entries[slot_index(entries, provider, path)].path == path
        },
        slot_index(entries, provider, path) < 0 ==> forall|j: int|
            0 <= j < entries.len() ==> !((#[trigger] entries[j]).provider == provider
                && entries[j].path == path),
    decreases entries.len(),
{
    if entries.len() > 0 {
        let init = entries.drop_last();
        lemma_slot_index(init, provider, path);
        assert forall|j: int| 0 <= j < init.len() implies init[j] == entries[j] by {}
    }
}

pub proof fn lemma_entry_index(sources: Seq<SourceEntryView>, name: Seq<char>)
    ensures
        -1 <= entry_index(sources, name) < sources.len(),
        entry_index(sources, name) >= 0 ==> sources[entry_index(sources, name)].name == name,
        entry_index(sources, name) < 0 ==> forall|j: int|
            0 <= j < sources.len() ==> (#[trigger] sources[j]).name != name,
    decreases sources.len(),
{
    if sources.len() > 0 {
        let init = sources.drop_last();
        lemma_entry_index(init, name);
        assert forall|j: int| 0 <= j < init.len() implies init[j] == sources[j] by {}
    }
}

impl CacheEntry {
    /// The age of the oldest source.
    pub fn age_ms(&self, now: u128) -> (age: u128)
        ensures
            age == self@.age_ms(now),
    {
        let mut age: u128 = 0;
        let mut i: usize = 0;
        let ghost all = self@.sources;
        while i < self.sources.len()
            invariant
                i <= self.sources@.len(),
                all == self@.sources,
                age == oldest_age(all.take(i as int), now),
            decreases self.sources@.len() - i,
        {
            assert(all.take(i + 1).drop_last() =~= all.take(i as int));
            assert(all.take(i + 1).last() == self.sources@[i as int]@);
            let next = self.sources[i].age_ms(now);
            if next > age {
                age = next;
            }
            i += 1;
        }
        assert(all.take(i as int) =~= all);
        age
    }

    /// Whether any source is stale.
    pub fn is_stale(&self, now: u128) -> (stale: bool)
        ensures
            stale == self@.is_stale(now),
    {
        let mut i: usize = 0;
        while i < self.sources.len()
            invariant
                i <= self.sources@.len(),
                forall|j: int| 0 <= j < i ==> !self.sources@[j]@.is_stale(now),
            decreases self.sources@.len() - i,
        {
            if self.sources[i].is_stale(now) {
                assert(self@.sources[i as int].is_stale(now));
                return true;
            }
            i += 1;
        }
        assert forall|j: int| 0 <= j < self@.sources.len() implies !(#[trigger]
            self@.sources[j]).is_stale(now) by {
            assert(self@.sources[j] == self.sources@[j]@);
        }
        false
    }

    /// The fields of all sources in one list.
    pub fn flatten_fields(&self) -> (fields: Vec<(String, Value)>)
        ensures
            fields_model(fields@) == merged_fields(self@.sources),
    {
        let mut fields: Vec<(String, Value)> = Vec::new();
        let mut i: usize = 0;
        let ghost all = self@.sources;
        while i < self.sources.len()
            invariant
                i <= self.sources@.len(),
                all == self@.sources,
                fields_model(fields@) == merged_fields(all.take(i as int)),
            decreases self.sources@.len() - i,
        {
            assert(all.take(i + 1).drop_last() =~= all.take(i as int));
            assert(all.take(i + 1).last() == self.sources@[i as int]@);
            let mut more = clone_fields(&self.sources[i].fields);
            proof {
                lemma_concat_fields(fields@, more@);
            }
            fields.append(&mut more);
            i += 1;
        }
        assert(all.take(i as int) =~= all);
        fields
    }

    fn find_source(&self, name: &str) -> (found: Option<usize>)
        ensures
            found matches Some(i) ==> i == entry_index(self@.sources, name@) && i
                < self.sources@.len(),
            found is None ==> entry_index(self@.sources, name@) == -1,
    {
        let mut n: usize = self.sources.len();
        let ghost all = self@.sources;
        assert(all.take(n as int) =~= all);
        while n > 0
            invariant
                n <= self.sources@.len(),
                all == self@.sources,
                entry_index(all, name@) == entry_index(all.take(n as int), name@),
            decreases n,
        {
            assert(all.take(n as int).drop_last() =~= all.take(n - 1));
            assert(all.take(n as int).last() == self.sources@[n - 1]@);
            if same_text(self.sources[n - 1].name.as_str(), name) {
                return Some(n - 1);
            }
            n -= 1;
        }
        None
    }

    fn put(&mut self, entry: SourceEntry)
        ensures
            final(self)@ == (EntryView {
                sources: put_entry(old(self)@.sources, entry@),
                ..old(self)@
            }),
    {
        let ghost before = self@.sources;
        match self.find_source(entry.name.as_str()) {
            Some(i) => {
                self.sources.set(i, entry);
                assert(self@.sources =~= before.update(i as int, entry@));
            },
            None => {
                self.sources.push(entry);
                assert(self@.sources =~= before.push(entry@));
            },
        }
    }
}

/// One field list after another: the second counts where both have a field.
pub proof fn lemma_concat_fields(a: Seq<(String, Value)>, b: Seq<(String, Value)>)
    ensures
        fields_model(a + b) == fields_model(a).union_prefer_right(fields_model(b)),
    decreases b.len(),
{
    if b.len() == 0 {
        assert(a + b =~= a);
        assert(fields_model(a).union_prefer_right(fields_model(b)) =~= fields_model(a));
    } else {
        lemma_concat_fields(a, b.drop_last());
        assert((a + b).drop_last() =~= a + b.drop_last());
        assert(fields_model(a + b) =~= fields_model(a).union_prefer_right(fields_model(b)));
    }
}

impl Cache {
    /// Every slot and every source within it is there once.
    pub open spec fn wf(self) -> bool {
        self@.distinct()
    }

    /// An empty cache.
    pub fn new() -> (cache: Cache)
        ensures
            cache.wf(),
            cache@.entries == Seq::<EntryView>::empty(),
    {
        let cache = Cache { slots: Vec::new() };
        assert(cache@.entries =~= Seq::<EntryView>::empty());
        cache
    }

    /// How many entries there are.
    pub fn len(&self) -> (count: usize)
        ensures
            count == self@.entries.len(),
    {
        self.slots.len()
    }

    /// The entry at index `i`.
    pub fn entry_at(&self, i: usize) -> (entry: &CacheEntry)
        requires
            i < self@.entries.len(),
        ensures
            entry@ == self@.entries[i as int],
    {
        &self.slots[i]
    }

    /// How many entries are stale.
    pub fn count_stale(&self, now: u128) -> (count: usize)
        ensures
            count == self@.entries.filter(|e: EntryView| e.is_stale(now)).len(),
    {
        let ghost all = self@.entries;
        let ghost stale = |e: EntryView| e.is_stale(now);
        let mut count: usize = 0;
        let mut i: usize = 0;
        proof {
            reveal(Seq::filter);
        }
        while i < self.slots.len()
            invariant
                i <= self.slots@.len(),
                all == self@.entries,
                stale == (|e: EntryView| e.is_stale(now)),
                count <= i,
                count == all.take(i as int).filter(stale).len(),
            decreases self.slots@.len() - i,
        {
            proof {
                reveal(Seq::filter);
                assert(all.take(i + 1).drop_last() =~= all.take(i as int));
                assert(all.take(i + 1).last() == self.slots@[i as int]@);
            }
            if self.slots[i].is_stale(now) {
                count += 1;
            }
            i += 1;
        }
        assert(all.take(i as int) =~= all);
        count
    }

    fn find(&self, provider: &str, path: Option<&str>) -> (found: Option<usize>)
        ensures
            found matches Some(i) ==> i == slot_index(self@.entries, provider@, opt_str(path)) && i
                < self.slots@.len(),
            found is None ==> slot_index(self@.entries, provider@, opt_str(path)) == -1,
    {
        let mut n: usize = self.slots.len();
        let ghost all = self@.entries;
        assert(all.take(n as int) =~= all);
        while n > 0
            invariant
                n <= self.slots@.len(),
                all == self@.entries,
                slot_index(all, provider@, opt_str(path)) == slot_index(
                    all.take(n as int),
                    provider@,
                    opt_str(path),
                ),
            decreases n,
        {
            assert(all.take(n as int).drop_last() =~= all.take(n - 1));
            assert(all.take(n as int).last() == self.slots@[n - 1]@);
            let slot = &self.slots[n - 1];
            if same_text(slot.provider.as_str(), provider) && same_option(
                borrowed(&slot.path),
                path,
            ) {
                return Some(n - 1);
            }
            n -= 1;
        }
        None
    }

    /// Whether anything is cached for `provider` at `path`.
    pub fn has_entry(&self, provider: &str, path: Option<&str>) -> (found: bool)
        ensures
            found == self@.entry(provider@, opt_str(path)) is Some,
    {
        self.find(provider, path).is_some()
    }

    /// What is cached for `provider` at `path`.
    pub fn get_entry(&self, provider: &str, path: Option<&str>) -> (found: Option<&CacheEntry>)
        ensures
            found is Some <==> self@.entry(provider@, opt_str(path)) is Some,
            found matches Some(e) ==> Some(e@) == self@.entry(provider@, opt_str(path)),
    {
        match self.find(provider, path) {
            Some(i) => Some(&self.slots[i]),
            None => None,
        }
    }

    /// What `source` of `provider` last produced at `path`.
    pub fn get_source(&self, provider: &str, path: Option<&str>, source: &str) -> (found: Option<
        &SourceEntry,
    >)
        ensures
            found is Some <==> self@.source(provider@, opt_str(path), source@) is Some,
            found matches Some(s) ==> Some(s@) == self@.source(provider@, opt_str(path), source@),
    {
        match self.get_entry(provider, path) {
            Some(entry) => match entry.find_source(source) {
                Some(i) => Some(&entry.sources[i]),
                None => None,
            },
            None => None,
        }
    }

    /// The value at the dotted path `field`, and when its source was refreshed.
    pub fn get_field(&self, provider: &str, path: Option<&str>, field: &str) -> (found: Option<
        (&Value, u128),
    >)
        ensures
            found is Some <==> self@.field(provider@, opt_str(path), field@) is Some,
            found matches Some(v) ==> Some((v.0.model(), v.1)) == self@.field(
                provider@,
                opt_str(path),
                field@,
            ),
    {
        match self.get_entry(provider, path) {
            Some(entry) => {
                let ghost all = entry@.sources;
                let mut i: usize = 0;
                assert(all.skip(0) =~= all);
                while i < entry.sources.len()
                    invariant
                        i <= entry.sources@.len(),
                        all == entry@.sources,
                        find_in_sources(all, field@) == find_in_sources(all.skip(i as int), field@),
                        self@.field(provider@, opt_str(path), field@) == find_in_sources(
                            all,
                            field@,
                        ),
                    decreases entry.sources@.len() - i,
                {
                    let ghost rest = all.skip(i as int);
                    assert(rest[0] == entry.sources@[i as int]@);
                    assert(rest.drop_first() =~= all.skip(i + 1));
                    match lookup_path(&entry.sources[i].fields, field) {
                        Some(value) => {
                            return Some((value, entry.sources[i].refreshed_ms));
                        },
                        None => {},
                    }
                    i += 1;
                }
                None
            },
            None => None,
        }
    }

    /// Stores what `source` of `provider` produced at `path`.
    pub fn put_source(
        &mut self,
        provider: &str,
        path: Option<&str>,
        source: &str,
        fields: Vec<(String, Value)>,
        interval_secs: Option<u64>,
        now: u128,
    )
        requires
            old(self).wf(),
        ensures
            final(self).wf(),
            final(self)@ == old(self)@.put(
                provider@,
                opt_str(path),
                SourceEntryView {
                    name: source@,
                    fields: fields_model(fields@),
                    refreshed_ms: now,
                    interval_secs,
                },
            ),
    {
        let entry = SourceEntry { name: source.to_owned(), fields, refreshed_ms: now, interval_secs };
        let ghost before = self@.entries;
        proof {
            lemma_slot_index(before, provider@, opt_str(path));
            law_put_distinct(self@, provider@, opt_str(path), entry@);
        }
        match self.find(provider, path) {
            Some(i) => {
                self.slots[i].put(entry);
                proof {
                    let e = EntryView {
                        provider: provider@,
                        path: opt_str(path),
                        sources: put_entry(before[i as int].sources, entry@),
                    };
                    assert(self@.entries =~= before.update(i as int, e));
                }
            },
            None => {
                let mut sources: Vec<SourceEntry> = Vec::new();
                sources.push(entry);
                let slot = CacheEntry { provider: provider.to_owned(), path: owned(path), sources };
                assert(slot@.sources =~= seq![entry@]);
                self.slots.push(slot);
                assert(self@.entries =~= before.push(slot@));
            },
        }
    }

    /// Drops what is cached for `provider` at `path`.
    pub fn remove(&mut self, provider: &str, path: Option<&str>)
        requires
            old(self).wf(),
        ensures
            final(self).wf(),
            final(self)@ == old(self)@.without(provider@, opt_str(path)),
    {
        let ghost before = self@.entries;
        proof {
            lemma_slot_index(before, provider@, opt_str(path));
        }
        match self.find(provider, path) {
            Some(i) => {
                let _ = self.slots.remove(i);
                assert(self@.entries =~= before.remove(i as int));
            },
            None => {},
        }
    }
}

/// In a cache with distinct entries, the entry that carries a provider and path
/// is the one found for them.
pub proof fn lemma_slot_unique(cache: CacheView, i: int)
    requires
        cache.distinct(),
        0 <= i < cache.entries.len(),
    ensures
        slot_index(cache.entries, cache.entries[i].provider, cache.entries[i].path) == i,
{
    let e = cache.entries[i];
    lemma_slot_index(cache.entries, e.provider, e.path);
    let j = slot_index(cache.entries, e.provider, e.path);
    assert(j >= 0);
    if j < i {
        assert(cache.entries[j].provider == cache.entries[i].provider);
    } else if i < j {
        assert(cache.entries[i].provider == cache.entries[j].provider);
    }
}

proof fn lemma_entry_after_push(
    sources: Seq<SourceEntryView>,
    e: SourceEntryView,
    name: Seq<char>,
)
    ensures
        entry_index(sources.push(e), name) == if e.name == name {
            sources.len() as int
        } else {
            entry_index(sources, name)
        },
{
    assert(sources.push(e).drop_last() =~= sources);
}

proof fn lemma_entry_after_update(
    sources: Seq<SourceEntryView>,
    at: int,
    e: SourceEntryView,
    name: Seq<char>,
)
    requires
        0 <= at < sources.len(),
        sources[at].name == e.name,
    ensures
        entry_index(sources.update(at, e), name) == entry_index(sources, name),
    decreases sources.len(),
{
    let after = sources.update(at, e);
    if at < sources.len() - 1 {
        lemma_entry_after_update(sources.drop_last(), at, e, name);
        assert(after.drop_last() =~= sources.drop_last().update(at, e));
    } else {
        assert(after.drop_last() =~= sources.drop_last());
    }
}

/// What is stored for a source replaces what it held before, and leaves the other
/// sources of the entry as they were.
pub proof fn law_put_entry(sources: Seq<SourceEntryView>, e: SourceEntryView, name: Seq<char>)
    ensures
        name == e.name ==> entry_index(put_entry(sources, e), name) >= 0 && put_entry(
            sources,
            e,
        )[entry_index(put_entry(sources, e), name)] == e,
        name != e.name ==> entry_index(put_entry(sources, e), name) == entry_index(sources, name),
        name != e.name && entry_index(sources, name) >= 0 ==> put_entry(sources, e)[entry_index(
            sources,
            name,
        )] == sources[entry_index(sources, name)],
{
    let at = entry_index(sources, e.name);
    lemma_entry_index(sources, e.name);
    lemma_entry_index(sources, name);
    if at >= 0 {
        lemma_entry_after_update(sources, at, e, name);
    } else {
        lemma_entry_after_push(sources, e, name);
    }
}

/// Storing keeps the entries distinct.
pub proof fn law_put_distinct(
    cache: CacheView,
    provider: Seq<char>,
    path: Option<Seq<char>>,
    e: SourceEntryView,
)
    requires
        cache.distinct(),
    ensures
        cache.put(provider, path, e).distinct(),
{
    lemma_slot_index(cache.entries, provider, path);
    let at = slot_index(cache.entries, provider, path);
    if at >= 0 {
        let sources = cache.entries[at].sources;
        lemma_entry_index(sources, e.name);
        assert(distinct_sources(sources));
        assert(distinct_sources(put_entry(sources, e)));
    }
}

/// Reading a source gives back what was stored for it last.
pub proof fn law_read_after_put(
    cache: CacheView,
    provider: Seq<char>,
    path: Option<Seq<char>>,
    e: SourceEntryView,
)
    requires
        cache.distinct(),
    ensures
        cache.put(provider, path, e).source(provider, path, e.name) == Some(e),
        cache.put(provider, path, e).entry(provider, path) == Some(
            EntryView {
                provider,
                path,
                sources: match cache.entry(provider, path) {
                    Some(old) => put_entry(old.sources, e),
                    None => seq![e],
                },
            },
        ),
{
    let after = cache.put(provider, path, e);
    let at = slot_index(cache.entries, provider, path);
    lemma_slot_index(cache.entries, provider, path);
    law_put_distinct(cache, provider, path, e);
    if at >= 0 {
        lemma_slot_unique(after, at);
        law_put_entry(cache.entries[at].sources, e, e.name);
    } else {
        lemma_slot_unique(after, cache.entries.len() as int);
        assert(seq![e].last() == e);
        assert(entry_index(seq![e], e.name) == 0);
    }
}

/// Storing for one provider and path leaves every other slot as it was.
pub proof fn law_put_keeps_other_slots(
    cache: CacheView,
    provider: Seq<char>,
    path: Option<Seq<char>>,
    e: SourceEntryView,
    other_provider: Seq<char>,
    other_path: Option<Seq<char>>,
)
    requires
        cache.distinct(),
        other_provider != provider || other_path != path,
    ensures
        cache.put(provider, path, e).entry(other_provider, other_path) == cache.entry(
            other_provider,
            other_path,
        ),
{
    let after = cache.put(provider, path, e);
    lemma_slot_index(cache.entries, provider, path);
    lemma_slot_index(cache.entries, other_provider, other_path);
    lemma_slot_index(after.entries, other_provider, other_path);
    law_put_distinct(cache, provider, path, e);
    let i = slot_index(cache.entries, other_provider, other_path);
    let j = slot_index(after.entries, other_provider, other_path);
    if i >= 0 {
        assert(after.entries[i] == cache.entries[i]);
        lemma_slot_unique(after, i);
    } else if j >= 0 {
        assert(after.entries[j].provider == other_provider);
        if j < cache.entries.len() {
            assert(cache.entries[j].provider == other_provider && cache.entries[j].path
                == other_path);
        }
    }
}

/// Dropping a slot keeps the entries distinct, empties the slot, and leaves every
/// other slot as it was.
pub proof fn law_without(
    cache: CacheView,
    provider: Seq<char>,
    path: Option<Seq<char>>,
    other_provider: Seq<char>,
    other_path: Option<Seq<char>>,
)
    requires
        cache.distinct(),
    ensures
        cache.without(provider, path).distinct(),
        cache.without(provider, path).entry(other_provider, other_path) == (if other_provider
            == provider && other_path == path {
            None
        } else {
            cache.entry(other_provider, other_path)
        }),
{
    let after = cache.without(provider, path);
    let at = slot_index(cache.entries, provider, path);
    lemma_slot_index(cache.entries, provider, path);
    lemma_slot_index(cache.entries, other_provider, other_path);
    lemma_slot_index(after.entries, other_provider, other_path);
    if at >= 0 {
        assert forall|i: int, j: int| 0 <= i < j < after.entries.len() implies !((
        #[trigger] after.entries[i]).provider == (#[trigger] after.entries[j]).provider
            && after.entries[i].path == after.entries[j].path) by {
            let x = if i < at { i } else { i + 1 };
            let y = if j < at { j } else { j + 1 };
            assert(after.entries[i] == cache.entries[x]);
            assert(after.entries[j] == cache.entries[y]);
        }
        let i = slot_index(cache.entries, other_provider, other_path);
        let j = slot_index(after.entries, other_provider, other_path);
        if j >= 0 {
            let y = if j < at { j } else { j + 1 };
            assert(after.entries[j] == cache.entries[y]);
            lemma_slot_unique(cache, y);
        }
        if i >= 0 && i != at {
            let x = if i < at { i } else { i - 1 };
            assert(after.entries[x] == cache.entries[i]);
            lemma_slot_unique(after, x);
        }
    }
}

/// A field is as old as the source it is read from: the first of the entry that
/// holds it.
pub proof fn law_field_comes_from_its_first_holder(
    sources: Seq<SourceEntryView>,
    field: Seq<char>,
)
    ensures
        match find_in_sources(sources, field) {
            Some((value, refreshed)) => exists|i: int|
                {
                    &&& 0 <= i < sources.len()
                    &&& (#[trigger] sources[i]).refreshed_ms == refreshed
                    &&& path_lookup(sources[i].fields, split_on(field, '.')) == Some(value)
                    &&& forall|j: int|
                        0 <= j < i ==> path_lookup(
                            (#[trigger] sources[j]).fields,
                            split_on(field, '.'),
                        ) is None
                },
            None => forall|j: int|
                0 <= j < sources.len() ==> path_lookup(
                    (#[trigger] sources[j]).fields,
                    split_on(field, '.'),
                ) is None,
        },
    decreases sources.len(),
{
    if sources.len() > 0 && path_lookup(sources[0].fields, split_on(field, '.')) is None {
        let rest = sources.drop_first();
        law_field_comes_from_its_first_holder(rest, field);
        match find_in_sources(rest, field) {
            Some((value, refreshed)) => {
                let i = choose|i: int|
                    {
                        &&& 0 <= i < rest.len()
                        &&& (#[trigger] rest[i]).refreshed_ms == refreshed
                        &&& path_lookup(rest[i].fields, split_on(field, '.')) == Some(value)
                        &&& forall|j: int|
                            0 <= j < i ==> path_lookup(
                                (#[trigger] rest[j]).fields,
                                split_on(field, '.'),
                            ) is None
                    };
                assert(sources[i + 1] == rest[i]);
                assert forall|j: int| 0 <= j < i + 1 implies path_lookup(
                    (#[trigger] sources[j]).fields,
                    split_on(field, '.'),
                ) is None by {
                    if j > 0 {
                        assert(sources[j] == rest[j - 1]);
                    }
                }
            },
            None => {
                assert forall|j: int| 0 <= j < sources.len() implies path_lookup(
                    (#[trigger] sources[j]).fields,
                    split_on(field, '.'),
                ) is None by {
                    if j > 0 {
                        assert(sources[j] == rest[j - 1]);
                    }
                }
            },
        }
    }
}

/// An entry is as old as its oldest source.
pub proof fn law_entry_is_as_old_as_its_oldest_source(sources: Seq<SourceEntryView>, now: u128)
    ensures
        forall|i: int|
            0 <= i < sources.len() ==> (#[trigger] sources[i]).age_ms(now) <= oldest_age(
                sources,
                now,
            ),
        sources.len() > 0 ==> exists|i: int|
            0 <= i < sources.len() && (#[trigger] sources[i]).age_ms(now) == oldest_age(
                sources,
                now,
            ),
    decreases sources.len(),
{
    if sources.len() > 0 {
        let init = sources.drop_last();
        law_entry_is_as_old_as_its_oldest_source(init, now);
        assert forall|i: int| 0 <= i < sources.len() implies (#[trigger] sources[i]).age_ms(now)
            <= oldest_age(sources, now) by {
            if i < init.len() {
                assert(init[i] == sources[i]);
            }
        }
        let last = sources.len() - 1;
        if init.len() == 0 || sources[last].age_ms(now) > oldest_age(init, now) {
            assert(sources[last].age_ms(now) == oldest_age(sources, now));
        } else {
            let i = choose|i: int|
                0 <= i < init.len() && (#[trigger] init[i]).age_ms(now) == oldest_age(init, now);
            assert(sources[i] == init[i]);
        }
    }
}

/// How old data is and whether it is stale. Data is as old as the time since it was
/// refreshed, and stale exactly if new data is expected every so many seconds and it
/// is older than that.
pub proof fn law_age_and_staleness(e: SourceEntryView, now: u128)
    ensures
        now >= e.refreshed_ms ==> e.age_ms(now) == now - e.refreshed_ms,
        now < e.refreshed_ms ==> e.age_ms(now) == 0,
        e.is_stale(now) <==> e.interval_secs is Some && now - e.refreshed_ms > e.interval_secs->0
            * 1000,
{
}

/// An entry is stale exactly if one of its sources is.
pub proof fn law_entry_is_stale_with_a_source(e: EntryView, now: u128)
    ensures
        e.is_stale(now) <==> exists|i: int|
            0 <= i < e.sources.len() && (#[trigger] e.sources[i]).interval_secs is Some && now
                - e.sources[i].refreshed_ms > e.sources[i].interval_secs->0 * 1000,
{
    if e.is_stale(now) {
        let i = choose|i: int| 0 <= i < e.sources.len() && (#[trigger] e.sources[i]).is_stale(now);
        assert(e.sources[i].interval_secs is Some);
    }
    if exists|i: int|
        0 <= i < e.sources.len() && (#[trigger] e.sources[i]).interval_secs is Some && now
            - e.sources[i].refreshed_ms > e.sources[i].interval_secs->0 * 1000 {
        let i = choose|i: int|
            0 <= i < e.sources.len() && (#[trigger] e.sources[i]).interval_secs is Some && now
                - e.sources[i].refreshed_ms > e.sources[i].interval_secs->0 * 1000;
        assert(e.sources[i].is_stale(now));
    }
}

/// What is cached for a source and for a slot, member by member.
pub proof fn law_entries_are_known_by_their_members(s: SourceEntry, e: CacheEntry)
    ensures
        s@.name == s.name@,
        s@.fields == fields_model(s.fields@),
        s@.refreshed_ms == s.refreshed_ms,
        s@.interval_secs == s.interval_secs,
        e@.provider == e.provider@,
        e@.path == match e.path {
            Some(p) => Some(p@),
            None => None,
        },
        e@.sources.len() == e.sources@.len(),
        forall|i: int| 0 <= i < e.sources@.len() ==> #[trigger] e@.sources[i] == e.sources@[i]@,
{
}

/// The fields of several sources together are all of theirs, and no others. Where
/// several have a field, the one listed last counts.
pub proof fn law_merged_fields(sources: Seq<SourceEntryView>, key: Seq<char>)
    ensures
        merged_fields(sources).contains_key(key) <==> exists|i: int|
            0 <= i < sources.len() && (#[trigger] sources[i]).fields.contains_key(key),
        forall|i: int|
            0 <= i < sources.len() && (#[trigger] sources[i]).fields.contains_key(key) && (forall|
                j: int,
            |
                i < j < sources.len() ==> !(#[trigger] sources[j]).fields.contains_key(key))
                ==> merged_fields(sources)[key] == sources[i].fields[key],
{
    lemma_last_holder(sources, key);
    let at = last_holder(sources, key);
    if at >= 0 {
        assert(sources[at].fields.contains_key(key));
    }
}

/// The index of the last source that has the field, or -1.
spec fn last_holder(sources: Seq<SourceEntryView>, key: Seq<char>) -> int
    decreases sources.len(),
{
    if sources.len() == 0 {
        -1
    } else if sources.last().fields.contains_key(key) {
        sources.len() - 1
    } else {
        last_holder(sources.drop_last(), key)
    }
}

proof fn lemma_last_holder(sources: Seq<SourceEntryView>, key: Seq<char>)
    ensures
        -1 <= last_holder(sources, key) < sources.len(),
        merged_fields(sources).contains_key(key) <==> last_holder(sources, key) >= 0,
        last_holder(sources, key) >= 0 ==> {
            let at = last_holder(sources, key);
            &&& sources[at].fields.contains_key(key)
            &&& merged_fields(sources)[key] == sources[at].fields[key]
        },
        forall|j: int|
            last_holder(sources, key) < j < sources.len() ==> !(
            #[trigger] sources[j]).fields.contains_key(key),
    decreases sources.len(),
{
    if sources.len() > 0 && !sources.last().fields.contains_key(key) {
        let init = sources.drop_last();
        lemma_last_holder(init, key);
        assert forall|j: int| last_holder(sources, key) < j < sources.len() implies !(
        #[trigger] sources[j]).fields.contains_key(key) by {
            if j < init.len() {
                assert(init[j] == sources[j]);
            }
        }
    }
}

/// A slot is found by its provider and path: what is found is cached for them, and
/// of a cache without doubles every entry, every source and every field path of an
/// entry is found.
pub proof fn law_slot_is_found(
    cache: CacheView,
    provider: Seq<char>,
    path: Option<Seq<char>>,
    i: int,
    j: int,
    field: Seq<char>,
)
    requires
        cache.distinct(),
    ensures
        cache.entry(provider, path) matches Some(e) ==> cache.entries.contains(e) && e.provider
            == provider && e.path == path,
        cache.entry(provider, path) is None ==> (forall|k: int|
            0 <= k < cache.entries.len() ==> (#[trigger] cache.entries[k]).provider != provider
                || cache.entries[k].path != path),
        0 <= i < cache.entries.len() ==> cache.entry(
            cache.entries[i].provider,
            cache.entries[i].path,
        ) == Some(cache.entries[i]),
        0 <= i < cache.entries.len() && 0 <= j < cache.entries[i].sources.len() ==> cache.source(
            cache.entries[i].provider,
            cache.entries[i].path,
            cache.entries[i].sources[j].name,
        ) == Some(cache.entries[i].sources[j]),
        0 <= i < cache.entries.len() ==> cache.field(
            cache.entries[i].provider,
            cache.entries[i].path,
            field,
        ) == find_in_sources(cache.entries[i].sources, field),
        cache.entry(provider, path) is None ==> cache.field(provider, path, field) is None,
{
    lemma_slot_index(cache.entries, provider, path);
    let at = slot_index(cache.entries, provider, path);
    if at >= 0 {
        assert(cache.entries.contains(cache.entries[at]));
    }
    if 0 <= i < cache.entries.len() {
        lemma_slot_unique(cache, i);
        let sources = cache.entries[i].sources;
        assert(distinct_sources(sources));
        if 0 <= j < sources.len() {
            let name = sources[j].name;
            lemma_entry_index(sources, name);
            let k = entry_index(sources, name);
            if k < j {
                assert(sources[k].name != sources[j].name);
            } else if j < k {
                assert(sources[j].name != sources[k].name);
            }
        }
    }
}

/// A source is found by its name: what is found is cached for the provider at the
/// path, under that name.
pub proof fn law_found_source_is_cached(
    cache: CacheView,
    provider: Seq<char>,
    path: Option<Seq<char>>,
    name: Seq<char>,
)
    ensures
        cache.source(provider, path, name) matches Some(s) ==> {
            &&& s.name == name
            &&& cache.entry(provider, path) matches Some(e) && e.sources.contains(s)
        },
        cache.source(provider, path, name) is None ==> match cache.entry(provider, path) {
            Some(e) => forall|j: int|
                0 <= j < e.sources.len() ==> (#[trigger] e.sources[j]).name != name,
            None => true,
        },
{
    if let Some(e) = cache.entry(provider, path) {
        lemma_entry_index(e.sources, name);
        let at = entry_index(e.sources, name);
        if at >= 0 {
            assert(e.sources.contains(e.sources[at]));
        }
    }
}

} // verus!
