//! Providers, the sources they declare, and the registry that holds them.

use vstd::prelude::*;

use crate::text::{same_text, texts};

verus! {

/// Whether a source's data depends on a path.
#[derive(Debug, Clone, Copy, PartialEq, Eq, Structural)]
pub enum SourceScope {
    Global,
    PathScoped,
}

/// The declared type of a field.
#[derive(Debug, Clone, Copy, PartialEq, Eq, Structural)]
pub enum FieldType {
    String,
    Int,
    Bool,
    Float,
    Object,
}

/// A declared field.
#[derive(Debug)]
pub struct FieldSchema {
    pub name: String,
    pub field_type: FieldType,
}

/// When a source's cached data has to be refreshed.
#[derive(Debug)]
pub enum InvalidationStrategy {
    Poll { interval_secs: u64 },
    Watch { patterns: Vec<String>, abs_paths: Vec<String> },
    WatchAndPoll { patterns: Vec<String>, abs_paths: Vec<String>, interval_secs: u64 },
}

/// What a source declares about itself.
#[derive(Debug)]
pub struct SourceMetadata {
    pub name: String,
    pub fields: Vec<FieldSchema>,
    pub scope: SourceScope,
    pub invalidation: InvalidationStrategy,
}

/// The running side of a source, supplied by whoever registers it.
pub trait Source {
    /// The canonical form of `path` for this source, such as the root of the
    /// project that holds it. The answer may depend on what is on disk, so
    /// nothing is promised of it.
    fn canonical_path(&self, path: Option<&str>) -> Option<String>;
}

/// A source together with its declaration.
pub struct RegisteredSource<S> {
    pub meta: SourceMetadata,
    /// Run the source again before every read instead of on a miss only.
    pub read_always: bool,
    pub handle: S,
}

/// The mathematical content of a [`FieldSchema`].
pub struct FieldView {
    pub name: Seq<char>,
    pub field_type: FieldType,
}

/// The mathematical content of an [`InvalidationStrategy`]. Absolute paths only
/// matter to the file watcher and are left out.
pub enum InvalidationView {
    Poll(u64),
    Watch(Seq<Seq<char>>),
    WatchAndPoll(Seq<Seq<char>>, u64),
}

/// The mathematical content of a [`RegisteredSource`].
pub struct SourceView {
    pub name: Seq<char>,
    pub fields: Seq<FieldView>,
    pub scope: SourceScope,
    pub invalidation: InvalidationView,
    pub read_always: bool,
}

/// The mathematical content of a [`ProviderRegistry`].
pub struct RegistryView {
    /// The sources of each registered provider, in declaration order.
    pub providers: Map<Seq<char>, Seq<SourceView>>,
    /// The names that clients have stored data under.
    pub virtuals: Set<Seq<char>>,
}

impl View for FieldSchema {
    type V = FieldView;

    open spec fn view(&self) -> FieldView {
        FieldView { name: self.name@, field_type: self.field_type }
    }
}

impl View for InvalidationStrategy {
    type V = InvalidationView;

    open spec fn view(&self) -> InvalidationView {
        match self {
            InvalidationStrategy::Poll { interval_secs } => InvalidationView::Poll(*interval_secs),
            InvalidationStrategy::Watch { patterns, .. } => InvalidationView::Watch(
                texts(patterns@),
            ),
            InvalidationStrategy::WatchAndPoll { patterns, interval_secs, .. } => {
                InvalidationView::WatchAndPoll(texts(patterns@), *interval_secs)
            },
        }
    }
}

impl<S> View for RegisteredSource<S> {
    type V = SourceView;

    open spec fn view(&self) -> SourceView {
        SourceView {
            name: self.meta.name@,
            fields: self.meta.fields@.map_values(|f: FieldSchema| f@),
            scope: self.meta.scope,
            invalidation: self.meta.invalidation@,
            read_always: self.read_always,
        }
    }
}

impl SourceView {
    pub open spec fn declares(self, field: Seq<char>) -> bool {
        exists|i: int| 0 <= i < self.fields.len() && (#[trigger] self.fields[i]).name == field
    }

    /// A source without a schema may turn out to hold any field.
    pub open spec fn is_dynamic(self) -> bool {
        self.fields.len() == 0
    }
}

/// The views of a list of sources.
pub open spec fn source_views<S>(sources: Seq<RegisteredSource<S>>) -> Seq<SourceView> {
    sources.map_values(|s: RegisteredSource<S>| s@)
}

/// The names of a list of sources.
pub open spec fn source_names(sources: Seq<SourceView>) -> Seq<Seq<char>> {
    sources.map_values(|s: SourceView| s.name)
}

/// No two sources share a name.
pub open spec fn distinct_names(sources: Seq<SourceView>) -> bool {
    forall|i: int, j: int|
        0 <= i < j < sources.len() ==> (#[trigger] sources[i]).name != (#[trigger] sources[j]).name
}

/// The names of the sources that may own `field`: those that declare it, or,
/// when none does, those without a schema.
pub open spec fn field_owners(sources: Seq<SourceView>, field: Seq<char>) -> Seq<Seq<char>> {
    let declaring = sources.filter(|s: SourceView| s.declares(field));
    if declaring.len() > 0 {
        source_names(declaring)
    } else {
        source_names(sources.filter(|s: SourceView| s.is_dynamic()))
    }
}

impl RegistryView {
    /// Whether `provider` is registered with its own sources.
    pub open spec fn is_real(self, provider: Seq<char>) -> bool {
        self.providers.contains_key(provider)
    }

    /// Whether clients have stored data under `provider`.
    pub open spec fn is_virtual(self, provider: Seq<char>) -> bool {
        self.virtuals.contains(provider)
    }

    pub open spec fn is_known(self, provider: Seq<char>) -> bool {
        self.is_real(provider) || self.is_virtual(provider)
    }

    /// The index of the source of `provider` named `source`, or -1.
    pub open spec fn source_index(self, provider: Seq<char>, source: Seq<char>) -> int {
        if self.is_real(provider) {
            name_index(self.providers[provider], source)
        } else {
            -1
        }
    }

    pub open spec fn has_source(self, provider: Seq<char>, source: Seq<char>) -> bool {
        self.source_index(provider, source) >= 0
    }

    /// The source of `provider` named `source`.
    pub open spec fn source(self, provider: Seq<char>, source: Seq<char>) -> Option<SourceView> {
        if self.has_source(provider, source) {
            Some(self.providers[provider][self.source_index(provider, source)])
        } else {
            None
        }
    }

    /// The names of the sources of `provider` that may own `field`.
    pub open spec fn owners(self, provider: Seq<char>, field: Seq<char>) -> Seq<Seq<char>> {
        if self.is_real(provider) {
            field_owners(self.providers[provider], field)
        } else {
            Seq::empty()
        }
    }

    /// Whether some source of `provider` depends on a path.
    pub open spec fn any_path_scoped(self, provider: Seq<char>) -> bool {
        self.is_real(provider) && exists|i: int|
            0 <= i < self.providers[provider].len() && (
            #[trigger] self.providers[provider][i]).scope == SourceScope::PathScoped
    }
}

/// The index of the first source with the given name, or -1.
pub open spec fn name_index(sources: Seq<SourceView>, name: Seq<char>) -> int
    decreases sources.len(),
{
    if sources.len() == 0 {
        -1
    } else if name_index(sources.drop_last(), name) >= 0 {
        name_index(sources.drop_last(), name)
    } else if sources.last().name == name {
        sources.len() - 1
    } else {
        -1
    }
}

pub proof fn lemma_name_index(sources: Seq<SourceView>, name: Seq<char>)
    ensures
        -1 <= name_index(sources, name) < sources.len(),
        name_index(sources, name) >= 0 ==> {
            &&& sources[name_index(sources, name)].name == name
            &&& forall|j: int|
                0 <= j < name_index(sources, name) ==> (#[trigger] sources[j]).name != name
        },
        name_index(sources, name) < 0 ==> forall|j: int|
            0 <= j < sources.len() ==> (#[trigger] sources[j]).name != name,
    decreases sources.len(),
{
    if sources.len() > 0 {
        let init = sources.drop_last();
        lemma_name_index(init, name);
        assert forall|j: int| 0 <= j < init.len() implies init[j] == sources[j] by {}
    }
}

/// Why a provider could not be registered.
#[derive(Debug, Clone, Copy, PartialEq, Eq, Structural)]
pub enum RegisterError {
    /// The name is already used by a provider or by stored data.
    NameTaken,
    /// Two sources of the provider share a name.
    DuplicateSource,
}

struct ProviderRecord<S> {
    name: String,
    sources: Vec<RegisteredSource<S>>,
}

/// The registered providers and the names that clients have stored data under.
pub struct ProviderRegistry<S> {
    records: Vec<ProviderRecord<S>>,
    virtuals: Vec<String>,
}

/// The index of the record of the given name, or -1.
spec fn record_index<S>(records: Seq<ProviderRecord<S>>, name: Seq<char>) -> int
    decreases records.len(),
{
    if records.len() == 0 {
        -1
    } else if records.last().name@ == name {
        records.len() - 1
    } else {
        record_index(records.drop_last(), name)
    }
}

proof fn lemma_record_index<S>(records: Seq<ProviderRecord<S>>, name: Seq<char>)
    ensures
        -1 <= record_index(records, name) < records.len(),
        record_index(records, name) >= 0 ==> records[record_index(records, name)].name@ == name,
        record_index(records, name) < 0 ==> forall|j: int|
            0 <= j < records.len() ==> (#[trigger] records[j]).name@ != name,
    decreases records.len(),
{
    if records.len() > 0 {
        let init = records.drop_last();
        lemma_record_index(init, name);
        assert forall|j: int| 0 <= j < init.len() implies init[j] == records[j] by {}
    }
}

impl<S> View for ProviderRegistry<S> {
    type V = RegistryView;

    closed spec fn view(&self) -> RegistryView {
        RegistryView {
            providers: Map::new(
                |name: Seq<char>| record_index(self.records@, name) >= 0,
                |name: Seq<char>|
                    source_views(self.records@[record_index(self.records@, name)].sources@),
            ),
            virtuals: Set::new(|name: Seq<char>| texts(self.virtuals@).contains(name)),
        }
    }
}

impl<S> ProviderRegistry<S> {
    /// Every name has one meaning: provider names and stored names differ from
    /// one another, and the sources of a provider have distinct names.
    pub closed spec fn wf(self) -> bool {
        &&& forall|i: int, j: int|
            0 <= i < j < self.records@.len() ==> (#[trigger] self.records@[i]).name@ != (
            #[trigger] self.records@[j]).name@
        &&& forall|i: int|
            0 <= i < self.records@.len() ==> distinct_names(
                source_views((#[trigger] self.records@[i]).sources@),
            )
        &&& texts(self.virtuals@).no_duplicates()
        &&& forall|i: int|
            0 <= i < self.records@.len() ==> !self@.virtuals.contains(
                (#[trigger] self.records@[i]).name@,
            )
    }

    /// An empty registry.
    pub fn new() -> (registry: Self)
        ensures
            registry.wf(),
            registry@.providers == Map::<Seq<char>, Seq<SourceView>>::empty(),
            registry@.virtuals == Set::<Seq<char>>::empty(),
    {
        let registry = ProviderRegistry { records: Vec::new(), virtuals: Vec::new() };
        assert(registry@.providers =~= Map::<Seq<char>, Seq<SourceView>>::empty());
        assert(registry@.virtuals =~= Set::<Seq<char>>::empty());
        registry
    }

    fn find_record(&self, name: &str) -> (found: Option<usize>)
        ensures
            found matches Some(i) ==> i == record_index(self.records@, name@) && i
                < self.records@.len(),
            found is None ==> record_index(self.records@, name@) == -1,
    {
        let mut n: usize = self.records.len();
        assert(self.records@.take(n as int) =~= self.records@);
        while n > 0
            invariant
                n <= self.records@.len(),
                record_index(self.records@, name@) == record_index(
                    self.records@.take(n as int),
                    name@,
                ),
            decreases n,
        {
            assert(self.records@.take(n as int).drop_last() =~= self.records@.take(n - 1));
            if same_text(self.records[n - 1].name.as_str(), name) {
                return Some(n - 1);
            }
            n -= 1;
        }
        None
    }

    /// Whether clients have stored data under `name`.
    pub fn is_virtual(&self, name: &str) -> (found: bool)
        ensures
            found == self@.is_virtual(name@),
    {
        let mut i: usize = 0;
        while i < self.virtuals.len()
            invariant
                i <= self.virtuals@.len(),
                forall|j: int| 0 <= j < i ==> self.virtuals@[j]@ != name@,
            decreases self.virtuals@.len() - i,
        {
            if same_text(self.virtuals[i].as_str(), name) {
                assert(texts(self.virtuals@)[i as int] == name@);
                return true;
            }
            i += 1;
        }
        assert forall|j: int| 0 <= j < texts(self.virtuals@).len() implies texts(self.virtuals@)[j]
            != name@ by {
            assert(texts(self.virtuals@)[j] == self.virtuals@[j]@);
        }
        false
    }

    /// Whether a provider with its own sources is registered under `name`.
    pub fn has_non_virtual(&self, name: &str) -> (found: bool)
        ensures
            found == self@.is_real(name@),
    {
        self.find_record(name).is_some()
    }

    /// The sources of the provider `name` together with their running sides.
    pub closed spec fn registered(self, name: Seq<char>) -> Seq<RegisteredSource<S>> {
        self.records@[record_index(self.records@, name)].sources@
    }

    /// The sources of the provider `name`, in declaration order.
    pub fn provider_sources(&self, name: &str) -> (found: Option<&Vec<RegisteredSource<S>>>)
        ensures
            found is Some <==> self@.is_real(name@),
            found matches Some(sources) ==> {
                &&& source_views(sources@) == self@.providers[name@]
                &&& sources@ == self.registered(name@)
            },
    {
        match self.find_record(name) {
            Some(i) => Some(&self.records[i].sources),
            None => None,
        }
    }

    /// The source of `provider` named `source`.
    pub fn source(&self, provider: &str, source: &str) -> (found: Option<&RegisteredSource<S>>)
        ensures
            found is Some <==> self@.has_source(provider@, source@),
            found matches Some(s) ==> {
                &&& Some(s@) == self@.source(provider@, source@)
                &&& *s == self.registered(provider@)[self@.source_index(provider@, source@)]
            },
    {
        match self.provider_sources(provider) {
            Some(sources) => {
                let mut i: usize = 0;
                while i < sources.len()
                    invariant
                        i <= sources@.len(),
                        self@.is_real(provider@),
                        source_views(sources@) == self@.providers[provider@],
                        sources@ == self.registered(provider@),
                        forall|j: int| 0 <= j < i ==> sources@[j]@.name != source@,
                    decreases sources@.len() - i,
                {
                    if same_text(sources[i].meta.name.as_str(), source) {
                        proof {
                            lemma_name_index(source_views(sources@), source@);
                            assert(source_views(sources@)[i as int].name == source@);
                            let at = name_index(source_views(sources@), source@);
                            assert(source_views(sources@)[at] == sources@[at]@);
                        }
                        return Some(&sources[i]);
                    }
                    i += 1;
                }
                proof {
                    lemma_name_index(source_views(sources@), source@);
                    assert forall|j: int| 0 <= j < sources@.len() implies (#[trigger] source_views(
                        sources@,
                    )[j]).name != source@ by {
                        assert(source_views(sources@)[j] == sources@[j]@);
                    }
                }
                None
            },
            None => None,
        }
    }

    /// The names of the sources of `provider` that may own `field`, in
    /// declaration order.
    pub fn sources_for_field(&self, provider: &str, field: &str) -> (names: Vec<String>)
        ensures
            texts(names@) == self@.owners(provider@, field@),
    {
        match self.provider_sources(provider) {
            Some(sources) => owner_names(sources, field),
            None => {
                let names: Vec<String> = Vec::new();
                assert(texts(names@) =~= Seq::<Seq<char>>::empty());
                names
            },
        }
    }

    /// Records that clients have stored data under `name`. Doing so again
    /// changes nothing.
    pub fn register_virtual(&mut self, name: &str)
        requires
            old(self).wf(),
            !old(self)@.is_real(name@),
        ensures
            final(self).wf(),
            final(self)@.providers == old(self)@.providers,
            final(self)@.virtuals == old(self)@.virtuals.insert(name@),
            forall|n: Seq<char>| #[trigger]
                final(self).registered(n) == old(self).registered(n),
    {
        if self.is_virtual(name) {
            assert(self@.virtuals =~= self@.virtuals.insert(name@));
            return;
        }
        let ghost before = texts(self.virtuals@);
        self.virtuals.push(name.to_owned());
        proof {
            let after = texts(self.virtuals@);
            assert(after =~= before.push(name@));
            assert(self@.providers =~= old(self)@.providers);
            assert forall|n: Seq<char>| after.contains(n) <==> before.contains(n) || n == name@ by {
                if before.contains(n) {
                    let i = choose|i: int| 0 <= i < before.len() && before[i] == n;
                    assert(after[i] == n);
                }
                if n == name@ {
                    assert(after[before.len() as int] == n);
                }
            }
            assert(self@.virtuals =~= old(self)@.virtuals.insert(name@));
            lemma_record_index(self.records@, name@);
        }
    }

    /// Registers a provider with its sources.
    pub fn register(&mut self, name: String, sources: Vec<RegisteredSource<S>>) -> (outcome: Result<
        (),
        RegisterError,
    >)
        requires
            old(self).wf(),
        ensures
            final(self).wf(),
            outcome == (if old(self)@.is_known(name@) {
                Err::<(), RegisterError>(RegisterError::NameTaken)
            } else if !distinct_names(source_views(sources@)) {
                Err(RegisterError::DuplicateSource)
            } else {
                Ok(())
            }),
            outcome is Err ==> final(self)@ == old(self)@,
            outcome is Ok ==> final(self)@ == (RegistryView {
                providers: old(self)@.providers.insert(name@, source_views(sources@)),
                virtuals: old(self)@.virtuals,
            }),
            outcome is Ok ==> final(self).registered(name@) == sources@,
            forall|n: Seq<char>|
                old(self)@.is_real(n) ==> #[trigger] final(self).registered(n) == old(
                    self,
                ).registered(n),
    {
        if self.has_non_virtual(name.as_str()) || self.is_virtual(name.as_str()) {
            return Err(RegisterError::NameTaken);
        }
        if !all_distinct(&sources) {
            return Err(RegisterError::DuplicateSource);
        }
        let ghost before = self.records@;
        self.records.push(ProviderRecord { name, sources });
        proof {
            let after = self.records@;
            assert(after.drop_last() =~= before);
            lemma_record_index(before, name@);
            assert(self@.providers =~= old(self)@.providers.insert(name@, source_views(sources@)))
                by {
                assert forall|n: Seq<char>| record_index(after, n) == if n == name@ {
                    before.len() as int
                } else {
                    record_index(before, n)
                } by {}
                assert forall|n: Seq<char>| record_index(before, n) >= 0 implies before[record_index(
                    before,
                    n,
                )] == after[record_index(before, n)] by {
                    lemma_record_index(before, n);
                }
            }
            assert(self@.virtuals =~= old(self)@.virtuals);
            assert forall|i: int| 0 <= i < before.len() implies before[i] == after[i] by {}
            assert forall|n: Seq<char>| old(self)@.is_real(n) implies #[trigger] self.registered(n)
                == old(self).registered(n) by {
                lemma_record_index(before, n);
            }
        }
        Ok(())
    }

    /// Every name the registry knows, each once, in no particular order.
    pub fn list(&self) -> (names: Vec<String>)
        requires
            self.wf(),
        ensures
            texts(names@).no_duplicates(),
            forall|n: Seq<char>| texts(names@).contains(n) <==> #[trigger] self@.is_known(n),
    {
        let mut names: Vec<String> = Vec::new();
        let mut i: usize = 0;
        while i < self.records.len()
            invariant
                i <= self.records@.len(),
                names@.len() == i,
                forall|j: int| 0 <= j < i ==> #[trigger] names@[j]@ == self.records@[j].name@,
            decreases self.records@.len() - i,
        {
            names.push(self.records[i].name.clone());
            i += 1;
        }
        let mut k: usize = 0;
        while k < self.virtuals.len()
            invariant
                k <= self.virtuals@.len(),
                i == self.records@.len(),
                names@.len() == i + k,
                forall|j: int| 0 <= j < i ==> #[trigger] names@[j]@ == self.records@[j].name@,
                forall|j: int| i <= j < i + k ==> #[trigger] names@[j]@ == self.virtuals@[j - i]@,
            decreases self.virtuals@.len() - k,
        {
            names.push(self.virtuals[k].clone());
            k += 1;
        }
        proof {
            let all = texts(names@);
            let stored = texts(self.virtuals@);
            assert forall|j: int| 0 <= j < i implies all[j] == self.records@[j].name@ by {
                assert(all[j] == names@[j]@);
            }
            assert forall|j: int| i <= j < all.len() implies all[j] == stored[j - i] by {
                assert(all[j] == names@[j]@);
            }
            assert forall|n: Seq<char>| all.contains(n) <==> #[trigger] self@.is_known(n) by {
                lemma_record_index(self.records@, n);
                if self@.is_real(n) {
                    assert(all[record_index(self.records@, n)] == n);
                }
                if self@.is_virtual(n) {
                    let j = choose|j: int| 0 <= j < stored.len() && stored[j] == n;
                    assert(all[i + j] == n);
                }
                if all.contains(n) {
                    let j = choose|j: int| 0 <= j < all.len() && all[j] == n;
                    if j >= i {
                        assert(stored[j - i] == n);
                    }
                }
            }
            assert forall|a: int, b: int| 0 <= a < b < all.len() implies all[a] != all[b] by {
                if a < i && b >= i {
                    assert(stored[b - i] == all[b]);
                    assert(!self@.virtuals.contains(self.records@[a].name@));
                }
            }
        }
        names
    }
}

fn declares_field<S>(source: &RegisteredSource<S>, field: &str) -> (found: bool)
    ensures
        found == source@.declares(field@),
{
    let mut i: usize = 0;
    while i < source.meta.fields.len()
        invariant
            i <= source.meta.fields@.len(),
            forall|j: int| 0 <= j < i ==> source.meta.fields@[j].name@ != field@,
        decreases source.meta.fields@.len() - i,
    {
        if same_text(source.meta.fields[i].name.as_str(), field) {
            assert(source@.fields[i as int].name == field@);
            return true;
        }
        i += 1;
    }
    assert forall|j: int| 0 <= j < source@.fields.len() implies (#[trigger] source@.fields[j]).name
        != field@ by {
        assert(source@.fields[j] == source.meta.fields@[j]@);
    }
    false
}

fn all_distinct<S>(sources: &Vec<RegisteredSource<S>>) -> (distinct: bool)
    ensures
        distinct == distinct_names(source_views(sources@)),
{
    let ghost views = source_views(sources@);
    let mut i: usize = 0;
    while i < sources.len()
        invariant
            i <= sources@.len(),
            views == source_views(sources@),
            forall|a: int, b: int|
                0 <= a < b < i ==> (#[trigger] views[a]).name != (#[trigger] views[b]).name,
        decreases sources@.len() - i,
    {
        let mut j: usize = 0;
        while j < i
            invariant
                j <= i < sources@.len(),
                views == source_views(sources@),
                forall|a: int| 0 <= a < j ==> (#[trigger] views[a]).name != views[i as int].name,
            decreases i - j,
        {
            assert(views[j as int].name == sources@[j as int].meta.name@);
            assert(views[i as int].name == sources@[i as int].meta.name@);
            if same_text(sources[j].meta.name.as_str(), sources[i].meta.name.as_str()) {
                return false;
            }
            j += 1;
        }
        i += 1;
    }
    true
}

/// The names of the sources that may own `field`.
fn owner_names<S>(sources: &Vec<RegisteredSource<S>>, field: &str) -> (names: Vec<String>)
    ensures
        texts(names@) == field_owners(source_views(sources@), field@),
{
    let ghost views = source_views(sources@);
    let ghost declares = |s: SourceView| s.declares(field@);
    let ghost dynamic = |s: SourceView| s.is_dynamic();
    let mut declaring: Vec<String> = Vec::new();
    let mut open: Vec<String> = Vec::new();
    let mut i: usize = 0;
    proof {
        reveal(Seq::filter);
        assert(texts(declaring@) =~= source_names(views.take(0).filter(declares)));
        assert(texts(open@) =~= source_names(views.take(0).filter(dynamic)));
    }
    while i < sources.len()
        invariant
            i <= sources@.len(),
            views == source_views(sources@),
            declares == (|s: SourceView| s.declares(field@)),
            dynamic == (|s: SourceView| s.is_dynamic()),
            texts(declaring@) == source_names(views.take(i as int).filter(declares)),
            texts(open@) == source_names(views.take(i as int).filter(dynamic)),
        decreases sources@.len() - i,
    {
        let ghost declaring_before = declaring@;
        let ghost open_before = open@;
        proof {
            reveal(Seq::filter);
            assert(views.take(i + 1).drop_last() =~= views.take(i as int));
            assert(views.take(i + 1).last() == sources@[i as int]@);
        }
        if declares_field(&sources[i], field) {
            declaring.push(sources[i].meta.name.clone());
            assert(texts(declaring@) =~= texts(declaring_before).push(sources@[i as int]@.name));
        }
        if sources[i].meta.fields.len() == 0 {
            open.push(sources[i].meta.name.clone());
            assert(texts(open@) =~= texts(open_before).push(sources@[i as int]@.name));
        }
        assert(texts(declaring@) =~= source_names(views.take(i + 1).filter(declares)));
        assert(texts(open@) =~= source_names(views.take(i + 1).filter(dynamic)));
        i += 1;
    }
    assert(views.take(i as int) =~= views);
    assert(texts(declaring@).len() == views.filter(declares).len());
    if declaring.len() > 0 {
        declaring
    } else {
        open
    }
}

/// The sources registered under a name are those that the view lists for it, in the
/// same order.
pub proof fn law_registered_is_viewed<S>(registry: ProviderRegistry<S>, name: Seq<char>)
    requires
        registry@.is_real(name),
    ensures
        source_views(registry.registered(name)) == registry@.providers[name],
{
}

/// In a well-formed registry every name has one meaning: no name is both a
/// provider's and stored data's, and no provider has two sources of one name.
pub proof fn law_one_meaning<S>(registry: ProviderRegistry<S>, name: Seq<char>)
    requires
        registry.wf(),
    ensures
        !(registry@.is_real(name) && registry@.is_virtual(name)),
        registry@.is_real(name) ==> distinct_names(registry@.providers[name]),
{
    lemma_record_index(registry.records@, name);
}

/// What is known of a registered source: its declaration, member by member, and
/// whether it runs before every read.
pub proof fn law_source_is_known_by_its_declaration<S>(s: RegisteredSource<S>)
    ensures
        s@.name == s.meta.name@,
        s@.scope == s.meta.scope,
        s@.read_always == s.read_always,
        s@.fields.len() == s.meta.fields@.len(),
        forall|i: int|
            0 <= i < s@.fields.len() ==> (#[trigger] s@.fields[i]).name == s.meta.fields@[i].name@
                && s@.fields[i].field_type == s.meta.fields@[i].field_type,
        s.meta.invalidation matches InvalidationStrategy::Poll { interval_secs }
            ==> s@.invalidation == InvalidationView::Poll(interval_secs),
        s.meta.invalidation matches InvalidationStrategy::Watch { patterns, .. }
            ==> s@.invalidation matches InvalidationView::Watch(shown) && shown.len()
            == patterns@.len() && forall|i: int|
            0 <= i < shown.len() ==> #[trigger] shown[i] == patterns@[i]@,
        s.meta.invalidation matches InvalidationStrategy::WatchAndPoll {
            patterns,
            interval_secs,
            ..
        } ==> s@.invalidation matches InvalidationView::WatchAndPoll(shown, secs) && secs
            == interval_secs && shown.len() == patterns@.len() && forall|i: int|
            0 <= i < shown.len() ==> #[trigger] shown[i] == patterns@[i]@,
{
}

/// The views of a list of sources are those of its sources, one by one, and so are
/// their names.
pub proof fn law_sources_are_viewed_one_by_one<S>(sources: Seq<RegisteredSource<S>>)
    ensures
        source_views(sources).len() == sources.len(),
        forall|i: int| 0 <= i < sources.len() ==> #[trigger] source_views(sources)[i] == sources[i]@,
        source_names(source_views(sources)).len() == sources.len(),
        forall|i: int|
            0 <= i < sources.len() ==> #[trigger] source_names(source_views(sources))[i]
                == sources[i].meta.name@,
{
}

/// Looking a source up by its name finds a source of that name among those of the
/// provider, and finds one whenever there is one. With distinct names it finds each
/// source of the provider.
pub proof fn law_source_is_found_by_name(
    registry: RegistryView,
    provider: Seq<char>,
    name: Seq<char>,
    i: int,
)
    ensures
        registry.has_source(provider, name) <==> registry.source(provider, name) is Some,
        registry.source(provider, name) matches Some(s) ==> {
            &&& registry.providers.contains_key(provider)
            &&& registry.providers[provider].contains(s)
            &&& s.name == name
        },
        registry.providers.contains_key(provider) && 0 <= i < registry.providers[provider].len()
            && registry.providers[provider][i].name == name ==> {
            &&& registry.source(provider, name) is Some
            &&& distinct_names(registry.providers[provider]) ==> registry.source(provider, name)
                == Some(registry.providers[provider][i]) && registry.source_index(provider, name)
                == i
        },
{
    if registry.providers.contains_key(provider) {
        let sources = registry.providers[provider];
        lemma_name_index(sources, name);
        let at = name_index(sources, name);
        if at >= 0 {
            assert(sources.contains(sources[at]));
        }
        if 0 <= i < sources.len() && sources[i].name == name && distinct_names(sources) {
            if at < i {
                assert(sources[at].name != sources[i].name);
            } else if i < at {
                assert(sources[i].name != sources[at].name);
            }
        }
    }
}

/// A name is known exactly if a provider is registered under it or clients have
/// stored data under it.
pub proof fn law_known_names(registry: RegistryView, name: Seq<char>)
    ensures
        registry.is_real(name) <==> registry.providers.contains_key(name),
        registry.is_virtual(name) <==> registry.virtuals.contains(name),
        registry.is_known(name) <==> registry.providers.contains_key(name)
            || registry.virtuals.contains(name),
        registry.any_path_scoped(name) <==> registry.providers.contains_key(name) && exists|i: int|
            0 <= i < registry.providers[name].len() && (#[trigger] registry.providers[name][i]).scope
                == SourceScope::PathScoped,
{
}

/// Whether a source declares a field of the given name.
pub open spec fn names_field(s: SourceView, field: Seq<char>) -> bool {
    exists|j: int| 0 <= j < s.fields.len() && (#[trigger] s.fields[j]).name == field
}

/// The sources that may own a field are exactly those that declare it; if no source
/// of the provider does, exactly those that declare no field at all. A provider that
/// is not registered has none.
pub proof fn law_owners_of_a_field(
    registry: RegistryView,
    provider: Seq<char>,
    field: Seq<char>,
    name: Seq<char>,
)
    ensures
        registry.owners(provider, field).contains(name) <==> {
            &&& registry.providers.contains_key(provider)
            &&& exists|i: int|
                {
                    &&& 0 <= i < registry.providers[provider].len()
                    &&& (#[trigger] registry.providers[provider][i]).name == name
                    &&& names_field(registry.providers[provider][i], field) || (
                    registry.providers[provider][i].fields.len() == 0 && forall|k: int|
                        0 <= k < registry.providers[provider].len() ==> !names_field(
                            #[trigger] registry.providers[provider][k],
                            field,
                        ))
                }
        },
{
    if registry.providers.contains_key(provider) {
        let sources = registry.providers[provider];
        let declares = |s: SourceView| s.declares(field);
        let dynamic = |s: SourceView| s.is_dynamic();
        lemma_filter_members(sources, declares, name);
        lemma_filter_members(sources, dynamic, name);
        let declaring = sources.filter(declares);
        assert(declaring.len() > 0 <==> exists|k: int|
            0 <= k < sources.len() && names_field(#[trigger] sources[k], field)) by {
            broadcast use vstd::seq_lib::group_filter_ensures;

            if declaring.len() > 0 {
                lemma_filter_members(sources, declares, declaring[0].name);
                assert(source_names(declaring)[0] == declaring[0].name);
                assert(source_names(declaring).contains(declaring[0].name));
                let k = choose|k: int|
                    0 <= k < sources.len() && (#[trigger] sources[k]).name == declaring[0].name
                        && declares(sources[k]);
                assert(names_field(sources[k], field));
            }
            if exists|k: int| 0 <= k < sources.len() && names_field(#[trigger] sources[k], field) {
                let k = choose|k: int|
                    0 <= k < sources.len() && names_field(#[trigger] sources[k], field);
                assert(declares(sources[k]));
                assert(declaring.contains(sources[k]));
            }
        }
        assert forall|i: int| 0 <= i < sources.len() implies declares(#[trigger] sources[i])
            == names_field(sources[i], field) by {}
    }
}

/// The names that a selection keeps are those of the sources it is after.
proof fn lemma_filter_members(
    sources: Seq<SourceView>,
    wanted: spec_fn(SourceView) -> bool,
    name: Seq<char>,
)
    ensures
        source_names(sources.filter(wanted)).contains(name) <==> exists|i: int|
            0 <= i < sources.len() && (#[trigger] sources[i]).name == name && wanted(sources[i]),
{
    broadcast use vstd::seq_lib::group_filter_ensures;

    let kept = sources.filter(wanted);
    let names = source_names(kept);
    if names.contains(name) {
        let k = choose|k: int| 0 <= k < names.len() && names[k] == name;
        sources.lemma_filter_contains_rev(wanted, kept[k]);
        let i = choose|i: int| 0 <= i < sources.len() && sources[i] == kept[k];
        assert(wanted(kept[k]));
        assert(sources[i].name == name);
    }
    if exists|i: int|
        0 <= i < sources.len() && (#[trigger] sources[i]).name == name && wanted(sources[i]) {
        let i = choose|i: int|
            0 <= i < sources.len() && (#[trigger] sources[i]).name == name && wanted(sources[i]);
        assert(kept.contains(sources[i]));
        let k = choose|k: int| 0 <= k < kept.len() && kept[k] == sources[i];
        assert(names[k] == name);
    }
}

} // verus!
