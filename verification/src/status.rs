//! The listing of the cache: a row for each cached source, with what the
//! scheduler knows of it.

use vstd::prelude::*;

use crate::cache::{Cache, EntryView, SourceEntryView};
use crate::protocol::{error_view, ok_view, Response, ResponseView};
use crate::provider::{ProviderRegistry, RegistryView};
use crate::text::{borrowed, opt_text, owned, same_option, same_text};
use crate::value::{opt_model, Json, Value};

verus! {

/// Why a cached source is kept as it is.
#[derive(Debug)]
pub enum RowKind {
    /// A client stored the data.
    Virtual,
    /// The scheduler keeps the source warm.
    Lifecycle { decay: String, watches_files: bool },
    /// The source ran for a request, and nothing keeps it warm.
    Transient,
}

/// A row of the listing.
#[derive(Debug)]
pub struct StatusRow {
    pub provider: String,
    pub path: Option<String>,
    pub source: String,
    pub age_ms: u128,
    pub stale: bool,
    pub kind: Option<RowKind>,
    pub poll_interval_secs: Option<u64>,
    pub keep_alive_polls: Option<u32>,
    pub polls_elapsed: Option<u32>,
    pub next_poll_in_secs: Option<u64>,
    pub fsevents_reinstate: Option<bool>,
    /// The scheduler's record of failed runs.
    pub failure: Option<Value>,
}

/// What the scheduler knows of a source that it keeps warm.
#[derive(Debug)]
pub struct LifecycleSnapshot {
    pub provider: String,
    pub path: Option<String>,
    pub source: String,
    pub decay: String,
    pub watches_files: bool,
    /// 0 for a source that is only watched.
    pub poll_interval_secs: u64,
    pub keep_alive_polls: u32,
    pub polls_elapsed: u32,
    pub next_poll_in_secs: Option<u64>,
    pub fsevents_reinstate: bool,
}

/// The scheduler's record of a source whose runs failed.
#[derive(Debug)]
pub struct FailureSnapshot {
    pub provider: String,
    pub path: Option<String>,
    pub source: String,
    pub record: Value,
}

/// The mathematical content of a [`RowKind`].
pub enum KindView {
    Virtual,
    Lifecycle(Seq<char>, bool),
    Transient,
}

/// The mathematical content of a [`StatusRow`].
pub struct RowView {
    pub provider: Seq<char>,
    pub path: Option<Seq<char>>,
    pub source: Seq<char>,
    pub age_ms: u128,
    pub stale: bool,
    pub kind: Option<KindView>,
    pub poll_interval_secs: Option<u64>,
    pub keep_alive_polls: Option<u32>,
    pub polls_elapsed: Option<u32>,
    pub next_poll_in_secs: Option<u64>,
    pub fsevents_reinstate: Option<bool>,
    pub failure: Option<Json>,
}

impl View for RowKind {
    type V = KindView;

    open spec fn view(&self) -> KindView {
        match self {
            RowKind::Virtual => KindView::Virtual,
            RowKind::Lifecycle { decay, watches_files } => KindView::Lifecycle(
                decay@,
                *watches_files,
            ),
            RowKind::Transient => KindView::Transient,
        }
    }
}

impl View for StatusRow {
    type V = RowView;

    open spec fn view(&self) -> RowView {
        RowView {
            provider: self.provider@,
            path: opt_text(self.path),
            source: self.source@,
            age_ms: self.age_ms,
            stale: self.stale,
            kind: match self.kind {
                Some(k) => Some(k@),
                None => None,
            },
            poll_interval_secs: self.poll_interval_secs,
            keep_alive_polls: self.keep_alive_polls,
            polls_elapsed: self.polls_elapsed,
            next_poll_in_secs: self.next_poll_in_secs,
            fsevents_reinstate: self.fsevents_reinstate,
            failure: opt_model(self.failure),
        }
    }
}

/// The contents of a list of rows.
pub open spec fn row_views(rows: Seq<StatusRow>) -> Seq<RowView> {
    rows.map_values(|r: StatusRow| r@)
}

/// The row of a cached source.
pub open spec fn plain_row(entry: EntryView, source: SourceEntryView, now: u128) -> RowView {
    RowView {
        provider: entry.provider,
        path: entry.path,
        source: source.name,
        age_ms: source.age_ms(now),
        stale: source.is_stale(now),
        kind: None,
        poll_interval_secs: None,
        keep_alive_polls: None,
        polls_elapsed: None,
        next_poll_in_secs: None,
        fsevents_reinstate: None,
        failure: None,
    }
}

/// The rows of the sources of the given entries.
pub open spec fn plain_rows(entries: Seq<EntryView>, now: u128) -> Seq<RowView>
    decreases entries.len(),
{
    if entries.len() == 0 {
        Seq::empty()
    } else {
        let e = entries.last();
        plain_rows(entries.drop_last(), now) + e.sources.map_values(
            |s: SourceEntryView| plain_row(e, s, now),
        )
    }
}

/// A row for each cached source.
pub fn list_rows(cache: &Cache, now: u128) -> (rows: Vec<StatusRow>)
    ensures
        row_views(rows@) == plain_rows(cache@.entries, now),
{
    let mut rows: Vec<StatusRow> = Vec::new();
    let ghost all = cache@.entries;
    let mut i: usize = 0;
    assert(row_views(rows@) =~= plain_rows(all.take(0), now));
    while i < cache.len()
        invariant
            i <= all.len(),
            all == cache@.entries,
            row_views(rows@) == plain_rows(all.take(i as int), now),
        decreases all.len() - i,
    {
        let entry = cache.entry_at(i);
        let ghost before = row_views(rows@);
        let ghost e = entry@;
        let ghost mine = e.sources.map_values(|s: SourceEntryView| plain_row(e, s, now));
        proof {
            assert(all.take(i + 1).drop_last() =~= all.take(i as int));
            assert(all.take(i + 1).last() == e);
            assert(before + mine.take(0) =~= before);
        }
        let mut j: usize = 0;
        while j < entry.sources.len()
            invariant
                j <= entry.sources@.len(),
                e == entry@,
                mine == e.sources.map_values(|s: SourceEntryView| plain_row(e, s, now)),
                row_views(rows@) == before + mine.take(j as int),
            decreases entry.sources@.len() - j,
        {
            let source = &entry.sources[j];
            let row = StatusRow {
                provider: entry.provider.clone(),
                path: owned(borrowed(&entry.path)),
                source: source.name.clone(),
                age_ms: source.age_ms(now),
                stale: source.is_stale(now),
                kind: None,
                poll_interval_secs: None,
                keep_alive_polls: None,
                polls_elapsed: None,
                next_poll_in_secs: None,
                fsevents_reinstate: None,
                failure: None,
            };
            let ghost old_rows = row_views(rows@);
            assert(e.sources[j as int] == source@);
            assert(row@ == mine[j as int]);
            rows.push(row);
            proof {
                assert(row_views(rows@) =~= old_rows.push(row@));
                assert(mine.take(j + 1) =~= mine.take(j as int).push(mine[j as int]));
                assert(row_views(rows@) =~= before + mine.take(j + 1));
            }
            j += 1;
        }
        assert(mine.take(j as int) =~= mine);
        i += 1;
    }
    assert(all.take(i as int) =~= all);
    rows
}

/// Whether a lifecycle snapshot is about the given source.
pub open spec fn snapshot_of(
    s: LifecycleSnapshot,
    provider: Seq<char>,
    path: Option<Seq<char>>,
    source: Seq<char>,
) -> bool {
    s.provider@ == provider && opt_text(s.path) == path && s.source@ == source
}

/// Whether a failure snapshot is about the given source.
pub open spec fn failure_of(
    s: FailureSnapshot,
    provider: Seq<char>,
    path: Option<Seq<char>>,
    source: Seq<char>,
) -> bool {
    s.provider@ == provider && opt_text(s.path) == path && s.source@ == source
}

/// The index of the lifecycle snapshot about a row's source, or -1.
pub open spec fn snapshot_index(list: Seq<LifecycleSnapshot>, row: RowView) -> int
    decreases list.len(),
{
    if list.len() == 0 {
        -1
    } else if snapshot_of(list.last(), row.provider, row.path, row.source) {
        list.len() - 1
    } else {
        snapshot_index(list.drop_last(), row)
    }
}

/// The index of the failure snapshot about a row's source, or -1.
pub open spec fn failure_index(list: Seq<FailureSnapshot>, row: RowView) -> int
    decreases list.len(),
{
    if list.len() == 0 {
        -1
    } else if failure_of(list.last(), row.provider, row.path, row.source) {
        list.len() - 1
    } else {
        failure_index(list.drop_last(), row)
    }
}

/// A row with what a lifecycle snapshot says of its source. What concerns polling
/// is shown only for a source that is polled.
pub open spec fn with_snapshot(row: RowView, s: LifecycleSnapshot) -> RowView {
    let shown = RowView {
        kind: Some(KindView::Lifecycle(s.decay@, s.watches_files)),
        fsevents_reinstate: Some(s.fsevents_reinstate),
        ..row
    };
    if s.poll_interval_secs > 0 {
        RowView {
            poll_interval_secs: Some(s.poll_interval_secs),
            keep_alive_polls: Some(s.keep_alive_polls),
            polls_elapsed: Some(s.polls_elapsed),
            next_poll_in_secs: s.next_poll_in_secs,
            ..shown
        }
    } else {
        shown
    }
}

/// A row with what is known of its source. Stored data has no source to run, so
/// nothing else is known of it.
pub open spec fn annotated(
    row: RowView,
    registry: RegistryView,
    lifecycle: Seq<LifecycleSnapshot>,
    failures: Seq<FailureSnapshot>,
) -> RowView {
    if registry.is_virtual(row.provider) {
        RowView { kind: Some(KindView::Virtual), ..row }
    } else {
        let at = snapshot_index(lifecycle, row);
        let kept = if at >= 0 {
            with_snapshot(row, lifecycle[at])
        } else {
            RowView { kind: Some(KindView::Transient), ..row }
        };
        let failed = failure_index(failures, row);
        if failed >= 0 {
            RowView { failure: Some(failures[failed].record.model()), ..kept }
        } else {
            kept
        }
    }
}

fn find_snapshot(list: &Vec<LifecycleSnapshot>, row: &StatusRow) -> (found: Option<usize>)
    ensures
        found matches Some(i) ==> i == snapshot_index(list@, row@) && i < list@.len(),
        found is None ==> snapshot_index(list@, row@) < 0,
{
    let mut n: usize = list.len();
    assert(list@.take(n as int) =~= list@);
    while n > 0
        invariant
            n <= list@.len(),
            snapshot_index(list@, row@) == snapshot_index(list@.take(n as int), row@),
        decreases n,
    {
        assert(list@.take(n as int).drop_last() =~= list@.take(n - 1));
        let s = &list[n - 1];
        if same_text(s.provider.as_str(), row.provider.as_str()) && same_option(
            borrowed(&s.path),
            borrowed(&row.path),
        ) && same_text(s.source.as_str(), row.source.as_str()) {
            return Some(n - 1);
        }
        n -= 1;
    }
    None
}

fn find_failure(list: &Vec<FailureSnapshot>, row: &StatusRow) -> (found: Option<usize>)
    ensures
        found matches Some(i) ==> i == failure_index(list@, row@) && i < list@.len(),
        found is None ==> failure_index(list@, row@) < 0,
{
    let mut n: usize = list.len();
    assert(list@.take(n as int) =~= list@);
    while n > 0
        invariant
            n <= list@.len(),
            failure_index(list@, row@) == failure_index(list@.take(n as int), row@),
        decreases n,
    {
        assert(list@.take(n as int).drop_last() =~= list@.take(n - 1));
        let s = &list[n - 1];
        if same_text(s.provider.as_str(), row.provider.as_str()) && same_option(
            borrowed(&s.path),
            borrowed(&row.path),
        ) && same_text(s.source.as_str(), row.source.as_str()) {
            return Some(n - 1);
        }
        n -= 1;
    }
    None
}

fn annotate_row<S>(
    row: &mut StatusRow,
    registry: &ProviderRegistry<S>,
    lifecycle: &Vec<LifecycleSnapshot>,
    failures: &Vec<FailureSnapshot>,
)
    ensures
        final(row)@ == annotated(old(row)@, registry@, lifecycle@, failures@),
{
    if registry.is_virtual(row.provider.as_str()) {
        row.kind = Some(RowKind::Virtual);
        return;
    }
    let snapshot = find_snapshot(lifecycle, row);
    let failed = find_failure(failures, row);
    match snapshot {
        Some(i) => {
            let s = &lifecycle[i];
            row.kind = Some(
                RowKind::Lifecycle { decay: s.decay.clone(), watches_files: s.watches_files },
            );
            if s.poll_interval_secs > 0 {
                row.poll_interval_secs = Some(s.poll_interval_secs);
                row.keep_alive_polls = Some(s.keep_alive_polls);
                row.polls_elapsed = Some(s.polls_elapsed);
                row.next_poll_in_secs = s.next_poll_in_secs;
            }
            row.fsevents_reinstate = Some(s.fsevents_reinstate);
        },
        None => {
            row.kind = Some(RowKind::Transient);
        },
    }
    match failed {
        Some(i) => {
            row.failure = Some(failures[i].record.clone());
        },
        None => {},
    }
}

/// A row for each cached source, with what is known of the source.
pub fn status_rows<S>(
    cache: &Cache,
    registry: &ProviderRegistry<S>,
    lifecycle: &Vec<LifecycleSnapshot>,
    failures: &Vec<FailureSnapshot>,
    now: u128,
) -> (rows: Vec<StatusRow>)
    ensures
        row_views(rows@) == plain_rows(cache@.entries, now).map_values(
            |r: RowView| annotated(r, registry@, lifecycle@, failures@),
        ),
{
    let mut rows = list_rows(cache, now);
    let ghost plain = row_views(rows@);
    let ghost want = plain.map_values(
        |r: RowView| annotated(r, registry@, lifecycle@, failures@),
    );
    let mut i: usize = 0;
    while i < rows.len()
        invariant
            i <= rows@.len(),
            rows@.len() == plain.len(),
            want == plain.map_values(
                |r: RowView| annotated(r, registry@, lifecycle@, failures@),
            ),
            forall|j: int| 0 <= j < i ==> (#[trigger] rows@[j])@ == want[j],
            forall|j: int| i <= j < rows@.len() ==> (#[trigger] rows@[j])@ == plain[j],
        decreases rows@.len() - i,
    {
        annotate_row(&mut rows[i], registry, lifecycle, failures);
        i += 1;
    }
    assert(row_views(rows@) =~= want);
    rows
}

/// The answer to a status request; `rendered` are the rows as JSON.
pub open spec fn status_view(rendered: Result<Value, String>) -> ResponseView {
    match rendered {
        Ok(v) => ok_view(v.model(), 0, false),
        Err(e) => error_view("serialization failed: "@ + e@),
    }
}

/// The answer to a status request; `rendered` are the rows as JSON.
pub fn status_reply(rendered: Result<Value, String>) -> (response: Response)
    ensures
        response@ == status_view(rendered),
{
    match rendered {
        Ok(v) => Response::ok(v, 0, false),
        Err(e) => {
            let mut message = "serialization failed: ".to_owned();
            message.append(e.as_str());
            Response::error(message)
        },
    }
}

/// Every row tells why its source is kept: stored data always as such, and any
/// other source by its own snapshot or as transient. Nothing about polling is shown
/// of a source that is not polled.
pub proof fn law_every_row_has_a_kind(
    row: RowView,
    registry: RegistryView,
    lifecycle: Seq<LifecycleSnapshot>,
    failures: Seq<FailureSnapshot>,
)
    requires
        row.poll_interval_secs is None,
    ensures
        ({
            let shown = annotated(row, registry, lifecycle, failures);
            let at = snapshot_index(lifecycle, row);
            &&& shown.kind is Some
            &&& shown.kind == Some(KindView::Virtual) <==> registry.is_virtual(row.provider)
            &&& shown.kind == Some(KindView::Transient) <==> !registry.is_virtual(row.provider)
                && at < 0
            &&& registry.is_virtual(row.provider) || at < 0 ==> shown.poll_interval_secs is None
            &&& !registry.is_virtual(row.provider) && at >= 0 ==> (shown.poll_interval_secs is Some
                <==> lifecycle[at].poll_interval_secs > 0)
            &&& shown.provider == row.provider && shown.path == row.path && shown.source
                == row.source && shown.age_ms == row.age_ms && shown.stale == row.stale
        }),
{
}

/// What a row shows of the scheduler's snapshots. A row of a source that no client
/// stored is kept warm exactly if there is a snapshot of the same provider, path and
/// source, and shows what such a snapshot says: about polling only if the source is
/// polled. Without one it is transient and shows nothing.
pub proof fn law_row_shows_its_own_snapshot(
    row: RowView,
    registry: RegistryView,
    lifecycle: Seq<LifecycleSnapshot>,
    failures: Seq<FailureSnapshot>,
)
    requires
        !registry.virtuals.contains(row.provider),
        row.poll_interval_secs is None && row.keep_alive_polls is None && row.polls_elapsed is None
            && row.next_poll_in_secs is None && row.fsevents_reinstate is None,
    ensures
        ({
            let shown = annotated(row, registry, lifecycle, failures);
            if exists|i: int|
                0 <= i < lifecycle.len() && (#[trigger] lifecycle[i]).provider@ == row.provider
                    && opt_text(lifecycle[i].path) == row.path && lifecycle[i].source@
                    == row.source {
                exists|i: int|
                    {
                        &&& 0 <= i < lifecycle.len()
                        &&& (#[trigger] lifecycle[i]).provider@ == row.provider && opt_text(
                            lifecycle[i].path,
                        ) == row.path && lifecycle[i].source@ == row.source
                        &&& shown.kind == Some(
                            KindView::Lifecycle(
                                lifecycle[i].decay@,
                                lifecycle[i].watches_files,
                            ),
                        )
                        &&& shown.fsevents_reinstate == Some(lifecycle[i].fsevents_reinstate)
                        &&& lifecycle[i].poll_interval_secs > 0 ==> shown.poll_interval_secs
                            == Some(lifecycle[i].poll_interval_secs) && shown.keep_alive_polls
                            == Some(lifecycle[i].keep_alive_polls) && shown.polls_elapsed == Some(
                            lifecycle[i].polls_elapsed,
                        ) && shown.next_poll_in_secs == lifecycle[i].next_poll_in_secs
                        &&& lifecycle[i].poll_interval_secs == 0
                            ==> shown.poll_interval_secs is None && shown.keep_alive_polls is None
                            && shown.polls_elapsed is None && shown.next_poll_in_secs is None
                    }
            } else {
                &&& shown.kind == Some(KindView::Transient)
                &&& shown.poll_interval_secs is None && shown.keep_alive_polls is None
                    && shown.polls_elapsed is None && shown.next_poll_in_secs is None
                    && shown.fsevents_reinstate is None
            }
        }),
{
    lemma_snapshot_index(lifecycle, row);
}

proof fn lemma_snapshot_index(list: Seq<LifecycleSnapshot>, row: RowView)
    ensures
        -1 <= snapshot_index(list, row) < list.len(),
        snapshot_index(list, row) >= 0 ==> list[snapshot_index(list, row)].provider@
            == row.provider && opt_text(list[snapshot_index(list, row)].path) == row.path
            && list[snapshot_index(list, row)].source@ == row.source,
        snapshot_index(list, row) < 0 ==> forall|i: int|
            0 <= i < list.len() ==> !((#[trigger] list[i]).provider@ == row.provider && opt_text(
                list[i].path,
            ) == row.path && list[i].source@ == row.source),
    decreases list.len(),
{
    if list.len() > 0 {
        let init = list.drop_last();
        lemma_snapshot_index(init, row);
        assert forall|i: int| 0 <= i < init.len() implies init[i] == list[i] by {}
    }
}

proof fn lemma_failure_index(list: Seq<FailureSnapshot>, row: RowView)
    ensures
        -1 <= failure_index(list, row) < list.len(),
        failure_index(list, row) >= 0 ==> list[failure_index(list, row)].provider@ == row.provider
            && opt_text(list[failure_index(list, row)].path) == row.path && list[failure_index(
            list,
            row,
        )].source@ == row.source,
        failure_index(list, row) < 0 ==> forall|i: int|
            0 <= i < list.len() ==> !((#[trigger] list[i]).provider@ == row.provider && opt_text(
                list[i].path,
            ) == row.path && list[i].source@ == row.source),
    decreases list.len(),
{
    if list.len() > 0 {
        let init = list.drop_last();
        lemma_failure_index(init, row);
        assert forall|i: int| 0 <= i < init.len() implies init[i] == list[i] by {}
    }
}

/// A row shows failed runs exactly if the scheduler has a record of them for the same
/// provider, path and source, and then such a record. Stored data has no source that
/// could fail, and nothing but its being stored is shown of it.
pub proof fn law_row_shows_its_own_failure(
    row: RowView,
    registry: RegistryView,
    lifecycle: Seq<LifecycleSnapshot>,
    failures: Seq<FailureSnapshot>,
)
    requires
        row.failure is None,
    ensures
        ({
            let shown = annotated(row, registry, lifecycle, failures);
            &&& registry.virtuals.contains(row.provider) ==> shown == RowView {
                kind: Some(KindView::Virtual),
                ..row
            }
            &&& !registry.virtuals.contains(row.provider) ==> (shown.failure is Some <==> exists|
                i: int,
            |
                0 <= i < failures.len() && (#[trigger] failures[i]).provider@ == row.provider
                    && opt_text(failures[i].path) == row.path && failures[i].source@
                    == row.source)
            &&& shown.failure matches Some(record) ==> exists|i: int|
                0 <= i < failures.len() && (#[trigger] failures[i]).provider@ == row.provider
                    && opt_text(failures[i].path) == row.path && failures[i].source@ == row.source
                    && record == failures[i].record.model()
        }),
{
    lemma_failure_index(failures, row);
}

/// The listing has a row for every cached source, with its slot, its name, its age
/// and whether it is stale.
pub proof fn law_every_cached_source_is_listed(
    entries: Seq<EntryView>,
    i: int,
    j: int,
    now: u128,
) -> (k: int)
    requires
        0 <= i < entries.len(),
        0 <= j < entries[i].sources.len(),
    ensures
        0 <= k < plain_rows(entries, now).len(),
        lists(plain_rows(entries, now)[k], entries[i], entries[i].sources[j], now),
    decreases entries.len(),
{
    let init = entries.drop_last();
    if i < init.len() {
        law_every_cached_source_is_listed(init, i, j, now)
    } else {
        plain_rows(init, now).len() + j
    }
}

/// Every row of the listing lists a cached source.
pub proof fn law_every_row_lists_a_source(entries: Seq<EntryView>, k: int, now: u128) -> (at: (
    int,
    int,
))
    requires
        0 <= k < plain_rows(entries, now).len(),
    ensures
        0 <= at.0 < entries.len(),
        0 <= at.1 < entries[at.0].sources.len(),
        lists(plain_rows(entries, now)[k], entries[at.0], entries[at.0].sources[at.1], now),
    decreases entries.len(),
{
    let before = plain_rows(entries.drop_last(), now);
    if k < before.len() {
        law_every_row_lists_a_source(entries.drop_last(), k, now)
    } else {
        (entries.len() - 1, k - before.len())
    }
}

/// Whether a row lists the given source of an entry, and nothing besides.
pub open spec fn lists(row: RowView, e: EntryView, s: SourceEntryView, now: u128) -> bool {
    &&& row.provider == e.provider && row.path == e.path && row.source == s.name
    &&& row.age_ms == s.age_ms(now) && row.stale == s.is_stale(now)
    &&& row.kind is None && row.failure is None && row.fsevents_reinstate is None
    &&& row.poll_interval_secs is None && row.keep_alive_polls is None
    &&& row.polls_elapsed is None && row.next_poll_in_secs is None
}

/// There is exactly one row for each cached source.
pub proof fn law_one_row_for_each_source(entries: Seq<EntryView>, now: u128)
    ensures
        entries.len() == 0 ==> plain_rows(entries, now).len() == 0,
        entries.len() > 0 ==> plain_rows(entries, now).len() == plain_rows(
            entries.drop_last(),
            now,
        ).len() + entries.last().sources.len(),
{
}

/// A row says what its members say.
pub proof fn law_row_is_known_by_its_members(row: StatusRow)
    ensures
        row@.provider == row.provider@,
        row@.path == match row.path {
            Some(p) => Some(p@),
            None => None,
        },
        row@.source == row.source@,
        row@.age_ms == row.age_ms,
        row@.stale == row.stale,
        row@.poll_interval_secs == row.poll_interval_secs,
        row@.keep_alive_polls == row.keep_alive_polls,
        row@.polls_elapsed == row.polls_elapsed,
        row@.next_poll_in_secs == row.next_poll_in_secs,
        row@.fsevents_reinstate == row.fsevents_reinstate,
        row@.failure == match row.failure {
            Some(v) => Some(v.model()),
            None => None,
        },
        row@.kind == match row.kind {
            Some(RowKind::Virtual) => Some(KindView::Virtual),
            Some(RowKind::Lifecycle { decay, watches_files }) => Some(
                KindView::Lifecycle(decay@, watches_files),
            ),
            Some(RowKind::Transient) => Some(KindView::Transient),
            None => None,
        },
{
}

/// The rows of a listing that was rendered are the data of its answer; otherwise the
/// answer says why not.
pub proof fn law_listing_is_the_answer(rendered: Result<Value, String>)
    ensures
        match rendered {
            Ok(v) => status_view(rendered).ok && status_view(rendered).data == Some(v.model())
                && status_view(rendered).age_ms == Some(0u128) && status_view(rendered).stale
                == Some(false) && status_view(rendered).error is None,
            Err(e) => !status_view(rendered).ok && status_view(rendered).data is None
                && status_view(rendered).error == Some("serialization failed: "@ + e@),
        },
{
}

/// The listing that a cache, a registry and the scheduler's snapshots give: for every
/// cached source a row that shows it, with what is known of it.
pub proof fn law_listing_of_the_cache<S>(
    cache: Cache,
    registry: ProviderRegistry<S>,
    lifecycle: Vec<LifecycleSnapshot>,
    failures: Vec<FailureSnapshot>,
    now: u128,
    rows: Vec<StatusRow>,
    i: int,
    j: int,
) -> (k: int)
    requires
        call_ensures(status_rows::<S>, (&cache, &registry, &lifecycle, &failures, now), rows),
        0 <= i < cache@.entries.len(),
        0 <= j < cache@.entries[i].sources.len(),
    ensures
        0 <= k < rows@.len(),
        ({
            let e = cache@.entries[i];
            let s = e.sources[j];
            let row = rows@[k]@;
            &&& row.provider == e.provider && row.path == e.path && row.source == s.name
            &&& row.age_ms == s.age_ms(now) && row.stale == s.is_stale(now)
            &&& row.kind == Some(KindView::Virtual) <==> registry@.virtuals.contains(e.provider)
            &&& row.kind matches Some(KindView::Lifecycle(decay, watches)) ==> exists|n: int|
                {
                    &&& 0 <= n < lifecycle@.len()
                    &&& (#[trigger] lifecycle@[n]).provider@ == e.provider && opt_text(
                        lifecycle@[n].path,
                    ) == e.path && lifecycle@[n].source@ == s.name
                    &&& decay == lifecycle@[n].decay@ && watches == lifecycle@[n].watches_files
                }
            &&& row.kind == Some(KindView::Transient) ==> forall|n: int|
                0 <= n < lifecycle@.len() ==> !((#[trigger] lifecycle@[n]).provider@ == e.provider
                    && opt_text(lifecycle@[n].path) == e.path && lifecycle@[n].source@ == s.name)
        }),
{
    let k = law_every_cached_source_is_listed(cache@.entries, i, j, now);
    let plain = plain_rows(cache@.entries, now);
    let shown = plain.map_values(
        |r: RowView| annotated(r, registry@, lifecycle@, failures@),
    );
    assert(row_views(rows@) =~= shown);
    assert(row_views(rows@).len() == rows@.len());
    assert(row_views(rows@)[k] == rows@[k]@);
    assert(shown[k] == annotated(plain[k], registry@, lifecycle@, failures@));
    lemma_snapshot_index(lifecycle@, plain[k]);
    let n = snapshot_index(lifecycle@, plain[k]);
    if n >= 0 {
        assert(lifecycle@[n].provider@ == plain[k].provider);
    }
    k
}

} // verus!
