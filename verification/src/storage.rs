//! What holds of the data that clients store.

use vstd::prelude::*;

use crate::cache::{
    law_put_distinct, law_put_keeps_other_slots, law_read_after_put, law_without, lemma_entry_index,
    lemma_slot_index, merged_fields, oldest_age, put_entry, slot_index, CacheView, EntryView,
    SourceEntryView,
};
use crate::course::law_stored_data_is_read_at_once;
use crate::get::{evicted, lookup_view, run_path, stored, StepView};
use crate::protocol::{done_view, ok_view};
use crate::provider::RegistryView;
use crate::query::{key_form, metadata_split, plan_for, KeyView, PlanView};
use crate::server::{put_cache, put_registry, put_reply, stored_entry};
use crate::text::{
    law_join_undoes_split, law_split_first, law_split_pieces, law_split_single, split_on,
};
use crate::value::{path_lookup, Json};

verus! {

/// No name is both a provider's and stored data's.
pub open spec fn one_meaning(registry: RegistryView) -> bool {
    forall|name: Seq<char>|
        !(#[trigger] registry.is_real(name) && #[trigger] registry.is_virtual(name))
}

/// An entry that may be cached: its provider is known, and stored data is kept as
/// one source.
pub open spec fn fitting(registry: RegistryView, e: EntryView) -> bool {
    &&& registry.is_known(e.provider)
    &&& registry.is_virtual(e.provider) ==> e.sources.len() == 1 && e.sources[0].name
        == "virtual"@
}

/// Every cached entry fits the registry.
pub open spec fn in_keeping(registry: RegistryView, cache: CacheView) -> bool {
    forall|i: int| 0 <= i < cache.entries.len() ==> fitting(registry, #[trigger] cache.entries[i])
}

/// A request to store keeps the cache in keeping with the registry.
pub proof fn law_put_stays_in_keeping(
    key: Seq<char>,
    data: Option<Json>,
    path: Option<Seq<char>>,
    interval_secs: Option<u64>,
    registry: RegistryView,
    cache: CacheView,
    now: u128,
)
    requires
        one_meaning(registry),
        in_keeping(registry, cache),
        cache.distinct(),
    ensures
        one_meaning(put_registry(key, data, registry)),
        in_keeping(
            put_registry(key, data, registry),
            put_cache(key, data, path, interval_secs, registry, cache, now),
        ),
        put_cache(key, data, path, interval_secs, registry, cache, now).distinct(),
{
    let known = put_registry(key, data, registry);
    let after = put_cache(key, data, path, interval_secs, registry, cache, now);
    assert forall|name: Seq<char>|
        !(#[trigger] known.is_real(name) && #[trigger] known.is_virtual(name)) by {
        assert(!(registry.is_real(name) && registry.is_virtual(name)));
    }
    if !registry.is_real(key) {
        lemma_slot_index(cache.entries, key, path);
        let at = slot_index(cache.entries, key, path);
        match data {
            None => {
                law_without(cache, key, path, key, path);
                lemma_removed_keeps_fitting(registry, cache, key, path);
            },
            Some(Json::Object(fields)) => {
                let e = stored_entry(fields, interval_secs, now);
                law_put_distinct(cache, key, path, e);
                if at >= 0 {
                    let old = cache.entries[at];
                    assert(fitting(registry, old));
                    lemma_entry_index(old.sources, "virtual"@);
                    assert(put_entry(old.sources, e).len() == 1);
                }
                assert forall|i: int| 0 <= i < after.entries.len() implies fitting(
                    known,
                    #[trigger] after.entries[i],
                ) by {
                    if i < cache.entries.len() && i != at {
                        assert(after.entries[i] == cache.entries[i]);
                        assert(fitting(registry, cache.entries[i]));
                    }
                }
            },
            _ => {},
        }
    }
}

proof fn lemma_removed_keeps_fitting(
    registry: RegistryView,
    cache: CacheView,
    provider: Seq<char>,
    path: Option<Seq<char>>,
)
    requires
        in_keeping(registry, cache),
    ensures
        in_keeping(registry, cache.without(provider, path)),
{
    let at = slot_index(cache.entries, provider, path);
    let after = cache.without(provider, path);
    lemma_slot_index(cache.entries, provider, path);
    if at >= 0 {
        assert forall|i: int| 0 <= i < after.entries.len() implies fitting(
            registry,
            #[trigger] after.entries[i],
        ) by {
            let k = if i < at {
                i
            } else {
                i + 1
            };
            assert(after.entries[i] == cache.entries[k]);
        }
    }
}

/// Dropping a slot before a read, and recording what a source gave, keep the cache
/// in keeping with the registry.
pub proof fn law_reads_stay_in_keeping(
    registry: RegistryView,
    cache: CacheView,
    plan: PlanView,
    force: bool,
    wait: bool,
    provider: Seq<char>,
    source: Seq<char>,
    path: Option<Seq<char>>,
    fields: Option<Map<Seq<char>, Json>>,
    now: u128,
)
    requires
        one_meaning(registry),
        in_keeping(registry, cache),
    ensures
        in_keeping(registry, evicted(plan, force, wait, registry, cache, now)),
        in_keeping(registry, stored(cache, registry, provider, source, path, fields, now)),
{
    lemma_removed_keeps_fitting(registry, cache, plan.provider, plan.effective_path);
    let after = stored(cache, registry, provider, source, path, fields, now);
    if let Some(s) = registry.source(provider, source) {
        assert(registry.is_real(provider));
        assert(!registry.is_virtual(provider));
        lemma_slot_index(cache.entries, provider, run_path(s.scope, path));
        assert forall|i: int| 0 <= i < after.entries.len() implies fitting(
            registry,
            #[trigger] after.entries[i],
        ) by {
            if i < cache.entries.len() {
                assert(fitting(registry, cache.entries[i]));
            }
        }
    }
}

/// A refused request to store changes nothing.
pub proof fn law_refused_put_changes_nothing(
    key: Seq<char>,
    data: Option<Json>,
    path: Option<Seq<char>>,
    interval_secs: Option<u64>,
    registry: RegistryView,
    cache: CacheView,
    now: u128,
)
    requires
        put_reply(key, data, registry).error is Some,
    ensures
        put_registry(key, data, registry) == registry,
        put_cache(key, data, path, interval_secs, registry, cache, now) == cache,
{
}

/// A request to store is refused exactly if a provider has the name, or if the data
/// is not an object.
pub proof fn law_put_refusals(key: Seq<char>, data: Option<Json>, registry: RegistryView)
    ensures
        put_reply(key, data, registry).error is Some <==> registry.is_real(key) || (
        data matches Some(d) && !(d is Object)),
        registry.providers.contains_key(key) ==> put_reply(key, data, registry).error == Some(
            "cannot store under '"@ + key
                + "': name is used by a builtin or script provider"@,
        ),
        !registry.providers.contains_key(key) && (data matches Some(d) && !(d is Object))
            ==> put_reply(key, data, registry).error == Some("put data must be a JSON object"@),
        put_reply(key, data, registry).error is Some <==> !put_reply(key, data, registry).ok,
        put_reply(key, data, registry).error is None ==> put_reply(key, data, registry)
            == done_view(),
{
}

/// Storing an object makes its name known and leaves the providers as they are. It
/// changes the slot of the name at its path and no other.
pub proof fn law_put_changes_its_own_slot(
    key: Seq<char>,
    fields: Map<Seq<char>, Json>,
    path: Option<Seq<char>>,
    interval_secs: Option<u64>,
    registry: RegistryView,
    cache: CacheView,
    now: u128,
    other: Seq<char>,
    other_path: Option<Seq<char>>,
)
    requires
        cache.distinct(),
        !registry.providers.contains_key(key),
    ensures
        ({
            let data = Some(Json::Object(fields));
            let known = put_registry(key, data, registry);
            let after = put_cache(key, data, path, interval_secs, registry, cache, now);
            &&& known.providers == registry.providers
            &&& known.virtuals == registry.virtuals.insert(key)
            &&& other != key || other_path != path ==> after.entry(other, other_path)
                == cache.entry(other, other_path)
            &&& after.source(key, path, "virtual"@) matches Some(e) && e.fields == fields
                && e.refreshed_ms == now && e.interval_secs == interval_secs
        }),
{
    let e = stored_entry(fields, interval_secs, now);
    law_read_after_put(cache, key, path, e);
    if other != key || other_path != path {
        law_put_keeps_other_slots(cache, key, path, e, other, other_path);
    }
}

/// A key that names stored data as a whole: it has no dot and no metadata suffix.
pub open spec fn plain_key(key: Seq<char>) -> bool {
    !key.contains('.') && metadata_split(key).1 is None
}

/// The cache entry that storing leaves: the stored fields alone.
proof fn lemma_stored_alone(
    key: Seq<char>,
    fields: Map<Seq<char>, Json>,
    path: Option<Seq<char>>,
    interval_secs: Option<u64>,
    registry: RegistryView,
    cache: CacheView,
    now: u128,
)
    requires
        in_keeping(registry, cache),
        cache.distinct(),
        !registry.is_real(key),
    ensures
        ({
            let e = stored_entry(fields, interval_secs, now);
            cache.put(key, path, e).entry(key, path) == Some(
                EntryView { provider: key, path, sources: seq![e] },
            )
        }),
{
    let e = stored_entry(fields, interval_secs, now);
    law_read_after_put(cache, key, path, e);
    lemma_slot_index(cache.entries, key, path);
    if let Some(old) = cache.entry(key, path) {
        assert(fitting(registry, old));
        lemma_entry_index(old.sources, "virtual"@);
        assert(put_entry(old.sources, e) =~= seq![e]);
    }
}

/// A read gives back what was stored: all of it, with its age, once the data was
/// stored under a key without a dot or a metadata suffix, at the path it was stored
/// at.
pub proof fn law_get_after_put(
    key: Seq<char>,
    fields: Map<Seq<char>, Json>,
    path: Option<Seq<char>>,
    interval_secs: Option<u64>,
    registry: RegistryView,
    cache: CacheView,
    now: u128,
    later: u128,
)
    requires
        in_keeping(registry, cache),
        cache.distinct(),
        !registry.is_real(key),
        plain_key(key),
    ensures
        ({
            let data = Some(Json::Object(fields));
            let known = put_registry(key, data, registry);
            let after = put_cache(key, data, path, interval_secs, registry, cache, now);
            &&& put_reply(key, data, registry) == done_view()
            &&& lookup_view(plan_for(key, path, known), known, after, later) == StepView::Reply(
                ok_view(
                    Json::Object(fields),
                    if later >= now {
                        (later - now) as u128
                    } else {
                        0
                    },
                    interval_secs matches Some(secs) && later - now > secs * 1000,
                ),
            )
        }),
{
    let data = Some(Json::Object(fields));
    let known = put_registry(key, data, registry);
    let after = put_cache(key, data, path, interval_secs, registry, cache, now);
    let e = stored_entry(fields, interval_secs, now);
    law_split_single(key, '.');
    lemma_stored_alone(key, fields, path, interval_secs, registry, cache, now);
    law_stored_data_is_read_at_once(plan_for(key, path, known), known, after, later);
    let one = seq![e];
    assert(one.drop_last() =~= Seq::<SourceEntryView>::empty());
    assert(one.last() == e);
    assert(merged_fields(Seq::<SourceEntryView>::empty()) == Map::<Seq<char>, Json>::empty());
    assert(merged_fields(one) =~= fields);
    assert(oldest_age(Seq::<SourceEntryView>::empty(), later) == 0);
    assert(oldest_age(one, later) == e.age_ms(later));
    let entry = EntryView { provider: key, path, sources: one };
    assert(entry.is_stale(later) == e.is_stale(later)) by {
        if e.is_stale(later) {
            assert(entry.sources[0].is_stale(later));
        }
    }
}

/// A read of a field path of stored data gives the value at that path.
pub proof fn law_get_field_after_put(
    key: Seq<char>,
    field: Seq<char>,
    fields: Map<Seq<char>, Json>,
    path: Option<Seq<char>>,
    interval_secs: Option<u64>,
    registry: RegistryView,
    cache: CacheView,
    now: u128,
    later: u128,
)
    requires
        in_keeping(registry, cache),
        cache.distinct(),
        !registry.is_real(key),
        !key.contains('.'),
        metadata_split(key + seq!['.'] + field).1 is None,
        path_lookup(fields, split_on(field, '.')) is Some,
    ensures
        ({
            let data = Some(Json::Object(fields));
            let known = put_registry(key, data, registry);
            let after = put_cache(key, data, path, interval_secs, registry, cache, now);
            lookup_view(
                plan_for(key + seq!['.'] + field, path, known),
                known,
                after,
                later,
            ) == StepView::Reply(
                ok_view(
                    path_lookup(fields, split_on(field, '.'))->0,
                    if later >= now {
                        (later - now) as u128
                    } else {
                        0
                    },
                    false,
                ),
            )
        }),
{
    let data = Some(Json::Object(fields));
    let known = put_registry(key, data, registry);
    let after = put_cache(key, data, path, interval_secs, registry, cache, now);
    let raw = key + seq!['.'] + field;
    lemma_field_key(key, field, known);
    lemma_stored_alone(key, fields, path, interval_secs, registry, cache, now);
    law_stored_data_is_read_at_once(plan_for(raw, path, known), known, after, later);
    assert(seq![stored_entry(fields, interval_secs, now)][0] == stored_entry(
        fields,
        interval_secs,
        now,
    ));
}

/// The form of a field key of a provider without sources.
proof fn lemma_field_key(key: Seq<char>, field: Seq<char>, registry: RegistryView)
    requires
        !registry.is_real(key),
        !key.contains('.'),
    ensures
        key_form(key + seq!['.'] + field, registry) == KeyView::Field(key, field),
{
    law_split_first(key, field, '.');
    law_split_pieces(field, '.');
    law_join_undoes_split(field, '.');
    let parts = split_on(key + seq!['.'] + field, '.');
    assert(parts.skip(1) =~= split_on(field, '.'));
    if parts.len() == 2 {
        assert(parts[1] == split_on(field, '.')[0]);
    }
}

/// What is stored without a path is read under any path that holds nothing of its
/// own.
pub proof fn law_stored_globally_is_read_anywhere(
    key: Seq<char>,
    path: Seq<char>,
    registry: RegistryView,
    cache: CacheView,
    now: u128,
)
    requires
        registry.is_virtual(key),
        !registry.is_real(key),
        plain_key(key),
        cache.entry(key, Some(path)) is None,
    ensures
        lookup_view(plan_for(key, Some(path), registry), registry, cache, now) == lookup_view(
            plan_for(key, None, registry),
            registry,
            cache,
            now,
        ),
{
    law_split_single(key, '.');
    law_stored_data_is_read_at_once(plan_for(key, Some(path), registry), registry, cache, now);
    law_stored_data_is_read_at_once(plan_for(key, None, registry), registry, cache, now);
}

/// Clearing empties the slot of the name and no other; the name stays known.
pub proof fn law_clear_empties_the_slot(
    key: Seq<char>,
    path: Option<Seq<char>>,
    registry: RegistryView,
    cache: CacheView,
    other: Seq<char>,
    other_path: Option<Seq<char>>,
    now: u128,
)
    requires
        cache.distinct(),
        !registry.is_real(key),
    ensures
        ({
            let after = put_cache(key, None, path, None, registry, cache, now);
            &&& after.entry(key, path) is None
            &&& other != key || other_path != path ==> after.entry(other, other_path)
                == cache.entry(other, other_path)
            &&& put_registry(key, None, registry) == registry
        }),
{
    law_without(cache, key, path, key, path);
    law_without(cache, key, path, other, other_path);
}

} // verus!
