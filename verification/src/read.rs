//! Reading the cache: what a parsed key finds in one slot.

use vstd::prelude::*;

use crate::cache::{
    elapsed, elapsed_ms, find_in_sources, law_field_comes_from_its_first_holder,
    law_slot_is_found, merged_fields, Cache, CacheView,
};
use crate::protocol::{done_view, error_view, ok_view, Response, ResponseView};
use crate::query::{head_of, path_head, KeyParse, KeyView};
use crate::text::{chars_of, opt_str, split_on};
use crate::value::{clone_fields, lookup_path, path_lookup, Json, Value};

verus! {

/// The message about a field that its provider does not have.
pub open spec fn unknown_field(target: KeyView) -> Seq<char> {
    "unknown field: "@ + target.dotted()
}

/// Whether the slot holds what `target` is read from: the field, the source, or
/// the entry as a whole.
pub open spec fn is_cached(cache: CacheView, target: KeyView, path: Option<Seq<char>>) -> bool {
    match target {
        KeyView::Field(p, f) => cache.field(p, path, f) is Some,
        KeyView::Source(p, s) => cache.source(p, path, s) is Some,
        KeyView::SourceField(p, s, _) => cache.source(p, path, s) is Some,
        KeyView::Provider(p) => cache.entry(p, path) is Some,
    }
}

/// What `target` reads as in the slot at `path`. A field carries the age of the
/// source that owns it. A path that leads past a cached top-level field is an
/// unknown field; anything else that is not there is a miss.
pub open spec fn read_view(
    cache: CacheView,
    target: KeyView,
    path: Option<Seq<char>>,
    now: u128,
) -> ResponseView {
    match target {
        KeyView::Field(p, f) => match cache.field(p, path, f) {
            Some((value, refreshed)) => ok_view(value, elapsed_ms(refreshed, now), false),
            None => if f.contains('.') && cache.field(p, path, path_head(f)) is Some {
                error_view(unknown_field(target))
            } else {
                done_view()
            },
        },
        KeyView::Source(p, s) => match cache.source(p, path, s) {
            Some(src) => ok_view(Json::Object(src.fields), src.age_ms(now), src.is_stale(now)),
            None => done_view(),
        },
        KeyView::SourceField(p, s, f) => match cache.source(p, path, s) {
            Some(src) => match path_lookup(src.fields, split_on(f, '.')) {
                Some(value) => ok_view(value, src.age_ms(now), src.is_stale(now)),
                None => error_view(unknown_field(target)),
            },
            None => done_view(),
        },
        KeyView::Provider(p) => match cache.entry(p, path) {
            Some(entry) => ok_view(
                Json::Object(merged_fields(entry.sources)),
                entry.age_ms(now),
                entry.is_stale(now),
            ),
            None => done_view(),
        },
    }
}

fn has_char(s: &str, c: char) -> (found: bool)
    ensures
        found == s@.contains(c),
{
    let chars = chars_of(s);
    let mut i: usize = 0;
    while i < chars.len()
        invariant
            i <= chars@.len(),
            chars@ == s@,
            forall|j: int| 0 <= j < i ==> s@[j] != c,
        decreases chars@.len() - i,
    {
        if chars[i] == c {
            assert(s@[i as int] == c);
            return true;
        }
        i += 1;
    }
    false
}

/// Whether the slot holds what `target` is read from.
pub fn target_cached(cache: &Cache, target: &KeyParse, path: Option<&str>) -> (cached: bool)
    ensures
        cached == is_cached(cache@, target@, opt_str(path)),
{
    match target {
        KeyParse::Field(p, f) => cache.get_field(p.as_str(), path, f.as_str()).is_some(),
        KeyParse::Source(p, s) => cache.get_source(p.as_str(), path, s.as_str()).is_some(),
        KeyParse::SourceField(p, s, _) => cache.get_source(
            p.as_str(),
            path,
            s.as_str(),
        ).is_some(),
        KeyParse::Provider(p) => cache.has_entry(p.as_str(), path),
    }
}

/// Reads `target` from the slot at `path`, without running any source.
///
/// `Get` and `Watch` both answer from here, so that watching a key resolves as
/// getting it does.
pub fn read_watch_value(cache: &Cache, target: &KeyParse, path: Option<&str>, now: u128) -> (response:
    Response)
    ensures
        response@ == read_view(cache@, target@, opt_str(path), now),
{
    match target {
        KeyParse::Field(provider, field) => match cache.get_field(
            provider.as_str(),
            path,
            field.as_str(),
        ) {
            Some((value, refreshed)) => Response::ok(value.clone(), elapsed(refreshed, now), false),
            None => {
                let head = head_of(field.as_str());
                if has_char(field.as_str(), '.') && cache.get_field(
                    provider.as_str(),
                    path,
                    head.as_str(),
                ).is_some() {
                    Response::error(field_message(target))
                } else {
                    Response::miss()
                }
            },
        },
        KeyParse::Source(provider, source) => match cache.get_source(
            provider.as_str(),
            path,
            source.as_str(),
        ) {
            Some(src) => Response::ok(
                Value::Object(clone_fields(&src.fields)),
                src.age_ms(now),
                src.is_stale(now),
            ),
            None => Response::miss(),
        },
        KeyParse::SourceField(provider, source, field) => match cache.get_source(
            provider.as_str(),
            path,
            source.as_str(),
        ) {
            Some(src) => match lookup_path(&src.fields, field.as_str()) {
                Some(value) => Response::ok(value.clone(), src.age_ms(now), src.is_stale(now)),
                None => Response::error(field_message(target)),
            },
            None => Response::miss(),
        },
        KeyParse::Provider(provider) => match cache.get_entry(provider.as_str(), path) {
            Some(entry) => Response::ok(
                Value::Object(entry.flatten_fields()),
                entry.age_ms(now),
                entry.is_stale(now),
            ),
            None => Response::miss(),
        },
    }
}

fn field_message(target: &KeyParse) -> (message: String)
    ensures
        message@ == unknown_field(target@),
{
    proof {
        reveal_strlit(".");
        assert("."@ =~= seq!['.']);
    }
    let mut key = String::new();
    match target {
        KeyParse::Provider(p) => {
            key.append(p.as_str());
        },
        KeyParse::Field(p, f) => {
            key.append(p.as_str());
            key.append(".");
            key.append(f.as_str());
        },
        KeyParse::Source(p, s) => {
            key.append(p.as_str());
            key.append(".");
            key.append(s.as_str());
        },
        KeyParse::SourceField(p, s, f) => {
            key.append(p.as_str());
            key.append(".");
            key.append(s.as_str());
            key.append(".");
            key.append(f.as_str());
        },
    }
    assert(key@ =~= target@.dotted());
    let mut message = "unknown field: ".to_owned();
    message.append(key.as_str());
    message
}

/// A read fails only on an unknown field, and finds data only where the slot
/// holds what the key is read from; a read of what is cached never is a miss.
pub proof fn law_read_outcomes(cache: CacheView, target: KeyView, path: Option<Seq<char>>, now: u128)
    ensures
        ({
            let r = read_view(cache, target, path, now);
            &&& r.error is Some <==> !r.ok
            &&& r.error is Some ==> r == error_view(unknown_field(target))
            &&& r.data is Some ==> is_cached(cache, target, path)
            &&& is_cached(cache, target, path) ==> r.data is Some || r.error is Some
            &&& r == done_view() ==> !is_cached(cache, target, path)
        }),
{
}

/// What a read of a cached entry gives: of the provider all fields of its sources,
/// of a source its fields, and of a field path the value it leads to, each with its
/// own age. Only a source or the whole entry can be stale.
pub proof fn law_reads_give_what_is_cached(
    cache: CacheView,
    i: int,
    j: int,
    field: Seq<char>,
    now: u128,
)
    requires
        cache.distinct(),
        0 <= i < cache.entries.len(),
        0 <= j < cache.entries[i].sources.len(),
    ensures
        ({
            let e = cache.entries[i];
            let r = read_view(cache, KeyView::Provider(e.provider), e.path, now);
            &&& r.ok && r.error is None
            &&& r.data == Some(Json::Object(merged_fields(e.sources)))
            &&& r.age_ms == Some(e.age_ms(now))
            &&& r.stale == Some(e.is_stale(now))
        }),
        ({
            let e = cache.entries[i];
            let s = e.sources[j];
            let r = read_view(cache, KeyView::Source(e.provider, s.name), e.path, now);
            &&& r.ok && r.error is None
            &&& r.data == Some(Json::Object(s.fields))
            &&& r.age_ms == Some(s.age_ms(now))
            &&& r.stale == Some(s.is_stale(now))
        }),
        ({
            let e = cache.entries[i];
            let s = e.sources[j];
            let r = read_view(cache, KeyView::SourceField(e.provider, s.name, field), e.path, now);
            match path_lookup(s.fields, split_on(field, '.')) {
                Some(value) => {
                    &&& r.ok && r.error is None
                    &&& r.data == Some(value)
                    &&& r.age_ms == Some(s.age_ms(now))
                    &&& r.stale == Some(s.is_stale(now))
                },
                None => {
                    &&& !r.ok && r.data is None
                    &&& r.error == Some(
                        "unknown field: "@ + (e.provider + seq!['.'] + s.name + seq!['.'] + field),
                    )
                },
            }
        }),
        ({
            let e = cache.entries[i];
            let r = read_view(cache, KeyView::Field(e.provider, field), e.path, now);
            path_lookup(e.sources[j].fields, split_on(field, '.')) is Some && (forall|k: int|
                0 <= k < j ==> path_lookup(
                    (#[trigger] e.sources[k]).fields,
                    split_on(field, '.'),
                ) is None) ==> {
                &&& r.ok && r.error is None
                &&& r.data == path_lookup(e.sources[j].fields, split_on(field, '.'))
                &&& r.age_ms == Some(e.sources[j].age_ms(now))
                &&& r.stale == Some(false)
            }
        }),
{
    let e = cache.entries[i];
    law_slot_is_found(cache, e.provider, e.path, i, j, field);
    if path_lookup(e.sources[j].fields, split_on(field, '.')) is Some && (forall|k: int|
        0 <= k < j ==> path_lookup(
            (#[trigger] e.sources[k]).fields,
            split_on(field, '.'),
        ) is None) {
        law_field_comes_from_its_first_holder(e.sources, field);
        let (value, refreshed) = find_in_sources(e.sources, field)->0;
        let k = choose|k: int|
            {
                &&& 0 <= k < e.sources.len()
                &&& (#[trigger] e.sources[k]).refreshed_ms == refreshed
                &&& path_lookup(e.sources[k].fields, split_on(field, '.')) == Some(value)
                &&& forall|m: int|
                    0 <= m < k ==> path_lookup(
                        (#[trigger] e.sources[m]).fields,
                        split_on(field, '.'),
                    ) is None
            };
        assert(k == j);
    }
}

/// What is not cached is not made up: a field path that no cached source holds is a
/// miss, or an unknown field if it leads on from a field that is cached; a source
/// that is not cached is a miss, and so is any field of it.
pub proof fn law_reads_make_nothing_up(
    cache: CacheView,
    provider: Seq<char>,
    path: Option<Seq<char>>,
    name: Seq<char>,
    field: Seq<char>,
    now: u128,
)
    ensures
        cache.entry(provider, path) is None ==> read_view(
            cache,
            KeyView::Provider(provider),
            path,
            now,
        ) == done_view(),
        cache.source(provider, path, name) is None ==> read_view(
            cache,
            KeyView::Source(provider, name),
            path,
            now,
        ) == done_view(),
        cache.source(provider, path, name) is None ==> read_view(
            cache,
            KeyView::SourceField(provider, name, field),
            path,
            now,
        ) == done_view(),
        cache.field(provider, path, name) is None ==> ({
            let r = read_view(cache, KeyView::Field(provider, name), path, now);
            if name.contains('.') && cache.field(provider, path, split_on(name, '.')[0]) is Some {
                !r.ok && r.data is None && r.error == Some(
                    "unknown field: "@ + (provider + seq!['.'] + name),
                )
            } else {
                r == done_view()
            }
        }),
{
}

/// When a key counts as cached: a field if its path leads to a value, a source and
/// any field of it if the source is cached, and a provider if its slot is.
pub proof fn law_what_counts_as_cached(
    cache: CacheView,
    p: Seq<char>,
    s: Seq<char>,
    f: Seq<char>,
    path: Option<Seq<char>>,
)
    ensures
        is_cached(cache, KeyView::Field(p, f), path) <==> cache.field(p, path, f) is Some,
        is_cached(cache, KeyView::Source(p, s), path) <==> cache.source(p, path, s) is Some,
        is_cached(cache, KeyView::SourceField(p, s, f), path) <==> cache.source(
            p,
            path,
            s,
        ) is Some,
        is_cached(cache, KeyView::Provider(p), path) <==> cache.entry(p, path) is Some,
{
}

} // verus!
