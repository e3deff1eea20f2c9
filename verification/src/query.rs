//! Source-aware request planning: turns a raw request key plus an optional path
//! hint into a resolved [`QueryPlan`] (provider, effective path, parsed target,
//! metadata suffix, and the set of sources the query demands).
//!
//! This is the single place that understands key syntax. `Get` and `Watch` both
//! build a [`QueryPlan`] here so they share identical resolution semantics.

use vstd::prelude::*;

use crate::provider::{
    field_owners, source_views, ProviderRegistry, RegisteredSource, RegistryView, Source,
    SourceScope, SourceView,
};
use crate::text::{
    chars_of, copy_texts, join_text, join_with, last_index, law_join_undoes_split,
    law_split_pieces, lemma_join_first, one_text, opt_str, opt_text, owned, same_text, split_on,
    split_text, texts,
};

verus! {

/// The metadata suffixes that a key may carry after its last colon.
pub open spec fn known_suffix(meta: Seq<char>) -> bool {
    meta == "age"@ || meta == "stale"@ || meta == "fresh"@ || meta == "cache"@ || meta == "source"@
}

/// A key without its metadata suffix, and the suffix if it carries a known one.
pub open spec fn metadata_split(key: Seq<char>) -> (Seq<char>, Option<Seq<char>>) {
    let colon = last_index(key, ':');
    if colon >= 0 && known_suffix(key.skip(colon + 1)) {
        (key.take(colon), Some(key.skip(colon + 1)))
    } else {
        (key, None)
    }
}

/// Whether `meta` is one of the metadata suffixes the server answers.
pub fn is_known_suffix(meta: &str) -> (known: bool)
    ensures
        known == known_suffix(meta@),
{
    same_text(meta, "age") || same_text(meta, "stale") || same_text(meta, "fresh") || same_text(
        meta,
        "cache",
    ) || same_text(meta, "source")
}

/// Parses a metadata suffix from a key: `git.branch:fresh` gives
/// `("git.branch", Some("fresh"))`. Only known suffixes are stripped; anything
/// else passes through as part of the key. Splitting must run before the key is
/// parsed so that fields and suffixes are told apart.
pub fn split_metadata_suffix(key: &str) -> (split: (&str, Option<&str>))
    ensures
        split.0@ == metadata_split(key@).0,
        opt_str(split.1) == metadata_split(key@).1,
{
    let chars = chars_of(key);
    let mut n: usize = chars.len();
    assert(key@.take(n as int) =~= key@);
    while n > 0
        invariant
            n <= key@.len(),
            chars@ == key@,
            last_index(key@, ':') == last_index(key@.take(n as int), ':'),
        decreases n,
    {
        assert(key@.take(n as int).drop_last() =~= key@.take(n - 1));
        if chars[n - 1] == ':' {
            let base = key.substring_char(0, n - 1);
            let meta = key.substring_char(n, chars.len());
            assert(base@ =~= key@.take(n - 1));
            assert(meta@ =~= key@.skip(n as int));
            if is_known_suffix(meta) {
                return (base, Some(meta));
            }
            return (key, None);
        }
        n -= 1;
    }
    (key, None)
}

/// A request key in one of its four forms.
#[derive(Debug, Clone, PartialEq, Eq)]
pub enum KeyParse {
    /// `provider`
    Provider(String),
    /// `provider.field`, where the second part is not a registered source
    Field(String, String),
    /// `provider.source`, where the second part is a registered source
    Source(String, String),
    /// `provider.source.field`
    SourceField(String, String, String),
}

/// The mathematical content of a [`KeyParse`].
pub enum KeyView {
    Provider(Seq<char>),
    Field(Seq<char>, Seq<char>),
    Source(Seq<char>, Seq<char>),
    SourceField(Seq<char>, Seq<char>, Seq<char>),
}

impl View for KeyParse {
    type V = KeyView;

    open spec fn view(&self) -> KeyView {
        match self {
            KeyParse::Provider(p) => KeyView::Provider(p@),
            KeyParse::Field(p, f) => KeyView::Field(p@, f@),
            KeyParse::Source(p, s) => KeyView::Source(p@, s@),
            KeyParse::SourceField(p, s, f) => KeyView::SourceField(p@, s@, f@),
        }
    }
}

impl KeyView {
    pub open spec fn provider(self) -> Seq<char> {
        match self {
            KeyView::Provider(p) => p,
            KeyView::Field(p, _) => p,
            KeyView::Source(p, _) => p,
            KeyView::SourceField(p, _, _) => p,
        }
    }

    /// The key that the target stands for.
    pub open spec fn dotted(self) -> Seq<char> {
        match self {
            KeyView::Provider(p) => p,
            KeyView::Field(p, f) => p + seq!['.'] + f,
            KeyView::Source(p, s) => p + seq!['.'] + s,
            KeyView::SourceField(p, s, f) => p + seq!['.'] + s + seq!['.'] + f,
        }
    }
}

/// The form of a key. A second segment that names a source of the provider is
/// that source; otherwise it begins a field path.
pub open spec fn key_form(key: Seq<char>, registry: RegistryView) -> KeyView {
    let parts = split_on(key, '.');
    if parts.len() == 1 {
        KeyView::Provider(parts[0])
    } else if parts.len() == 2 {
        if registry.has_source(parts[0], parts[1]) {
            KeyView::Source(parts[0], parts[1])
        } else {
            KeyView::Field(parts[0], parts[1])
        }
    } else if registry.has_source(parts[0], parts[1]) {
        KeyView::SourceField(parts[0], parts[1], join_with(parts.skip(2), seq!['.']))
    } else {
        KeyView::Field(parts[0], join_with(parts.skip(1), seq!['.']))
    }
}

/// Parses a key, telling sources from fields by the registry. A source name
/// takes precedence over a field name. For a key `p.s.f` of three or more
/// segments: if `s` is a source of `p` this addresses field path `f` of that
/// source; otherwise `s.f` is a path into the field `s`.
pub fn parse_key<S>(key: &str, registry: &ProviderRegistry<S>) -> (target: KeyParse)
    ensures
        target@ == key_form(key@, registry@),
{
    let parts = split_text(key, '.');
    proof {
        reveal_strlit(".");
        assert("."@ =~= seq!['.']);
        let all = texts(parts@);
        assert forall|i: int| 0 <= i < all.len() implies all[i] == parts@[i]@ by {}
    }
    let provider = parts[0].clone();
    if parts.len() == 1 {
        return KeyParse::Provider(provider);
    }
    let second = parts[1].clone();
    let is_source = registry.source(provider.as_str(), second.as_str()).is_some();
    if parts.len() == 2 {
        if is_source {
            KeyParse::Source(provider, second)
        } else {
            KeyParse::Field(provider, second)
        }
    } else if is_source {
        KeyParse::SourceField(provider, second, join_text(&parts, 2, "."))
    } else {
        KeyParse::Field(provider, join_text(&parts, 1, "."))
    }
}

/// What a source's running side may answer when asked for the canonical form of
/// a path.
pub open spec fn may_answer<S: Source>(handle: S, path: Seq<char>, answer: Option<String>) -> bool {
    exists|p: &str|
        p@ == path && #[trigger] call_ensures(S::canonical_path, (&handle, Some(p)), answer)
}

/// The path that an answer settles on: the answer, or the path itself when there
/// is none.
pub open spec fn settled_path(path: Seq<char>, answer: Option<Seq<char>>) -> Seq<char> {
    match answer {
        Some(root) => root,
        None => path,
    }
}

/// Settles the path of a request from what the asked source answered.
pub fn choose_root(path: &str, answer: Option<String>) -> (root: String)
    ensures
        root@ == settled_path(path@, opt_text(answer)),
{
    match answer {
        Some(root) => root,
        None => path.to_owned(),
    }
}

/// Whether `k` is the index of the first path-scoped source.
pub open spec fn first_path_scoped(sources: Seq<SourceView>, k: int) -> bool {
    &&& 0 <= k < sources.len()
    &&& sources[k].scope == SourceScope::PathScoped
    &&& forall|j: int|
        0 <= j < k ==> (#[trigger] sources[j]).scope != SourceScope::PathScoped
}

/// The path a request asks for: its canonical form where the file system gave
/// one, and the path as written where it did not.
pub open spec fn hinted_path(
    requested: Option<Seq<char>>,
    canonical: Option<Seq<char>>,
) -> Option<Seq<char>> {
    match (requested, canonical) {
        (Some(_), Some(c)) => Some(c),
        (Some(p), None) => Some(p),
        (None, _) => None,
    }
}

/// The path a request asks for, given what canonicalising it gave.
pub fn path_or_canonical(requested: Option<&str>, canonical: Option<&str>) -> (path: Option<String>)
    ensures
        opt_text(path) == hinted_path(opt_str(requested), opt_str(canonical)),
{
    match (requested, canonical) {
        (Some(_), Some(c)) => Some(c.to_owned()),
        (Some(p), None) => Some(p.to_owned()),
        (None, _) => None,
    }
}

/// Whether a request for `key` with the path `asked` may resolve to `resolved`.
/// Stored data keeps the path as it is. A provider without path-scoped sources
/// takes no path. For any other, the first path-scoped source is asked for the
/// canonical form of the path; if it has none, the path stays as it is.
pub open spec fn may_resolve<S: Source>(
    key: Seq<char>,
    asked: Option<Seq<char>>,
    registry: ProviderRegistry<S>,
    resolved: Option<Seq<char>>,
) -> bool {
    let provider = split_on(key, '.')[0];
    if registry@.is_virtual(provider) {
        resolved == asked
    } else if !registry@.any_path_scoped(provider) {
        resolved is None
    } else {
        match asked {
            None => resolved is None,
            Some(path) => exists|k: int, answer: Option<String>|
                {
                    &&& #[trigger] first_path_scoped(registry@.providers[provider], k)
                    &&& #[trigger] may_answer(
                        registry.registered(provider)[k].handle,
                        path,
                        answer,
                    )
                    &&& resolved == Some(settled_path(path, opt_text(answer)))
                },
        }
    }
}

/// The index of the first source that depends on a path.
fn find_path_scoped<S>(sources: &Vec<RegisteredSource<S>>) -> (found: Option<usize>)
    ensures
        found matches Some(k) ==> first_path_scoped(source_views(sources@), k as int),
        found is None ==> forall|j: int|
            0 <= j < source_views(sources@).len() ==> (#[trigger] source_views(sources@)[j]).scope
                != SourceScope::PathScoped,
{
    let mut i: usize = 0;
    while i < sources.len()
        invariant
            i <= sources@.len(),
            forall|j: int|
                0 <= j < i ==> (#[trigger] source_views(sources@)[j]).scope
                    != SourceScope::PathScoped,
        decreases sources@.len() - i,
    {
        assert(source_views(sources@)[i as int] == sources@[i as int]@);
        if sources[i].meta.scope == SourceScope::PathScoped {
            return Some(i);
        }
        i += 1;
    }
    None
}

/// Whether any of the sources depends on a path.
pub fn has_path_scoped<S>(sources: &Vec<RegisteredSource<S>>) -> (found: bool)
    ensures
        found == exists|i: int|
            0 <= i < source_views(sources@).len() && (#[trigger] source_views(sources@)[i]).scope
                == SourceScope::PathScoped,
{
    find_path_scoped(sources).is_some()
}

/// Resolves the effective path for a request. If any source of the provider is
/// path-scoped, the requested path is used, in its canonical form (`canonical`
/// is what the file system made of it, if anything), and the first path-scoped
/// source may replace it, such as by the root of the project it lies in. If
/// all sources are global, or the provider is unknown, there is no path.
///
/// Stored data declares no sources but can lie under a path, so for it the path
/// is passed on.
pub fn resolve_path<S: Source>(
    key: &str,
    requested_path: Option<&str>,
    canonical: Option<&str>,
    registry: &ProviderRegistry<S>,
) -> (resolved: Option<String>)
    ensures
        may_resolve(
            key@,
            hinted_path(opt_str(requested_path), opt_str(canonical)),
            *registry,
            opt_text(resolved),
        ),
{
    let parts = split_text(key, '.');
    assert(texts(parts@)[0] == parts@[0]@);
    let provider = parts[0].as_str();
    let asked = path_or_canonical(requested_path, canonical);
    if registry.is_virtual(provider) {
        return asked;
    }
    match registry.provider_sources(provider) {
        Some(sources) => match (find_path_scoped(sources), asked) {
            (Some(k), Some(path)) => {
                let answer = sources[k].handle.canonical_path(Some(path.as_str()));
                assert(may_answer(sources@[k as int].handle, path@, answer));
                Some(choose_root(path.as_str(), answer))
            },
            _ => None,
        },
        None => None,
    }
}

/// Which sources a query demands warming for.
///
/// `Sources` of an empty list means "warm nothing", as for an unknown field, and
/// is distinct from `All`.
#[derive(Debug, Clone, PartialEq, Eq)]
pub enum SourceDemand {
    /// Whole-provider query: warm every applicable source.
    All,
    /// Field or source query: warm only these sources.
    Sources(Vec<String>),
}

/// The mathematical content of a [`SourceDemand`].
pub enum DemandView {
    All,
    Sources(Seq<Seq<char>>),
}

impl View for SourceDemand {
    type V = DemandView;

    open spec fn view(&self) -> DemandView {
        match self {
            SourceDemand::All => DemandView::All,
            SourceDemand::Sources(names) => DemandView::Sources(texts(names@)),
        }
    }
}

impl SourceDemand {
    /// A copy of the demand.
    pub fn copy(&self) -> (out: SourceDemand)
        ensures
            out@ == self@,
    {
        match self {
            SourceDemand::All => SourceDemand::All,
            SourceDemand::Sources(names) => SourceDemand::Sources(copy_texts(names)),
        }
    }
}

/// The top-level field of a field path.
pub open spec fn path_head(field: Seq<char>) -> Seq<char> {
    split_on(field, '.')[0]
}

/// The sources that a query for `target` demands. A field is owned by whoever
/// owns the top-level field of its path.
pub open spec fn demanded(target: KeyView, registry: RegistryView) -> DemandView {
    match target {
        KeyView::Provider(_) => DemandView::All,
        KeyView::Source(_, s) => DemandView::Sources(seq![s]),
        KeyView::SourceField(_, s, _) => DemandView::Sources(seq![s]),
        KeyView::Field(p, f) => DemandView::Sources(registry.owners(p, path_head(f))),
    }
}

/// The top-level field of a field path.
pub fn head_of(field: &str) -> (head: String)
    ensures
        head@ == path_head(field@),
{
    let parts = split_text(field, '.');
    assert(texts(parts@)[0] == parts@[0]@);
    parts[0].clone()
}

/// A resolved, source-aware request. Built once per request and consumed by
/// both `Get` and `Watch` so they share identical resolution semantics.
#[derive(Debug, Clone)]
pub struct QueryPlan {
    pub provider: String,
    pub effective_path: Option<String>,
    pub target: KeyParse,
    pub meta: Option<String>,
    pub demand: SourceDemand,
}

/// The mathematical content of a [`QueryPlan`].
pub struct PlanView {
    pub provider: Seq<char>,
    pub effective_path: Option<Seq<char>>,
    pub target: KeyView,
    pub meta: Option<Seq<char>>,
    pub demand: DemandView,
}

impl View for QueryPlan {
    type V = PlanView;

    open spec fn view(&self) -> PlanView {
        PlanView {
            provider: self.provider@,
            effective_path: opt_text(self.effective_path),
            target: self.target@,
            meta: opt_text(self.meta),
            demand: self.demand@,
        }
    }
}

/// The plan for a raw key whose path resolved to `path`.
pub open spec fn plan_for(
    raw_key: Seq<char>,
    path: Option<Seq<char>>,
    registry: RegistryView,
) -> PlanView {
    let target = key_form(metadata_split(raw_key).0, registry);
    PlanView {
        provider: target.provider(),
        effective_path: path,
        target,
        meta: metadata_split(raw_key).1,
        demand: demanded(target, registry),
    }
}

impl QueryPlan {
    /// Resolves a raw request key and an optional path hint into a plan. The key
    /// may carry a metadata suffix, as in `git.branch:fresh`; `canonical` is what
    /// the file system made of the hint, if anything.
    pub fn build<S: Source>(
        raw_key: &str,
        path_hint: Option<&str>,
        canonical: Option<&str>,
        registry: &ProviderRegistry<S>,
    ) -> (plan: QueryPlan)
        ensures
            plan@ == plan_for(raw_key@, opt_text(plan.effective_path), registry@),
            may_resolve(
                metadata_split(raw_key@).0,
                hinted_path(opt_str(path_hint), opt_str(canonical)),
                *registry,
                opt_text(plan.effective_path),
            ),
    {
        let (stripped_key, meta) = split_metadata_suffix(raw_key);
        let effective_path = resolve_path(stripped_key, path_hint, canonical, registry);
        QueryPlan::of_path(stripped_key, meta, effective_path, registry)
    }

    /// The plan for a key that is already split from its metadata suffix, with
    /// the path it resolved to.
    pub fn of_path<S>(
        stripped_key: &str,
        meta: Option<&str>,
        effective_path: Option<String>,
        registry: &ProviderRegistry<S>,
    ) -> (plan: QueryPlan)
        ensures
            plan.effective_path == effective_path,
            plan@ == (PlanView {
                provider: key_form(stripped_key@, registry@).provider(),
                effective_path: opt_text(effective_path),
                target: key_form(stripped_key@, registry@),
                meta: opt_str(meta),
                demand: demanded(key_form(stripped_key@, registry@), registry@),
            }),
    {
        let target = parse_key(stripped_key, registry);
        let provider = match &target {
            KeyParse::Provider(p) => p.clone(),
            KeyParse::Field(p, _) => p.clone(),
            KeyParse::Source(p, _) => p.clone(),
            KeyParse::SourceField(p, _, _) => p.clone(),
        };
        let demand = match &target {
            KeyParse::Provider(_) => SourceDemand::All,
            KeyParse::Source(_, s) => SourceDemand::Sources(one_text(s)),
            KeyParse::SourceField(_, s, _) => SourceDemand::Sources(one_text(s)),
            KeyParse::Field(p, f) => {
                let head = head_of(f.as_str());
                SourceDemand::Sources(registry.sources_for_field(p.as_str(), head.as_str()))
            },
        };
        QueryPlan { provider, effective_path, target, meta: owned(meta), demand }
    }
}

proof fn lemma_last_index(s: Seq<char>, c: char)
    ensures
        -1 <= last_index(s, c) < s.len(),
        last_index(s, c) >= 0 ==> s[last_index(s, c)] == c,
        forall|i: int| last_index(s, c) < i < s.len() ==> s[i] != c,
    decreases s.len(),
{
    if s.len() > 0 && s.last() != c {
        lemma_last_index(s.drop_last(), c);
        assert forall|i: int| last_index(s, c) < i < s.len() implies s[i] != c by {
            if i < s.len() - 1 {
                assert(s.drop_last()[i] == s[i]);
            }
        }
    }
}

/// Splitting takes nothing away: a key is its base, a colon and its suffix, and
/// only a known suffix is ever split off.
pub proof fn law_split_keeps_the_key(key: Seq<char>)
    ensures
        match metadata_split(key).1 {
            Some(meta) => known_suffix(meta) && key == metadata_split(key).0 + seq![':'] + meta,
            None => metadata_split(key).0 == key,
        },
{
    lemma_last_index(key, ':');
    let colon = last_index(key, ':');
    if colon >= 0 {
        assert(key =~= key.take(colon) + seq![':'] + key.skip(colon + 1));
    }
}

proof fn lemma_suffix_has_no_colon(meta: Seq<char>)
    requires
        known_suffix(meta),
    ensures
        !meta.contains(':'),
{
    reveal_strlit("age");
    reveal_strlit("stale");
    reveal_strlit("fresh");
    reveal_strlit("cache");
    reveal_strlit("source");
}

/// A known suffix behind a colon is always split off.
pub proof fn law_known_suffix_is_split(base: Seq<char>, meta: Seq<char>)
    requires
        known_suffix(meta),
    ensures
        metadata_split(base + seq![':'] + meta) == (base, Some(meta)),
{
    let key = base + seq![':'] + meta;
    lemma_suffix_has_no_colon(meta);
    lemma_last_index(key, ':');
    let colon = last_index(key, ':');
    assert(key[base.len() as int] == ':');
    if colon > base.len() {
        assert(key[colon] == meta[colon - base.len() - 1]);
        assert(meta.contains(':'));
    }
    assert(colon == base.len());
    assert(key.take(colon) =~= base);
    assert(key.skip(colon + 1) =~= meta);
}

/// Parsing loses nothing: the parts of a parsed key with dots between them are the
/// key. Its provider is the part before the first dot.
pub proof fn law_parse_keeps_the_key(key: Seq<char>, registry: RegistryView)
    ensures
        match key_form(key, registry) {
            KeyView::Provider(p) => key == p && !p.contains('.'),
            KeyView::Field(p, f) => key == p + seq!['.'] + f && !p.contains('.'),
            KeyView::Source(p, s) => key == p + seq!['.'] + s && !p.contains('.') && !s.contains(
                '.',
            ),
            KeyView::SourceField(p, s, f) => key == p + seq!['.'] + s + seq!['.'] + f
                && !p.contains('.') && !s.contains('.'),
        },
        key_form(key, registry).dotted() == key,
        key_form(key, registry).provider() == split_on(key, '.')[0],
{
    let parts = split_on(key, '.');
    law_split_pieces(key, '.');
    law_join_undoes_split(key, '.');
    if parts.len() >= 2 {
        lemma_join_first(parts, seq!['.']);
        let rest = parts.skip(1);
        assert(rest[0] == parts[1]);
        if parts.len() >= 3 {
            lemma_join_first(rest, seq!['.']);
            assert(rest.skip(1) =~= parts.skip(2));
            assert(key_form(key, registry).dotted() =~= key);
        }
    }
}

/// A source name takes precedence over a field name: the second segment of a key
/// is a source exactly if the provider has a source of that name.
pub proof fn law_source_name_wins(key: Seq<char>, registry: RegistryView)
    requires
        split_on(key, '.').len() >= 2,
    ensures
        ({
            let parts = split_on(key, '.');
            let target = key_form(key, registry);
            if registry.source(parts[0], parts[1]) is Some {
                ||| target == KeyView::Source(parts[0], parts[1])
                ||| target matches KeyView::SourceField(p, s, _) && p == parts[0] && s == parts[1]
            } else {
                target is Field
            }
        }),
{
}

/// Without the registry's help a field is never taken for a source: a provider
/// that is not registered has fields only.
pub proof fn law_unknown_provider_has_no_sources(key: Seq<char>, registry: RegistryView)
    requires
        !registry.is_real(split_on(key, '.')[0]),
    ensures
        key_form(key, registry) is Provider || key_form(key, registry) is Field,
{
}

/// Everything is demanded for a whole provider only. A source is demanded for
/// itself and its fields, and a field demands those of its provider's sources that
/// declare its top-level field, or, if none does, those without a schema.
pub proof fn law_demand_is_owned(target: KeyView, registry: RegistryView)
    ensures
        demanded(target, registry) is All <==> target is Provider,
        target matches KeyView::Source(_, s) ==> demanded(target, registry) == DemandView::Sources(
            seq![s],
        ),
        target matches KeyView::SourceField(_, s, _) ==> demanded(target, registry)
            == DemandView::Sources(seq![s]),
        target matches KeyView::Field(p, f) ==> {
            &&& !registry.is_real(p) ==> demanded(target, registry) == DemandView::Sources(
                Seq::empty(),
            )
            &&& forall|i: int|
                0 <= i < demanded(target, registry)->Sources_0.len() ==> is_owner(
                    registry.providers[p],
                    path_head(f),
                    #[trigger] demanded(target, registry)->Sources_0[i],
                )
        },
{
    if let KeyView::Field(p, f) = target {
        if registry.is_real(p) {
            lemma_owners(registry.providers[p], path_head(f));
        }
    }
}

/// Whether the source `name` may own `field`: it declares it, or has no schema
/// while no source declares it.
pub open spec fn is_owner(sources: Seq<SourceView>, field: Seq<char>, name: Seq<char>) -> bool {
    exists|i: int|
        0 <= i < sources.len() && (#[trigger] sources[i]).name == name && (sources[i].declares(
            field,
        ) || (sources[i].is_dynamic() && forall|j: int|
            0 <= j < sources.len() ==> !(#[trigger] sources[j]).declares(field)))
}

proof fn lemma_owners(sources: Seq<SourceView>, field: Seq<char>)
    ensures
        forall|i: int|
            0 <= i < field_owners(sources, field).len() ==> is_owner(
                sources,
                field,
                #[trigger] field_owners(sources, field)[i],
            ),
{
    broadcast use vstd::seq_lib::group_filter_ensures;

    let declares = |s: SourceView| s.declares(field);
    let dynamic = |s: SourceView| s.is_dynamic();
    let declaring = sources.filter(declares);
    let open = sources.filter(dynamic);
    assert forall|i: int| 0 <= i < field_owners(sources, field).len() implies is_owner(
        sources,
        field,
        #[trigger] field_owners(sources, field)[i],
    ) by {
        if declaring.len() > 0 {
            sources.lemma_filter_contains_rev(declares, declaring[i]);
            let k = choose|k: int| 0 <= k < sources.len() && sources[k] == declaring[i];
            assert(declares(declaring[i]));
            assert(sources[k].name == field_owners(sources, field)[i]);
        } else {
            sources.lemma_filter_contains_rev(dynamic, open[i]);
            let k = choose|k: int| 0 <= k < sources.len() && sources[k] == open[i];
            assert(dynamic(open[i]));
            assert(sources[k].name == field_owners(sources, field)[i]);
            assert forall|j: int| 0 <= j < sources.len() implies !(#[trigger]
                sources[j]).declares(field) by {
                if sources[j].declares(field) {
                    assert(declares(sources[j]));
                    assert(declaring.contains(sources[j]));
                }
            }
        }
    }
}

/// A field that no source declares demands nothing if every source has a schema.
pub proof fn law_unknown_field_demands_nothing(p: Seq<char>, f: Seq<char>, registry: RegistryView)
    requires
        registry.is_real(p) ==> forall|i: int|
            0 <= i < registry.providers[p].len() ==> !(
            #[trigger] registry.providers[p][i]).is_dynamic()
                && !registry.providers[p][i].declares(path_head(f)),
    ensures
        demanded(KeyView::Field(p, f), registry) == DemandView::Sources(Seq::empty()),
{
    if registry.is_real(p) {
        lemma_owners(registry.providers[p], path_head(f));
        let owners = field_owners(registry.providers[p], path_head(f));
        if owners.len() > 0 {
            assert(is_owner(registry.providers[p], path_head(f), owners[0]));
        }
        assert(owners =~= Seq::<Seq<char>>::empty());
    }
}

/// A metadata suffix changes nothing but the form of the answer: the plan is that
/// of the key without it.
pub proof fn law_suffix_keeps_the_plan(
    base: Seq<char>,
    meta: Seq<char>,
    path: Option<Seq<char>>,
    registry: RegistryView,
)
    requires
        known_suffix(meta),
        metadata_split(base).1 is None,
    ensures
        plan_for(base + seq![':'] + meta, path, registry) == (PlanView {
            meta: Some(meta),
            ..plan_for(base, path, registry)
        }),
{
    law_known_suffix_is_split(base, meta);
}

/// Which path a request ends up with: none for an unknown provider or one whose
/// sources are all global, the asked one for stored data, and none where none was
/// asked for.
pub proof fn law_resolved_path<S: Source>(
    key: Seq<char>,
    asked: Option<Seq<char>>,
    registry: ProviderRegistry<S>,
    resolved: Option<Seq<char>>,
)
    requires
        may_resolve(key, asked, registry, resolved),
    ensures
        ({
            let provider = split_on(key, '.')[0];
            &&& registry@.is_virtual(provider) ==> resolved == asked
            &&& !registry@.is_virtual(provider) && !registry@.any_path_scoped(provider)
                ==> resolved is None
            &&& asked is None ==> resolved is None
            &&& asked is Some && registry@.any_path_scoped(provider) ==> resolved is Some
        }),
{
}

/// The first path-scoped source of a provider alone decides what an asked path
/// resolves to: its answer, or the path itself if it has none. What the sources
/// after it would answer does not matter.
pub proof fn law_first_path_scoped_source_decides<S: Source>(
    key: Seq<char>,
    path: Seq<char>,
    registry: ProviderRegistry<S>,
    resolved: Option<Seq<char>>,
    k: int,
)
    requires
        may_resolve(key, Some(path), registry, resolved),
        registry@.is_real(split_on(key, '.')[0]),
        !registry@.is_virtual(split_on(key, '.')[0]),
        0 <= k < registry@.providers[split_on(key, '.')[0]].len(),
        registry@.providers[split_on(key, '.')[0]][k].scope == SourceScope::PathScoped,
        forall|j: int|
            0 <= j < k ==> (#[trigger] registry@.providers[split_on(key, '.')[0]][j]).scope
                == SourceScope::Global,
    ensures
        exists|asked: &str, answer: Option<String>|
            {
                &&& asked@ == path
                &&& #[trigger] call_ensures(
                    S::canonical_path,
                    (&registry.registered(split_on(key, '.')[0])[k].handle, Some(asked)),
                    answer,
                )
                &&& resolved == match answer {
                    Some(root) => Some(root@),
                    None => Some(path),
                }
            },
{
    let provider = split_on(key, '.')[0];
    let (n, answer) = choose|n: int, answer: Option<String>|
        {
            &&& #[trigger] first_path_scoped(registry@.providers[provider], n)
            &&& #[trigger] may_answer(registry.registered(provider)[n].handle, path, answer)
            &&& resolved == Some(settled_path(path, opt_text(answer)))
        };
    assert(n == k);
    let asked = choose|asked: &str|
        asked@ == path && #[trigger] call_ensures(
            S::canonical_path,
            (&registry.registered(provider)[k].handle, Some(asked)),
            answer,
        );
}

/// The top-level field of a field path is the path up to its first dot.
pub proof fn law_head_of_a_path(field: Seq<char>)
    ensures
        !path_head(field).contains('.'),
        !field.contains('.') ==> path_head(field) == field,
        field.contains('.') ==> exists|rest: Seq<char>|
            field == #[trigger] (path_head(field) + seq!['.'] + rest),
{
    law_split_pieces(field, '.');
    law_join_undoes_split(field, '.');
    let parts = split_on(field, '.');
    if parts.len() >= 2 {
        lemma_join_first(parts, seq!['.']);
        let rest = join_with(parts.skip(1), seq!['.']);
        assert(field == path_head(field) + seq!['.'] + rest);
        assert(field[path_head(field).len() as int] == '.');
    } else {
        assert(field == path_head(field));
    }
}

/// A field demands exactly the sources that may own its top-level field, however
/// long its path is.
pub proof fn law_field_demands_every_owner(
    p: Seq<char>,
    f: Seq<char>,
    registry: RegistryView,
    name: Seq<char>,
)
    ensures
        demanded(KeyView::Field(p, f), registry) matches DemandView::Sources(names) && (
        names.contains(name) <==> registry.owners(p, split_on(f, '.')[0]).contains(name)),
{
}

/// A plan is for the key without its suffix, at the path it is made for.
pub proof fn law_plan_of_a_key(
    raw_key: Seq<char>,
    path: Option<Seq<char>>,
    registry: RegistryView,
)
    ensures
        ({
            let plan = plan_for(raw_key, path, registry);
            &&& plan.effective_path == path
            &&& plan.target == key_form(metadata_split(raw_key).0, registry)
            &&& plan.meta == metadata_split(raw_key).1
            &&& plan.provider == split_on(metadata_split(raw_key).0, '.')[0]
            &&& plan.target matches KeyView::Provider(_) ==> plan.demand is All
            &&& plan.target matches KeyView::Source(_, s) ==> plan.demand == DemandView::Sources(
                seq![s],
            )
            &&& plan.target matches KeyView::SourceField(_, s, _) ==> plan.demand
                == DemandView::Sources(seq![s])
            &&& plan.target matches KeyView::Field(p, f) ==> plan.demand == DemandView::Sources(
                registry.owners(p, split_on(f, '.')[0]),
            )
        }),
{
    law_parse_keeps_the_key(metadata_split(raw_key).0, registry);
}

/// A plan, a key and a demand say what their members say.
pub proof fn law_plan_is_known_by_its_members(plan: QueryPlan)
    ensures
        plan@.provider == plan.provider@,
        plan@.effective_path == match plan.effective_path {
            Some(p) => Some(p@),
            None => None,
        },
        plan@.meta == match plan.meta {
            Some(m) => Some(m@),
            None => None,
        },
        plan@.target == match plan.target {
            KeyParse::Provider(p) => KeyView::Provider(p@),
            KeyParse::Field(p, f) => KeyView::Field(p@, f@),
            KeyParse::Source(p, s) => KeyView::Source(p@, s@),
            KeyParse::SourceField(p, s, f) => KeyView::SourceField(p@, s@, f@),
        },
        plan.demand is All <==> plan@.demand is All,
        plan.demand matches SourceDemand::Sources(names) ==> plan@.demand
            matches DemandView::Sources(shown) && shown.len() == names@.len() && forall|i: int|
            0 <= i < shown.len() ==> #[trigger] shown[i] == names@[i]@,
        plan@.target.provider() == match plan.target {
            KeyParse::Provider(p) => p@,
            KeyParse::Field(p, _) => p@,
            KeyParse::Source(p, _) => p@,
            KeyParse::SourceField(p, _, _) => p@,
        },
{
}

/// The path that a request is for: what canonicalising its path gave, or the path as
/// written if that gave nothing; without a path none.
pub proof fn law_asked_path(requested: Option<Seq<char>>, canonical: Option<Seq<char>>)
    ensures
        requested is None ==> hinted_path(requested, canonical) is None,
        requested is Some && canonical is Some ==> hinted_path(requested, canonical) == canonical,
        requested is Some && canonical is None ==> hinted_path(requested, canonical) == requested,
{
}

/// A path resolves without asking any source unless the provider is registered with
/// a path-scoped one: stored data keeps the path it is asked with, and anything else
/// has none. Stated over the registry's own tables.
pub proof fn law_path_without_sources<S: Source>(
    key: Seq<char>,
    asked: Option<Seq<char>>,
    registry: ProviderRegistry<S>,
    resolved: Option<Seq<char>>,
)
    requires
        may_resolve(key, asked, registry, resolved),
        ({
            let p = split_on(key, '.')[0];
            registry@.virtuals.contains(p) || asked is None || !registry@.providers.contains_key(p)
                || forall|i: int|
                0 <= i < registry@.providers[p].len() ==> (
                #[trigger] registry@.providers[p][i]).scope == SourceScope::Global
        }),
    ensures
        resolved == if registry@.virtuals.contains(split_on(key, '.')[0]) {
            asked
        } else {
            None
        },
{
}

} // verus!
