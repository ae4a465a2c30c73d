//! The catalog of installed desktop applications: canonical ids, the
//! aliases by which windows and pins refer to them, and the ranked search
//! of the application picker.
use vstd::prelude::*;

use crate::model::opt_str_view;
use crate::order::{keys_view, is_stable_order, sorted_order, stable_order, SortKey};
use crate::pins::{pin_position, position_of, str_views, lemma_position_of_bounds};
use crate::text::{
    chars_eq, chars_of, contains, ends_with, has_infix, has_prefix, has_suffix, lowercased, dashed,
    replace_separators, starts_with, str_eq, string_from_chars, strip_suffixes, to_lowercase, trim,
    trim_end_matches, trimmed, concat_str, owned,
};

verus! {

broadcast use vstd::seq_lib::group_seq_properties, vstd::string::group_string_axioms;

// ---------------------------------------------------------------------------
// Keys
// ---------------------------------------------------------------------------

/// The suffix of desktop-entry ids.
pub open spec fn desktop_suffix() -> Seq<char> {
    seq!['.', 'd', 'e', 's', 'k', 't', 'o', 'p']
}

/// The lookup key of a name or id: trimmed, without trailing `.desktop`
/// suffixes, with `_` and spaces turned into `-`, in lowercase.
pub open spec fn normalized_key(s: Seq<char>) -> Seq<char> {
    lowercased(dashed(strip_suffixes(trimmed(s), desktop_suffix())))
}

fn desktop_chars() -> (v: Vec<char>)
    ensures
        v@ == desktop_suffix(),
{
    let s = ".desktop";
    proof {
        reveal_strlit(".desktop");
    }
    let v = chars_of(s);
    assert(v@ =~= desktop_suffix());
    v
}

/// The lookup key of a name or id (see [`normalized_key`]).
pub fn normalize_key(value: &str) -> (r: String)
    ensures
        r@ == normalized_key(value@),
{
    let chars = chars_of(value);
    let trimmed_chars = trim(&chars);
    let suffix = desktop_chars();
    let stripped = trim_end_matches(&trimmed_chars, &suffix);
    let dashed_chars = replace_separators(&stripped);
    let text = string_from_chars(dashed_chars.as_slice());
    to_lowercase(text.as_str())
}

/// The last component of a path (what `Path::file_name` yields for it,
/// when that is valid text).
pub uninterp spec fn path_file_name(path: Seq<char>) -> Option<Seq<char>>;

/// `Path::file_name` on a path given as text: the final component, or
/// `None` for a path that ends in `..` or is a root or empty; the contract
/// only ties the result to its name. A component of a text path is text,
/// so the conversion back to a string never fails.
#[verifier::external_body]
pub(crate) fn basename(path: &str) -> (r: Option<String>)
    ensures
        opt_str_view(r) == path_file_name(path@),
{
    std::path::Path::new(path).file_name().and_then(|name| name.to_str()).map(|name| name.to_owned())
}

// ---------------------------------------------------------------------------
// Records
// ---------------------------------------------------------------------------

/// An installed application as the desktop environment lists it.
pub struct InstalledApp {
    pub id: Option<String>,
    pub display_name: String,
    /// The executable's path, when it is valid text.
    pub executable: Option<String>,
    pub should_show: bool,
}

/// View of an [`InstalledApp`].
pub struct InstalledAppView {
    pub id: Option<Seq<char>>,
    pub display_name: Seq<char>,
    pub executable: Option<Seq<char>>,
    pub should_show: bool,
}

impl View for InstalledApp {
    type V = InstalledAppView;

    open spec fn view(&self) -> InstalledAppView {
        InstalledAppView {
            id: opt_str_view(self.id),
            display_name: self.display_name@,
            executable: opt_str_view(self.executable),
            should_show: self.should_show,
        }
    }
}

/// A catalog entry.
pub struct AppRecord {
    pub id: String,
    pub name: String,
    pub executable: Option<String>,
    pub search_keys: Vec<String>,
}

/// View of an [`AppRecord`].
pub struct AppRecordView {
    pub id: Seq<char>,
    pub name: Seq<char>,
    pub executable: Option<Seq<char>>,
    pub search_keys: Seq<Seq<char>>,
}

impl View for AppRecord {
    type V = AppRecordView;

    open spec fn view(&self) -> AppRecordView {
        AppRecordView {
            id: self.id@,
            name: self.name@,
            executable: opt_str_view(self.executable),
            search_keys: str_views(self.search_keys@),
        }
    }
}

/// A copy of an optional string.
pub fn clone_opt_string(s: &Option<String>) -> (r: Option<String>)
    ensures
        opt_str_view(r) == opt_str_view(*s),
{
    match s {
        Some(v) => Some(v.clone()),
        None => None,
    }
}

/// A copy of a list of strings.
pub fn clone_strings(v: &Vec<String>) -> (r: Vec<String>)
    ensures
        str_views(r@) == str_views(v@),
{
    let mut r: Vec<String> = Vec::new();
    let mut i: usize = 0;
    while i < v.len()
        invariant
            i <= v.len(),
            str_views(r@) == str_views(v@).take(i as int),
        decreases v.len() - i,
    {
        r.push(v[i].clone());
        i = i + 1;
        assert(str_views(v@).take(i as int) == str_views(v@).take(i - 1).push(v@[i - 1]@));
    }
    assert(str_views(v@).take(v.len() as int) == str_views(v@));
    r
}

impl Clone for AppRecord {
    fn clone(&self) -> (r: Self)
        ensures
            r@ == self@,
    {
        AppRecord {
            id: self.id.clone(),
            name: self.name.clone(),
            executable: clone_opt_string(&self.executable),
            search_keys: clone_strings(&self.search_keys),
        }
    }
}

/// The record of an installed application, or `None` for one that is
/// hidden or has no id.
pub open spec fn record_of(app: InstalledAppView) -> Option<AppRecordView> {
    match app.id {
        Some(id) => if !app.should_show {
            None
        } else {
            let exe = match app.executable {
                Some(p) => path_file_name(p),
                None => None,
            };
            Some(
                AppRecordView {
                    id,
                    name: app.display_name,
                    executable: exe,
                    search_keys: seq![normalized_key(id), normalized_key(app.display_name)] + match exe {
                        Some(e) => seq![normalized_key(e)],
                        None => Seq::empty(),
                    },
                },
            )
        },
        None => None,
    }
}

// ---------------------------------------------------------------------------
// The catalog model
// ---------------------------------------------------------------------------

/// An alias: a lookup key and the canonical id it stands for.
pub struct Alias {
    pub key: String,
    pub id: String,
}

/// View of an [`AppCatalog`]: the records (one per id), the aliases (one
/// per key) and the ids in display order.
pub struct CatalogView {
    pub apps: Seq<AppRecordView>,
    pub aliases: Seq<(Seq<char>, Seq<char>)>,
    pub ordered_ids: Seq<Seq<char>>,
}

/// The ids of a list of records.
pub open spec fn app_ids(apps: Seq<AppRecordView>) -> Seq<Seq<char>> {
    apps.map_values(|a: AppRecordView| a.id)
}

/// The keys of a list of aliases.
pub open spec fn alias_keys(aliases: Seq<(Seq<char>, Seq<char>)>) -> Seq<Seq<char>> {
    aliases.map_values(|a: (Seq<char>, Seq<char>)| a.0)
}

/// The record with this id.
pub open spec fn lookup_app(v: CatalogView, id: Seq<char>) -> Option<AppRecordView> {
    let i = position_of(app_ids(v.apps), id);
    if i < 0 {
        None
    } else {
        Some(v.apps[i])
    }
}

/// The canonical id an alias key stands for.
pub open spec fn lookup_alias(v: CatalogView, key: Seq<char>) -> Option<Seq<char>> {
    let i = position_of(alias_keys(v.aliases), key);
    if i < 0 {
        None
    } else {
        Some(v.aliases[i].1)
    }
}

/// The id with `.desktop` appended, unless it already ends with it.
pub open spec fn desktop_id(raw: Seq<char>) -> Seq<char> {
    if has_suffix(raw, desktop_suffix()) {
        raw
    } else {
        raw + desktop_suffix()
    }
}

/// The canonical id of `raw`: `raw` itself when it is a catalog id, else
/// the id that `raw` is an alias for, else `raw` with `.desktop` appended
/// when that is a catalog id, else the id that the normalized key of `raw`
/// is an alias for.
pub open spec fn resolve(v: CatalogView, raw: Seq<char>) -> Option<Seq<char>> {
    if lookup_app(v, raw) is Some {
        Some(raw)
    } else if lookup_alias(v, raw) is Some {
        lookup_alias(v, raw)
    } else if lookup_app(v, desktop_id(raw)) is Some {
        Some(desktop_id(raw))
    } else {
        lookup_alias(v, normalized_key(raw))
    }
}

/// Registers `alias` (by its normalized key) for `id`, unless the key is
/// empty or already taken: the first registration wins.
pub open spec fn register_alias_spec(
    aliases: Seq<(Seq<char>, Seq<char>)>,
    alias: Seq<char>,
    id: Seq<char>,
) -> Seq<(Seq<char>, Seq<char>)> {
    let key = normalized_key(alias);
    if key.len() == 0 || alias_keys(aliases).contains(key) {
        aliases
    } else {
        aliases.push((key, id))
    }
}

/// Adds a record: it replaces a record with the same id, its id, its
/// executable and its name become aliases (in that order, none taking a
/// key that is already taken), and its id is appended to the display order.
pub open spec fn catalog_add(v: CatalogView, r: AppRecordView) -> CatalogView {
    let i = position_of(app_ids(v.apps), r.id);
    let a1 = register_alias_spec(v.aliases, r.id, r.id);
    let a2 = match r.executable {
        Some(e) => register_alias_spec(a1, e, r.id),
        None => a1,
    };
    CatalogView {
        apps: if i < 0 { v.apps.push(r) } else { v.apps.update(i, r) },
        aliases: register_alias_spec(a2, r.name, r.id),
        ordered_ids: v.ordered_ids.push(r.id),
    }
}

/// The catalog built from installed applications taken in this order.
pub open spec fn catalog_of(apps: Seq<InstalledAppView>) -> CatalogView
    decreases apps.len(),
{
    if apps.len() == 0 {
        CatalogView { apps: Seq::empty(), aliases: Seq::empty(), ordered_ids: Seq::empty() }
    } else {
        let v = catalog_of(apps.drop_last());
        match record_of(apps.last()) {
            Some(r) => catalog_add(v, r),
            None => v,
        }
    }
}

/// How well a search key matches a normalized query: 0 for the same key,
/// 1 for a key that starts with the query, 2 for one that contains it.
pub open spec fn key_quality(key: Seq<char>, q: Seq<char>) -> Option<u8> {
    if key == q {
        Some(0u8)
    } else if has_prefix(key, q) {
        Some(1u8)
    } else if has_infix(key, q) {
        Some(2u8)
    } else {
        None
    }
}

/// The match quality of the first of `keys` that matches the query at all.
pub open spec fn keys_quality(keys: Seq<Seq<char>>, q: Seq<char>) -> Option<u8>
    decreases keys.len(),
{
    if keys.len() == 0 {
        None
    } else {
        match key_quality(keys[0], q) {
            Some(x) => Some(x),
            None => keys_quality(keys.drop_first(), q),
        }
    }
}

/// The records of the listed ids, in order, leaving out excluded ids and
/// ids without a record.
pub open spec fn candidates_in(v: CatalogView, ids: Seq<Seq<char>>, exclude: Seq<Seq<char>>) -> Seq<AppRecordView> {
    ids.filter_map(|id: Seq<char>| if exclude.contains(id) { None } else { lookup_app(v, id) })
}

/// The candidates whose match quality is `level`, in order.
pub open spec fn at_quality(c: Seq<AppRecordView>, q: Seq<char>, level: u8) -> Seq<AppRecordView> {
    c.filter_map(|a: AppRecordView| if keys_quality(a.search_keys, q) == Some(level) { Some(a) } else { None })
}

/// The picker's search: with an empty query the non-excluded applications
/// in display order; otherwise those matching the normalized query, exact
/// matches first, then prefix matches, then substring matches, each group in
/// display order; at most `limit` of them.
pub open spec fn search_spec(v: CatalogView, query: Seq<char>, limit: nat, exclude: Seq<Seq<char>>) -> Seq<AppRecordView> {
    let c = candidates_in(v, v.ordered_ids, exclude);
    let ranked = if query.len() == 0 {
        c
    } else {
        let q = normalized_key(query);
        at_quality(c, q, 0) + at_quality(c, q, 1) + at_quality(c, q, 2)
    };
    if ranked.len() <= limit {
        ranked
    } else {
        ranked.take(limit as int)
    }
}

/// The views of a list of record references.
pub open spec fn refs_view(r: Seq<&AppRecord>) -> Seq<AppRecordView> {
    r.map_values(|a: &AppRecord| a@)
}

/// The views of a list of installed applications.
pub open spec fn installed_views(s: Seq<InstalledApp>) -> Seq<InstalledAppView> {
    s.map_values(|a: InstalledApp| a@)
}

/// The elements of `s` at the positions listed in `order`.
pub open spec fn picked(s: Seq<InstalledAppView>, order: Seq<usize>) -> Seq<InstalledAppView> {
    order.map_values(|i: usize| s[i as int])
}

/// The sort keys of installed applications: their lowercase names.
pub open spec fn name_keys(apps: Seq<InstalledAppView>) -> Seq<(bool, Seq<char>)> {
    apps.map_values(|a: InstalledAppView| (false, lowercased(a.display_name)))
}

/// Well-formed catalog: one record per id, one alias per key, every alias
/// and every displayed id naming a record.
pub open spec fn catalog_wf(v: CatalogView) -> bool {
    &&& app_ids(v.apps).no_duplicates()
    &&& alias_keys(v.aliases).no_duplicates()
    &&& forall|i: int| 0 <= i < v.aliases.len() ==> app_ids(v.apps).contains(#[trigger] v.aliases[i].1)
    &&& forall|i: int| 0 <= i < v.ordered_ids.len() ==> app_ids(v.apps).contains(#[trigger] v.ordered_ids[i])
}

// ---------------------------------------------------------------------------
// The catalog
// ---------------------------------------------------------------------------

/// The installed applications, by canonical id.
pub struct AppCatalog {
    apps: Vec<AppRecord>,
    aliases: Vec<Alias>,
    ordered_ids: Vec<String>,
}

/// The views of a list of records.
pub open spec fn records_view(apps: Seq<AppRecord>) -> Seq<AppRecordView> {
    apps.map_values(|a: AppRecord| a@)
}

/// The views of a list of aliases.
pub open spec fn aliases_view(aliases: Seq<Alias>) -> Seq<(Seq<char>, Seq<char>)> {
    aliases.map_values(|a: Alias| (a.key@, a.id@))
}

impl View for AppCatalog {
    type V = CatalogView;

    closed spec fn view(&self) -> CatalogView {
        CatalogView {
            apps: records_view(self.apps@),
            aliases: aliases_view(self.aliases@),
            ordered_ids: str_views(self.ordered_ids@),
        }
    }
}

/// The catalog view of its three parts.
pub open spec fn view_of(apps: Seq<AppRecord>, aliases: Seq<Alias>, ordered: Seq<String>) -> CatalogView {
    CatalogView { apps: records_view(apps), aliases: aliases_view(aliases), ordered_ids: str_views(ordered) }
}

proof fn lemma_ids_grow(v: CatalogView, r: AppRecordView, x: Seq<char>)
    requires
        app_ids(v.apps).contains(x) || x == r.id,
    ensures
        app_ids(catalog_add(v, r).apps).contains(x),
{
    lemma_position_of_bounds(app_ids(v.apps), r.id);
    let i = position_of(app_ids(v.apps), r.id);
    let n = catalog_add(v, r).apps;
    if x == r.id {
        if i < 0 {
            assert(app_ids(n)[v.apps.len() as int] == x);
        } else {
            assert(app_ids(n)[i] == x);
        }
    } else {
        let j = choose|j: int| 0 <= j < app_ids(v.apps).len() && app_ids(v.apps)[j] == x;
        if i >= 0 && j == i {
            assert(app_ids(n)[i] == x);
        } else {
            assert(app_ids(n)[j] == x);
        }
    }
}

proof fn lemma_register_alias_wf(
    aliases: Seq<(Seq<char>, Seq<char>)>,
    alias: Seq<char>,
    id: Seq<char>,
    ids: Seq<Seq<char>>,
)
    requires
        alias_keys(aliases).no_duplicates(),
        forall|i: int| 0 <= i < aliases.len() ==> ids.contains(#[trigger] aliases[i].1),
        ids.contains(id),
    ensures
        alias_keys(register_alias_spec(aliases, alias, id)).no_duplicates(),
        forall|i: int|
            0 <= i < register_alias_spec(aliases, alias, id).len() ==> ids.contains(
                #[trigger] register_alias_spec(aliases, alias, id)[i].1,
            ),
{
    let key = normalized_key(alias);
    if !(key.len() == 0 || alias_keys(aliases).contains(key)) {
        assert(alias_keys(aliases.push((key, id))) == alias_keys(aliases).push(key));
    }
}

/// Adding a record keeps a catalog well formed.
pub proof fn lemma_catalog_add_wf(v: CatalogView, r: AppRecordView)
    requires
        catalog_wf(v),
    ensures
        catalog_wf(catalog_add(v, r)),
{
    lemma_position_of_bounds(app_ids(v.apps), r.id);
    let i = position_of(app_ids(v.apps), r.id);
    let n = catalog_add(v, r);
    if i < 0 {
        assert(app_ids(n.apps) == app_ids(v.apps).push(r.id));
    } else {
        assert(app_ids(n.apps) =~= app_ids(v.apps));
    }
    let ids = app_ids(n.apps);
    assert(ids.contains(r.id)) by {
        lemma_ids_grow(v, r, r.id);
    }
    assert forall|k: int| 0 <= k < v.aliases.len() implies ids.contains(#[trigger] v.aliases[k].1) by {
        lemma_ids_grow(v, r, v.aliases[k].1);
    }
    let a1 = register_alias_spec(v.aliases, r.id, r.id);
    lemma_register_alias_wf(v.aliases, r.id, r.id, ids);
    let a2 = match r.executable {
        Some(e) => register_alias_spec(a1, e, r.id),
        None => a1,
    };
    if let Some(e) = r.executable {
        lemma_register_alias_wf(a1, e, r.id, ids);
    }
    lemma_register_alias_wf(a2, r.name, r.id, ids);
    assert forall|k: int| 0 <= k < n.ordered_ids.len() implies ids.contains(#[trigger] n.ordered_ids[k]) by {
        if k < v.ordered_ids.len() {
            lemma_ids_grow(v, r, v.ordered_ids[k]);
        }
    }
}

/// Every catalog built from installed applications is well formed.
pub proof fn lemma_catalog_of_wf(apps: Seq<InstalledAppView>)
    ensures
        catalog_wf(catalog_of(apps)),
    decreases apps.len(),
{
    if apps.len() > 0 {
        lemma_catalog_of_wf(apps.drop_last());
        if let Some(r) = record_of(apps.last()) {
            lemma_catalog_add_wf(catalog_of(apps.drop_last()), r);
        }
    }
}

fn find_app_in(apps: &Vec<AppRecord>, id: &str) -> (r: Option<usize>)
    ensures
        match r {
            Some(i) => i < apps.len() && i as int == position_of(app_ids(records_view(apps@)), id@),
            None => position_of(app_ids(records_view(apps@)), id@) == -1,
        },
{
    let ghost v = app_ids(records_view(apps@));
    let mut i: usize = 0;
    while i < apps.len()
        invariant
            i <= apps.len(),
            v == app_ids(records_view(apps@)),
            forall|j: int| 0 <= j < i ==> v[j] != id@,
        decreases apps.len() - i,
    {
        if str_eq(apps[i].id.as_str(), id) {
            proof {
                crate::pins::lemma_position_of_first(v, id@, i as int);
            }
            return Some(i);
        }
        i = i + 1;
    }
    proof {
        crate::pins::lemma_position_of_absent(v, id@);
    }
    None
}

fn find_alias_in(aliases: &Vec<Alias>, key: &str) -> (r: Option<usize>)
    ensures
        match r {
            Some(i) => i < aliases.len() && i as int == position_of(alias_keys(aliases_view(aliases@)), key@),
            None => position_of(alias_keys(aliases_view(aliases@)), key@) == -1,
        },
{
    let ghost v = alias_keys(aliases_view(aliases@));
    let mut i: usize = 0;
    while i < aliases.len()
        invariant
            i <= aliases.len(),
            v == alias_keys(aliases_view(aliases@)),
            forall|j: int| 0 <= j < i ==> v[j] != key@,
        decreases aliases.len() - i,
    {
        if str_eq(aliases[i].key.as_str(), key) {
            proof {
                crate::pins::lemma_position_of_first(v, key@, i as int);
            }
            return Some(i);
        }
        i = i + 1;
    }
    proof {
        crate::pins::lemma_position_of_absent(v, key@);
    }
    None
}

/// Registers `alias` for `id` unless its key is empty or already taken.
fn register_alias(aliases: &mut Vec<Alias>, alias: &str, id: &str)
    ensures
        aliases_view(final(aliases)@) == register_alias_spec(aliases_view(old(aliases)@), alias@, id@),
{
    let normalized = normalize_key(alias);
    if normalized.as_str().is_empty() {
        return;
    }
    proof {
        lemma_position_of_bounds(alias_keys(aliases_view(aliases@)), normalized@);
    }
    match find_alias_in(aliases, normalized.as_str()) {
        Some(_) => {},
        None => {
            let ghost before = aliases@;
            aliases.push(Alias { key: normalized, id: owned(id) });
            assert(aliases_view(aliases@) == aliases_view(before).push((normalized@, id@)));
        },
    }
}

/// The catalog record of an installed application.
fn record_from(app: &InstalledApp) -> (r: Option<AppRecord>)
    ensures
        match r {
            Some(rec) => record_of(app@) == Some(rec@),
            None => record_of(app@) is None,
        },
{
    if !app.should_show {
        return None;
    }
    let id = match &app.id {
        Some(id) => id.clone(),
        None => return None,
    };
    let executable = match &app.executable {
        Some(path) => basename(path.as_str()),
        None => None,
    };
    let name = app.display_name.clone();
    let mut search_keys: Vec<String> = Vec::new();
    search_keys.push(normalize_key(id.as_str()));
    search_keys.push(normalize_key(name.as_str()));
    match &executable {
        Some(exe) => {
            search_keys.push(normalize_key(exe.as_str()));
        },
        None => {},
    }
    let rec = AppRecord { id, name, executable, search_keys };
    assert(rec@.search_keys =~= record_of(app@)->0.search_keys);
    Some(rec)
}

/// Adds a record to the three parts of a catalog (see [`catalog_add`]).
fn add_record(apps: &mut Vec<AppRecord>, aliases: &mut Vec<Alias>, ordered: &mut Vec<String>, rec: AppRecord)
    ensures
        view_of(final(apps)@, final(aliases)@, final(ordered)@) == catalog_add(
            view_of(old(apps)@, old(aliases)@, old(ordered)@),
            rec@,
        ),
{
    register_alias(aliases, rec.id.as_str(), rec.id.as_str());
    match &rec.executable {
        Some(exe) => register_alias(aliases, exe.as_str(), rec.id.as_str()),
        None => {},
    }
    register_alias(aliases, rec.name.as_str(), rec.id.as_str());
    let ghost before_ordered = ordered@;
    ordered.push(rec.id.clone());
    assert(str_views(ordered@) == str_views(before_ordered).push(rec@.id));
    let ghost before_apps = apps@;
    let ghost r = rec@;
    match find_app_in(apps, rec.id.as_str()) {
        Some(i) => {
            apps.set(i, rec);
            assert(records_view(apps@) == records_view(before_apps).update(i as int, r));
        },
        None => {
            apps.push(rec);
            assert(records_view(apps@) == records_view(before_apps).push(r));
        },
    }
}

/// The match quality of the first key that matches the query at all.
fn quality_of(keys: &Vec<String>, q: &Vec<char>) -> (r: Option<u8>)
    ensures
        r == keys_quality(str_views(keys@), q@),
{
    let ghost kv = str_views(keys@);
    let mut i: usize = 0;
    assert(kv.skip(0) == kv);
    while i < keys.len()
        invariant
            i <= keys.len(),
            kv == str_views(keys@),
            keys_quality(kv, q@) == keys_quality(kv.skip(i as int), q@),
        decreases keys.len() - i,
    {
        let key = chars_of(keys[i].as_str());
        assert(kv.skip(i as int)[0] == key@);
        assert(kv.skip(i as int).drop_first() == kv.skip(i + 1));
        if chars_eq(&key, q) {
            return Some(0);
        }
        if starts_with(&key, q) {
            return Some(1);
        }
        if contains(&key, q) {
            return Some(2);
        }
        i = i + 1;
    }
    None
}

/// Appends the references of `extra` to `r`.
fn append_refs<'a>(r: &mut Vec<&'a AppRecord>, extra: &Vec<&'a AppRecord>)
    ensures
        refs_view(final(r)@) == refs_view(old(r)@) + refs_view(extra@),
{
    let ghost base = refs_view(r@);
    let mut j: usize = 0;
    while j < extra.len()
        invariant
            j <= extra.len(),
            refs_view(r@) == base + refs_view(extra@).take(j as int),
        decreases extra.len() - j,
    {
        let ghost before = r@;
        r.push(extra[j]);
        assert(refs_view(r@) == refs_view(before).push(extra@[j as int]@));
        j = j + 1;
        assert(refs_view(extra@).take(j as int) == refs_view(extra@).take(j - 1).push(extra@[j - 1]@));
    }
    assert(refs_view(extra@).take(extra.len() as int) == refs_view(extra@));
}

impl AppCatalog {
    /// The catalog stays well formed.
    #[verifier::type_invariant]
    spec fn inv(self) -> bool {
        catalog_wf(self@)
    }

    /// Builds the catalog from the installed applications: sorted by
    /// lowercase display name (stably), hidden applications and those
    /// without an id left out, each record adding its aliases.
    pub fn load(installed: Vec<InstalledApp>) -> (c: Self)
        ensures
            c@ == catalog_of(
                picked(
                    installed_views(installed@),
                    sorted_order(name_keys(installed_views(installed@)), installed@.len()),
                ),
            ),
            is_stable_order(
                name_keys(installed_views(installed@)),
                sorted_order(name_keys(installed_views(installed@)), installed@.len()),
            ),
    {
        let ghost iv = installed_views(installed@);
        let mut keys: Vec<SortKey> = Vec::new();
        let mut k: usize = 0;
        while k < installed.len()
            invariant
                k <= installed.len(),
                iv == installed_views(installed@),
                keys_view(keys@) == name_keys(iv).take(k as int),
            decreases installed.len() - k,
        {
            let lower = to_lowercase(installed[k].display_name.as_str());
            let key = SortKey { late: false, text: chars_of(lower.as_str()) };
            let ghost before = keys@;
            keys.push(key);
            assert(iv[k as int] == installed@[k as int]@);
            assert(keys_view(keys@) == keys_view(before).push((false, lower@)));
            k = k + 1;
            assert(name_keys(iv).take(k as int) == name_keys(iv).take(k - 1).push(name_keys(iv)[k - 1]));
            assert(keys_view(keys@) =~= name_keys(iv).take(k as int));
        }
        assert(name_keys(iv).take(installed.len() as int) =~= name_keys(iv));
        let order = stable_order(&keys);
        let ghost sorted = picked(iv, order@);
        let mut apps: Vec<AppRecord> = Vec::new();
        let mut aliases: Vec<Alias> = Vec::new();
        let mut ordered: Vec<String> = Vec::new();
        let mut n: usize = 0;
        assert(sorted.take(0) =~= Seq::<InstalledAppView>::empty());
        assert(records_view(apps@) =~= Seq::<AppRecordView>::empty());
        assert(aliases_view(aliases@) =~= Seq::<(Seq<char>, Seq<char>)>::empty());
        assert(str_views(ordered@) =~= Seq::<Seq<char>>::empty());
        assert(view_of(apps@, aliases@, ordered@) == catalog_of(sorted.take(0)));
        while n < order.len()
            invariant
                n <= order.len(),
                order.len() == installed.len(),
                is_stable_order(name_keys(iv), order@),
                iv == installed_views(installed@),
                sorted == picked(iv, order@),
                view_of(apps@, aliases@, ordered@) == catalog_of(sorted.take(n as int)),
            decreases order.len() - n,
        {
            let app = &installed[order[n]];
            assert(sorted.take(n + 1).drop_last() == sorted.take(n as int));
            assert(sorted.take(n + 1).last() == app@);
            match record_from(app) {
                Some(rec) => {
                    add_record(&mut apps, &mut aliases, &mut ordered, rec);
                },
                None => {},
            }
            n = n + 1;
        }
        assert(sorted.take(order.len() as int) == sorted);
        proof {
            lemma_catalog_of_wf(sorted);
        }
        AppCatalog { apps, aliases, ordered_ids: ordered }
    }

    /// Index of the record with this id.
    fn find_app(&self, id: &str) -> (r: Option<usize>)
        ensures
            match r {
                Some(i) => i < self.apps.len() && self@.apps[i as int] == self.apps@[i as int]@
                    && lookup_app(self@, id@) == Some(self.apps@[i as int]@),
                None => lookup_app(self@, id@) is None,
            },
    {
        let r = find_app_in(&self.apps, id);
        proof {
            lemma_position_of_bounds(app_ids(self@.apps), id@);
        }
        r
    }

    /// The canonical id that `raw` stands for (see [`resolve`]).
    pub fn resolve_id(&self, raw: &str) -> (r: Option<String>)
        ensures
            opt_str_view(r) == resolve(self@, raw@),
            r is Some ==> lookup_app(self@, r->0@) is Some && lookup_app(self@, r->0@)->0.id == r->0@,
    {
        proof {
            use_type_invariant(self);
            if resolve(self@, raw@) is Some {
                law_resolve_lands_in_catalog(self@, raw@);
            }
            lemma_position_of_bounds(alias_keys(self@.aliases), raw@);
        }
        if let Some(_) = self.find_app(raw) {
            return Some(owned(raw));
        }
        if let Some(i) = find_alias_in(&self.aliases, raw) {
            return Some(self.aliases[i].id.clone());
        }
        let raw_chars = chars_of(raw);
        let suffix = desktop_chars();
        let desktop = if ends_with(&raw_chars, &suffix) {
            owned(raw)
        } else {
            let s = ".desktop";
            proof {
                reveal_strlit(".desktop");
            }
            assert(s@ =~= desktop_suffix());
            concat_str(raw, s)
        };
        if let Some(_) = self.find_app(desktop.as_str()) {
            return Some(desktop);
        }
        let key = normalize_key(raw);
        proof {
            lemma_position_of_bounds(alias_keys(self@.aliases), key@);
        }
        match find_alias_in(&self.aliases, key.as_str()) {
            Some(i) => Some(self.aliases[i].id.clone()),
            None => None,
        }
    }

    /// The candidates among the displayed ids, all of them and grouped by
    /// match quality against `q`.
    fn ranked_candidates(&self, q: &Vec<char>, exclude_ids: &Vec<String>) -> (r: (
        Vec<&AppRecord>,
        Vec<&AppRecord>,
        Vec<&AppRecord>,
        Vec<&AppRecord>,
    ))
        ensures
            refs_view(r.0@) == candidates_in(self@, self@.ordered_ids, str_views(exclude_ids@)),
            refs_view(r.1@) == at_quality(candidates_in(self@, self@.ordered_ids, str_views(exclude_ids@)), q@, 0),
            refs_view(r.2@) == at_quality(candidates_in(self@, self@.ordered_ids, str_views(exclude_ids@)), q@, 1),
            refs_view(r.3@) == at_quality(candidates_in(self@, self@.ordered_ids, str_views(exclude_ids@)), q@, 2),
    {
        let ghost ex = str_views(exclude_ids@);
        let ghost ids = self@.ordered_ids;
        let ghost qv = q@;
        let mut exact: Vec<&AppRecord> = Vec::new();
        let mut prefix: Vec<&AppRecord> = Vec::new();
        let mut fuzzy: Vec<&AppRecord> = Vec::new();
        let mut all: Vec<&AppRecord> = Vec::new();
        let mut i: usize = 0;
        while i < self.ordered_ids.len()
            invariant
                i <= self.ordered_ids.len(),
                ids == self@.ordered_ids,
                ids == str_views(self.ordered_ids@),
                ex == str_views(exclude_ids@),
                q@ == qv,
                refs_view(all@) == candidates_in(self@, ids.take(i as int), ex),
                refs_view(exact@) == at_quality(candidates_in(self@, ids.take(i as int), ex), qv, 0),
                refs_view(prefix@) == at_quality(candidates_in(self@, ids.take(i as int), ex), qv, 1),
                refs_view(fuzzy@) == at_quality(candidates_in(self@, ids.take(i as int), ex), qv, 2),
            decreases self.ordered_ids.len() - i,
        {
            let id = &self.ordered_ids[i];
            let ghost prev = candidates_in(self@, ids.take(i as int), ex);
            assert(ids.take(i + 1).drop_last() == ids.take(i as int));
            assert(ids.take(i + 1).last() == id@);
            proof {
                lemma_position_of_bounds(ex, id@);
            }
            let excluded = pin_position(exclude_ids, id.as_str()).is_some();
            if !excluded {
                match self.find_app(id.as_str()) {
                    Some(k) => {
                        let rec = &self.apps[k];
                        assert(candidates_in(self@, ids.take(i + 1), ex) == prev.push(rec@));
                        let ghost b_all = all@;
                        all.push(rec);
                        assert(refs_view(all@) == refs_view(b_all).push(rec@));
                        let quality = quality_of(&rec.search_keys, q);
                        let ghost be = exact@;
                        let ghost bp = prefix@;
                        let ghost bf = fuzzy@;
                        match quality {
                            Some(0) => {
                                exact.push(rec);
                                assert(refs_view(exact@) == refs_view(be).push(rec@));
                            },
                            Some(1) => {
                                prefix.push(rec);
                                assert(refs_view(prefix@) == refs_view(bp).push(rec@));
                            },
                            Some(2) => {
                                fuzzy.push(rec);
                                assert(refs_view(fuzzy@) == refs_view(bf).push(rec@));
                            },
                            _ => {},
                        }
                        assert(prev.push(rec@).drop_last() == prev);
                    },
                    None => {
                        assert(candidates_in(self@, ids.take(i + 1), ex) == prev);
                    },
                }
            } else {
                assert(candidates_in(self@, ids.take(i + 1), ex) == prev);
            }
            i = i + 1;
        }
        assert(ids.take(self.ordered_ids.len() as int) == ids);
        (all, exact, prefix, fuzzy)
    }

    /// The applications the picker offers for `query` (see [`search_spec`]).
    pub fn search(&self, query: &str, limit: usize, exclude_ids: &Vec<String>) -> (r: Vec<&AppRecord>)
        ensures
            refs_view(r@) == search_spec(self@, query@, limit as nat, str_views(exclude_ids@)),
    {
        let empty_query = query.is_empty();
        let q = chars_of(normalize_key(query).as_str());
        let (all, exact, prefix, fuzzy) = self.ranked_candidates(&q, exclude_ids);
        let mut ranked: Vec<&AppRecord> = if empty_query {
            all
        } else {
            let mut r = exact;
            append_refs(&mut r, &prefix);
            append_refs(&mut r, &fuzzy);
            r
        };
        if ranked.len() > limit {
            ranked.truncate(limit);
        }
        ranked
    }

    /// The record of the application that `id` stands for.
    pub fn app(&self, id: &str) -> (r: Option<&AppRecord>)
        ensures
            match resolve(self@, id@) {
                Some(canonical) => match lookup_app(self@, canonical) {
                    Some(rec) => r is Some && r->0@ == rec,
                    None => r is None,
                },
                None => r is None,
            },
    {
        let canonical = match self.resolve_id(id) {
            Some(c) => c,
            None => return None,
        };
        match self.find_app(canonical.as_str()) {
            Some(i) => Some(&self.apps[i]),
            None => None,
        }
    }
}

/// Every catalog id resolves to itself.
pub proof fn law_resolve_catalog_id(v: CatalogView, id: Seq<char>)
    requires
        lookup_app(v, id) is Some,
    ensures
        resolve(v, id) == Some(id),
{
}

proof fn lemma_lookup_contains(v: CatalogView, id: Seq<char>)
    ensures
        lookup_app(v, id) is Some <==> app_ids(v.apps).contains(id),
        lookup_app(v, id) is Some ==> lookup_app(v, id)->0.id == id,
{
    lemma_position_of_bounds(app_ids(v.apps), id);
    let i = position_of(app_ids(v.apps), id);
    if i >= 0 {
        assert(app_ids(v.apps)[i] == v.apps[i].id);
    }
}

proof fn lemma_alias_target(v: CatalogView, key: Seq<char>)
    requires
        catalog_wf(v),
    ensures
        lookup_alias(v, key) is Some ==> lookup_app(v, lookup_alias(v, key)->0) is Some,
{
    lemma_position_of_bounds(alias_keys(v.aliases), key);
    let i = position_of(alias_keys(v.aliases), key);
    if i >= 0 {
        lemma_lookup_contains(v, v.aliases[i].1);
    }
}

/// In a well-formed catalog, whatever an id resolves to is a catalog id.
pub proof fn law_resolve_lands_in_catalog(v: CatalogView, raw: Seq<char>)
    requires
        catalog_wf(v),
        resolve(v, raw) is Some,
    ensures
        lookup_app(v, resolve(v, raw)->0) is Some,
        lookup_app(v, resolve(v, raw)->0)->0.id == resolve(v, raw)->0,
{
    lemma_alias_target(v, raw);
    lemma_alias_target(v, normalized_key(raw));
    lemma_lookup_contains(v, resolve(v, raw)->0);
}

/// Resolution is idempotent: resolving a resolved id gives it back.
pub proof fn law_resolve_idempotent(v: CatalogView, raw: Seq<char>)
    requires
        catalog_wf(v),
        resolve(v, raw) is Some,
    ensures
        resolve(v, resolve(v, raw)->0) == resolve(v, raw),
{
    law_resolve_lands_in_catalog(v, raw);
}

proof fn lemma_candidates_not_excluded(v: CatalogView, ids: Seq<Seq<char>>, exclude: Seq<Seq<char>>)
    ensures
        forall|k: int|
            0 <= k < candidates_in(v, ids, exclude).len() ==> !exclude.contains(
                (#[trigger] candidates_in(v, ids, exclude)[k]).id,
            ) && lookup_app(v, candidates_in(v, ids, exclude)[k].id) is Some,
    decreases ids.len(),
{
    if ids.len() > 0 {
        lemma_candidates_not_excluded(v, ids.drop_last(), exclude);
        lemma_lookup_contains(v, ids.last());
        let prev = candidates_in(v, ids.drop_last(), exclude);
        let c = candidates_in(v, ids, exclude);
        assert forall|k: int| 0 <= k < c.len() implies !exclude.contains((#[trigger] c[k]).id) && lookup_app(
            v,
            c[k].id,
        ) is Some by {
            if k < prev.len() {
                assert(c[k] == prev[k]);
            }
        }
    }
}

proof fn lemma_at_quality_sub(c: Seq<AppRecordView>, q: Seq<char>, level: u8)
    ensures
        at_quality(c, q, level).len() <= c.len(),
        forall|k: int|
            0 <= k < at_quality(c, q, level).len() ==> c.contains(#[trigger] at_quality(c, q, level)[k]),
    decreases c.len(),
{
    if c.len() > 0 {
        lemma_at_quality_sub(c.drop_last(), q, level);
        let prev = at_quality(c.drop_last(), q, level);
        let a = at_quality(c, q, level);
        assert forall|k: int| 0 <= k < a.len() implies c.contains(#[trigger] a[k]) by {
            if k < prev.len() {
                assert(a[k] == prev[k]);
                let j = choose|j: int| 0 <= j < c.drop_last().len() && c.drop_last()[j] == prev[k];
                assert(c[j] == prev[k]);
            } else {
                assert(a[k] == c.last());
                assert(c[c.len() - 1] == c.last());
            }
        }
    }
}

/// The picker never offers more than `limit` applications, never an
/// excluded (already pinned) one, and only catalog applications.
pub proof fn law_search_respects_limit_and_exclusion(
    v: CatalogView,
    query: Seq<char>,
    limit: nat,
    exclude: Seq<Seq<char>>,
)
    ensures
        search_spec(v, query, limit, exclude).len() <= limit,
        forall|k: int|
            0 <= k < search_spec(v, query, limit, exclude).len() ==> !exclude.contains(
                (#[trigger] search_spec(v, query, limit, exclude)[k]).id,
            ) && lookup_app(v, search_spec(v, query, limit, exclude)[k].id) is Some,
{
    let c = candidates_in(v, v.ordered_ids, exclude);
    lemma_candidates_not_excluded(v, v.ordered_ids, exclude);
    let q = normalized_key(query);
    lemma_at_quality_sub(c, q, 0);
    lemma_at_quality_sub(c, q, 1);
    lemma_at_quality_sub(c, q, 2);
    let ranked = if query.len() == 0 {
        c
    } else {
        at_quality(c, q, 0) + at_quality(c, q, 1) + at_quality(c, q, 2)
    };
    assert forall|k: int| 0 <= k < ranked.len() implies c.contains(#[trigger] ranked[k]) by {
        if query.len() != 0 {
            let a0 = at_quality(c, q, 0);
            let a1 = at_quality(c, q, 1);
            let a2 = at_quality(c, q, 2);
            if k < a0.len() {
                assert(ranked[k] == a0[k]);
            } else if k < a0.len() + a1.len() {
                assert(ranked[k] == a1[k - a0.len()]);
            } else {
                assert(ranked[k] == a2[k - a0.len() - a1.len()]);
            }
        } else {
            assert(c[k] == ranked[k]);
        }
    }
    let r = search_spec(v, query, limit, exclude);
    assert forall|k: int| 0 <= k < r.len() implies !exclude.contains((#[trigger] r[k]).id) && lookup_app(
        v,
        r[k].id,
    ) is Some by {
        assert(r[k] == ranked[k]);
        assert(c.contains(ranked[k]));
        let j = choose|j: int| 0 <= j < c.len() && c[j] == ranked[k];
        assert(c[j] == r[k]);
    }
}

proof fn lemma_at_quality_level(c: Seq<AppRecordView>, q: Seq<char>, level: u8)
    ensures
        forall|k: int|
            0 <= k < at_quality(c, q, level).len() ==> keys_quality(
                (#[trigger] at_quality(c, q, level)[k]).search_keys,
                q,
            ) == Some(level),
    decreases c.len(),
{
    if c.len() > 0 {
        lemma_at_quality_level(c.drop_last(), q, level);
        let prev = at_quality(c.drop_last(), q, level);
        let a = at_quality(c, q, level);
        assert forall|k: int| 0 <= k < a.len() implies keys_quality((#[trigger] a[k]).search_keys, q) == Some(
            level,
        ) by {
            if k < prev.len() {
                assert(a[k] == prev[k]);
            } else {
                assert(a[k] == c.last());
            }
        }
    }
}

/// A search key's match quality: 0 exactly for the query itself, 1 for a
/// key that only starts with it, 2 for one that only contains it, none
/// otherwise.
pub proof fn law_key_quality_levels(key: Seq<char>, q: Seq<char>)
    ensures
        key_quality(key, q) == Some(0u8) <==> key == q,
        key_quality(key, q) == Some(1u8) <==> key != q && has_prefix(key, q),
        key_quality(key, q) == Some(2u8) <==> key != q && !has_prefix(key, q) && has_infix(key, q),
        key_quality(key, q) is None <==> key != q && !has_prefix(key, q) && !has_infix(key, q),
{
}

/// For a non-empty query the picker ranks by match quality: every offered
/// application matches the normalized query through one of its search keys,
/// and going down the list the quality of its first matching key (0 exact,
/// 1 prefix, 2 substring) never gets better: exact matches come before
/// prefix matches, which come before substring matches.
pub proof fn law_search_ranks_by_quality(v: CatalogView, query: Seq<char>, limit: nat, exclude: Seq<Seq<char>>)
    requires
        query.len() > 0,
    ensures
        forall|k: int|
            0 <= k < search_spec(v, query, limit, exclude).len() ==> keys_quality(
                (#[trigger] search_spec(v, query, limit, exclude)[k]).search_keys,
                normalized_key(query),
            ) is Some,
        forall|i: int, j: int|
            0 <= i < j < search_spec(v, query, limit, exclude).len() ==> keys_quality(
                (#[trigger] search_spec(v, query, limit, exclude)[i]).search_keys,
                normalized_key(query),
            )->0 <= keys_quality(
                (#[trigger] search_spec(v, query, limit, exclude)[j]).search_keys,
                normalized_key(query),
            )->0,
{
    let c = candidates_in(v, v.ordered_ids, exclude);
    let q = normalized_key(query);
    lemma_at_quality_level(c, q, 0);
    lemma_at_quality_level(c, q, 1);
    lemma_at_quality_level(c, q, 2);
    let a0 = at_quality(c, q, 0);
    let a1 = at_quality(c, q, 1);
    let a2 = at_quality(c, q, 2);
    let ranked = a0 + a1 + a2;
    let r = search_spec(v, query, limit, exclude);
    assert forall|k: int| 0 <= k < r.len() implies keys_quality(#[trigger] r[k].search_keys, q) == Some(
        if k < a0.len() {
            0u8
        } else if k < a0.len() + a1.len() {
            1u8
        } else {
            2u8
        },
    ) by {
        assert(r[k] == ranked[k]);
        if k < a0.len() {
            assert(ranked[k] == a0[k]);
        } else if k < a0.len() + a1.len() {
            assert(ranked[k] == a1[k - a0.len()]);
        } else {
            assert(ranked[k] == a2[k - a0.len() - a1.len()]);
        }
    }
    assert forall|i: int, j: int| 0 <= i < j < r.len() implies keys_quality(
        (#[trigger] r[i]).search_keys,
        q,
    )->0 <= keys_quality((#[trigger] r[j]).search_keys, q)->0 by {
        assert(keys_quality(r[i].search_keys, q) is Some);
        assert(keys_quality(r[j].search_keys, q) is Some);
    }
}

} // verus!
