//! Schema registry: the built-in schema -> renderer table and field
//! definitions, the user registry's contents (the file itself is read and
//! written by the caller), field-level validation, `register`, `validate`.
use vstd::prelude::*;
use crate::json::{Field, Json, fields_get, json_get};
use crate::protocol::Envelope;
use crate::strmap::{StrMap, keys_increasing, lemma_listing};
use crate::text::{starts_with, contains_seq, occurs_at, decimal, owned, str_eq, starts_with_str,
    contains_str, usize_text, push_str, push_char, chars_of, char_count, ends_with_char, seq_lt, str_lt};

verus! {

// ---------------------------------------------------------------------------
// Built-in table
// ---------------------------------------------------------------------------

/// The renderer PPS associates with a built-in schema.
pub open spec fn builtin_renderer(schema: Seq<char>) -> Option<Seq<char>> {
    if schema == "network.ip"@ {
        Some("map"@)
    } else if schema == "network.wifi"@ {
        Some("dashboard"@)
    } else if schema == "logs.events"@ {
        Some("timeline"@)
    } else if schema == "fs.directory"@ {
        Some("table"@)
    } else if schema == "docker.stats"@ {
        Some("dashboard"@)
    } else if schema == "k8s.pods"@ {
        Some("table"@)
    } else if starts_with(schema, "system.perf."@) {
        Some("chart"@)
    } else {
        None
    }
}

/// Returns the renderer name PPS associates with a built-in schema, or
/// `None` if the schema is not recognized.
pub fn default_renderer(schema: &str) -> (r: Option<&'static str>)
    ensures
        r matches Some(x) ==> builtin_renderer(schema@) == Some(x@),
        r is None ==> builtin_renderer(schema@) is None,
{
    if str_eq(schema, "network.ip") {
        Some("map")
    } else if str_eq(schema, "network.wifi") {
        Some("dashboard")
    } else if str_eq(schema, "logs.events") {
        Some("timeline")
    } else if str_eq(schema, "fs.directory") {
        Some("table")
    } else if str_eq(schema, "docker.stats") {
        Some("dashboard")
    } else if str_eq(schema, "k8s.pods") {
        Some("table")
    } else if starts_with_str(schema, "system.perf.") {
        Some("chart")
    } else {
        None
    }
}

/// Field definitions (name, type) of the built-in schemas, in the order
/// the schema registry documents them. `docker.stats`/`k8s.pods` have none
/// documented.
pub open spec fn builtin_field_list(schema: Seq<char>) -> Option<Seq<(Seq<char>, Seq<char>)>> {
    if schema == "network.ip"@ {
        Some(
            seq![
                ("interface"@, "string"@),
                ("ipv4"@, "string|null"@),
                ("ipv6"@, "string|null"@),
                ("gateway"@, "string|null"@),
                ("dns"@, "array<string>"@),
                ("status"@, "string"@),
                ("speed"@, "string|null"@),
            ],
        )
    } else if schema == "network.wifi"@ {
        Some(
            seq![
                ("ssid"@, "string"@),
                ("signal"@, "number"@),
                ("band"@, "string"@),
                ("channel"@, "number"@),
                ("ipv4"@, "string|null"@),
                ("gateway"@, "string|null"@),
            ],
        )
    } else if schema == "logs.events"@ {
        Some(
            seq![
                ("timestamp"@, "string"@),
                ("level"@, "string"@),
                ("message"@, "string"@),
                ("source"@, "string"@),
            ],
        )
    } else if schema == "system.perf.cpu"@ {
        Some(
            seq![("timestamp"@, "string"@), ("usage"@, "number"@), ("temperature"@, "number|null"@)],
        )
    } else if schema == "fs.directory"@ {
        Some(
            seq![
                ("name"@, "string"@),
                ("size"@, "number"@),
                ("type"@, "string"@),
                ("modified"@, "string"@),
            ],
        )
    } else {
        None
    }
}

pub open spec fn pair_views(p: Seq<(String, String)>) -> Seq<(Seq<char>, Seq<char>)> {
    Seq::new(p.len(), |i: int| (p[i].0@, p[i].1@))
}

fn pair(a: &str, b: &str) -> (r: (String, String))
    ensures
        r.0@ == a@,
        r.1@ == b@,
{
    (owned(a), owned(b))
}

/// Field definitions for the built-in schemas documented in the schema
/// registry (see `builtin_field_list`).
pub fn builtin_fields(schema: &str) -> (r: Option<Vec<(String, String)>>)
    ensures
        r matches Some(v) ==> builtin_field_list(schema@) == Some(pair_views(v@)),
        r is None ==> builtin_field_list(schema@) is None,
{
    let r = if str_eq(schema, "network.ip") {
        Some(
            vec![
                pair("interface", "string"),
                pair("ipv4", "string|null"),
                pair("ipv6", "string|null"),
                pair("gateway", "string|null"),
                pair("dns", "array<string>"),
                pair("status", "string"),
                pair("speed", "string|null"),
            ],
        )
    } else if str_eq(schema, "network.wifi") {
        Some(
            vec![
                pair("ssid", "string"),
                pair("signal", "number"),
                pair("band", "string"),
                pair("channel", "number"),
                pair("ipv4", "string|null"),
                pair("gateway", "string|null"),
            ],
        )
    } else if str_eq(schema, "logs.events") {
        Some(
            vec![
                pair("timestamp", "string"),
                pair("level", "string"),
                pair("message", "string"),
                pair("source", "string"),
            ],
        )
    } else if str_eq(schema, "system.perf.cpu") {
        Some(
            vec![
                pair("timestamp", "string"),
                pair("usage", "number"),
                pair("temperature", "number|null"),
            ],
        )
    } else if str_eq(schema, "fs.directory") {
        Some(
            vec![
                pair("name", "string"),
                pair("size", "number"),
                pair("type", "string"),
                pair("modified", "string"),
            ],
        )
    } else {
        None
    };
    proof {
        if r is Some {
            assert(builtin_field_list(schema@) =~= Some(pair_views(r->0@)));
        }
    }
    r
}

/// Inserts a definition after every one whose name does not sort after it.
pub open spec fn insert_definition(
    s: Seq<(Seq<char>, Seq<char>)>,
    x: (Seq<char>, Seq<char>),
) -> Seq<(Seq<char>, Seq<char>)>
    decreases s.len(),
{
    if s.len() == 0 {
        seq![x]
    } else if seq_lt(x.0, s.last().0) {
        insert_definition(s.drop_last(), x).push(s.last())
    } else {
        s.push(x)
    }
}

/// Definitions in field-name order (a stable sort), the order in which a
/// field map lists them and validation checks them.
pub open spec fn by_name(defs: Seq<(Seq<char>, Seq<char>)>) -> Seq<(Seq<char>, Seq<char>)>
    decreases defs.len(),
{
    if defs.len() == 0 {
        defs
    } else {
        insert_definition(by_name(defs.drop_last()), defs.last())
    }
}

proof fn lemma_insert_definition_at(
    s: Seq<(Seq<char>, Seq<char>)>,
    x: (Seq<char>, Seq<char>),
    pos: int,
)
    requires
        0 <= pos <= s.len(),
        forall|q: int| pos <= q < s.len() ==> seq_lt(x.0, #[trigger] s[q].0),
        pos > 0 ==> !seq_lt(x.0, s[pos - 1].0),
    ensures
        insert_definition(s, x) == s.insert(pos, x),
    decreases s.len(),
{
    if s.len() == 0 {
        assert(s.insert(pos, x) =~= seq![x]);
    } else if seq_lt(x.0, s.last().0) {
        let d = s.drop_last();
        lemma_insert_definition_at(d, x, pos);
        assert(d.insert(pos, x).push(s.last()) =~= s.insert(pos, x));
    } else {
        assert(pos == s.len());
        assert(s.push(x) =~= s.insert(pos, x));
    }
}

/// Sorts definitions by field name (see `by_name`).
pub fn sort_by_name(defs: &Vec<(String, String)>) -> (r: Vec<(String, String)>)
    ensures
        pair_views(r@) == by_name(pair_views(defs@)),
{
    let ghost all = pair_views(defs@);
    let mut res: Vec<(String, String)> = Vec::new();
    let mut t: usize = 0;
    while t < defs.len()
        invariant
            t <= defs@.len(),
            all == pair_views(defs@),
            pair_views(res@) == by_name(all.take(t as int)),
        decreases defs.len() - t,
    {
        let key = defs[t].0.as_str();
        let ghost s = pair_views(res@);
        let mut pos: usize = res.len();
        while pos > 0 && str_lt(key, res[pos - 1].0.as_str())
            invariant
                pos <= res@.len(),
                s == pair_views(res@),
                forall|q: int| pos <= q < s.len() ==> seq_lt(key@, #[trigger] s[q].0),
            decreases pos,
        {
            pos = pos - 1;
        }
        proof {
            lemma_insert_definition_at(s, all[t as int], pos as int);
            assert(all.take(t + 1).drop_last() =~= all.take(t as int));
            assert(all.take(t + 1).last() == all[t as int]);
        }
        res.insert(pos, pair(defs[t].0.as_str(), defs[t].1.as_str()));
        assert(pair_views(res@) =~= s.insert(pos as int, all[t as int]));
        t = t + 1;
    }
    assert(all.take(defs@.len() as int) =~= all);
    res
}

// ---------------------------------------------------------------------------
// The user registry
// ---------------------------------------------------------------------------

pub struct SchemaEntry {
    pub version: String,
    pub description: Option<String>,
    pub default_renderer: String,
    pub fields: StrMap<String>,
}

pub struct RegistryFile {
    pub registry_version: String,
    pub schemas: StrMap<SchemaEntry>,
}

impl RegistryFile {
    /// The registry a missing registry file stands for.
    pub fn empty() -> (r: RegistryFile)
        ensures
            r.registry_version@ == "1.0"@,
            r.schemas.view() == Map::<Seq<char>, SchemaEntry>::empty(),
    {
        RegistryFile { registry_version: owned("1.0"), schemas: StrMap::new() }
    }
}

/// The renderer a schema resolves to: a user-registered entry wins over the
/// built-in table. `user` is `None` when the user registry could not be
/// read; rendering then relies on the built-in table alone.
pub open spec fn resolved_renderer(schema: Seq<char>, user: Option<&RegistryFile>) -> Option<
    Seq<char>,
> {
    match user {
        Some(reg) => if reg.schemas.view().contains_key(schema) {
            Some(reg.schemas.view()[schema].default_renderer@)
        } else {
            builtin_renderer(schema)
        },
        None => builtin_renderer(schema),
    }
}

/// Where the user registry lives: `<home>/.presentation/registry.json`,
/// joined as a Unix path is (no separator is doubled after a trailing `/`).
pub open spec fn registry_location(home: Seq<char>) -> Seq<char> {
    if home.len() == 0 || home.last() == '/' {
        home + ".presentation/registry.json"@
    } else {
        home + "/.presentation/registry.json"@
    }
}

pub const NO_HOME: &'static str = "could not determine home directory (HOME/USERPROFILE not set)";

/// The registry path for a home directory, or why there is none.
pub fn registry_path(home: Option<&str>) -> (r: Result<String, String>)
    ensures
        match home {
            Some(h) => r matches Ok(p) && p@ == registry_location(h@),
            None => r matches Err(e) && e@ == NO_HOME@,
        },
{
    match home {
        Some(h) => {
            let mut p = owned(h);
            if !ends_with_char(h, '/') && char_count(h) > 0 {
                push_str(&mut p, "/.presentation/registry.json");
            } else {
                push_str(&mut p, ".presentation/registry.json");
            }
            Ok(p)
        },
        None => Err(owned(NO_HOME)),
    }
}

/// Why a registry file that does not parse cannot be used.
pub fn corrupt_registry(path: &str, detail: &str) -> (r: String)
    ensures
        r@ == "registry file "@ + path@ + " is corrupt: "@ + detail@,
{
    let mut m = owned("registry file ");
    push_str(&mut m, path);
    push_str(&mut m, " is corrupt: ");
    push_str(&mut m, detail);
    m
}

/// Combined lookup used at render time (see `resolved_renderer`).
pub fn resolve_renderer(schema: &str, user: Option<&RegistryFile>) -> (r: Option<String>)
    ensures
        r matches Some(s) ==> resolved_renderer(schema@, user) == Some(s@),
        r is None ==> resolved_renderer(schema@, user) is None,
{
    if let Some(reg) = user {
        if let Some(entry) = reg.schemas.get(schema) {
            return Some(owned(entry.default_renderer.as_str()));
        }
    }
    match default_renderer(schema) {
        Some(x) => Some(owned(x)),
        None => None,
    }
}

/// `presentation register`: records `schema` with its renderer and field
/// definitions (version "1.0", no description), replacing any earlier entry,
/// and returns the line printed on success. `path` is how the registry
/// file's location prints.
pub fn register(
    registry: &mut RegistryFile,
    schema: &str,
    renderer: &str,
    fields: StrMap<String>,
    path: &str,
) -> (message: String)
    ensures
        final(registry).registry_version == old(registry).registry_version,
        final(registry).schemas.view().contains_key(schema@),
        final(registry).schemas.view() == old(registry).schemas.view().insert(
            schema@,
            final(registry).schemas.view()[schema@],
        ),
        final(registry).schemas.view()[schema@].version@ == "1.0"@,
        final(registry).schemas.view()[schema@].description is None,
        final(registry).schemas.view()[schema@].default_renderer@ == renderer@,
        final(registry).schemas.view()[schema@].fields == fields,
        message@ == "Registered schema '"@ + schema@ + "' -> "@ + renderer@ + " ("@ + decimal(
            fields.view().dom().len(),
        ) + " field(s)) in "@ + path@ + "\n"@,
{
    let n = fields.len();
    let entry = SchemaEntry {
        version: owned("1.0"),
        description: None,
        default_renderer: owned(renderer),
        fields,
    };
    let ghost e = entry;
    registry.schemas.insert(owned(schema), entry);
    let mut m = owned("Registered schema '");
    push_str(&mut m, schema);
    push_str(&mut m, "' -> ");
    push_str(&mut m, renderer);
    push_str(&mut m, " (");
    push_str(&mut m, usize_text(n).as_str());
    push_str(&mut m, " field(s)) in ");
    push_str(&mut m, path);
    push_str(&mut m, "\n");
    m
}

/// Registering a schema makes it resolve to the registered renderer, for
/// every schema name and renderer (a user entry wins over the built-in
/// table); every other schema resolves as before.
pub proof fn law_register_then_resolve(
    before: RegistryFile,
    after: RegistryFile,
    schema: Seq<char>,
    renderer: Seq<char>,
    entry: SchemaEntry,
    other: Seq<char>,
)
    requires
        entry.default_renderer@ == renderer,
        after.schemas.view() == before.schemas.view().insert(schema, entry),
        other != schema,
    ensures
        resolved_renderer(schema, Some(&after)) == Some(renderer),
        resolved_renderer(other, Some(&after)) == resolved_renderer(other, Some(&before)),
{
}

// ---------------------------------------------------------------------------
// Field definition files
// ---------------------------------------------------------------------------

/// The object a `--fields` file's definitions come from: its nested
/// `"fields"` object when it has one, else the file's top-level object.
pub open spec fn definitions_object(v: Json) -> Option<Seq<Field>> {
    match v {
        Json::Object { fields, .. } => match fields_get(fields@, "fields"@) {
            Some(Json::Object { fields: inner, .. }) => Some(inner@),
            _ => Some(fields@),
        },
        _ => None,
    }
}

/// Name -> type, from the string-valued entries (a later entry for the same
/// name wins; other entries are skipped).
pub open spec fn string_entries(fields: Seq<Field>) -> Map<Seq<char>, Seq<char>>
    decreases fields.len(),
{
    if fields.len() == 0 {
        Map::empty()
    } else {
        let m = string_entries(fields.drop_last());
        match fields.last().value {
            Json::Str(s) => m.insert(fields.last().key@, s@),
            _ => m,
        }
    }
}

pub open spec fn text_map(m: StrMap<String>) -> Map<Seq<char>, Seq<char>> {
    Map::new(|k: Seq<char>| m.view().contains_key(k), |k: Seq<char>| m.view()[k]@)
}

#[derive(Debug)]
pub enum RegistryError {
    /// A `--fields` file that does not hold a JSON object.
    FieldsNotAnObject,
    /// The user registry could not be read (the message says why).
    Unavailable(String),
    /// `[SRD_SCHEMA_NOT_FOUND]`: the schema is in neither registry.
    SchemaNotFound(String),
}

impl RegistryError {
    pub open spec fn message_spec(&self) -> Seq<char> {
        match self {
            RegistryError::FieldsNotAnObject => "fields file must contain a JSON object"@,
            RegistryError::Unavailable(m) => m@,
            RegistryError::SchemaNotFound(s) => "[SRD_SCHEMA_NOT_FOUND] schema '"@ + s@
                + "' is not in the built-in or user registry"@,
        }
    }

    /// The error's text, as the command reports it.
    pub fn message(&self) -> (r: String)
        ensures
            r@ == self.message_spec(),
    {
        match self {
            RegistryError::FieldsNotAnObject => owned("fields file must contain a JSON object"),
            RegistryError::Unavailable(m) => owned(m.as_str()),
            RegistryError::SchemaNotFound(s) => {
                let mut r = owned("[SRD_SCHEMA_NOT_FOUND] schema '");
                push_str(&mut r, s.as_str());
                push_str(&mut r, "' is not in the built-in or user registry");
                r
            },
        }
    }
}

/// Reads field definitions out of a parsed `--fields` file: either a bare
/// name -> type object, or a schema entry nesting that object under
/// `"fields"`. Non-string values are skipped.
pub fn fields_from_json(v: &Json) -> (r: Result<StrMap<String>, RegistryError>)
    ensures
        definitions_object(*v) is None <==> r is Err,
        r matches Err(e) ==> e is FieldsNotAnObject,
        r matches Ok(m) ==> text_map(m) == string_entries(definitions_object(*v)->0) && keys_increasing(
            m.entry_seq(),
        ),
{
    let outer = match v {
        Json::Object { fields, .. } => fields,
        _ => {
            return Err(RegistryError::FieldsNotAnObject);
        },
    };
    let source: &Vec<Field> = match v.get("fields") {
        Some(Json::Object { fields: inner, .. }) => inner,
        _ => outer,
    };
    let mut m: StrMap<String> = StrMap::new();
    let mut i: usize = 0;
    while i < source.len()
        invariant
            i <= source@.len(),
            definitions_object(*v) == Some(source@),
            text_map(m) == string_entries(source@.take(i as int)),
            keys_increasing(m.entry_seq()),
        decreases source.len() - i,
    {
        proof {
            assert(source@.take(i + 1).drop_last() =~= source@.take(i as int));
            assert(source@.take(i + 1).last() == source@[i as int]);
        }
        match &source[i].value {
            Json::Str(s) => {
                let ghost before = m;
                m.insert(owned(source[i].key.as_str()), owned(s.as_str()));
                assert(text_map(m) =~= text_map(before).insert(source@[i as int].key@, s@));
            },
            _ => {},
        }
        i = i + 1;
    }
    assert(source@.take(source@.len() as int) =~= source@);
    Ok(m)
}

// ---------------------------------------------------------------------------
// Field-level validation
// ---------------------------------------------------------------------------

pub open spec fn kind_name(v: Json) -> Seq<char> {
    match v {
        Json::Null => "null"@,
        Json::Bool(_) => "boolean"@,
        Json::Number(_) => "number"@,
        Json::Str(_) => "string"@,
        Json::Array { .. } => "array"@,
        Json::Object { .. } => "object"@,
    }
}

pub fn json_type_name(v: &Json) -> (r: &'static str)
    ensures
        r@ == kind_name(*v),
{
    match v {
        Json::Null => "null",
        Json::Bool(_) => "boolean",
        Json::Number(_) => "number",
        Json::Str(_) => "string",
        Json::Array { .. } => "array",
        Json::Object { .. } => "object",
    }
}

/// Whether `v` has the declared base type; an unknown type accepts anything.
pub open spec fn matches_type(base: Seq<char>, v: Json) -> bool {
    if base == "string"@ {
        v is Str
    } else if base == "number"@ {
        v is Number
    } else if base == "boolean"@ {
        v is Bool
    } else if starts_with(base, "array<"@) {
        v is Array
    } else {
        true
    }
}

pub fn type_matches(base: &str, value: &Json) -> (r: bool)
    ensures
        r == matches_type(base@, *value),
{
    if str_eq(base, "string") {
        matches!(value, Json::Str(_))
    } else if str_eq(base, "number") {
        matches!(value, Json::Number(_))
    } else if str_eq(base, "boolean") {
        matches!(value, Json::Bool(_))
    } else if starts_with_str(base, "array<") {
        matches!(value, Json::Array { .. })
    } else {
        true
    }
}

/// A type admits `null` when it mentions `|null`.
pub open spec fn is_nullable(ty: Seq<char>) -> bool {
    contains_seq(ty, "|null"@)
}

/// The base type: the text before the first `|`.
pub open spec fn base_type(ty: Seq<char>) -> Seq<char>
    decreases ty.len(),
{
    if ty.len() == 0 {
        Seq::empty()
    } else if ty[0] == '|' {
        Seq::empty()
    } else {
        seq![ty[0]] + base_type(ty.drop_first())
    }
}

fn base_type_of(ty: &str) -> (r: String)
    ensures
        r@ == base_type(ty@),
{
    let v = chars_of(ty);
    let mut r = String::new();
    let mut i: usize = 0;
    assert(ty@.skip(0) =~= ty@);
    assert(r@ + base_type(ty@) =~= base_type(ty@));
    while i < v.len() && v[i] != '|'
        invariant
            v@ == ty@,
            i <= v.len(),
            forall|j: int| 0 <= j < i ==> v@[j] != '|',
            base_type(ty@) == r@ + base_type(ty@.skip(i as int)),
        decreases v.len() - i,
    {
        let ghost before = r@;
        assert(ty@.skip(i as int).drop_first() =~= ty@.skip(i + 1));
        assert(ty@.skip(i as int)[0] == v@[i as int]);
        push_char(&mut r, v[i]);
        assert(before + base_type(ty@.skip(i as int)) =~= r@ + base_type(ty@.skip(i + 1)));
        i = i + 1;
    }
    assert(base_type(ty@.skip(i as int)) =~= Seq::<char>::empty()) by {
        if i < v.len() {
            assert(ty@.skip(i as int)[0] == '|');
        }
    }
    assert(r@ + Seq::<char>::empty() =~= r@);
    r
}

/// The warning (if any) for one record's field. `index` counts records
/// from 0; messages number them from 1.
pub open spec fn field_warning(index: nat, row: Json, field: Seq<char>, ty: Seq<char>) -> Option<
    Seq<char>,
> {
    let prefix = "record "@ + decimal(index + 1);
    match json_get(row, field) {
        None => if is_nullable(ty) {
            None
        } else {
            Some(prefix + ": missing required field '"@ + field + "'"@)
        },
        Some(Json::Null) => if is_nullable(ty) {
            None
        } else {
            Some(prefix + ": field '"@ + field + "' is null but is not nullable"@)
        },
        Some(v) => if matches_type(base_type(ty), v) {
            None
        } else {
            Some(
                prefix + ": field '"@ + field + "' expected "@ + base_type(ty) + " but got "@
                    + kind_name(v),
            )
        },
    }
}

/// Warnings for one record, over the definitions in order.
pub open spec fn row_warnings(index: nat, row: Json, defs: Seq<(Seq<char>, Seq<char>)>) -> Seq<
    Seq<char>,
>
    decreases defs.len(),
{
    if defs.len() == 0 {
        Seq::empty()
    } else {
        let w = row_warnings(index, row, defs.drop_last());
        match field_warning(index, row, defs.last().0, defs.last().1) {
            Some(m) => w.push(m),
            None => w,
        }
    }
}

/// Warnings for all records, record by record.
pub open spec fn all_warnings(rows: Seq<Json>, defs: Seq<(Seq<char>, Seq<char>)>) -> Seq<
    Seq<char>,
>
    decreases rows.len(),
{
    if rows.len() == 0 {
        Seq::empty()
    } else {
        all_warnings(rows.drop_last(), defs) + row_warnings(
            (rows.len() - 1) as nat,
            rows.last(),
            defs,
        )
    }
}

pub open spec fn texts(v: Seq<String>) -> Seq<Seq<char>> {
    Seq::new(v.len(), |i: int| v[i]@)
}

/// The definitions of a field map, in field-name order.
pub open spec fn definitions_of(fields: StrMap<String>) -> Seq<(Seq<char>, Seq<char>)> {
    Seq::new(fields.entry_seq().len(), |i: int| (fields.entry_seq()[i].0@, fields.entry_seq()[i].1@))
}

/// The definitions of a field map list the map exactly, once per field,
/// in strictly increasing field-name order.
pub proof fn law_definitions_list_the_fields(fields: StrMap<String>)
    requires
        keys_increasing(fields.entry_seq()),
    ensures
        definitions_of(fields).len() == fields.view().dom().len(),
        forall|i: int, j: int|
            0 <= i < j < definitions_of(fields).len() ==> seq_lt(
                #[trigger] definitions_of(fields)[i].0,
                #[trigger] definitions_of(fields)[j].0,
            ),
        forall|i: int|
            0 <= i < definitions_of(fields).len() ==> fields.view().contains_key(
                #[trigger] definitions_of(fields)[i].0,
            ) && fields.view()[definitions_of(fields)[i].0]@ == definitions_of(fields)[i].1,
        forall|k: Seq<char>|
            #[trigger] fields.view().contains_key(k) ==> exists|i: int|
                0 <= i < definitions_of(fields).len() && definitions_of(fields)[i].0 == k,
{
    let e = fields.entry_seq();
    StrMap::lemma_view_is_entries(fields);
    lemma_listing(e);
    let d = definitions_of(fields);
    assert forall|i: int, j: int| 0 <= i < j < d.len() implies seq_lt(#[trigger] d[i].0, #[trigger] d[j].0) by {
        assert(seq_lt(e[i].0@, e[j].0@));
    }
    assert forall|i: int| 0 <= i < d.len() implies fields.view().contains_key(#[trigger] d[i].0)
        && fields.view()[d[i].0]@ == d[i].1 by {
        assert(d[i].0 == e[i].0@);
    }
    assert forall|k: Seq<char>| #[trigger] fields.view().contains_key(k) implies exists|i: int|
        0 <= i < d.len() && d[i].0 == k by {
        let i = choose|i: int| 0 <= i < e.len() && e[i].0@ == k;
        assert(d[i].0 == k);
    }
}

fn one_warning(index: usize, row: &Json, field: &str, ty: &str) -> (r: Option<String>)
    requires
        index < usize::MAX,
    ensures
        r matches Some(m) ==> field_warning(index as nat, *row, field@, ty@) == Some(m@),
        r is None ==> field_warning(index as nat, *row, field@, ty@) is None,
{
    let nullable = contains_str(ty, "|null");
    let mut prefix = owned("record ");
    push_str(&mut prefix, usize_text(index + 1).as_str());
    match row.get(field) {
        None => {
            if nullable {
                None
            } else {
                push_str(&mut prefix, ": missing required field '");
                push_str(&mut prefix, field);
                push_str(&mut prefix, "'");
                Some(prefix)
            }
        },
        Some(Json::Null) => {
            if nullable {
                None
            } else {
                push_str(&mut prefix, ": field '");
                push_str(&mut prefix, field);
                push_str(&mut prefix, "' is null but is not nullable");
                Some(prefix)
            }
        },
        Some(v) => {
            let base = base_type_of(ty);
            if type_matches(base.as_str(), v) {
                None
            } else {
                push_str(&mut prefix, ": field '");
                push_str(&mut prefix, field);
                push_str(&mut prefix, "' expected ");
                push_str(&mut prefix, base.as_str());
                push_str(&mut prefix, " but got ");
                push_str(&mut prefix, json_type_name(v));
                Some(prefix)
            }
        },
    }
}

/// Warnings for `rows` against definitions given in order.
pub fn definition_warnings(rows: &[Json], defs: &Vec<(String, String)>) -> (r: Vec<String>)
    requires
        rows@.len() < usize::MAX,
    ensures
        texts(r@) == all_warnings(rows@, pair_views(defs@)),
{
    let mut out: Vec<String> = Vec::new();
    let mut i: usize = 0;
    while i < rows.len()
        invariant
            i <= rows@.len(),
            rows@.len() < usize::MAX,
            texts(out@) == all_warnings(rows@.take(i as int), pair_views(defs@)),
        decreases rows.len() - i,
    {
        let ghost before = texts(out@);
        let mut j: usize = 0;
        while j < defs.len()
            invariant
                i < rows@.len(),
                rows@.len() < usize::MAX,
                j <= defs@.len(),
                texts(out@) == before + row_warnings(
                    i as nat,
                    rows@[i as int],
                    pair_views(defs@).take(j as int),
                ),
            decreases defs.len() - j,
        {
            let ghost mid = texts(out@);
            proof {
                let pv = pair_views(defs@);
                assert(pv.take(j + 1).drop_last() =~= pv.take(j as int));
                assert(pv.take(j + 1).last() == pv[j as int]);
            }
            match one_warning(i, &rows[i], defs[j].0.as_str(), defs[j].1.as_str()) {
                Some(m) => {
                    out.push(m);
                    assert(texts(out@) =~= mid.push(out@.last()@));
                },
                None => {},
            }
            j = j + 1;
        }
        proof {
            assert(pair_views(defs@).take(defs@.len() as int) =~= pair_views(defs@));
            assert(rows@.take(i + 1).drop_last() =~= rows@.take(i as int));
            assert(rows@.take(i + 1).last() == rows@[i as int]);
        }
        i = i + 1;
    }
    assert(rows@.take(rows@.len() as int) =~= rows@);
    out
}

/// The definitions of a field map as (name, type) pairs in name order.
pub fn definition_pairs(fields: &StrMap<String>) -> (r: Vec<(String, String)>)
    ensures
        pair_views(r@) == definitions_of(*fields),
        keys_increasing(fields.entry_seq()),
{
    let mut r: Vec<(String, String)> = Vec::new();
    let mut i: usize = 0;
    let n = fields.len();
    while i < n
        invariant
            n == fields.entry_seq().len(),
            i <= n,
            pair_views(r@) == definitions_of(*fields).take(i as int),
        decreases n - i,
    {
        let (k, v) = fields.entry(i);
        let ghost before = pair_views(r@);
        r.push((owned(k.as_str()), owned(v.as_str())));
        assert(pair_views(r@) =~= before.push(
            (fields.entry_seq()[i as int].0@, fields.entry_seq()[i as int].1@),
        ));
        assert(definitions_of(*fields).take(i + 1) =~= definitions_of(*fields).take(i as int).push(
            (fields.entry_seq()[i as int].0@, fields.entry_seq()[i as int].1@),
        ));
        i = i + 1;
    }
    assert(definitions_of(*fields).take(n as int) =~= definitions_of(*fields));
    r
}

/// Checks each record against field definitions, in field-name order.
/// Fields without a definition are ignored; a missing required field, a
/// `null` in a field that is not nullable, and a value of the wrong type
/// each give a warning, never a failure.
pub fn field_warnings(rows: &[Json], fields: &StrMap<String>) -> (r: Vec<String>)
    requires
        rows@.len() < usize::MAX,
    ensures
        texts(r@) == all_warnings(rows@, definitions_of(*fields)),
        keys_increasing(fields.entry_seq()),
{
    let defs = definition_pairs(fields);
    definition_warnings(rows, &defs)
}

/// Fields no definition names never affect a record's warnings: two records
/// that agree on every defined field get the same warnings.
pub proof fn law_undefined_fields_are_ignored(
    index: nat,
    a: Json,
    b: Json,
    defs: Seq<(Seq<char>, Seq<char>)>,
)
    requires
        forall|k: int| 0 <= k < defs.len() ==> json_get(a, #[trigger] defs[k].0) == json_get(
            b,
            defs[k].0,
        ),
    ensures
        row_warnings(index, a, defs) == row_warnings(index, b, defs),
    decreases defs.len(),
{
    if defs.len() > 0 {
        let d = defs.drop_last();
        assert forall|k: int| 0 <= k < d.len() implies json_get(a, #[trigger] d[k].0) == json_get(
            b,
            d[k].0,
        ) by {
            assert(d[k] == defs[k]);
        }
        law_undefined_fields_are_ignored(index, a, b, d);
        assert(json_get(a, defs[defs.len() - 1].0) == json_get(b, defs[defs.len() - 1].0));
    }
}


/// The base type is the text of the type before its first `|`: a prefix of
/// it with no `|`, followed by `|` or by nothing.
pub proof fn law_base_type_is_text_before_bar(ty: Seq<char>)
    ensures
        base_type(ty).len() <= ty.len(),
        base_type(ty) == ty.take(base_type(ty).len() as int),
        forall|k: int| 0 <= k < base_type(ty).len() ==> #[trigger] base_type(ty)[k] != '|',
        base_type(ty).len() == ty.len() || ty[base_type(ty).len() as int] == '|',
    decreases ty.len(),
{
    if ty.len() > 0 && ty[0] != '|' {
        let rest = ty.drop_first();
        law_base_type_is_text_before_bar(rest);
        assert(base_type(ty) == seq![ty[0]] + base_type(rest));
        assert(ty.take(base_type(ty).len() as int) =~= seq![ty[0]] + rest.take(
            base_type(rest).len() as int,
        ));
        assert forall|k: int| 0 <= k < base_type(ty).len() implies #[trigger] base_type(ty)[k]
            != '|' by {
            if k > 0 {
                assert(base_type(ty)[k] == base_type(rest)[k - 1]);
            }
        }
        if base_type(ty).len() < ty.len() {
            assert(ty[base_type(ty).len() as int] == rest[base_type(rest).len() as int]);
        }
    } else {
        assert(ty.take(0) =~= Seq::<char>::empty());
    }
}

/// Nullability excuses only a missing or `null` field: a value that is
/// there is checked against the base type whether or not the type admits
/// `null`, and warns, naming the base type and the value's kind, exactly
/// when its kind does not match.
pub proof fn law_present_values_are_type_checked(
    index: nat,
    row: Json,
    field: Seq<char>,
    ty: Seq<char>,
    v: Json,
)
    requires
        json_get(row, field) == Some(v),
        !(v is Null),
    ensures
        matches_type(base_type(ty), v) ==> field_warning(index, row, field, ty) is None,
        !matches_type(base_type(ty), v) ==> field_warning(index, row, field, ty) == Some(
            "record "@ + decimal(index + 1) + ": field '"@ + field + "' expected "@ + base_type(ty)
                + " but got "@ + kind_name(v),
        ),
        field_warning(index, row, field, ty) == field_warning(index, row, field, base_type(ty)),
{
    law_base_type_is_text_before_bar(ty);
    let b = base_type(ty);
    assert(base_type(b) == b) by {
        law_base_type_is_text_before_bar(b);
        lemma_base_type_of_bar_free(b, Seq::empty());
        assert(b + Seq::<char>::empty() =~= b);
    }
}

proof fn lemma_base_type_of_bar_free(b: Seq<char>, rest: Seq<char>)
    requires
        forall|k: int| 0 <= k < b.len() ==> #[trigger] b[k] != '|',
        rest.len() == 0 || rest[0] == '|',
    ensures
        base_type(b + rest) == b,
    decreases b.len(),
{
    if b.len() == 0 {
        assert(b + rest =~= rest);
    } else {
        let t = b.drop_first();
        assert forall|k: int| 0 <= k < t.len() implies #[trigger] t[k] != '|' by {
            assert(t[k] == b[k + 1]);
        }
        lemma_base_type_of_bar_free(t, rest);
        assert((b + rest).drop_first() =~= t + rest);
        assert((b + rest)[0] == b[0]);
        assert(b =~= seq![b[0]] + t);
    }
}

/// A type `T|null` is nullable, has base type `T`, and a present value of
/// another kind than `T` still warns that `T` was expected.
pub proof fn law_nullable_type_checks_its_base(
    index: nat,
    row: Json,
    field: Seq<char>,
    b: Seq<char>,
    v: Json,
)
    requires
        forall|k: int| 0 <= k < b.len() ==> #[trigger] b[k] != '|',
        json_get(row, field) == Some(v),
        !(v is Null),
        !matches_type(b, v),
    ensures
        is_nullable(b + "|null"@),
        base_type(b + "|null"@) == b,
        field_warning(index, row, field, b + "|null"@) == Some(
            "record "@ + decimal(index + 1) + ": field '"@ + field + "' expected "@ + b
                + " but got "@ + kind_name(v),
        ),
{
    reveal_strlit("|null");
    let ty = b + "|null"@;
    assert(ty.subrange(b.len() as int, b.len() + 5int) =~= "|null"@);
    assert(occurs_at(ty, "|null"@, b.len() as int));
    lemma_base_type_of_bar_free(b, "|null"@);
    law_present_values_are_type_checked(index, row, field, ty, v);
}
/// A nullable field never warns when it is missing or `null`.
pub proof fn law_nullable_missing_or_null_is_fine(
    index: nat,
    row: Json,
    field: Seq<char>,
    ty: Seq<char>,
)
    requires
        is_nullable(ty),
        json_get(row, field) is None || json_get(row, field) == Some(Json::Null),
    ensures
        field_warning(index, row, field, ty) is None,
{
}

// ---------------------------------------------------------------------------
// `presentation validate`
// ---------------------------------------------------------------------------

/// The report's closing lines when there are warnings.
pub open spec fn warn_lines(ws: Seq<Seq<char>>) -> Seq<char>
    decreases ws.len(),
{
    if ws.len() == 0 {
        Seq::empty()
    } else {
        warn_lines(ws.drop_last()) + "  WARN: "@ + ws.last() + "\n"@
    }
}

/// What `validate` prints once the schema is resolved: `n` records,
/// `renderer` and `source` ("user-registered"/"built-in") of the entry,
/// and its definitions (none when empty).
pub open spec fn validation_report(
    rows: Seq<Json>,
    schema: Seq<char>,
    source: Seq<char>,
    renderer: Seq<char>,
    defs: Seq<(Seq<char>, Seq<char>)>,
) -> Seq<char> {
    let n = decimal(rows.len());
    let ws = all_warnings(rows, defs);
    if defs.len() == 0 {
        "OK: "@ + n + " record(s), schema '"@ + schema + "' recognized ("@ + source
            + ", renderer: "@ + renderer
            + "). No field definitions to validate against.\n"@
    } else if ws.len() == 0 {
        "OK: "@ + n + " record(s) match schema '"@ + schema + "' ("@ + source + ", renderer: "@
            + renderer + ").\n"@
    } else {
        n + " record(s) checked against schema '"@ + schema + "' ("@ + source + ", renderer: "@
            + renderer + "): "@ + decimal(ws.len()) + " warning(s).\n"@ + warn_lines(ws)
    }
}

/// The outcome of `validate`. `user` is the user registry, or why it could
/// not be read; it is consulted only when the payload names a schema.
pub open spec fn validation(envelope: Envelope, user: Result<RegistryFile, String>) -> Result<
    Seq<char>,
    RegistryError,
> {
    let rows = envelope.data@;
    match envelope.schema {
        None => Ok("OK: "@ + decimal(rows.len()) + " record(s). No schema specified.\n"@),
        Some(s) => match user {
            Err(m) => Err(RegistryError::Unavailable(m)),
            Ok(reg) => if reg.schemas.view().contains_key(s@) {
                let e = reg.schemas.view()[s@];
                Ok(
                    validation_report(
                        rows,
                        s@,
                        "user-registered"@,
                        e.default_renderer@,
                        definitions_of(e.fields),
                    ),
                )
            } else {
                match builtin_renderer(s@) {
                    None => Err(RegistryError::SchemaNotFound(s)),
                    Some(r) => Ok(
                        validation_report(
                            rows,
                            s@,
                            "built-in"@,
                            r,
                            match builtin_field_list(s@) {
                                Some(d) => by_name(d),
                                None => Seq::empty(),
                            },
                        ),
                    ),
                }
            },
        },
    }
}

/// Field problems are warnings, never failures: a payload whose schema is
/// registered (by the user or built in) always validates to a report.
pub proof fn law_field_problems_never_fail(envelope: Envelope, reg: RegistryFile)
    requires
        envelope.schema matches Some(s) && (reg.schemas.view().contains_key(s@)
            || builtin_renderer(s@) is Some),
    ensures
        validation(envelope, Ok(reg)) is Ok,
{
}

/// A user registry that cannot be read fails `validate` for any payload
/// that names a schema, while rendering still resolves through the
/// built-in table.
pub proof fn law_unreadable_registry(envelope: Envelope, why: String, schema: Seq<char>)
    requires
        envelope.schema is Some,
    ensures
        validation(envelope, Err(why)) == Err::<Seq<char>, RegistryError>(
            RegistryError::Unavailable(why),
        ),
        resolved_renderer(schema, None) == builtin_renderer(schema),
{
}

/// A registered schema validates against what was registered: the entry
/// is reported as user-registered, with its renderer, and the payload is
/// checked against the registered field definitions.
pub proof fn law_register_then_validate(
    before: RegistryFile,
    after: RegistryFile,
    entry: SchemaEntry,
    envelope: Envelope,
)
    requires
        envelope.schema is Some,
        after.schemas.view() == before.schemas.view().insert(envelope.schema->0@, entry),
    ensures
        validation(envelope, Ok(after)) == Ok::<Seq<char>, RegistryError>(
            validation_report(
                envelope.data@,
                envelope.schema->0@,
                "user-registered"@,
                entry.default_renderer@,
                definitions_of(entry.fields),
            ),
        ),
{
}

pub open spec fn same_outcome(
    r: Result<String, RegistryError>,
    expected: Result<Seq<char>, RegistryError>,
) -> bool {
    match (r, expected) {
        (Ok(t), Ok(e)) => t@ == e,
        (Err(a), Err(b)) => a.message_spec() == b.message_spec() && (a is Unavailable <==> b is Unavailable)
            && (a is SchemaNotFound <==> b is SchemaNotFound),
        _ => false,
    }
}

fn report_without_definitions(n: &str, schema: &str, source: &str, renderer: &str) -> (r: String)
    ensures
        r@ == "OK: "@ + n@ + " record(s), schema '"@ + schema@ + "' recognized ("@ + source@
            + ", renderer: "@ + renderer@ + "). No field definitions to validate against.\n"@,
{
    let mut t = owned("OK: ");
    push_str(&mut t, n);
    push_str(&mut t, " record(s), schema '");
    push_str(&mut t, schema);
    push_str(&mut t, "' recognized (");
    push_str(&mut t, source);
    push_str(&mut t, ", renderer: ");
    push_str(&mut t, renderer);
    push_str(&mut t, "). No field definitions to validate against.\n");
    t
}

fn report_clean(n: &str, schema: &str, source: &str, renderer: &str) -> (r: String)
    ensures
        r@ == "OK: "@ + n@ + " record(s) match schema '"@ + schema@ + "' ("@ + source@
            + ", renderer: "@ + renderer@ + ").\n"@,
{
    let mut t = owned("OK: ");
    push_str(&mut t, n);
    push_str(&mut t, " record(s) match schema '");
    push_str(&mut t, schema);
    push_str(&mut t, "' (");
    push_str(&mut t, source);
    push_str(&mut t, ", renderer: ");
    push_str(&mut t, renderer);
    push_str(&mut t, ").\n");
    t
}

fn report_warned(n: &str, schema: &str, source: &str, renderer: &str, ws: &Vec<String>) -> (r: String)
    ensures
        r@ == n@ + " record(s) checked against schema '"@ + schema@ + "' ("@ + source@
            + ", renderer: "@ + renderer@ + "): "@ + decimal(ws@.len()) + " warning(s).\n"@
            + warn_lines(texts(ws@)),
{
    let mut t = owned(n);
    push_str(&mut t, " record(s) checked against schema '");
    push_str(&mut t, schema);
    push_str(&mut t, "' (");
    push_str(&mut t, source);
    push_str(&mut t, ", renderer: ");
    push_str(&mut t, renderer);
    push_str(&mut t, "): ");
    push_str(&mut t, usize_text(ws.len()).as_str());
    push_str(&mut t, " warning(s).\n");
    let ghost head = t@;
    let mut k: usize = 0;
    assert(warn_lines(texts(ws@).take(0)) =~= Seq::<char>::empty());
    assert(head + Seq::<char>::empty() =~= head);
    while k < ws.len()
        invariant
            k <= ws@.len(),
            t@ == head + warn_lines(texts(ws@).take(k as int)),
        decreases ws.len() - k,
    {
        let ghost before = t@;
        push_str(&mut t, "  WARN: ");
        push_str(&mut t, ws[k].as_str());
        push_str(&mut t, "\n");
        proof {
            let tw = texts(ws@);
            assert(tw.take(k + 1).drop_last() =~= tw.take(k as int));
            assert(tw.take(k + 1).last() == ws@[k as int]@);
            assert(t@ =~= head + warn_lines(tw.take(k + 1)));
        }
        k = k + 1;
    }
    assert(texts(ws@).take(ws@.len() as int) =~= texts(ws@));
    t
}

fn report(
    rows: &[Json],
    schema: &str,
    source: &str,
    renderer: &str,
    defs: &Vec<(String, String)>,
) -> (r: String)
    requires
        rows@.len() < usize::MAX,
    ensures
        r@ == validation_report(rows@, schema@, source@, renderer@, pair_views(defs@)),
{
    let n = usize_text(rows.len());
    if defs.len() == 0 {
        return report_without_definitions(n.as_str(), schema, source, renderer);
    }
    let ws = definition_warnings(rows, defs);
    if ws.len() == 0 {
        report_clean(n.as_str(), schema, source, renderer)
    } else {
        report_warned(n.as_str(), schema, source, renderer, &ws)
    }
}

/// `presentation validate`: checks a payload against the registry and
/// returns what it prints (see `validation`).
pub fn validate(envelope: &Envelope, user: &Result<RegistryFile, String>) -> (r: Result<
    String,
    RegistryError,
>)
    requires
        envelope.data@.len() < usize::MAX,
    ensures
        same_outcome(r, validation(*envelope, *user)),
{
    let rows = envelope.data.as_slice();
    let schema = match &envelope.schema {
        None => {
            let mut t = owned("OK: ");
            push_str(&mut t, usize_text(rows.len()).as_str());
            push_str(&mut t, " record(s). No schema specified.\n");
            return Ok(t);
        },
        Some(s) => s,
    };
    let reg = match user {
        Err(m) => {
            return Err(RegistryError::Unavailable(owned(m.as_str())));
        },
        Ok(reg) => reg,
    };
    match reg.schemas.get(schema.as_str()) {
        Some(entry) => {
            let defs = definition_pairs(&entry.fields);
            Ok(report(rows, schema.as_str(), "user-registered", entry.default_renderer.as_str(), &defs))
        },
        None => {
            let renderer = match default_renderer(schema.as_str()) {
                None => {
                    return Err(RegistryError::SchemaNotFound(owned(schema.as_str())));
                },
                Some(r) => r,
            };
            let defs = match builtin_fields(schema.as_str()) {
                Some(d) => sort_by_name(&d),
                None => Vec::new(),
            };
            proof {
                if builtin_field_list(schema@) is None {
                    assert(pair_views(defs@) =~= Seq::<(Seq<char>, Seq<char>)>::empty());
                }
            }
            Ok(report(rows, schema.as_str(), "built-in", renderer, &defs))
        },
    }
}


} // verus!
