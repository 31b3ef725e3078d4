//! Loading a configuration document.
//!
//! The TOML syntax itself is read by the `toml` crate behind the trusted
//! items below.  What the parser hands back is given a name: an abstract
//! document model ([`toml_doc`], a map from keys to [`TomlValueModel`]
//! values), and every accessor's contract speaks over that model.  On top
//! of it, everything the schema decides — which fields exist, their types,
//! strictness about unknown fields, durations, and the validation of the
//! raw document — is verified code with an exact contract:
//! [`Config::from_string`] succeeds if and only if the text parses and the
//! parsed document satisfies the schema and its validity rules, the
//! returned configuration is the elaboration of that document, and a
//! rejection names a real violation of it.

use vstd::prelude::*;

use crate::config::{Config, ConfigError, ThresholdField};
use crate::duration_text::{parse_secs_ms, spec_parse_secs_ms};
use crate::raw;
use crate::service::DurationMs;

verus! {

#[verifier::external_type_specification]
#[verifier::external_body]
#[verifier::reject_recursive_types(K)]
#[verifier::reject_recursive_types(V)]
pub struct ExTomlMap<K, V>(toml::map::Map<K, V>);

#[verifier::external_type_specification]
#[verifier::external_body]
pub struct ExTomlValue(toml::Value);

#[verifier::external_type_specification]
#[verifier::external_body]
pub struct ExTomlDeError(toml::de::Error);

// ---------------------------------------------------------------------------
// The abstract model of a parsed document.
// ---------------------------------------------------------------------------
/// The mathematical shape of one parsed TOML value: each variant mirrors
/// one variant of the parser's value type.  A float is carried as its
/// decimal display text, which is all the loader reads of it.
pub ghost enum TomlValueModel {
    Text { text: Seq<char> },
    Integer { value: i64 },
    Float { display: Seq<char> },
    Boolean { flag: bool },
    Datetime,
    Array { items: Seq<TomlValueModel> },
    Table { fields: Map<Seq<char>, TomlValueModel> },
}

/// The parsed form of a document text: its root table's model, or nothing
/// when the text is not valid TOML.
pub uninterp spec fn toml_doc(s: Seq<char>) -> Option<Map<Seq<char>, TomlValueModel>>;

/// What a parsed table holds, keyed by its keys.
pub uninterp spec fn table_model(t: toml::Table) -> Map<Seq<char>, TomlValueModel>;

/// The model of one parsed value.
pub uninterp spec fn value_model(v: toml::Value) -> TomlValueModel;

/// The parser's description of why a text does not parse; like the parse
/// itself, it depends on the text alone.
pub uninterp spec fn toml_error_text(s: Seq<char>) -> Seq<char>;

/// The message carried by one parse error.
pub uninterp spec fn parse_error_text(e: toml::de::Error) -> Seq<char>;

// ---------------------------------------------------------------------------
// The trusted items.
// ---------------------------------------------------------------------------
/// Relies on `str::parse::<toml::Table>` (the `toml` crate's document
/// parser): the document's root table, or a syntax error; parsing depends
/// on the text alone, and an empty text parses to an empty table.
#[verifier::external_body]
fn parse_table(s: &str) -> (r: Result<toml::Table, toml::de::Error>)
    ensures
        r is Ok <==> toml_doc(s@) is Some,
        r matches Ok(t) ==> table_model(t) == toml_doc(s@)->0,
        r is Err ==> s@.len() != 0,
        r matches Ok(t) ==> (s@.len() == 0 ==> table_model(t) =~= Map::<
            Seq<char>,
            TomlValueModel,
        >::empty()),
        r matches Err(e) ==> parse_error_text(e) == toml_error_text(s@),
{
    s.parse::<toml::Table>()
}

/// Relies on `toml::de::Error::message`: the description of a parse error.
#[verifier::external_body]
fn parse_error_message(e: &toml::de::Error) -> (r: String)
    ensures
        r@ == parse_error_text(*e),
{
    e.message().to_owned()
}

/// Relies on `toml::map::Map::keys`: every key of the table, each exactly
/// once.
#[verifier::external_body]
fn table_keys(t: &toml::Table) -> (r: Vec<String>)
    ensures
        forall|j: int| 0 <= j < r@.len() ==> table_model(*t).dom().contains((#[trigger] r@[j])@),
        forall|key: Seq<char>|
            #[trigger] table_model(*t).dom().contains(key) ==> exists|j: int|
                0 <= j < r@.len() && (#[trigger] r@[j])@ == key,
{
    t.keys().cloned().collect()
}

/// Relies on `toml::map::Map::get`: the value stored under a key, present
/// exactly when the key is.
#[verifier::external_body]
fn table_get<'a>(t: &'a toml::Table, key: &str) -> (r: Option<&'a toml::Value>)
    ensures
        r is Some <==> table_model(*t).dom().contains(key@),
        r matches Some(v) ==> value_model(*v) == table_model(*t)[key@],
{
    t.get(key)
}

/// Relies on `toml::Value::as_str`: the payload of a string value, and
/// nothing for any other kind of value.
#[verifier::external_body]
fn value_as_str<'a>(v: &'a toml::Value) -> (r: Option<&'a str>)
    ensures
        r is Some <==> value_model(*v) is Text,
        r matches Some(s) ==> value_model(*v) == (TomlValueModel::Text { text: s@ }),
{
    v.as_str()
}

/// Relies on `toml::Value::as_integer`: the payload of an integer value.
#[verifier::external_body]
fn value_as_integer(v: &toml::Value) -> (r: Option<i64>)
    ensures
        r is Some <==> value_model(*v) is Integer,
        r matches Some(i) ==> value_model(*v) == (TomlValueModel::Integer { value: i }),
{
    v.as_integer()
}

/// Relies on `toml::Value::as_bool`: the payload of a boolean value.
#[verifier::external_body]
fn value_as_bool(v: &toml::Value) -> (r: Option<bool>)
    ensures
        r is Some <==> value_model(*v) is Boolean,
        r matches Some(b) ==> value_model(*v) == (TomlValueModel::Boolean { flag: b }),
{
    v.as_bool()
}

/// Relies on `toml::Value::as_array`: the elements of an array value, in
/// order.
#[verifier::external_body]
fn value_as_array<'a>(v: &'a toml::Value) -> (r: Option<&'a Vec<toml::Value>>)
    ensures
        r is Some <==> value_model(*v) is Array,
        r matches Some(items) ==> value_model(*v)->items.len() == items@.len() && forall|i: int|
            0 <= i < items@.len() ==> value_model(#[trigger] items@[i]) == value_model(*v)->items[i],
{
    v.as_array()
}

/// Relies on `toml::Value::as_table`: the payload of a table value.
#[verifier::external_body]
fn value_as_table<'a>(v: &'a toml::Value) -> (r: Option<&'a toml::Table>)
    ensures
        r is Some <==> value_model(*v) is Table,
        r matches Some(t) ==> table_model(*t) == value_model(*v)->fields,
{
    v.as_table()
}

/// Relies on `toml::Value::as_float` and the decimal `Display` of the
/// float: the decimal text of a float value, `None` for any other kind of
/// value.
#[verifier::external_body]
fn value_float_text(v: &toml::Value) -> (r: Option<String>)
    ensures
        r is Some <==> value_model(*v) is Float,
        r matches Some(t) ==> value_model(*v) == (TomlValueModel::Float { display: t@ }),
{
    v.as_float().map(|f| format!("{f}"))
}

// ---------------------------------------------------------------------------
// The schema, over the document model.
// ---------------------------------------------------------------------------
/// The field of a table model, if present.
pub open spec fn doc_field(m: Map<Seq<char>, TomlValueModel>, key: Seq<char>) -> Option<
    TomlValueModel,
> {
    if m.dom().contains(key) {
        Some(m[key])
    } else {
        None
    }
}

/// The text payload of a string value.
pub open spec fn spec_text_of(v: TomlValueModel) -> Option<Seq<char>> {
    match v {
        TomlValueModel::Text { text } => Some(text),
        _ => None,
    }
}

/// The payload of an integer value that fits a `u32`.
pub open spec fn spec_u32_of(v: TomlValueModel) -> Option<u32> {
    match v {
        TomlValueModel::Integer { value } => if 0 <= value && value <= u32::MAX {
            Some(value as u32)
        } else {
            None
        },
        _ => None,
    }
}

/// The milliseconds denoted by a duration field: an integer number of
/// seconds, or a decimal fraction read through its display text.
pub open spec fn spec_duration_of(v: TomlValueModel) -> Option<u64> {
    match v {
        TomlValueModel::Integer { value } => if 0 <= value && value * 1000 <= u64::MAX {
            Some((value * 1000) as u64)
        } else {
            None
        },
        TomlValueModel::Float { display } => spec_parse_secs_ms(display),
        _ => None,
    }
}

/// The payloads of an array of strings.
pub open spec fn spec_strings_of(v: TomlValueModel) -> Option<Seq<Seq<char>>> {
    match v {
        TomlValueModel::Array { items } => if forall|i: int|
            0 <= i < items.len() ==> spec_text_of(#[trigger] items[i]) is Some {
            Some(items.map_values(|m: TomlValueModel| spec_text_of(m)->0))
        } else {
            None
        },
        _ => None,
    }
}

/// The keys the document's root may hold.
pub open spec fn root_keys() -> Set<Seq<char>> {
    set!["generated_file"@, "bird_reload"@, "service_definitions"@]
}

/// The keys a `[generated_file]` section may hold.
pub open spec fn generated_file_keys() -> Set<Seq<char>> {
    set!["path"@, "function_return_type"@]
}

/// The keys a `[bird_reload]` section may hold.
pub open spec fn bird_reload_keys() -> Set<Seq<char>> {
    set!["command"@, "timeout_s"@]
}

/// The keys a `[[service_definitions]]` entry may hold.
pub open spec fn service_definition_keys() -> Set<Seq<char>> {
    set![
        "service_name"@,
        "function_name"@,
        "command"@,
        "interval_s"@,
        "command_timeout_s"@,
        "fall"@,
        "rise"@,
    ]
}

/// A well-formed `[generated_file]` section: no unknown fields, a string
/// `path`, and — when present — a boolean `function_return_type`.
pub open spec fn spec_generated_file_ok(m: Map<Seq<char>, TomlValueModel>) -> bool {
    &&& m.dom().subset_of(generated_file_keys())
    &&& doc_field(m, "path"@) matches Some(v) && spec_text_of(v) is Some
    &&& (doc_field(m, "function_return_type"@) matches Some(v) ==> v is Boolean)
}

/// A well-formed `[bird_reload]` section.
pub open spec fn spec_bird_reload_ok(m: Map<Seq<char>, TomlValueModel>) -> bool {
    &&& m.dom().subset_of(bird_reload_keys())
    &&& doc_field(m, "command"@) matches Some(v) && spec_strings_of(v) is Some
    &&& doc_field(m, "timeout_s"@) matches Some(v) && spec_duration_of(v) is Some
}

/// A well-formed `[[service_definitions]]` entry.
pub open spec fn spec_service_definition_ok(m: Map<Seq<char>, TomlValueModel>) -> bool {
    &&& m.dom().subset_of(service_definition_keys())
    &&& doc_field(m, "service_name"@) matches Some(v) && spec_text_of(v) is Some
    &&& doc_field(m, "function_name"@) matches Some(v) && spec_text_of(v) is Some
    &&& doc_field(m, "command"@) matches Some(v) && spec_strings_of(v) is Some
    &&& doc_field(m, "interval_s"@) matches Some(v) && spec_duration_of(v) is Some
    &&& doc_field(m, "command_timeout_s"@) matches Some(v) && spec_duration_of(v) is Some
    &&& doc_field(m, "fall"@) matches Some(v) && spec_u32_of(v) is Some
    &&& doc_field(m, "rise"@) matches Some(v) && spec_u32_of(v) is Some
}

/// A document matching the schema: exactly the three known sections, each
/// well formed.
pub open spec fn spec_schema_ok(doc: Map<Seq<char>, TomlValueModel>) -> bool {
    &&& doc.dom().subset_of(root_keys())
    &&& (match doc_field(doc, "generated_file"@) {
        Some(TomlValueModel::Table { fields }) => spec_generated_file_ok(fields),
        _ => false,
    })
    &&& (match doc_field(doc, "bird_reload"@) {
        Some(TomlValueModel::Table { fields }) => spec_bird_reload_ok(fields),
        _ => false,
    })
    &&& (match doc_field(doc, "service_definitions"@) {
        Some(TomlValueModel::Array { items }) => forall|i: int|
            #![trigger items[i]]
            0 <= i < items.len() ==> (match items[i] {
                TomlValueModel::Table { fields } => spec_service_definition_ok(fields),
                _ => false,
            }),
        _ => false,
    })
}

/// The `[generated_file]` model of a schema-conforming document.
pub open spec fn gf_of(doc: Map<Seq<char>, TomlValueModel>) -> Map<Seq<char>, TomlValueModel>
    recommends
        spec_schema_ok(doc),
{
    doc_field(doc, "generated_file"@)->0->fields
}

/// The `[bird_reload]` model of a schema-conforming document.
pub open spec fn br_of(doc: Map<Seq<char>, TomlValueModel>) -> Map<Seq<char>, TomlValueModel>
    recommends
        spec_schema_ok(doc),
{
    doc_field(doc, "bird_reload"@)->0->fields
}

/// The service entries of a schema-conforming document.
pub open spec fn sds_of(doc: Map<Seq<char>, TomlValueModel>) -> Seq<TomlValueModel>
    recommends
        spec_schema_ok(doc),
{
    doc_field(doc, "service_definitions"@)->0->items
}

/// A valid document: it matches the schema, and every command list holds
/// at least one element and every threshold is at least one.
pub open spec fn spec_doc_valid(doc: Map<Seq<char>, TomlValueModel>) -> bool {
    &&& spec_schema_ok(doc)
    &&& spec_strings_of(doc_field(br_of(doc), "command"@)->0)->0.len() > 0
    &&& forall|i: int|
        0 <= i < sds_of(doc).len() ==> {
            let m = (#[trigger] sds_of(doc)[i])->fields;
            &&& spec_strings_of(doc_field(m, "command"@)->0)->0.len() > 0
            &&& spec_u32_of(doc_field(m, "fall"@)->0)->0 >= 1
            &&& spec_u32_of(doc_field(m, "rise"@)->0)->0 >= 1
        }
}

/// A text the loader accepts: it parses, and the document is valid.
pub open spec fn spec_doc_accepted(s: Seq<char>) -> bool {
    toml_doc(s) matches Some(doc) && spec_doc_valid(doc)
}

// ---------------------------------------------------------------------------
// How the raw document and the elaborated configuration relate to the
// model.
// ---------------------------------------------------------------------------
/// The raw `[generated_file]` read off its model.
pub open spec fn spec_raw_gf_matches(
    m: Map<Seq<char>, TomlValueModel>,
    g: raw::GeneratedFile,
) -> bool {
    &&& doc_field(m, "path"@) matches Some(v) && spec_text_of(v) == Some(g.path@)
    &&& (match doc_field(m, "function_return_type"@) {
        Some(v) => g.function_return_type == Some(v->flag),
        None => g.function_return_type is None,
    })
}

/// The raw `[bird_reload]` read off its model.
pub open spec fn spec_raw_br_matches(
    m: Map<Seq<char>, TomlValueModel>,
    b: raw::BirdReload,
) -> bool {
    &&& doc_field(m, "command"@) matches Some(v) && spec_strings_of(v) == Some(
        b.command.deep_view(),
    )
    &&& doc_field(m, "timeout_s"@) matches Some(v) && spec_duration_of(v) == Some(b.timeout_s.millis)
}

/// One raw service definition read off its model.
pub open spec fn spec_raw_def_matches(
    m: Map<Seq<char>, TomlValueModel>,
    d: raw::ServiceDefinition,
) -> bool {
    &&& doc_field(m, "service_name"@) matches Some(v) && spec_text_of(v) == Some(d.service_name@)
    &&& doc_field(m, "function_name"@) matches Some(v) && spec_text_of(v) == Some(d.function_name@)
    &&& doc_field(m, "command"@) matches Some(v) && spec_strings_of(v) == Some(d.command.deep_view())
    &&& doc_field(m, "interval_s"@) matches Some(v) && spec_duration_of(v) == Some(
        d.interval_s.millis,
    )
    &&& doc_field(m, "command_timeout_s"@) matches Some(v) && spec_duration_of(v) == Some(
        d.command_timeout_s.millis,
    )
    &&& doc_field(m, "fall"@) matches Some(v) && spec_u32_of(v) == Some(d.fall)
    &&& doc_field(m, "rise"@) matches Some(v) && spec_u32_of(v) == Some(d.rise)
}

/// A whole raw configuration read off a schema-conforming document.
pub open spec fn spec_raw_matches_doc(
    doc: Map<Seq<char>, TomlValueModel>,
    rc: raw::Config,
) -> bool {
    &&& spec_raw_gf_matches(gf_of(doc), rc.generated_file)
    &&& spec_raw_br_matches(br_of(doc), rc.bird_reload)
    &&& rc.service_definitions@.len() == sds_of(doc).len()
    &&& forall|i: int|
        0 <= i < sds_of(doc).len() ==> spec_raw_def_matches(
            sds_of(doc)[i]->fields,
            #[trigger] rc.service_definitions@[i],
        )
}

/// One elaborated service definition read off its model: the executable
/// split from its arguments, durations in milliseconds.
pub open spec fn spec_def_matches_doc(
    m: Map<Seq<char>, TomlValueModel>,
    d: crate::service::ServiceDefinition,
) -> bool {
    &&& d.service_name@ == spec_text_of(doc_field(m, "service_name"@)->0)->0
    &&& d.function_name@ == spec_text_of(doc_field(m, "function_name"@)->0)->0
    &&& {
        let cmds = spec_strings_of(doc_field(m, "command"@)->0)->0;
        d.command@ == cmds[0] && d.args.deep_view() == cmds.skip(1)
    }
    &&& d.interval.millis == spec_duration_of(doc_field(m, "interval_s"@)->0)->0
    &&& d.command_timeout.millis == spec_duration_of(doc_field(m, "command_timeout_s"@)->0)->0
    &&& d.fall == spec_u32_of(doc_field(m, "fall"@)->0)->0
    &&& d.rise == spec_u32_of(doc_field(m, "rise"@)->0)->0
}

/// The whole elaborated configuration read off a valid document.
pub open spec fn spec_config_matches_doc(
    doc: Map<Seq<char>, TomlValueModel>,
    c: Config,
) -> bool {
    &&& c.generated_file.path@ == spec_text_of(doc_field(gf_of(doc), "path"@)->0)->0
    &&& c.generated_file.function_return_type == (match doc_field(
        gf_of(doc),
        "function_return_type"@,
    ) {
        Some(v) => v->flag,
        None => true,
    })
    &&& {
        let cmds = spec_strings_of(doc_field(br_of(doc), "command"@)->0)->0;
        c.reload_command@ == cmds[0] && c.reload_command_args.deep_view() == cmds.skip(1)
    }
    &&& c.reload_timeout.millis == spec_duration_of(doc_field(br_of(doc), "timeout_s"@)->0)->0
    &&& c.service_definitions@.len() == sds_of(doc).len()
    &&& forall|i: int|
        0 <= i < sds_of(doc).len() ==> spec_def_matches_doc(
            sds_of(doc)[i]->fields,
            #[trigger] c.service_definitions@[i],
        )
}

// ---------------------------------------------------------------------------
// What a rejection means: each error names a real violation of the
// document.
// ---------------------------------------------------------------------------
/// A field of `m` outside the allowed keys.
pub open spec fn spec_unknown_in(
    m: Map<Seq<char>, TomlValueModel>,
    allowed: Set<Seq<char>>,
    field: Seq<char>,
) -> bool {
    m.dom().contains(field) && !allowed.contains(field)
}

/// A violation inside a `[generated_file]` section.
pub open spec fn spec_gf_rejection(m: Map<Seq<char>, TomlValueModel>, e: ConfigError) -> bool {
    match e {
        ConfigError::UnknownField { table, field } => table@ == "generated_file"@
            && spec_unknown_in(m, generated_file_keys(), field@),
        ConfigError::MissingField { table, field } => table@ == "generated_file"@ && field@
            == "path"@ && !m.dom().contains("path"@),
        ConfigError::WrongType { table, field } => table@ == "generated_file"@ && ((field@
            == "path"@ && (match doc_field(m, "path"@) {
            Some(v) => spec_text_of(v) is None,
            None => false,
        })) || (field@ == "function_return_type"@ && (match doc_field(
            m,
            "function_return_type"@,
        ) {
            Some(v) => !(v is Boolean),
            None => false,
        }))),
        _ => false,
    }
}

/// A violation inside a `[bird_reload]` section.
pub open spec fn spec_br_rejection(m: Map<Seq<char>, TomlValueModel>, e: ConfigError) -> bool {
    match e {
        ConfigError::UnknownField { table, field } => table@ == "bird_reload"@ && spec_unknown_in(
            m,
            bird_reload_keys(),
            field@,
        ),
        ConfigError::MissingField { table, field } => table@ == "bird_reload"@
            && bird_reload_keys().contains(field@) && !m.dom().contains(field@),
        ConfigError::WrongType { table, field } => table@ == "bird_reload"@ && ((field@
            == "command"@ && (match doc_field(m, "command"@) {
            Some(v) => spec_strings_of(v) is None,
            None => false,
        })) || (field@ == "timeout_s"@ && (match doc_field(m, "timeout_s"@) {
            Some(v) => !(v is Integer) && !(v is Float),
            None => false,
        }))),
        ConfigError::InvalidDuration { table, field } => table@ == "bird_reload"@ && field@
            == "timeout_s"@ && (match doc_field(m, "timeout_s"@) {
            Some(v) => (v is Integer || v is Float) && spec_duration_of(v) is None,
            None => false,
        }),
        _ => false,
    }
}

/// A violation inside one `[[service_definitions]]` entry.
pub open spec fn spec_sd_rejection(m: Map<Seq<char>, TomlValueModel>, e: ConfigError) -> bool {
    match e {
        ConfigError::UnknownField { table, field } => table@ == "service_definitions"@
            && spec_unknown_in(m, service_definition_keys(), field@),
        ConfigError::MissingField { table, field } => table@ == "service_definitions"@
            && service_definition_keys().contains(field@) && !m.dom().contains(field@),
        ConfigError::WrongType { table, field } => table@ == "service_definitions"@ && (((field@
            == "service_name"@ || field@ == "function_name"@) && (match doc_field(m, field@) {
            Some(v) => spec_text_of(v) is None,
            None => false,
        })) || (field@ == "command"@ && (match doc_field(m, "command"@) {
            Some(v) => spec_strings_of(v) is None,
            None => false,
        })) || ((field@ == "interval_s"@ || field@ == "command_timeout_s"@) && (match doc_field(
            m,
            field@,
        ) {
            Some(v) => !(v is Integer) && !(v is Float),
            None => false,
        })) || ((field@ == "fall"@ || field@ == "rise"@) && (match doc_field(m, field@) {
            Some(v) => spec_u32_of(v) is None,
            None => false,
        }))),
        ConfigError::InvalidDuration { table, field } => table@ == "service_definitions"@ && (field@
            == "interval_s"@ || field@ == "command_timeout_s"@) && (match doc_field(m, field@) {
            Some(v) => (v is Integer || v is Float) && spec_duration_of(v) is None,
            None => false,
        }),
        _ => false,
    }
}

/// A violation at the document's root.
pub open spec fn spec_root_rejection(
    doc: Map<Seq<char>, TomlValueModel>,
    e: ConfigError,
) -> bool {
    match e {
        ConfigError::UnknownField { table, field } => table@ == "config"@ && spec_unknown_in(
            doc,
            root_keys(),
            field@,
        ),
        ConfigError::MissingField { table, field } => table@ == "config"@ && root_keys().contains(
            field@,
        ) && !doc.dom().contains(field@),
        ConfigError::WrongType { table, field } => table@ == "config"@ && (((field@
            == "generated_file"@ || field@ == "bird_reload"@) && (match doc_field(doc, field@) {
            Some(v) => !(v is Table),
            None => false,
        })) || (field@ == "service_definitions"@ && (match doc_field(
            doc,
            "service_definitions"@,
        ) {
            Some(v) => !(v is Array) || exists|i: int|
                0 <= i < v->items.len() && !((#[trigger] v->items[i]) is Table),
            None => false,
        }))),
        _ => false,
    }
}

/// A validity violation of a schema-conforming document: an empty command
/// list or a zero threshold, naming the offending service.
pub open spec fn spec_validity_rejection(
    doc: Map<Seq<char>, TomlValueModel>,
    e: ConfigError,
) -> bool
    recommends
        spec_schema_ok(doc),
{
    match e {
        ConfigError::EmptyReloadCommand => spec_strings_of(
            doc_field(br_of(doc), "command"@)->0,
        )->0.len() == 0,
        ConfigError::EmptyServiceCommand { service_name } => exists|i: int|
            0 <= i < sds_of(doc).len() && {
                let m = (#[trigger] sds_of(doc)[i])->fields;
                spec_strings_of(doc_field(m, "command"@)->0)->0.len() == 0 && spec_text_of(
                    doc_field(m, "service_name"@)->0,
                ) == Some(service_name@)
            },
        ConfigError::InvalidThreshold { service_name, field } => exists|i: int|
            0 <= i < sds_of(doc).len() && {
                let m = (#[trigger] sds_of(doc)[i])->fields;
                &&& spec_text_of(doc_field(m, "service_name"@)->0) == Some(service_name@)
                &&& (match field {
                    ThresholdField::Fall => spec_u32_of(doc_field(m, "fall"@)->0) == Some(0u32),
                    ThresholdField::Rise => spec_u32_of(doc_field(m, "rise"@)->0) == Some(0u32),
                })
            },
        _ => false,
    }
}

/// A violation somewhere in a parsed document.
pub open spec fn spec_doc_rejection(doc: Map<Seq<char>, TomlValueModel>, e: ConfigError) -> bool {
    ||| spec_root_rejection(doc, e)
    ||| (match doc_field(doc, "generated_file"@) {
        Some(TomlValueModel::Table { fields }) => spec_gf_rejection(fields, e),
        _ => false,
    })
    ||| (match doc_field(doc, "bird_reload"@) {
        Some(TomlValueModel::Table { fields }) => spec_br_rejection(fields, e),
        _ => false,
    })
    ||| (match doc_field(doc, "service_definitions"@) {
        Some(TomlValueModel::Array { items }) => exists|i: int|
            #![trigger items[i]]
            0 <= i < items.len() && (match items[i] {
                TomlValueModel::Table { fields } => spec_sd_rejection(fields, e),
                _ => false,
            }),
        _ => false,
    })
    ||| (spec_schema_ok(doc) && spec_validity_rejection(doc, e))
}

/// What every rejection of a text means: a syntax error exactly when the
/// text does not parse, otherwise a named violation of the parsed
/// document.
pub open spec fn spec_rejection(s: Seq<char>, e: ConfigError) -> bool {
    match toml_doc(s) {
        None => e matches ConfigError::Toml { message } && message@ == toml_error_text(s),
        Some(doc) => !(e is Toml) && spec_doc_rejection(doc, e),
    }
}

// ---------------------------------------------------------------------------
// Verified helpers.
// ---------------------------------------------------------------------------
/// Whether `s` holds exactly the text `lit`.
fn string_is(s: &String, lit: &str) -> (r: bool)
    ensures
        r == (s@ == lit@),
{
    let other = String::from_str(lit);
    s.eq(&other)
}

/// Copy one string.
fn copy_string(s: &String) -> (r: String)
    ensures
        r == *s,
{
    s.clone()
}

/// The first key of `t` that is not among `allowed`, if any.
fn find_unknown_key(t: &toml::Table, allowed: &Vec<&str>) -> (r: Option<String>)
    ensures
        match r {
            Some(k) => table_model(*t).dom().contains(k@) && forall|j: int|
                0 <= j < allowed@.len() ==> (#[trigger] allowed@[j])@ != k@,
            None => forall|key: Seq<char>|
                #[trigger] table_model(*t).dom().contains(key) ==> exists|j: int|
                    0 <= j < allowed@.len() && (#[trigger] allowed@[j])@ == key,
        },
{
    let keys = table_keys(t);
    let mut i: usize = 0;
    while i < keys.len()
        invariant
            i <= keys@.len(),
            forall|j: int|
                0 <= j < keys@.len() ==> table_model(*t).dom().contains((#[trigger] keys@[j])@),
            forall|key: Seq<char>|
                #[trigger] table_model(*t).dom().contains(key) ==> exists|j: int|
                    0 <= j < keys@.len() && (#[trigger] keys@[j])@ == key,
            forall|x: int|
                0 <= x < i ==> exists|j: int|
                    0 <= j < allowed@.len() && (#[trigger] allowed@[j])@ == (#[trigger] keys@[x])@,
        decreases keys@.len() - i,
    {
        let mut known = false;
        let mut j: usize = 0;
        while j < allowed.len()
            invariant
                i < keys@.len(),
                j <= allowed@.len(),
                known <==> exists|j0: int|
                    0 <= j0 < j && (#[trigger] allowed@[j0])@ == keys@[i as int]@,
            decreases allowed@.len() - j,
        {
            if string_is(&keys[i], allowed[j]) {
                known = true;
                proof {
                    assert((allowed@[j as int])@ == keys@[i as int]@);
                }
            }
            j = j + 1;
        }
        if !known {
            proof {
                assert(table_model(*t).dom().contains(keys@[i as int]@));
                assert forall|j2: int| 0 <= j2 < allowed@.len() implies (#[trigger] allowed@[j2])@
                    != keys@[i as int]@ by {
                    if (allowed@[j2])@ == keys@[i as int]@ {
                        assert(exists|j0: int|
                            0 <= j0 < allowed@.len() && (#[trigger] allowed@[j0])@ == keys@[i as int]@);
                    }
                }
            }
            return Some(copy_string(&keys[i]));
        }
        i = i + 1;
    }
    proof {
        assert forall|key: Seq<char>| #[trigger] table_model(*t).dom().contains(key) implies exists|
            j: int,
        | 0 <= j < allowed@.len() && (#[trigger] allowed@[j])@ == key by {
            let x = choose|x: int| 0 <= x < keys@.len() && (#[trigger] keys@[x])@ == key;
            assert(exists|j: int|
                0 <= j < allowed@.len() && (#[trigger] allowed@[j])@ == (keys@[x])@);
        }
    }
    None
}

/// Get a required field of a table.
fn require_field<'a>(t: &'a toml::Table, table: &str, field: &str) -> (r: Result<
    &'a toml::Value,
    ConfigError,
>)
    ensures
        match r {
            Ok(v) => table_model(*t).dom().contains(field@) && value_model(*v) == table_model(
                *t,
            )[field@],
            Err(e) => e matches ConfigError::MissingField { table: et, field: ef } && et@
                == table@ && ef@ == field@ && !table_model(*t).dom().contains(field@),
        },
{
    match table_get(t, field) {
        Some(v) => Ok(v),
        None => Err(
            ConfigError::MissingField {
                table: String::from_str(table),
                field: String::from_str(field),
            },
        ),
    }
}

/// Read a string field.
fn load_string(v: &toml::Value, table: &str, field: &str) -> (r: Result<String, ConfigError>)
    ensures
        match r {
            Ok(s) => spec_text_of(value_model(*v)) == Some(s@),
            Err(e) => e matches ConfigError::WrongType { table: et, field: ef } && et@ == table@
                && ef@ == field@ && spec_text_of(value_model(*v)) is None,
        },
{
    match value_as_str(v) {
        Some(s) => Ok(String::from_str(s)),
        None => Err(
            ConfigError::WrongType {
                table: String::from_str(table),
                field: String::from_str(field),
            },
        ),
    }
}

/// Read a `u32` field (the `fall`/`rise` thresholds).
fn load_u32(v: &toml::Value, table: &str, field: &str) -> (r: Result<u32, ConfigError>)
    ensures
        match r {
            Ok(n) => spec_u32_of(value_model(*v)) == Some(n),
            Err(e) => e matches ConfigError::WrongType { table: et, field: ef } && et@ == table@
                && ef@ == field@ && spec_u32_of(value_model(*v)) is None,
        },
{
    match value_as_integer(v) {
        Some(i) => {
            if i < 0 || i > u32::MAX as i64 {
                Err(
                    ConfigError::WrongType {
                        table: String::from_str(table),
                        field: String::from_str(field),
                    },
                )
            } else {
                Ok(i as u32)
            }
        },
        None => Err(
            ConfigError::WrongType {
                table: String::from_str(table),
                field: String::from_str(field),
            },
        ),
    }
}

/// Read a duration field: a number of seconds, written as an integer or as
/// a decimal fraction.
fn load_duration(v: &toml::Value, table: &str, field: &str) -> (r: Result<DurationMs, ConfigError>)
    ensures
        match r {
            Ok(d) => spec_duration_of(value_model(*v)) == Some(d.millis),
            Err(e) => spec_duration_of(value_model(*v)) is None && ({
                ||| (e matches ConfigError::InvalidDuration { table: et, field: ef } && et@
                    == table@ && ef@ == field@ && (value_model(*v) is Integer || value_model(
                    *v,
                ) is Float))
                ||| (e matches ConfigError::WrongType { table: et, field: ef } && et@ == table@
                    && ef@ == field@ && !(value_model(*v) is Integer) && !(value_model(
                    *v,
                ) is Float))
            }),
        },
{
    match value_as_integer(v) {
        Some(i) => {
            if i < 0 {
                return Err(
                    ConfigError::InvalidDuration {
                        table: String::from_str(table),
                        field: String::from_str(field),
                    },
                );
            }
            let secs = i as u64;
            if secs > u64::MAX / 1000 {
                return Err(
                    ConfigError::InvalidDuration {
                        table: String::from_str(table),
                        field: String::from_str(field),
                    },
                );
            }
            Ok(DurationMs { millis: secs * 1000 })
        },
        None => {
            match value_float_text(v) {
                Some(text) => {
                    match parse_secs_ms(text.as_str()) {
                        Some(ms) => Ok(DurationMs { millis: ms }),
                        None => Err(
                            ConfigError::InvalidDuration {
                                table: String::from_str(table),
                                field: String::from_str(field),
                            },
                        ),
                    }
                },
                None => Err(
                    ConfigError::WrongType {
                        table: String::from_str(table),
                        field: String::from_str(field),
                    },
                ),
            }
        },
    }
}

/// Read an array-of-strings field (a command list).
fn load_string_array(v: &toml::Value, table: &str, field: &str) -> (r: Result<
    Vec<String>,
    ConfigError,
>)
    ensures
        match r {
            Ok(out) => spec_strings_of(value_model(*v)) == Some(out.deep_view()),
            Err(e) => e matches ConfigError::WrongType { table: et, field: ef } && et@ == table@
                && ef@ == field@ && spec_strings_of(value_model(*v)) is None,
        },
{
    match value_as_array(v) {
        Some(items) => {
            let ghost ms = value_model(*v)->items;
            let mut out: Vec<String> = Vec::new();
            let mut i: usize = 0;
            while i < items.len()
                invariant
                    i <= items@.len(),
                    value_model(*v) is Array,
                    ms == value_model(*v)->items,
                    ms.len() == items@.len(),
                    forall|x: int|
                        0 <= x < items@.len() ==> value_model(#[trigger] items@[x]) == ms[x],
                    out@.len() == i,
                    forall|x: int|
                        0 <= x < i ==> spec_text_of(#[trigger] ms[x]) == Some(out.deep_view()[x]),
                decreases items@.len() - i,
            {
                match value_as_str(&items[i]) {
                    Some(s) => {
                        out.push(String::from_str(s));
                    },
                    None => {
                        proof {
                            assert(spec_text_of(ms[i as int]) is None);
                        }
                        return Err(
                            ConfigError::WrongType {
                                table: String::from_str(table),
                                field: String::from_str(field),
                            },
                        );
                    },
                }
                i = i + 1;
            }
            proof {
                assert forall|x: int| 0 <= x < ms.len() implies spec_text_of(
                    #[trigger] ms[x],
                ) is Some by {}
                assert(out.deep_view() =~= ms.map_values(
                    |m: TomlValueModel| spec_text_of(m)->0,
                ));
            }
            Ok(out)
        },
        None => Err(
            ConfigError::WrongType {
                table: String::from_str(table),
                field: String::from_str(field),
            },
        ),
    }
}

/// Read the `[generated_file]` section.
fn load_generated_file(t: &toml::Table) -> (r: Result<raw::GeneratedFile, ConfigError>)
    ensures
        match r {
            Ok(g) => spec_generated_file_ok(table_model(*t)) && spec_raw_gf_matches(
                table_model(*t),
                g,
            ),
            Err(e) => !spec_generated_file_ok(table_model(*t)) && spec_gf_rejection(
                table_model(*t),
                e,
            ),
        },
{
    let ghost m = table_model(*t);
    let allowed: Vec<&str> = vec!["path", "function_return_type"];
    if let Some(k) = find_unknown_key(t, &allowed) {
        proof {
            assert((allowed@[0])@ != k@ && (allowed@[1])@ != k@);
            assert(!generated_file_keys().contains(k@));
            assert(!m.dom().subset_of(generated_file_keys()));
        }
        return Err(
            ConfigError::UnknownField { table: String::from_str("generated_file"), field: k },
        );
    }
    proof {
        assert forall|key: Seq<char>| m.dom().contains(key) implies generated_file_keys().contains(
            key,
        ) by {
            let j = choose|j: int| 0 <= j < allowed@.len() && (#[trigger] allowed@[j])@ == key;
            if j == 0 {
                assert(key == "path"@);
            } else {
                assert(key == "function_return_type"@);
            }
        }
        assert(m.dom().subset_of(generated_file_keys()));
    }
    let path = match require_field(t, "generated_file", "path") {
        Ok(v) => match load_string(v, "generated_file", "path") {
            Ok(s) => s,
            Err(e) => {
                return Err(e);
            },
        },
        Err(e) => {
            return Err(e);
        },
    };
    let function_return_type = match table_get(t, "function_return_type") {
        Some(v) => match value_as_bool(v) {
            Some(b) => Some(b),
            None => {
                return Err(
                    ConfigError::WrongType {
                        table: String::from_str("generated_file"),
                        field: String::from_str("function_return_type"),
                    },
                );
            },
        },
        None => None,
    };
    Ok(raw::GeneratedFile { path, function_return_type })
}

/// Read the `[bird_reload]` section.
fn load_bird_reload(t: &toml::Table) -> (r: Result<raw::BirdReload, ConfigError>)
    ensures
        match r {
            Ok(b) => spec_bird_reload_ok(table_model(*t)) && spec_raw_br_matches(
                table_model(*t),
                b,
            ),
            Err(e) => !spec_bird_reload_ok(table_model(*t)) && spec_br_rejection(
                table_model(*t),
                e,
            ),
        },
{
    let ghost m = table_model(*t);
    let allowed: Vec<&str> = vec!["command", "timeout_s"];
    if let Some(k) = find_unknown_key(t, &allowed) {
        proof {
            assert((allowed@[0])@ != k@ && (allowed@[1])@ != k@);
            assert(!bird_reload_keys().contains(k@));
            assert(!m.dom().subset_of(bird_reload_keys()));
        }
        return Err(ConfigError::UnknownField { table: String::from_str("bird_reload"), field: k });
    }
    proof {
        assert forall|key: Seq<char>| m.dom().contains(key) implies bird_reload_keys().contains(
            key,
        ) by {
            let j = choose|j: int| 0 <= j < allowed@.len() && (#[trigger] allowed@[j])@ == key;
            if j == 0 {
                assert(key == "command"@);
            } else {
                assert(key == "timeout_s"@);
            }
        }
        assert(m.dom().subset_of(bird_reload_keys()));
    }
    let command = match require_field(t, "bird_reload", "command") {
        Ok(v) => match load_string_array(v, "bird_reload", "command") {
            Ok(c) => c,
            Err(e) => {
                return Err(e);
            },
        },
        Err(e) => {
            return Err(e);
        },
    };
    let timeout_s = match require_field(t, "bird_reload", "timeout_s") {
        Ok(v) => match load_duration(v, "bird_reload", "timeout_s") {
            Ok(d) => d,
            Err(e) => {
                return Err(e);
            },
        },
        Err(e) => {
            return Err(e);
        },
    };
    Ok(raw::BirdReload { command, timeout_s })
}

/// Read one `[[service_definitions]]` entry.
fn load_service_definition(t: &toml::Table) -> (r: Result<raw::ServiceDefinition, ConfigError>)
    ensures
        match r {
            Ok(d) => spec_service_definition_ok(table_model(*t)) && spec_raw_def_matches(
                table_model(*t),
                d,
            ),
            Err(e) => !spec_service_definition_ok(table_model(*t)) && spec_sd_rejection(
                table_model(*t),
                e,
            ),
        },
{
    let ghost m = table_model(*t);
    let allowed: Vec<&str> = vec![
        "service_name",
        "function_name",
        "command",
        "interval_s",
        "command_timeout_s",
        "fall",
        "rise",
    ];
    if let Some(k) = find_unknown_key(t, &allowed) {
        proof {
            assert((allowed@[0])@ != k@ && (allowed@[1])@ != k@ && (allowed@[2])@ != k@ && (
            allowed@[3])@ != k@ && (allowed@[4])@ != k@ && (allowed@[5])@ != k@ && (allowed@[6])@
                != k@);
            assert(!service_definition_keys().contains(k@));
            assert(!m.dom().subset_of(service_definition_keys()));
        }
        return Err(
            ConfigError::UnknownField { table: String::from_str("service_definitions"), field: k },
        );
    }
    proof {
        assert forall|key: Seq<char>| m.dom().contains(key) implies
            service_definition_keys().contains(key) by {
            let j = choose|j: int| 0 <= j < allowed@.len() && (#[trigger] allowed@[j])@ == key;
            if j == 0 {
                assert(key == "service_name"@);
            } else if j == 1 {
                assert(key == "function_name"@);
            } else if j == 2 {
                assert(key == "command"@);
            } else if j == 3 {
                assert(key == "interval_s"@);
            } else if j == 4 {
                assert(key == "command_timeout_s"@);
            } else if j == 5 {
                assert(key == "fall"@);
            } else {
                assert(key == "rise"@);
            }
        }
        assert(m.dom().subset_of(service_definition_keys()));
    }
    let tn = "service_definitions";
    let service_name = match require_field(t, tn, "service_name") {
        Ok(v) => match load_string(v, tn, "service_name") {
            Ok(s) => s,
            Err(e) => {
                return Err(e);
            },
        },
        Err(e) => {
            return Err(e);
        },
    };
    let function_name = match require_field(t, tn, "function_name") {
        Ok(v) => match load_string(v, tn, "function_name") {
            Ok(s) => s,
            Err(e) => {
                return Err(e);
            },
        },
        Err(e) => {
            return Err(e);
        },
    };
    let command = match require_field(t, tn, "command") {
        Ok(v) => match load_string_array(v, tn, "command") {
            Ok(c) => c,
            Err(e) => {
                return Err(e);
            },
        },
        Err(e) => {
            return Err(e);
        },
    };
    let interval_s = match require_field(t, tn, "interval_s") {
        Ok(v) => match load_duration(v, tn, "interval_s") {
            Ok(d) => d,
            Err(e) => {
                return Err(e);
            },
        },
        Err(e) => {
            return Err(e);
        },
    };
    let command_timeout_s = match require_field(t, tn, "command_timeout_s") {
        Ok(v) => match load_duration(v, tn, "command_timeout_s") {
            Ok(d) => d,
            Err(e) => {
                return Err(e);
            },
        },
        Err(e) => {
            return Err(e);
        },
    };
    let fall = match require_field(t, tn, "fall") {
        Ok(v) => match load_u32(v, tn, "fall") {
            Ok(n) => n,
            Err(e) => {
                return Err(e);
            },
        },
        Err(e) => {
            return Err(e);
        },
    };
    let rise = match require_field(t, tn, "rise") {
        Ok(v) => match load_u32(v, tn, "rise") {
            Ok(n) => n,
            Err(e) => {
                return Err(e);
            },
        },
        Err(e) => {
            return Err(e);
        },
    };
    Ok(
        raw::ServiceDefinition {
            service_name,
            function_name,
            command,
            interval_s,
            command_timeout_s,
            fall,
            rise,
        },
    )
}

/// Read every `[[service_definitions]]` entry of the document.
fn load_service_list(items: &Vec<toml::Value>) -> (r: Result<
    Vec<raw::ServiceDefinition>,
    ConfigError,
>)
    ensures
        match r {
            Ok(defs) => defs@.len() == items@.len() && forall|i: int|
                0 <= i < items@.len() ==> (match value_model(#[trigger] items@[i]) {
                    TomlValueModel::Table { fields } => spec_service_definition_ok(fields)
                        && spec_raw_def_matches(fields, defs@[i]),
                    _ => false,
                }),
            Err(e) => {
                ||| (e matches ConfigError::WrongType { table, field } && table@ == "config"@
                    && field@ == "service_definitions"@ && exists|i: int|
                    0 <= i < items@.len() && !(value_model(#[trigger] items@[i]) is Table))
                ||| (exists|i: int|
                    #![trigger items@[i]]
                    0 <= i < items@.len() && (match value_model(items@[i]) {
                        TomlValueModel::Table { fields } => !spec_service_definition_ok(fields)
                            && spec_sd_rejection(fields, e),
                        _ => false,
                    }))
            },
        },
{
    let mut defs: Vec<raw::ServiceDefinition> = Vec::new();
    let mut i: usize = 0;
    while i < items.len()
        invariant
            i <= items@.len(),
            defs@.len() == i,
            forall|x: int|
                0 <= x < i ==> (match value_model(#[trigger] items@[x]) {
                    TomlValueModel::Table { fields } => spec_service_definition_ok(fields)
                        && spec_raw_def_matches(fields, defs@[x]),
                    _ => false,
                }),
        decreases items@.len() - i,
    {
        match value_as_table(&items[i]) {
            Some(t) => {
                match load_service_definition(t) {
                    Ok(d) => {
                        defs.push(d);
                    },
                    Err(e) => {
                        return Err(e);
                    },
                }
            },
            None => {
                return Err(
                    ConfigError::WrongType {
                        table: String::from_str("config"),
                        field: String::from_str("service_definitions"),
                    },
                );
            },
        }
        i = i + 1;
    }
    Ok(defs)
}

/// Read a whole raw configuration document from its text.
fn load_raw(s: &str) -> (r: Result<raw::Config, ConfigError>)
    ensures
        match r {
            Ok(rc) => toml_doc(s@) matches Some(doc) && spec_schema_ok(doc)
                && spec_raw_matches_doc(doc, rc),
            Err(e) => spec_rejection(s@, e) && !(toml_doc(s@) matches Some(doc)
                && spec_schema_ok(doc)),
        },
        r is Ok ==> s@.len() != 0,
{
    let root = match parse_table(s) {
        Ok(t) => t,
        Err(e) => {
            return Err(ConfigError::Toml { message: parse_error_message(&e) });
        },
    };
    let ghost doc = table_model(root);
    let allowed: Vec<&str> = vec!["generated_file", "bird_reload", "service_definitions"];
    if let Some(k) = find_unknown_key(&root, &allowed) {
        proof {
            assert((allowed@[0])@ != k@ && (allowed@[1])@ != k@ && (allowed@[2])@ != k@);
            assert(!root_keys().contains(k@));
            assert(!doc.dom().subset_of(root_keys()));
        }
        return Err(ConfigError::UnknownField { table: String::from_str("config"), field: k });
    }
    proof {
        assert forall|key: Seq<char>| doc.dom().contains(key) implies root_keys().contains(
            key,
        ) by {
            let j = choose|j: int| 0 <= j < allowed@.len() && (#[trigger] allowed@[j])@ == key;
            if j == 0 {
                assert(key == "generated_file"@);
            } else if j == 1 {
                assert(key == "bird_reload"@);
            } else {
                assert(key == "service_definitions"@);
            }
        }
        assert(doc.dom().subset_of(root_keys()));
    }
    let generated_file = match require_field(&root, "config", "generated_file") {
        Ok(v) => match value_as_table(v) {
            Some(t) => match load_generated_file(t) {
                Ok(g) => {
                    proof {
                        assert(doc_field(doc, "generated_file"@) == Some(value_model(*v)));
                        assert(value_model(*v) == (TomlValueModel::Table {
                            fields: table_model(*t),
                        }));
                        assert(spec_generated_file_ok(table_model(*t)));
                        assert(spec_raw_gf_matches(table_model(*t), g));
                    }
                    g
                },
                Err(e) => {
                    return Err(e);
                },
            },
            None => {
                return Err(
                    ConfigError::WrongType {
                        table: String::from_str("config"),
                        field: String::from_str("generated_file"),
                    },
                );
            },
        },
        Err(e) => {
            return Err(e);
        },
    };
    let bird_reload = match require_field(&root, "config", "bird_reload") {
        Ok(v) => match value_as_table(v) {
            Some(t) => match load_bird_reload(t) {
                Ok(b) => {
                    proof {
                        assert(doc_field(doc, "bird_reload"@) == Some(value_model(*v)));
                        assert(value_model(*v) == (TomlValueModel::Table {
                            fields: table_model(*t),
                        }));
                        assert(spec_bird_reload_ok(table_model(*t)));
                        assert(spec_raw_br_matches(table_model(*t), b));
                    }
                    b
                },
                Err(e) => {
                    return Err(e);
                },
            },
            None => {
                return Err(
                    ConfigError::WrongType {
                        table: String::from_str("config"),
                        field: String::from_str("bird_reload"),
                    },
                );
            },
        },
        Err(e) => {
            return Err(e);
        },
    };
    let service_definitions = match require_field(&root, "config", "service_definitions") {
        Ok(v) => match value_as_array(v) {
            Some(items) => match load_service_list(items) {
                Ok(defs) => {
                    proof {
                        assert(doc_field(doc, "service_definitions"@) == Some(value_model(*v)));
                        let ms = value_model(*v)->items;
                        assert(sds_of(doc) == ms);
                        assert forall|i: int| 0 <= i < ms.len() implies (match #[trigger] ms[i] {
                            TomlValueModel::Table { fields } => spec_service_definition_ok(fields)
                                && spec_raw_def_matches(fields, defs@[i]),
                            _ => false,
                        }) by {
                            assert(value_model(items@[i]) == ms[i]);
                        }
                    }
                    defs
                },
                Err(e) => {
                    return Err(e);
                },
            },
            None => {
                return Err(
                    ConfigError::WrongType {
                        table: String::from_str("config"),
                        field: String::from_str("service_definitions"),
                    },
                );
            },
        },
        Err(e) => {
            return Err(e);
        },
    };
    proof {
        assert(toml_doc(s@) == Some(doc));
        assert(spec_schema_ok(doc));
        assert(spec_raw_matches_doc(
            doc,
            (raw::Config { generated_file, bird_reload, service_definitions }),
        ));
        // An empty text parses to an empty table, which lacks its required
        // sections; reaching this point means the text was not empty.
        if s@.len() == 0 {
            assert(doc.dom() =~= Set::<Seq<char>>::empty());
            assert(!doc.dom().contains("generated_file"@));
            assert(false);
        }
    }
    Ok(raw::Config { generated_file, bird_reload, service_definitions })
}

// ---------------------------------------------------------------------------
// Bridging the raw layer and the document model.
// ---------------------------------------------------------------------------
/// A first definition error is witnessed by some definition's own error.
proof fn lemma_first_def_error_witness(defs: Seq<raw::ServiceDefinition>)
    ensures
        crate::config::spec_first_def_error(defs) is Some <==> exists|i: int|
            0 <= i < defs.len() && crate::config::spec_def_error(#[trigger] defs[i]) is Some,
        crate::config::spec_first_def_error(defs) is Some ==> exists|i: int|
            0 <= i < defs.len() && crate::config::spec_def_error(#[trigger] defs[i])
                == crate::config::spec_first_def_error(defs),
    decreases defs.len(),
{
    if defs.len() > 0 {
        lemma_first_def_error_witness(defs.drop_first());
        assert(forall|j: int|
            0 <= j < defs.drop_first().len() ==> #[trigger] defs.drop_first()[j] == defs[j + 1]);
        assert(defs[0] == defs.first());
        if exists|i: int|
            0 <= i < defs.len() && crate::config::spec_def_error(#[trigger] defs[i]) is Some {
            let i = choose|i: int|
                0 <= i < defs.len() && crate::config::spec_def_error(#[trigger] defs[i]) is Some;
            if i > 0 {
                assert(crate::config::spec_def_error(defs.drop_first()[i - 1]) is Some);
                assert(exists|x: int|
                    0 <= x < defs.drop_first().len() && crate::config::spec_def_error(
                        #[trigger] defs.drop_first()[x],
                    ) is Some);
            }
        }
        if crate::config::spec_first_def_error(defs) is Some {
            if crate::config::spec_def_error(defs.first()) is Some {
                assert(crate::config::spec_def_error(defs[0])
                    == crate::config::spec_first_def_error(defs));
            } else {
                assert(crate::config::spec_first_def_error(defs.drop_first()) is Some);
                let x = choose|x: int|
                    0 <= x < defs.drop_first().len() && crate::config::spec_def_error(
                        #[trigger] defs.drop_first()[x],
                    ) == crate::config::spec_first_def_error(defs.drop_first());
                assert(crate::config::spec_def_error(defs[x + 1])
                    == crate::config::spec_first_def_error(defs));
            }
        }
    }
}

/// Under the schema, the raw document passes validation exactly when the
/// document does, and a failed validation's first error names a violation
/// of the document.
proof fn lemma_raw_doc_validity(doc: Map<Seq<char>, TomlValueModel>, rc: raw::Config)
    requires
        spec_schema_ok(doc),
        spec_raw_matches_doc(doc, rc),
    ensures
        crate::config::spec_raw_ok(rc) <==> spec_doc_valid(doc),
        !crate::config::spec_raw_ok(rc) ==> spec_validity_rejection(
            doc,
            crate::config::spec_first_error(rc),
        ) && !(crate::config::spec_first_error(rc) is Toml),
{
    let defs = rc.service_definitions@;
    assert(rc.bird_reload.command.deep_view().len() == rc.bird_reload.command@.len());
    assert forall|i: int| 0 <= i < defs.len() implies ((crate::config::spec_def_error(
        #[trigger] defs[i],
    ) is None) <==> {
        let m = sds_of(doc)[i]->fields;
        &&& spec_strings_of(doc_field(m, "command"@)->0)->0.len() > 0
        &&& spec_u32_of(doc_field(m, "fall"@)->0)->0 >= 1
        &&& spec_u32_of(doc_field(m, "rise"@)->0)->0 >= 1
    }) by {
        assert(spec_raw_def_matches(sds_of(doc)[i]->fields, defs[i]));
        assert(defs[i].command.deep_view().len() == defs[i].command@.len());
    }
    if crate::config::spec_raw_ok(rc) {
        assert forall|i: int| 0 <= i < sds_of(doc).len() implies {
            let m = (#[trigger] sds_of(doc)[i])->fields;
            &&& spec_strings_of(doc_field(m, "command"@)->0)->0.len() > 0
            &&& spec_u32_of(doc_field(m, "fall"@)->0)->0 >= 1
            &&& spec_u32_of(doc_field(m, "rise"@)->0)->0 >= 1
        } by {
            assert(crate::config::spec_def_error(defs[i]) is None);
        }
        assert(spec_doc_valid(doc));
    }
    if spec_doc_valid(doc) {
        assert forall|i: int| 0 <= i < defs.len() implies crate::config::spec_def_error(
            #[trigger] defs[i],
        ) is None by {
            assert(0 <= i < sds_of(doc).len());
            assert({
                let m = sds_of(doc)[i]->fields;
                &&& spec_strings_of(doc_field(m, "command"@)->0)->0.len() > 0
                &&& spec_u32_of(doc_field(m, "fall"@)->0)->0 >= 1
                &&& spec_u32_of(doc_field(m, "rise"@)->0)->0 >= 1
            });
        }
        assert(crate::config::spec_raw_ok(rc));
    }
    if !crate::config::spec_raw_ok(rc) {
        let e = crate::config::spec_first_error(rc);
        if rc.bird_reload.command@.len() == 0 {
            assert(e == ConfigError::EmptyReloadCommand);
        } else {
            lemma_first_def_error_witness(defs);
            assert(crate::config::spec_first_def_error(defs) is Some);
            let i = choose|i: int|
                0 <= i < defs.len() && crate::config::spec_def_error(#[trigger] defs[i])
                    == crate::config::spec_first_def_error(defs);
            assert(e == crate::config::spec_def_error(defs[i])->0);
            assert(spec_raw_def_matches(sds_of(doc)[i]->fields, defs[i]));
            assert(defs[i].command.deep_view().len() == defs[i].command@.len());
            if defs[i].command@.len() == 0 {
                assert(e == (ConfigError::EmptyServiceCommand {
                    service_name: defs[i].service_name,
                }));
                assert(spec_validity_rejection(doc, e));
            } else if defs[i].fall < 1 {
                assert(spec_validity_rejection(doc, e));
            } else {
                assert(spec_validity_rejection(doc, e));
            }
        }
    }
}

/// Elaborating a raw configuration that was read off a document yields a
/// configuration that matches the document.
proof fn lemma_elaboration_matches_doc(
    doc: Map<Seq<char>, TomlValueModel>,
    rc: raw::Config,
    c: Config,
)
    requires
        spec_schema_ok(doc),
        spec_raw_matches_doc(doc, rc),
        crate::config::spec_raw_ok(rc),
        crate::config::spec_elaborated(rc, c),
    ensures
        spec_config_matches_doc(doc, c),
{
    let cmds = spec_strings_of(doc_field(br_of(doc), "command"@)->0)->0;
    assert(cmds == rc.bird_reload.command.deep_view());
    assert(c.reload_command@ == (rc.bird_reload.command@[0])@);
    assert(cmds[0] == (rc.bird_reload.command@[0])@);
    assert(c.reload_command_args.deep_view() =~= cmds.skip(1)) by {
        assert(c.reload_command_args@ == rc.bird_reload.command@.skip(1));
        assert forall|j: int| 0 <= j < c.reload_command_args.deep_view().len() implies
            #[trigger] c.reload_command_args.deep_view()[j] == cmds.skip(1)[j] by {
            assert(c.reload_command_args.deep_view()[j] == (c.reload_command_args@[j])@);
            assert(c.reload_command_args@[j] == rc.bird_reload.command@[j + 1]);
            assert(cmds.skip(1)[j] == cmds[j + 1]);
            assert(cmds[j + 1] == (rc.bird_reload.command@[j + 1])@);
        }
    }
    assert forall|i: int| 0 <= i < sds_of(doc).len() implies spec_def_matches_doc(
        sds_of(doc)[i]->fields,
        #[trigger] c.service_definitions@[i],
    ) by {
        let m = sds_of(doc)[i]->fields;
        let rd = rc.service_definitions@[i];
        let cd = c.service_definitions@[i];
        assert(spec_raw_def_matches(m, rd));
        assert(crate::config::spec_elab_def(rd, cd));
        let dcmds = spec_strings_of(doc_field(m, "command"@)->0)->0;
        assert(dcmds == rd.command.deep_view());
        assert(crate::config::spec_def_error(rd) is None);
        assert(rd.command.deep_view().len() == rd.command@.len());
        assert(cd.command@ == (rd.command@[0])@);
        assert(dcmds[0] == (rd.command@[0])@);
        assert(cd.args.deep_view() =~= dcmds.skip(1)) by {
            assert(cd.args@ == rd.command@.skip(1));
            assert forall|j: int| 0 <= j < cd.args.deep_view().len() implies
                #[trigger] cd.args.deep_view()[j] == dcmds.skip(1)[j] by {
                assert(cd.args.deep_view()[j] == (cd.args@[j])@);
                assert(cd.args@[j] == rd.command@[j + 1]);
                assert(dcmds.skip(1)[j] == dcmds[j + 1]);
                assert(dcmds[j + 1] == (rd.command@[j + 1])@);
            }
        }
    }
}

impl Config {
    /// Parse, validate and elaborate a configuration document.
    ///
    /// Succeeds exactly when the text parses and the parsed document is
    /// valid: the schema's three sections with no unknown and no missing
    /// fields, well-typed values, non-empty command lists and thresholds of
    /// at least one.  On success the result is the elaboration of that
    /// document; on failure the error names a violation of it (a syntax
    /// error exactly when the text does not parse).
    pub fn from_string(str: String) -> (r: Result<Config, ConfigError>)
        ensures
            r is Ok <==> spec_doc_accepted(str@),
            r matches Ok(c) ==> spec_config_matches_doc(toml_doc(str@)->0, c),
            r matches Ok(c) ==> crate::config::spec_config_wf(c),
            r matches Err(e) ==> spec_rejection(str@, e),
            str@.len() == 0 ==> r is Err,
    {
        let raw_config = match load_raw(str.as_str()) {
            Ok(rc) => rc,
            Err(e) => {
                return Err(e);
            },
        };
        let ghost rc_g = raw_config;
        let ghost doc = toml_doc(str@)->0;
        proof {
            lemma_raw_doc_validity(doc, rc_g);
        }
        match Config::from_raw(raw_config) {
            Ok(c) => {
                proof {
                    lemma_elaboration_matches_doc(doc, rc_g, c);
                }
                Ok(c)
            },
            Err(e) => {
                proof {
                    assert(e == crate::config::spec_first_error(rc_g));
                    assert(spec_validity_rejection(doc, e));
                    assert(spec_doc_rejection(doc, e));
                }
                Err(e)
            },
        }
    }
}

} // verus!
