//! Protocols of plugins, their manifests, and their fingerprints.

use crate::digest::{sha256_digest, sha256_hash};
use crate::keyset::{sort_distinct, texts_rank};
use crate::order::{arranged, arranged_holds, is_arranged, views};
use crate::table::{value_views, value_views_empty, Table};
use crate::text::{hex_text, same_text, to_hex};
use vstd::prelude::*;
use vstd::string::StringSliceAdditionalSpecFns;
use vstd::utf8::encode_utf8;

verus! {

broadcast use {crate::order::group_views, crate::table::value_views_insert};

/// The identity of a protocol.
pub struct IdentityView {
    pub fingerprint: Seq<char>,
}

/// The identity of a protocol: the fingerprint of what is sent over the wire.
#[derive(Debug)]
pub struct ProtocolIdentity {
    pub fingerprint: String,
}

impl View for ProtocolIdentity {
    type V = IdentityView;

    open spec fn view(&self) -> IdentityView {
        IdentityView { fingerprint: self.fingerprint@ }
    }
}

/// A protocol of plugins, told apart from others by its fingerprint.
pub trait PluginProtocol {
    const FINGERPRINT: &'static str;

    /// The identity of the protocol.
    fn identity() -> (identity: ProtocolIdentity)
        ensures
            identity@.fingerprint == Self::FINGERPRINT@,
    {
        ProtocolIdentity { fingerprint: Self::FINGERPRINT.to_owned() }
    }

    /// Whether a plugin with this identity speaks the protocol.
    fn is_compatible(identity: &ProtocolIdentity) -> (compatible: bool)
        ensures
            compatible == (identity@.fingerprint == Self::FINGERPRINT@),
    {
        same_text(identity.fingerprint.as_str(), Self::FINGERPRINT)
    }
}

/// A JSON value.
pub enum JsonView {
    Nothing,
    Bool(bool),
    Number(i64),
    Text(Seq<char>),
    List(Seq<JsonView>),
    Object(Seq<(Seq<char>, JsonView)>),
}

/// A JSON value.
#[derive(Debug)]
pub enum Json {
    Nothing,
    Bool(bool),
    Number(i64),
    Text(String),
    List(Vec<Json>),
    Object(Vec<(String, Json)>),
}

/// What a JSON value holds.
pub open spec fn json_view(json: Json) -> JsonView
    decreases json,
{
    match json {
        Json::Nothing => JsonView::Nothing,
        Json::Bool(value) => JsonView::Bool(value),
        Json::Number(value) => JsonView::Number(value),
        Json::Text(text) => JsonView::Text(text@),
        Json::List(items) => JsonView::List(
            Seq::new(
                items@.len(),
                |i: int|
                    if 0 <= i < items@.len() {
                        json_view(items@[i])
                    } else {
                        JsonView::Nothing
                    },
            ),
        ),
        Json::Object(fields) => JsonView::Object(
            Seq::new(
                fields@.len(),
                |i: int|
                    if 0 <= i < fields@.len() {
                        (fields@[i].0@, json_view(fields@[i].1))
                    } else {
                        (Seq::empty(), JsonView::Nothing)
                    },
            ),
        ),
    }
}

impl View for Json {
    type V = JsonView;

    open spec fn view(&self) -> JsonView {
        json_view(*self)
    }
}

/// What a list of JSON values holds.
proof fn list_view(items: Vec<Json>)
    ensures
        json_view(Json::List(items)) == JsonView::List(views(items@)),
{
    assert(json_view(Json::List(items))->List_0 =~= views(items@));
}

/// What the fields of a JSON object hold.
pub open spec fn field_views(fields: Seq<(String, Json)>) -> Seq<(Seq<char>, JsonView)> {
    fields.map_values(|field: (String, Json)| (field.0@, field.1@))
}

/// What the fields of a JSON object with one more field hold.
proof fn field_views_push(fields: Seq<(String, Json)>, field: (String, Json))
    ensures
        field_views(fields.push(field)) == field_views(fields).push((field.0@, field.1@)),
{
    assert(field_views(fields.push(field)) =~= field_views(fields).push((field.0@, field.1@)));
}

/// What the fields of a JSON object hold.
proof fn object_view(fields: Vec<(String, Json)>)
    ensures
        json_view(Json::Object(fields)) == JsonView::Object(field_views(fields@)),
{
    assert(json_view(Json::Object(fields))->Object_0 =~= field_views(fields@));
}

impl Json {
    /// A list of JSON values.
    pub fn list(items: Vec<Json>) -> (json: Self)
        ensures
            json@ == JsonView::List(views(items@)),
    {
        proof {
            list_view(items);
        }
        Json::List(items)
    }

    /// A JSON object.
    pub fn object(fields: Vec<(String, Json)>) -> (json: Self)
        ensures
            json@ == JsonView::Object(field_views(fields@)),
    {
        proof {
            object_view(fields);
        }
        Json::Object(fields)
    }
}

/// A JSON value that holds the same.
pub fn copy_json(json: &Json) -> (copy: Json)
    ensures
        copy@ == json@,
    decreases json,
{
    match json {
        Json::Nothing => Json::Nothing,
        Json::Bool(value) => Json::Bool(*value),
        Json::Number(value) => Json::Number(*value),
        Json::Text(text) => Json::Text(text.clone()),
        Json::List(items) => {
            let mut copies: Vec<Json> = Vec::new();
            let mut i: usize = 0;
            while i < items.len()
                invariant
                    i <= items@.len(),
                    *json == Json::List(*items),
                    views(copies@) == views(items@.take(i as int)),
                decreases items.len() - i,
            {
                proof {
                    assert(items@.take(i + 1) =~= items@.take(i as int).push(items@[i as int]));
                    assert(decreases_to!(*json => json->List_0));
                    assert(decreases_to!(*items => items@[i as int]));
                }
                copies.push(copy_json(&items[i]));
                i = i + 1;
            }
            proof {
                assert(items@.take(i as int) =~= items@);
                list_view(*items);
            }
            Json::list(copies)
        },
        Json::Object(fields) => {
            let mut copies: Vec<(String, Json)> = Vec::new();
            let mut i: usize = 0;
            while i < fields.len()
                invariant
                    i <= fields@.len(),
                    *json == Json::Object(*fields),
                    field_views(copies@) =~= field_views(fields@.take(i as int)),
                decreases fields.len() - i,
            {
                proof {
                    assert(fields@.take(i + 1) =~= fields@.take(i as int).push(fields@[i as int]));
                    assert(decreases_to!(*json => json->Object_0));
                    assert(decreases_to!(*fields => fields@[i as int]));
                    assert(decreases_to!(fields@[i as int] => fields@[i as int].1));
                }
                let copied = (fields[i].0.clone(), copy_json(&fields[i].1));
                proof {
                    field_views_push(copies@, copied);
                    field_views_push(fields@.take(i as int), fields@[i as int]);
                }
                copies.push(copied);
                i = i + 1;
            }
            proof {
                assert(fields@.take(i as int) =~= fields@);
                object_view(*fields);
            }
            Json::object(copies)
        },
    }
}

/// `serde_json::Value`, a JSON value.
#[verifier::external_type_specification]
#[verifier::external_body]
pub struct ExValue(serde_json::Value);

/// The value of `serde_json` that is built of a JSON value.
pub uninterp spec fn built_value(json: JsonView) -> serde_json::Value;

/// The text that `serde_json::to_string` writes of a value.
pub uninterp spec fn compact_text(value: serde_json::Value) -> Seq<char>;

/// The text that `serde_json::to_string_pretty` writes of a value.
pub uninterp spec fn pretty_text(value: serde_json::Value) -> Seq<char>;

/// The constructors of `serde_json::Value` build a value out of its parts alone.
#[verifier::external_body]
fn build_value(json: &Json) -> (value: serde_json::Value)
    ensures
        value == built_value(json@),
{
    match json {
        Json::Nothing => serde_json::Value::Null,
        Json::Bool(value) => serde_json::Value::Bool(*value),
        Json::Number(value) => serde_json::Value::Number((*value).into()),
        Json::Text(text) => serde_json::Value::String(text.clone()),
        Json::List(items) => serde_json::Value::Array(items.iter().map(build_value).collect()),
        Json::Object(fields) => serde_json::Value::Object(
            fields.iter().map(|field| (field.0.clone(), build_value(&field.1))).collect(),
        ),
    }
}

/// `serde_json::to_string` writes a value as a text without spaces, which depends on the
/// value alone. It does not fail on a `serde_json::Value`, whose keys are texts.
#[verifier::external_body]
pub(crate) fn write_compact(value: &serde_json::Value) -> (text: String)
    ensures
        text@ == compact_text(*value),
{
    serde_json::to_string(value).unwrap()
}

/// `serde_json::to_string_pretty` writes a value as an indented text, which depends on the
/// value alone. It does not fail on a `serde_json::Value`, whose keys are texts.
#[verifier::external_body]
fn write_pretty(value: &serde_json::Value) -> (text: String)
    ensures
        text@ == pretty_text(*value),
{
    serde_json::to_string_pretty(value).unwrap()
}

/// The endpoints of a protocol, by name.
pub struct ManifestView {
    pub optional: Map<Seq<char>, JsonView>,
    pub required: Map<Seq<char>, JsonView>,
}

/// The endpoints of a protocol: those that a plugin must have, and those that it may have.
#[derive(Debug)]
pub struct ProtocolManifest {
    pub optional: Table<String, Json>,
    pub required: Table<String, Json>,
}

impl View for ProtocolManifest {
    type V = ManifestView;

    open spec fn view(&self) -> ManifestView {
        ManifestView {
            optional: value_views(self.optional@),
            required: value_views(self.required@),
        }
    }
}

/// An endpoint: what it takes, and what it gives.
pub open spec fn endpoint_json(inputs: Seq<JsonView>, outputs: Seq<JsonView>) -> JsonView {
    JsonView::Object(
        seq![("inputs"@, JsonView::List(inputs)), ("outputs"@, JsonView::List(outputs))],
    )
}

/// The endpoints, in the order of their names.
pub open spec fn endpoints_json(endpoints: Map<Seq<char>, JsonView>) -> JsonView {
    JsonView::Object(
        arranged::<String>(endpoints.dom()).map_values(
            |name: Seq<char>| (name, endpoints[name]),
        ),
    )
}

/// All endpoints of a protocol.
pub open spec fn protocol_json(manifest: ManifestView) -> JsonView {
    JsonView::Object(
        seq![
            ("required"@, endpoints_json(manifest.required)),
            ("optional"@, endpoints_json(manifest.optional)),
        ],
    )
}

/// The fingerprint of a text: the digits of its SHA-256 digest.
pub open spec fn text_fingerprint(text: Seq<char>) -> Seq<char> {
    hex_text(sha256_digest(encode_utf8(text)))
}

/// The fingerprint of a protocol.
pub open spec fn protocol_fingerprint(manifest: ManifestView) -> Seq<char> {
    text_fingerprint(compact_text(built_value(protocol_json(manifest))))
}

/// A manifest: a protocol with its fingerprint.
pub open spec fn manifest_json(fingerprint: Seq<char>, protocol: JsonView) -> JsonView {
    JsonView::Object(
        seq![("wireFingerprint"@, JsonView::Text(fingerprint)), ("protocol"@, protocol)],
    )
}

/// The text of a manifest.
pub open spec fn manifest_text(manifest: ManifestView) -> Seq<char> {
    pretty_text(
        built_value(manifest_json(protocol_fingerprint(manifest), protocol_json(manifest))),
    ) + "\n"@
}

/// The text that declares a fingerprint.
pub open spec fn constant_text(name: Seq<char>, fingerprint: Seq<char>) -> Seq<char> {
    "// Generated protocol fingerprint.\npub const "@ + name + ": &str =\n    \""@ + fingerprint
        + "\";\n"@
}

/// An endpoint: what it takes, and what it gives.
pub fn endpoint(inputs: Vec<Json>, outputs: Vec<Json>) -> (json: Json)
    ensures
        json@ == endpoint_json(views(inputs@), views(outputs@)),
{
    let mut fields: Vec<(String, Json)> = Vec::new();
    fields.push(("inputs".to_owned(), Json::list(inputs)));
    fields.push(("outputs".to_owned(), Json::list(outputs)));
    assert(field_views(fields@) =~= seq![
        ("inputs"@, JsonView::List(views(inputs@))),
        ("outputs"@, JsonView::List(views(outputs@))),
    ]);
    Json::object(fields)
}

/// The endpoints, in the order of their names.
fn list_endpoints(endpoints: &Table<String, Json>) -> (json: Json)
    ensures
        json@ == endpoints_json(value_views(endpoints@)),
{
    let ghost known = value_views(endpoints@);
    let mut names: Vec<String> = Vec::new();
    let mut i: usize = 0;
    let count = endpoints.len();
    while i < count
        invariant
            i <= count,
            count == endpoints.keys().len(),
            views(names@) =~= endpoints.keys().take(i as int),
        decreases count - i,
    {
        names.push(endpoints.key_at(i).clone());
        i = i + 1;
    }
    proof {
        assert(views(names@) =~= endpoints.keys());
        assert(views(names@).to_set() =~= known.dom());
    }
    let sorted = sort_distinct(&names);
    proof {
        texts_rank();
        arranged_holds::<String>(known.dom());
    }
    let ghost order = arranged::<String>(known.dom());
    let mut fields: Vec<(String, Json)> = Vec::new();
    let mut j: usize = 0;
    while j < sorted.len()
        invariant
            j <= sorted@.len(),
            known == value_views(endpoints@),
            order == arranged::<String>(known.dom()),
            is_arranged::<String>(known.dom(), order),
            views(sorted@) == order,
            field_views(fields@) =~= order.take(j as int).map_values(
                |name: Seq<char>| (name, known[name]),
            ),
        decreases sorted.len() - j,
    {
        let name = &sorted[j];
        proof {
            assert(order[j as int] == name@);
            assert(order.contains(name@));
            assert(order.take(j + 1) =~= order.take(j as int).push(name@));
        }
        if let Some(found) = endpoints.get(name) {
            let field = (name.clone(), copy_json(found));
            proof {
                field_views_push(fields@, field);
            }
            fields.push(field);
        }
        j = j + 1;
    }
    assert(order.take(j as int) =~= order);
    Json::object(fields)
}

/// The fingerprint of a text: the digits of its SHA-256 digest.
pub fn fingerprint(manifest: &str) -> (digits: String)
    ensures
        digits@ == text_fingerprint(manifest@),
{
    let digest = sha256_hash(manifest.as_bytes());
    to_hex(&digest)
}

/// The text that declares a fingerprint.
pub fn render_fingerprint_constant(name: &str, fingerprint: &str) -> (text: String)
    ensures
        text@ == constant_text(name@, fingerprint@),
{
    let mut text = "// Generated protocol fingerprint.\npub const ".to_owned();
    text.append(name);
    text.append(": &str =\n    \"");
    text.append(fingerprint);
    text.append("\";\n");
    text
}

/// What is stale of the files of a protocol.
#[derive(Clone, Copy, PartialEq, Eq, Structural, Debug)]
pub enum ProtocolMismatch {
    /// The manifest is that of another protocol.
    Manifest,
    /// The fingerprint is that of another protocol.
    Fingerprint,
}

impl ProtocolManifest {
    /// A protocol without endpoints.
    pub fn new() -> (manifest: Self)
        ensures
            manifest@ == (ManifestView { optional: Map::empty(), required: Map::empty() }),
    {
        proof {
            value_views_empty::<Seq<char>, Json>();
        }
        ProtocolManifest { optional: Table::new(), required: Table::new() }
    }

    /// The protocol with an endpoint that a plugin may have.
    pub fn optional(self, name: String, inputs: Vec<Json>, outputs: Vec<Json>) -> (manifest: Self)
        ensures
            manifest@ == (ManifestView {
                optional: self@.optional.insert(
                    name@,
                    endpoint_json(views(inputs@), views(outputs@)),
                ),
                ..self@
            }),
    {
        let mut manifest = self;
        manifest.optional.insert(name, endpoint(inputs, outputs));
        manifest
    }

    /// The protocol with an endpoint that a plugin must have.
    pub fn required(self, name: String, inputs: Vec<Json>, outputs: Vec<Json>) -> (manifest: Self)
        ensures
            manifest@ == (ManifestView {
                required: self@.required.insert(
                    name@,
                    endpoint_json(views(inputs@), views(outputs@)),
                ),
                ..self@
            }),
    {
        let mut manifest = self;
        manifest.required.insert(name, endpoint(inputs, outputs));
        manifest
    }

    /// All endpoints.
    pub fn protocol(&self) -> (json: Json)
        ensures
            json@ == protocol_json(self@),
    {
        let mut fields: Vec<(String, Json)> = Vec::new();
        fields.push(("required".to_owned(), list_endpoints(&self.required)));
        fields.push(("optional".to_owned(), list_endpoints(&self.optional)));
        assert(field_views(fields@) =~= seq![
            ("required"@, endpoints_json(self@.required)),
            ("optional"@, endpoints_json(self@.optional)),
        ]);
        Json::object(fields)
    }

    /// The fingerprint of the protocol.
    pub fn fingerprint(&self) -> (digits: String)
        ensures
            digits@ == protocol_fingerprint(self@),
    {
        let value = build_value(&self.protocol());
        fingerprint(write_compact(&value).as_str())
    }

    /// The text of the manifest.
    pub fn render(&self) -> (text: String)
        ensures
            text@ == manifest_text(self@),
    {
        let mut fields: Vec<(String, Json)> = Vec::new();
        fields.push(("wireFingerprint".to_owned(), Json::Text(self.fingerprint())));
        fields.push(("protocol".to_owned(), self.protocol()));
        assert(field_views(fields@) =~= seq![
            ("wireFingerprint"@, JsonView::Text(protocol_fingerprint(self@))),
            ("protocol"@, protocol_json(self@)),
        ]);
        let value = build_value(&Json::object(fields));
        let mut text = write_pretty(&value);
        text.append("\n");
        text
    }

    /// The texts of the files of the protocol: its manifest and its fingerprint.
    pub fn update(&self, constant_name: &str) -> (files: (String, String))
        ensures
            files.0@ == manifest_text(self@),
            files.1@ == constant_text(constant_name@, protocol_fingerprint(self@)),
    {
        let fingerprint = self.fingerprint();
        (self.render(), render_fingerprint_constant(constant_name, fingerprint.as_str()))
    }

    /// Whether files are those of the protocol.
    pub fn verify(&self, manifest: &str, fingerprint: &str, constant_name: &str) -> (verified: Result<
        (),
        ProtocolMismatch,
    >)
        ensures
            match verified {
                Ok(()) => manifest@ == manifest_text(self@) && fingerprint@ == constant_text(
                    constant_name@,
                    protocol_fingerprint(self@),
                ),
                Err(ProtocolMismatch::Manifest) => manifest@ != manifest_text(self@),
                Err(ProtocolMismatch::Fingerprint) => manifest@ == manifest_text(self@)
                    && fingerprint@ != constant_text(constant_name@, protocol_fingerprint(self@)),
            },
    {
        let files = self.update(constant_name);
        if !same_text(manifest, files.0.as_str()) {
            return Err(ProtocolMismatch::Manifest);
        }
        if !same_text(fingerprint, files.1.as_str()) {
            return Err(ProtocolMismatch::Fingerprint);
        }
        Ok(())
    }
}

/// The order in which endpoints are declared does not show.
pub proof fn declarations_commute(
    manifest: Map<Seq<char>, JsonView>,
    a: Seq<char>,
    endpoint_a: JsonView,
    b: Seq<char>,
    endpoint_b: JsonView,
)
    requires
        a != b,
    ensures
        endpoints_json(manifest.insert(a, endpoint_a).insert(b, endpoint_b)) == endpoints_json(
            manifest.insert(b, endpoint_b).insert(a, endpoint_a),
        ),
{
    assert(manifest.insert(a, endpoint_a).insert(b, endpoint_b) =~= manifest.insert(
        b,
        endpoint_b,
    ).insert(a, endpoint_a));
}

} // verus!
