//! The trusted boundary around toml_edit: the parsed document is opaque to
//! verification, so its feature table is named abstractly and every call into
//! toml_edit carries the contract its source shows.

use vstd::prelude::*;
use crate::manifest::model::FeatureModel;
use crate::manifest::text::views_of;

verus! {

#[verifier::external_type_specification]
#[verifier::external_body]
pub struct ExDocumentMut(toml_edit::DocumentMut);

#[verifier::external_type_specification]
#[verifier::external_body]
pub struct ExTomlError(toml_edit::TomlError);

#[verifier::external_type_specification]
#[verifier::external_body]
pub struct ExIoError(std::io::Error);

#[verifier::external_type_specification]
#[verifier::external_body]
pub struct ExItem(toml_edit::Item);

/// What the document's feature table holds: for each feature name, its
/// dependency strings in document order and the trailing decoration of its
/// array value.
pub uninterp spec fn doc_feature_table(d: toml_edit::DocumentMut) -> Map<Seq<char>, FeatureModel>;

/// Whether the document's `features` key, if present, is a table whose every
/// entry is an array of strings.
pub uninterp spec fn doc_wf(d: toml_edit::DocumentMut) -> bool;

/// The text the document serializes to.
pub uninterp spec fn doc_render(d: toml_edit::DocumentMut) -> Seq<char>;

/// The name of the first feature entry, in document order, that is not an
/// array of strings — or `features` itself where that key is not a table.
/// Meaningful only where `doc_wf` fails.
pub uninterp spec fn doc_bad_feature(d: toml_edit::DocumentMut) -> Seq<char>;

/// Whether the document holds a `features` table (possibly empty).
pub uninterp spec fn doc_has_features(d: toml_edit::DocumentMut) -> bool;

/// Whether the text parses as a TOML document; parsing depends on the text
/// alone.
pub uninterp spec fn toml_parses(s: Seq<char>) -> bool;

/// The feature table of the document the text parses to.
pub uninterp spec fn parsed_table(s: Seq<char>) -> Map<Seq<char>, FeatureModel>;

/// Whether the document the text parses to has a well-shaped feature table.
pub uninterp spec fn parsed_wf(s: Seq<char>) -> bool;

/// The offending feature of the document the text parses to, as
/// `doc_bad_feature` names it.
pub uninterp spec fn parsed_bad_feature(s: Seq<char>) -> Seq<char>;

/// One feature entry as read from the document.
pub struct RawFeature {
    pub name: String,
    pub deps: Vec<String>,
    pub decor: String,
}

/// The entry a raw feature describes.
pub open spec fn raw_model(f: RawFeature) -> FeatureModel {
    FeatureModel { deps: views_of(f.deps@), decor: f.decor@ }
}

/// The table a sequence of raw features describes; a later entry with the
/// same name would win, though read-out never repeats a name.
pub open spec fn table_of(v: Seq<RawFeature>) -> Map<Seq<char>, FeatureModel>
    decreases v.len(),
{
    if v.len() == 0 {
        Map::empty()
    } else {
        table_of(v.drop_last()).insert(v.last().name@, raw_model(v.last()))
    }
}

/// No two raw features carry the same name.
pub open spec fn distinct_names(v: Seq<RawFeature>) -> bool {
    forall|i: int, j: int| 0 <= i < j < v.len() ==> v[i].name@ != v[j].name@
}

/// Relies on toml_edit's FromStr for DocumentMut: parses the text into an
/// editable document that preserves formatting and comments. Parsing is a
/// function of the text alone, so what holds of the document carries over to
/// names over the text.
#[verifier::external_body]
pub fn parse_document(s: &str) -> (r: Result<toml_edit::DocumentMut, toml_edit::TomlError>)
    ensures
        (r is Ok) == toml_parses(s@),
        r matches Ok(d) ==> doc_wf(d) == parsed_wf(s@) && doc_feature_table(d) == parsed_table(s@)
            && doc_bad_feature(d) == parsed_bad_feature(s@),
{
    s.parse::<toml_edit::DocumentMut>()
}

/// Relies on Item::as_array, Value::as_str and Decor::suffix of toml_edit:
/// one entry's dependency strings and trailing decoration, or nothing where
/// the entry is not an array of strings. Carries no contract of its own: it
/// only feeds `read_features`, whose contract covers it.
#[verifier::external_body]
fn read_entry(item: &toml_edit::Item) -> (r: Option<(Vec<String>, String)>) {
    let arr = item.as_array()?;
    let mut deps: Vec<String> = Vec::new();
    for v in arr.iter() {
        deps.push(v.as_str()?.to_owned());
    }
    let decor = item.as_value().and_then(|v| v.decor().suffix()).and_then(|r| r.as_str());
    Some((deps, decor.unwrap_or("").to_owned()))
}

/// Relies on Table::get, Item::as_table and Table::iter of toml_edit: reads
/// the feature table out as plain values, or names the first entry that is
/// not an array of strings.
#[verifier::external_body]
pub fn read_features(d: &toml_edit::DocumentMut) -> (r: Result<Vec<RawFeature>, String>)
    ensures
        r is Ok <==> doc_wf(*d),
        r matches Ok(v) ==> table_of(v@) == doc_feature_table(*d) && distinct_names(v@),
        r matches Err(n) ==> n@ == doc_bad_feature(*d),
{
    let mut out: Vec<RawFeature> = Vec::new();
    let table = match d.get("features") {
        Some(it) => match it.as_table() {
            Some(t) => t,
            None => return Err("features".to_owned()),
        },
        None => return Ok(out),
    };
    for (name, item) in table.iter() {
        match read_entry(item) {
            Some((deps, decor)) => out.push(RawFeature { name: name.to_owned(), deps, decor }),
            None => return Err(name.to_owned()),
        }
    }
    Ok(out)
}

/// Relies on Table::get and Decor::suffix of toml_edit: the trailing
/// decoration of the named entry's value, read as `read_features` reads it.
#[verifier::external_body]
pub fn feature_decor(d: &toml_edit::DocumentMut, name: &str) -> (r: Option<String>)
    requires
        doc_wf(*d),
    ensures
        r matches Some(s) ==> doc_feature_table(*d).dom().contains(name@) && s@
            == doc_feature_table(*d)[name@].decor,
        r is None <==> !doc_feature_table(*d).dom().contains(name@),
{
    let item = d.get("features").and_then(|i| i.as_table()).and_then(|t| t.get(name))?;
    let decor = item.as_value().and_then(|v| v.decor().suffix()).and_then(|r| r.as_str());
    Some(decor.unwrap_or("").to_owned())
}

/// Relies on Table::get and Table::insert of toml_edit: inserts an empty
/// `features` table where the document has none, so that the loaded document
/// always holds one; an existing table is left alone.
#[verifier::external_body]
pub fn ensure_features_table(d: &mut toml_edit::DocumentMut)
    requires
        doc_wf(*old(d)),
    ensures
        doc_wf(*final(d)),
        doc_has_features(*final(d)),
        doc_feature_table(*final(d)) == doc_feature_table(*old(d)),
{
    if !matches!(d.get("features"), Some(toml_edit::Item::Table(_))) {
        d.insert("features", toml_edit::Item::Table(toml_edit::Table::new()));
    }
}

/// Relies on Table::remove of toml_edit: deletes the named entry from the
/// feature table and nothing else.
#[verifier::external_body]
pub fn remove_feature(d: &mut toml_edit::DocumentMut, name: &str)
    requires
        doc_wf(*old(d)),
    ensures
        doc_wf(*final(d)),
        doc_has_features(*old(d)) ==> doc_has_features(*final(d)),
        doc_feature_table(*final(d)) == doc_feature_table(*old(d)).remove(name@),
{
    if let Some(t) = d.get_mut("features").and_then(|i| i.as_table_mut()) {
        t.remove(name);
    }
}

/// Relies on Array::push, Decor::set_suffix and Table::insert of toml_edit:
/// writes the named entry as an array of exactly these strings with this
/// trailing decoration, creating the feature table first if it is absent.
#[verifier::external_body]
pub fn set_feature(d: &mut toml_edit::DocumentMut, name: &str, deps: &Vec<String>, decor: &str)
    requires
        doc_wf(*old(d)),
    ensures
        doc_wf(*final(d)),
        doc_has_features(*final(d)),
        doc_feature_table(*final(d)) == doc_feature_table(*old(d)).insert(
            name@,
            FeatureModel { deps: views_of(deps@), decor: decor@ },
        ),
{
    let mut arr = toml_edit::Array::new();
    for s in deps.iter() {
        arr.push(s.as_str());
    }
    let mut val = toml_edit::Value::Array(arr);
    val.decor_mut().set_suffix(decor);
    if !matches!(d.get("features"), Some(toml_edit::Item::Table(_))) {
        d.insert("features", toml_edit::Item::Table(toml_edit::Table::new()));
    }
    d["features"][name] = toml_edit::Item::Value(val);
}

/// Relies on toml_edit's Display for DocumentMut: serializes the document,
/// preserving all untouched formatting and comments.
#[verifier::external_body]
pub fn render_document(d: &toml_edit::DocumentMut) -> (r: String)
    ensures
        r@ == doc_render(*d),
{
    d.to_string()
}

} // verus!
