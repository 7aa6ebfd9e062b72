//! The YAML boundary used for front matter. Documents are decoded and
//! re-emitted by `yaml_rust`; values stay opaque here and are only carried
//! between the wrappers below, while all filtering and field extraction is
//! done by verified code in the parser. Each wrapper's result is named, so
//! that what the parser does with these values is a stated function of
//! them: loading, the accessors and emission are all deterministic in
//! their arguments. One caution: `yaml_rust` caps flow-style nesting but
//! loads block-style nesting recursively, so absurdly deep crafted front
//! matter could exhaust the stack and abort the process before any of
//! these contracts apply.

use vstd::prelude::*;

verus! {

/// `yaml_rust`'s document value, carried opaquely.
#[verifier::external_type_specification]
#[verifier::external_body]
pub struct ExYaml(yaml_rust::Yaml);

/// Whether a YAML stream scans without error.
pub uninterp spec fn yaml_scan_ok(s: Seq<char>) -> bool;

/// The documents a YAML stream decodes to, in order.
pub uninterp spec fn yaml_docs_of(s: Seq<char>) -> Seq<yaml_rust::Yaml>;

/// Relies on `yaml_rust::YamlLoader::load_from_str`: decodes a YAML stream
/// into its documents — a function of the text alone — or fails on a scan
/// error.
#[verifier::external_body]
pub fn yaml_load_docs(s: &str) -> (r: Option<Vec<yaml_rust::Yaml>>)
    ensures
        r is Some <==> yaml_scan_ok(s@),
        r matches Some(v) ==> v@ == yaml_docs_of(s@),
{
    yaml_rust::YamlLoader::load_from_str(s).ok()
}

/// Relies on `yaml_rust::Yaml::clone` (derived): a clone is the same
/// value.
#[verifier::external_body]
pub fn yaml_clone(y: &yaml_rust::Yaml) -> (r: yaml_rust::Yaml)
    ensures
        r == *y,
{
    y.clone()
}

/// The text of a string scalar, if the value is one.
pub uninterp spec fn yaml_str_of(y: yaml_rust::Yaml) -> Option<Seq<char>>;

/// Relies on `yaml_rust::Yaml::as_str`: the string form of a scalar
/// string value.
#[verifier::external_body]
pub fn yaml_as_str(y: &yaml_rust::Yaml) -> (r: Option<String>)
    ensures
        match r {
            Some(s) => yaml_str_of(*y) == Some(s@),
            None => yaml_str_of(*y) is None,
        },
{
    y.as_str().map(|s| s.to_owned())
}

/// The value of a boolean scalar, if the value is one.
pub uninterp spec fn yaml_bool_of(y: yaml_rust::Yaml) -> Option<bool>;

/// Relies on `yaml_rust::Yaml::as_bool`: the value of a boolean scalar.
#[verifier::external_body]
pub fn yaml_as_bool(y: &yaml_rust::Yaml) -> (r: Option<bool>)
    ensures
        r == yaml_bool_of(*y),
{
    y.as_bool()
}

/// Whether the value is the YAML null.
pub uninterp spec fn yaml_null_of(y: yaml_rust::Yaml) -> bool;

/// Relies on `yaml_rust::Yaml::is_null`.
#[verifier::external_body]
pub fn yaml_is_null(y: &yaml_rust::Yaml) -> (r: bool)
    ensures
        r == yaml_null_of(*y),
{
    y.is_null()
}

/// The elements of an array value, if the value is one.
pub uninterp spec fn yaml_vec_of(y: yaml_rust::Yaml) -> Option<Seq<yaml_rust::Yaml>>;

/// Relies on `yaml_rust::Yaml::as_vec`: the elements of an array value,
/// in order.
#[verifier::external_body]
pub fn yaml_as_vec(y: &yaml_rust::Yaml) -> (r: Option<Vec<yaml_rust::Yaml>>)
    ensures
        match r {
            Some(v) => yaml_vec_of(*y) == Some(v@),
            None => yaml_vec_of(*y) is None,
        },
{
    y.as_vec().map(|v| v.iter().map(|e| e.clone()).collect())
}

/// The key-value pairs of a mapping value, in document order, if the
/// value is one.
pub uninterp spec fn yaml_entries_of(y: yaml_rust::Yaml) -> Option<
    Seq<(yaml_rust::Yaml, yaml_rust::Yaml)>,
>;

/// Relies on `yaml_rust::Yaml::as_hash`: the key-value pairs of a
/// mapping, in document (insertion) order.
#[verifier::external_body]
pub fn yaml_as_hash_entries(y: &yaml_rust::Yaml) -> (r: Option<Vec<(yaml_rust::Yaml, yaml_rust::Yaml)>>)
    ensures
        match r {
            Some(v) => yaml_entries_of(*y) == Some(v@),
            None => yaml_entries_of(*y) is None,
        },
{
    y.as_hash().map(|h| h.iter().map(|(k, v)| (k.clone(), v.clone())).collect())
}

/// The mapping value built from the given pairs, in order.
pub uninterp spec fn yaml_hash_of(entries: Seq<(yaml_rust::Yaml, yaml_rust::Yaml)>) -> yaml_rust::Yaml;

/// Relies on `yaml_rust::Yaml::Hash` and `LinkedHashMap::from_iter`: a
/// mapping value built from the given pairs, in order.
#[verifier::external_body]
pub fn yaml_hash_from_entries(entries: Vec<(yaml_rust::Yaml, yaml_rust::Yaml)>) -> (r: yaml_rust::Yaml)
    ensures
        r == yaml_hash_of(entries@),
{
    yaml_rust::Yaml::Hash(entries.into_iter().collect())
}

/// One document's rendering, starting with its `---` marker, or nothing
/// on an emit error.
pub uninterp spec fn yaml_emit_of(y: yaml_rust::Yaml) -> Option<Seq<char>>;

/// Relies on `yaml_rust::YamlEmitter::dump`: renders one document,
/// starting with its `---` marker — a function of the value alone — or
/// fails on an emit error.
#[verifier::external_body]
pub fn yaml_emit_doc(y: &yaml_rust::Yaml) -> (r: Option<String>)
    ensures
        match r {
            Some(s) => yaml_emit_of(*y) == Some(s@),
            None => yaml_emit_of(*y) is None,
        },
{
    let mut out = String::new();
    let dumped = yaml_rust::YamlEmitter::new(&mut out).dump(y).is_ok();
    if dumped {
        Some(out)
    } else {
        None
    }
}

} // verus!
