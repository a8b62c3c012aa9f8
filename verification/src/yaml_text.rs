//! YAML text and the library's `Yaml` values: reading a document that must
//! be a mapping, and writing a mapping back out, both through `serde_yaml`.
//! What parsed YAML always is (keys unique in every mapping, every tag
//! named) is stated here as `yaml_wf`, so the laws that need it can ask
//! for it.
use vstd::prelude::*;
use serde_yaml::value::{Tag, TaggedValue};
use serde_yaml::{Mapping, Number, Value};
use crate::yaml::{deep_entries, find, get, insert, lemma_find_bounds, unique_keys, Entries, Yaml, YamlView};

verus! {

#[verifier::external_type_specification]
#[verifier::external_body]
pub struct ExYamlValue(serde_yaml::Value);

/// A well-formed YAML value, as a parsed document always is: every mapping
/// at every depth has unique keys, and every tag has a name.
pub open spec fn yaml_wf(v: YamlView) -> bool
    decreases v,
{
    match v {
        YamlView::List(s) => forall|i: int| 0 <= i < s.len() ==> yaml_wf(#[trigger] s[i]),
        YamlView::Mapping(m) => unique_keys(m) && forall|i: int|
            0 <= i < m.len() ==> yaml_wf(#[trigger] m[i].0) && yaml_wf(m[i].1),
        YamlView::Tagged(t, b) => t.len() > 0 && yaml_wf(*b),
        _ => true,
    }
}

/// A well-formed mapping.
pub open spec fn entries_wf(m: Entries) -> bool {
    yaml_wf(YamlView::Mapping(m))
}

#[verifier::external_type_specification]
#[verifier::external_body]
pub struct ExYamlMapping(serde_yaml::Mapping);

#[verifier::external_type_specification]
#[verifier::external_body]
pub struct ExYamlNumber(serde_yaml::Number);

/// The library's `Yaml` for a `serde_yaml::Number`: the integer it holds
/// (`Number::as_u64`, then `Number::as_i64`), or else its text.
#[verifier::external_body]
fn yaml_of_number(n: &Number) -> Yaml {
    match (n.as_u64(), n.as_i64()) {
        (Some(u), _) => Yaml::PosInt(u),
        (None, Some(i)) => Yaml::NegInt(i),
        (None, None) => Yaml::Float(n.to_string()),
    }
}

/// The library's `Yaml` for a `serde_yaml::Value`, variant by variant; a
/// tag by its text (`!name`).
#[verifier::external_body]
fn yaml_of_value(v: &Value) -> Yaml {
    match v {
        Value::Null => Yaml::Null,
        Value::Bool(b) => Yaml::Bool(*b),
        Value::Number(n) => yaml_of_number(n),
        Value::String(s) => Yaml::Str(s.clone()),
        Value::Sequence(items) => Yaml::List(items.iter().map(yaml_of_value).collect()),
        Value::Mapping(m) => Yaml::Mapping(entries_of_mapping(m)),
        Value::Tagged(t) => Yaml::Tagged(t.tag.to_string(), Box::new(yaml_of_value(&t.value))),
    }
}

/// The entries of a `serde_yaml::Mapping`, in its order.
#[verifier::external_body]
fn entries_of_mapping(m: &Mapping) -> Vec<(Yaml, Yaml)> {
    m.iter().map(|(k, x)| (yaml_of_value(k), yaml_of_value(x))).collect()
}

/// A float's text read back as a `serde_yaml::Number` (`Number::from_str`);
/// text that is no number stays a string.
#[verifier::external_body]
fn number_value(text: &String) -> Value {
    match text.parse::<Number>() {
        Ok(n) => Value::Number(n),
        Err(_) => Value::String(text.clone()),
    }
}

/// A tagged `serde_yaml::Value` (`Tag::new`, which panics on an empty tag).
#[verifier::external_body]
fn tagged_value(tag: &String, value: Value) -> Value {
    Value::Tagged(Box::new(TaggedValue { tag: Tag::new(tag.clone()), value }))
}

/// The `serde_yaml::Value` for the library's `Yaml`, variant by variant.
#[verifier::external_body]
fn value_of_yaml(y: &Yaml) -> Value {
    match y {
        Yaml::Null => Value::Null,
        Yaml::Bool(b) => Value::Bool(*b),
        Yaml::PosInt(u) => Value::Number(Number::from(*u)),
        Yaml::NegInt(i) => Value::Number(Number::from(*i)),
        Yaml::Float(t) => number_value(t),
        Yaml::Str(s) => Value::String(s.clone()),
        Yaml::List(items) => Value::Sequence(items.iter().map(value_of_yaml).collect()),
        Yaml::Mapping(m) => Value::Mapping(mapping_of_entries(m)),
        Yaml::Tagged(t, b) => tagged_value(t, value_of_yaml(b)),
    }
}

/// A `serde_yaml::Mapping` holding these entries, in order.
#[verifier::external_body]
fn mapping_of_entries(m: &Vec<(Yaml, Yaml)>) -> Mapping {
    m.iter().map(|(k, x)| (value_of_yaml(k), value_of_yaml(x))).collect()
}

/// What `serde_yaml::from_str::<Mapping>` reads from `text`, as entries;
/// `None` when it refuses the text.
pub uninterp spec fn yaml_mapping_parse(text: Seq<char>) -> Option<Entries>;

/// `serde_yaml::from_str::<serde_yaml::Mapping>`: the document must be a
/// mapping (an empty document is an empty one). The entries are named
/// `yaml_mapping_parse`. They are well formed: `Mapping`'s `Deserialize`
/// refuses a duplicate key, and nested mappings are read through it too;
/// values `serde_yaml` holds distinct convert to distinct `Yaml` (numbers
/// by kind, tags by `Tag`'s `Display`, which writes `!` and the name, so a
/// tag's text is never empty). The error text is left unsaid.
#[verifier::external_body]
pub(crate) fn parse_yaml_mapping(text: &str) -> (r: Result<Vec<(Yaml, Yaml)>, String>)
    ensures
        match r {
            Ok(m) => yaml_mapping_parse(text@) == Some(deep_entries(m@)) && entries_wf(deep_entries(m@)),
            Err(_) => yaml_mapping_parse(text@) is None,
        },
{
    match serde_yaml::from_str::<Mapping>(text) {
        Ok(m) => Ok(entries_of_mapping(&m)),
        Err(err) => Err(err.to_string()),
    }
}

/// What `serde_yaml::to_string` writes for a mapping with these entries;
/// `None` when it fails.
pub uninterp spec fn yaml_mapping_render(m: Entries) -> Option<Seq<char>>;

/// `serde_yaml::to_string` of the mapping with these entries, named
/// `yaml_mapping_render`. Every tag must have a name (`Tag::new` panics on
/// an empty one).
#[verifier::external_body]
pub(crate) fn render_yaml_mapping(m: &Vec<(Yaml, Yaml)>) -> (r: Result<String, String>)
    requires
        entries_wf(deep_entries(m@)),
    ensures
        match r {
            Ok(s) => yaml_mapping_render(deep_entries(m@)) == Some(s@),
            Err(_) => yaml_mapping_render(deep_entries(m@)) is None,
        },
{
    serde_yaml::to_string(&mapping_of_entries(m)).map_err(|err| err.to_string())
}

/// A value looked up in a well-formed mapping is well formed.
pub proof fn lemma_get_wf(m: Entries, k: YamlView)
    requires
        entries_wf(m),
    ensures
        get(m, k) matches Some(v) ==> yaml_wf(v),
{
    lemma_find_bounds(m, k);
    if let Some(i) = find(m, k) {
        assert(yaml_wf(m[i].1));
    }
}

/// Inserting a well-formed key and value keeps a mapping well formed.
pub proof fn lemma_insert_wf(m: Entries, k: YamlView, v: YamlView)
    requires
        entries_wf(m),
        yaml_wf(k),
        yaml_wf(v),
    ensures
        entries_wf(insert(m, k, v)),
{
    lemma_find_bounds(m, k);
    let r = insert(m, k, v);
    match find(m, k) {
        Some(i) => {
            assert forall|a: int, b: int| 0 <= a < b < r.len() implies r[a].0 != r[b].0 by {
                assert(r[a].0 == m[a].0);
                assert(r[b].0 == m[b].0);
            }
            assert forall|a: int| 0 <= a < r.len() implies yaml_wf(#[trigger] r[a].0) && yaml_wf(r[a].1) by {
                if a != i {
                    assert(r[a] == m[a]);
                }
            }
        },
        None => {
            assert forall|a: int, b: int| 0 <= a < b < r.len() implies r[a].0 != r[b].0 by {
                assert(r[a].0 == m[a].0);
            }
            assert forall|a: int| 0 <= a < r.len() implies yaml_wf(#[trigger] r[a].0) && yaml_wf(r[a].1) by {
                if a < m.len() {
                    assert(r[a] == m[a]);
                }
            }
        },
    }
}

} // verus!
