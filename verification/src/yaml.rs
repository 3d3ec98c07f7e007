//! The YAML values that the build configuration is read from.
use vstd::prelude::*;
use crate::text::str_eq;

verus! {

/// A YAML value: the nodes of a parsed `build.yaml`.
///
/// Mappings keep their entries in document order; strings, numbers and tags are
/// kept as text.
#[derive(Debug)]
pub enum YamlValue {
    Null,
    Bool(bool),
    Number(String),
    Text(String),
    Sequence(Vec<YamlValue>),
    Mapping(Vec<(YamlValue, YamlValue)>),
    Tagged(String, Box<YamlValue>),
}

// ───────────────────────────── serde_yaml ─────────────────────────────

#[verifier::external_type_specification]
#[verifier::external_body]
pub struct ExSerdeYamlValue(serde_yaml::Value);

/// The document that `serde_yaml::from_str` reads from `text`, node for node, if the
/// text is valid YAML.
pub uninterp spec fn yaml_document(text: Seq<char>) -> Option<YamlValue>;

/// Calls `serde_yaml::from_str::<serde_yaml::Value>` and converts the value node for
/// node; `None` when the text is not valid YAML. Claims only that the result is the
/// named document of the text.
#[verifier::external_body]
pub(crate) fn parse_yaml(text: &str) -> (r: Option<YamlValue>)
    ensures
        r == yaml_document(text@),
{
    match serde_yaml::from_str::<serde_yaml::Value>(text) {
        Ok(v) => Some(yaml_value_of(&v)),
        Err(_) => None,
    }
}

/// Converts a `serde_yaml::Value` node for node: each variant to its counterpart,
/// numbers and tags as their text.
#[verifier::external_body]
fn yaml_value_of(v: &serde_yaml::Value) -> YamlValue {
    match v {
        serde_yaml::Value::Null => YamlValue::Null,
        serde_yaml::Value::Bool(b) => YamlValue::Bool(*b),
        serde_yaml::Value::Number(n) => YamlValue::Number(n.to_string()),
        serde_yaml::Value::String(s) => YamlValue::Text(s.clone()),
        serde_yaml::Value::Sequence(items) => YamlValue::Sequence(items.iter().map(yaml_value_of).collect()),
        serde_yaml::Value::Mapping(m) => YamlValue::Mapping(
            m.iter().map(|(k, x)| (yaml_value_of(k), yaml_value_of(x))).collect(),
        ),
        serde_yaml::Value::Tagged(t) => YamlValue::Tagged(t.tag.to_string(), Box::new(yaml_value_of(&t.value))),
    }
}

/// The value under any number of tags.
pub open spec fn untagged(v: YamlValue) -> YamlValue
    decreases v,
{
    match v {
        YamlValue::Tagged(_, inner) => untagged(*inner),
        _ => v,
    }
}

/// The string held by the (untagged) value, if it is a string.
pub open spec fn yaml_str(v: YamlValue) -> Option<Seq<char>> {
    match untagged(v) {
        YamlValue::Text(s) => Some(s@),
        _ => None,
    }
}

/// The items of the (untagged) value, if it is a sequence.
pub open spec fn yaml_items(v: YamlValue) -> Option<Seq<YamlValue>> {
    match untagged(v) {
        YamlValue::Sequence(items) => Some(items@),
        _ => None,
    }
}

/// The entries of the (untagged) value, if it is a mapping.
pub open spec fn yaml_entries(v: YamlValue) -> Option<Seq<(YamlValue, YamlValue)>> {
    match untagged(v) {
        YamlValue::Mapping(entries) => Some(entries@),
        _ => None,
    }
}

/// The value of the first entry whose key is the plain string `key`.
pub open spec fn entry_lookup(entries: Seq<(YamlValue, YamlValue)>, key: Seq<char>) -> Option<YamlValue>
    decreases entries.len(),
{
    if entries.len() == 0 {
        None
    } else if entries[0].0 matches YamlValue::Text(s) && s@ == key {
        Some(entries[0].1)
    } else {
        entry_lookup(entries.drop_first(), key)
    }
}

/// The value under the string key `key`, if the value is a mapping that has it.
pub open spec fn yaml_get(v: YamlValue, key: Seq<char>) -> Option<YamlValue> {
    match yaml_entries(v) {
        Some(entries) => entry_lookup(entries, key),
        None => None,
    }
}

impl YamlValue {
    /// The value under any number of tags.
    pub fn untag(&self) -> (r: &YamlValue)
        ensures
            *r == untagged(*self),
        decreases self,
    {
        match self {
            YamlValue::Tagged(_, inner) => inner.untag(),
            _ => self,
        }
    }

    /// The string this value holds, looking through tags.
    pub fn as_str(&self) -> (r: Option<&String>)
        ensures
            r matches Some(s) ==> yaml_str(*self) == Some(s@),
            r is None ==> yaml_str(*self) is None,
    {
        match self.untag() {
            YamlValue::Text(s) => Some(s),
            _ => None,
        }
    }

    /// The items of this value, looking through tags, if it is a sequence.
    pub fn as_sequence(&self) -> (r: Option<&Vec<YamlValue>>)
        ensures
            r matches Some(items) ==> yaml_items(*self) == Some(items@),
            r is None ==> yaml_items(*self) is None,
    {
        match self.untag() {
            YamlValue::Sequence(items) => Some(items),
            _ => None,
        }
    }

    /// The entries of this value, looking through tags, if it is a mapping.
    pub fn as_mapping(&self) -> (r: Option<&Vec<(YamlValue, YamlValue)>>)
        ensures
            r matches Some(entries) ==> yaml_entries(*self) == Some(entries@),
            r is None ==> yaml_entries(*self) is None,
    {
        match self.untag() {
            YamlValue::Mapping(entries) => Some(entries),
            _ => None,
        }
    }

    /// The value under the string key `key`, if this value is a mapping that has it.
    pub fn get(&self, key: &str) -> (r: Option<&YamlValue>)
        ensures
            r matches Some(x) ==> yaml_get(*self, key@) == Some(*x),
            r is None ==> yaml_get(*self, key@) is None,
    {
        match self.as_mapping() {
            None => None,
            Some(entries) => {
                let mut i: usize = 0;
                assert(entries@.skip(0) =~= entries@);
                while i < entries.len()
                    invariant
                        i <= entries.len(),
                        yaml_entries(*self) == Some(entries@),
                        entry_lookup(entries@, key@) == entry_lookup(entries@.skip(i as int), key@),
                    decreases entries.len() - i,
                {
                    let ghost rest = entries@.skip(i as int);
                    assert(rest[0] == entries@[i as int]);
                    assert(rest.drop_first() =~= entries@.skip(i as int + 1));
                    if let YamlValue::Text(k) = &entries[i].0 {
                        if str_eq(k.as_str(), key) {
                            return Some(&entries[i].1);
                        }
                    }
                    i = i + 1;
                }
                assert(entries@.skip(i as int).len() == 0);
                None
            },
        }
    }
}

} // verus!
