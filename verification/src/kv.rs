//! Template variables and the visitors that read a record's attributes.

use vstd::prelude::*;
use vstd::string::*;
use crate::record::KeyValue;
use crate::text::texts;
use crate::value::{Json, JsonView};
use crate::kv::dynamic_variables::DynamicVariableVisitor;

pub mod default_structure_dump;
pub mod dynamic_variables;

verus! {

/// A reference to a record attribute inside a template.
#[derive(Debug)]
pub enum Variable {
    /// An attribute key and the member path to follow inside its structure.
    PathVariable(String, Vec<String>),
    /// An attribute key on its own.
    SinglePartVariable(String),
}

/// The marker that stands for a variable without a value.
pub open spec fn spec_undefined() -> Seq<char> {
    "{undefined}"@
}

/// The attribute of `source` under `key`: the last one, should there be
/// several.
pub open spec fn attribute(source: Seq<KeyValue>, key: Seq<char>) -> Option<KeyValue>
    decreases source.len(),
{
    if source.len() == 0 {
        None
    } else if source.last().key@ == key {
        Some(source.last())
    } else {
        attribute(source.drop_last(), key)
    }
}

/// What a structured attribute renders as along `path`: the text found
/// there, the marker where the path leads nowhere or to anything but a text,
/// and a note where the attribute has no structure.
pub open spec fn structured_text(pair: KeyValue, path: Seq<Seq<char>>) -> Seq<char> {
    match pair.structure {
        Ok(value) => match value@.follow(path) {
            Some(JsonView::Text(text)) => text,
            _ => spec_undefined(),
        },
        Err(reason) => "(Unable to parse via serde_json: "@ + reason@ + ")"@,
    }
}

impl Variable {
    /// What the variable renders as against the attributes `source`.
    pub open spec fn spec_value(&self, source: Seq<KeyValue>) -> Seq<char> {
        match self {
            Variable::PathVariable(key, path) => match attribute(source, key@) {
                Some(pair) => structured_text(pair, texts(path@)),
                None => spec_undefined(),
            },
            Variable::SinglePartVariable(key) => match attribute(source, key@) {
                Some(pair) => pair.text@,
                None => spec_undefined(),
            },
        }
    }

    /// Locates the value of the variable among the attributes of a record. A
    /// missing attribute, a path that leads nowhere and a value that is no
    /// text all give the undefined marker.
    pub fn get_value(&self, source: &Vec<KeyValue>) -> (out: String)
        ensures
            out@ == self.spec_value(source@),
    {
        match self {
            Variable::PathVariable(key, path) => {
                match find(source, key.as_str()) {
                    Some(pair) => match &pair.structure {
                        Ok(value) => match follow(value, path) {
                            Some(found) => match found.as_str() {
                                Some(text) => text.clone(),
                                None => undefined(),
                            },
                            None => undefined(),
                        },
                        Err(reason) => {
                            let mut out = String::from_str("(Unable to parse via serde_json: ");
                            out.append(reason.as_str());
                            out.append(")");
                            out
                        },
                    },
                    None => undefined(),
                }
            },
            Variable::SinglePartVariable(key) => {
                match find(source, key.as_str()) {
                    Some(pair) => pair.text.clone(),
                    None => undefined(),
                }
            },
        }
    }
}

/// Walks `path` from `value`, one object member per step.
pub fn follow<'a>(value: &'a Json, path: &Vec<String>) -> (out: Option<&'a Json>)
    ensures
        match out {
            Some(found) => value@.follow(texts(path@)) == Some(found@),
            None => value@.follow(texts(path@)) is None,
        },
{
    let mut current: &'a Json = value;
    let mut i: usize = 0;
    assert(texts(path@).skip(0) =~= texts(path@));
    while i < path.len()
        invariant
            i <= path.len(),
            value@.follow(texts(path@)) == current@.follow(texts(path@).skip(i as int)),
        decreases path.len() - i,
    {
        let ghost rest = texts(path@).skip(i as int);
        assert(rest[0] == path@[i as int]@);
        assert(rest.drop_first() =~= texts(path@).skip(i + 1));
        match current.get(path[i].as_str()) {
            Some(inner) => {
                current = inner;
            },
            None => {
                return None;
            },
        }
        i += 1;
    }
    assert(texts(path@).skip(i as int).len() == 0);
    Some(current)
}

/// Finds the attribute under `key` by showing every attribute of `source`
/// to a visitor.
pub fn find<'a>(source: &'a Vec<KeyValue>, key: &str) -> (out: Option<&'a KeyValue>)
    ensures
        match out {
            Some(pair) => attribute(source@, key@) == Some(*pair),
            None => attribute(source@, key@) is None,
        },
{
    let mut visitor = DynamicVariableVisitor { variable_name: key, option: None };
    let mut i: usize = 0;
    while i < source.len()
        invariant
            i <= source.len(),
            visitor.variable_name@ == key@,
            match visitor.option {
                Some(pair) => attribute(source@.take(i as int), key@) == Some(*pair),
                None => attribute(source@.take(i as int), key@) is None,
            },
        decreases source.len() - i,
    {
        proof {
            assert(source@.take(i + 1).drop_last() =~= source@.take(i as int));
            assert(source@.take(i + 1).last() == source@[i as int]);
        }
        visitor.visit_pair(&source[i]);
        i += 1;
    }
    assert(source@.take(i as int) =~= source@);
    visitor.option
}

/// The undefined marker.
pub fn undefined() -> (out: String)
    ensures
        out@ == spec_undefined(),
{
    String::from_str("{undefined}")
}

impl Variable {
    /// The attribute key that the variable reads.
    pub open spec fn spec_key(&self) -> Seq<char> {
        match self {
            Variable::PathVariable(key, _) => key@,
            Variable::SinglePartVariable(key) => key@,
        }
    }
}

/// Among attributes that lack a key, nothing is found under it.
pub proof fn lemma_attribute_absent(source: Seq<KeyValue>, key: Seq<char>)
    requires
        forall|i: int| 0 <= i < source.len() ==> (#[trigger] source[i]).key@ != key,
    ensures
        attribute(source, key) is None,
    decreases source.len(),
{
    if source.len() > 0 {
        assert(source.last() == source[source.len() - 1]);
        assert forall|i: int| 0 <= i < source.drop_last().len() implies (
        #[trigger] source.drop_last()[i]).key@ != key by {
            assert(source.drop_last()[i] == source[i]);
        }
        lemma_attribute_absent(source.drop_last(), key);
    }
}

/// A variable renders as the undefined marker against every record that
/// lacks the attribute it reads, be it a path variable or a single one.
pub proof fn lemma_missing_attribute_is_undefined(variable: Variable, source: Seq<KeyValue>)
    requires
        forall|i: int| 0 <= i < source.len() ==> (#[trigger] source[i]).key@ != variable.spec_key(),
    ensures
        variable.spec_value(source) == spec_undefined(),
{
    lemma_attribute_absent(source, variable.spec_key());
}

} // verus!
