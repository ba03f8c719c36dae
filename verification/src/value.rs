//! Loosely typed structured values: placeholder settings, target properties
//! and the structured form of record attributes.

use vstd::prelude::*;
use crate::text::same_text;

verus! {

/// A JSON-like value. Numbers keep their decimal text.
#[derive(Debug)]
pub enum Json {
    Null,
    Bool(bool),
    Number(String),
    Text(String),
    List(Vec<Json>),
    Object(Vec<Member>),
}

/// One `key: value` entry of an object.
#[derive(Debug)]
pub struct Member {
    pub key: String,
    pub value: Json,
}

/// The mathematical content of a `Json`. An object is the list of its
/// entries; where a key stands twice, the first entry is the one that counts.
pub enum JsonView {
    Null,
    Bool(bool),
    Number(Seq<char>),
    Text(Seq<char>),
    List(Seq<JsonView>),
    Object(Seq<(Seq<char>, JsonView)>),
}

impl Json {
    /// The content of the value.
    pub open spec fn content(&self) -> JsonView
        decreases self,
    {
        match self {
            Json::Null => JsonView::Null,
            Json::Bool(flag) => JsonView::Bool(*flag),
            Json::Number(digits) => JsonView::Number(digits@),
            Json::Text(text) => JsonView::Text(text@),
            Json::List(items) => JsonView::List(contents(items@)),
            Json::Object(members) => JsonView::Object(entries(members@)),
        }
    }
}

/// The contents of a list of values, in order.
pub open spec fn contents(items: Seq<Json>) -> Seq<JsonView>
    decreases items,
{
    if items.len() == 0 {
        Seq::empty()
    } else {
        contents(items.drop_last()).push(items.last().content())
    }
}

/// The entries of a list of members, in order.
pub open spec fn entries(members: Seq<Member>) -> Seq<(Seq<char>, JsonView)>
    decreases members,
{
    if members.len() == 0 {
        Seq::empty()
    } else {
        entries(members.drop_last()).push((members.last().key@, members.last().value.content()))
    }
}

impl View for Json {
    type V = JsonView;

    open spec fn view(&self) -> JsonView {
        self.content()
    }
}

/// `contents` keeps length and order.
pub proof fn lemma_contents(items: Seq<Json>)
    ensures
        contents(items).len() == items.len(),
        forall|i: int| 0 <= i < items.len() ==> (#[trigger] contents(items)[i]) == items[i]@,
    decreases items.len(),
{
    if items.len() > 0 {
        lemma_contents(items.drop_last());
    }
}

/// `entries` keeps length and order.
pub proof fn lemma_entries(members: Seq<Member>)
    ensures
        entries(members).len() == members.len(),
        forall|i: int|
            0 <= i < members.len() ==> (#[trigger] entries(members)[i]) == (
                members[i].key@,
                members[i].value@,
            ),
    decreases members.len(),
{
    if members.len() > 0 {
        lemma_entries(members.drop_last());
    }
}

/// The value of the first entry under `key`.
pub open spec fn member_of(members: Seq<(Seq<char>, JsonView)>, key: Seq<char>) -> Option<
    JsonView,
>
    decreases members.len(),
{
    if members.len() == 0 {
        None
    } else if members[0].0 == key {
        Some(members[0].1)
    } else {
        member_of(members.drop_first(), key)
    }
}

/// The index of the first entry under `key`.
pub open spec fn position(members: Seq<(Seq<char>, JsonView)>, key: Seq<char>) -> Option<int>
    decreases members.len(),
{
    if members.len() == 0 {
        None
    } else if members[0].0 == key {
        Some(0)
    } else {
        match position(members.drop_first(), key) {
            Some(i) => Some(i + 1),
            None => None,
        }
    }
}

/// The entries with `key` set to `value`: the first entry under `key` is
/// overwritten in place; without one, the entry is added last.
pub open spec fn with_entry(
    members: Seq<(Seq<char>, JsonView)>,
    key: Seq<char>,
    value: JsonView,
) -> Seq<(Seq<char>, JsonView)> {
    match position(members, key) {
        Some(i) => members.update(i, (key, value)),
        None => members.push((key, value)),
    }
}

impl JsonView {
    /// The value with the member `key` of an object set to `value`; anything
    /// but an object stays as it is.
    pub open spec fn with_member(self, key: Seq<char>, value: JsonView) -> JsonView {
        match self {
            JsonView::Object(members) => JsonView::Object(with_entry(members, key, value)),
            _ => self,
        }
    }

    /// The member under `key` when this is an object that has one.
    pub open spec fn get(self, key: Seq<char>) -> Option<JsonView> {
        match self {
            JsonView::Object(members) => member_of(members, key),
            _ => None,
        }
    }

    /// The value reached by following `path` member by member.
    pub open spec fn follow(self, path: Seq<Seq<char>>) -> Option<JsonView>
        decreases path.len(),
    {
        if path.len() == 0 {
            Some(self)
        } else {
            match self.get(path[0]) {
                Some(inner) => inner.follow(path.drop_first()),
                None => None,
            }
        }
    }
}

/// `member_of` looks no further than the first index that holds `key`.
pub proof fn lemma_member_of_index(members: Seq<(Seq<char>, JsonView)>, key: Seq<char>, i: int)
    requires
        0 <= i < members.len(),
        members[i].0 == key,
        forall|j: int| 0 <= j < i ==> members[j].0 != key,
    ensures
        member_of(members, key) == Some(members[i].1),
    decreases i,
{
    if i > 0 {
        assert(members.drop_first()[i - 1] == members[i]);
        assert forall|j: int| 0 <= j < i - 1 implies members.drop_first()[j].0 != key by {
            assert(members.drop_first()[j] == members[j + 1]);
        }
        lemma_member_of_index(members.drop_first(), key, i - 1);
    }
}

/// `position` is the first index that holds `key`, if there is one.
pub proof fn lemma_position(members: Seq<(Seq<char>, JsonView)>, key: Seq<char>)
    ensures
        match position(members, key) {
            Some(i) => 0 <= i < members.len() && members[i].0 == key && forall|j: int|
                0 <= j < i ==> (#[trigger] members[j]).0 != key,
            None => forall|j: int| 0 <= j < members.len() ==> (#[trigger] members[j]).0 != key,
        },
    decreases members.len(),
{
    if members.len() > 0 && members[0].0 != key {
        let rest = members.drop_first();
        lemma_position(rest, key);
        match position(rest, key) {
            Some(i) => {
                assert forall|j: int| 0 <= j < i + 1 implies (#[trigger] members[j]).0 != key by {
                    if j > 0 {
                        assert(members[j] == rest[j - 1]);
                    }
                }
            },
            None => {
                assert forall|j: int| 0 <= j < members.len() implies (#[trigger] members[j]).0
                    != key by {
                    if j > 0 {
                        assert(members[j] == rest[j - 1]);
                    }
                }
            },
        }
    }
}

/// After a member was set, it is found under its key, and every other key
/// leads to what it led to before.
pub proof fn lemma_with_member(object: JsonView, key: Seq<char>, value: JsonView)
    requires
        object is Object,
    ensures
        object.with_member(key, value) is Object,
        object.with_member(key, value).get(key) == Some(value),
        forall|other: Seq<char>|
            other != key ==> object.with_member(key, value).get(other) == object.get(other),
{
    let before = object->Object_0;
    let after = with_entry(before, key, value);
    lemma_position(before, key);
    match position(before, key) {
        Some(i) => {
            lemma_member_of_index(after, key, i);
            assert forall|other: Seq<char>| other != key implies member_of(after, other)
                == member_of(before, other) by {
                lemma_member_of_update(before, after, i, other);
            }
        },
        None => {
            lemma_member_of_index(after, key, before.len() as int);
            assert forall|other: Seq<char>| other != key implies member_of(after, other)
                == member_of(before, other) by {
                lemma_member_of_push(before, (key, value), other);
            }
        },
    }
}

/// Without `key` among the entries there is nothing to find.
pub proof fn lemma_member_of_absent(members: Seq<(Seq<char>, JsonView)>, key: Seq<char>)
    requires
        forall|j: int| 0 <= j < members.len() ==> members[j].0 != key,
    ensures
        member_of(members, key) is None,
    decreases members.len(),
{
    if members.len() > 0 {
        assert forall|j: int| 0 <= j < members.len() - 1 implies members.drop_first()[j].0
            != key by {
            assert(members.drop_first()[j] == members[j + 1]);
        }
        lemma_member_of_absent(members.drop_first(), key);
    }
}

/// Replacing an entry whose key is not `key` by another such entry leaves
/// the lookup of `key` unchanged.
proof fn lemma_member_of_update(
    before: Seq<(Seq<char>, JsonView)>,
    after: Seq<(Seq<char>, JsonView)>,
    i: int,
    key: Seq<char>,
)
    requires
        0 <= i < before.len(),
        after.len() == before.len(),
        forall|j: int| 0 <= j < before.len() && j != i ==> after[j] == before[j],
        before[i].0 != key,
        after[i].0 != key,
    ensures
        member_of(after, key) == member_of(before, key),
    decreases before.len(),
{
    if i == 0 {
        assert(after.drop_first() =~= before.drop_first());
    } else {
        assert(after[0] == before[0]);
        if before[0].0 != key {
            assert forall|j: int|
                0 <= j < before.len() - 1 && j != i - 1 implies after.drop_first()[j]
                == before.drop_first()[j] by {
                assert(after.drop_first()[j] == after[j + 1]);
                assert(before.drop_first()[j] == before[j + 1]);
            }
            lemma_member_of_update(before.drop_first(), after.drop_first(), i - 1, key);
        }
    }
}

/// An entry added last under another key leaves the lookup of `key` unchanged.
proof fn lemma_member_of_push(
    members: Seq<(Seq<char>, JsonView)>,
    added: (Seq<char>, JsonView),
    key: Seq<char>,
)
    requires
        added.0 != key,
    ensures
        member_of(members.push(added), key) == member_of(members, key),
    decreases members.len(),
{
    if members.len() == 0 {
        assert(members.push(added).drop_first() =~= members);
    } else {
        assert(members.push(added).drop_first() =~= members.drop_first().push(added));
        lemma_member_of_push(members.drop_first(), added, key);
    }
}

/// A parsed JSON tree of `serde_json`, as it comes from the parser. Nothing
/// is known of it but its content.
#[verifier::external_type_specification]
#[verifier::external_body]
pub struct ExJsonTree(serde_json::Value);

/// The document that a JSON text denotes, if it is well formed.
pub uninterp spec fn json_document(text: Seq<char>) -> Option<JsonView>;

/// What a parsed JSON tree holds.
pub uninterp spec fn json_content(tree: serde_json::Value) -> JsonView;

/// Calls `serde_json::from_str` for a `serde_json::Value`. It succeeds on the
/// well-formed texts, and the tree then holds the document of the text; on
/// the others it hands back the parser's message.
#[verifier::external_body]
fn read_json(text: &str) -> (out: Result<serde_json::Value, String>)
    ensures
        out is Ok <==> json_document(text@) is Some,
        out matches Ok(tree) ==> json_document(text@) == Some(json_content(tree)),
{
    match serde_json::from_str::<serde_json::Value>(text) {
        Ok(tree) => Ok(tree),
        Err(error) => Err(error.to_string()),
    }
}

/// Copies a `serde_json::Value` variant by variant; an object's members come
/// in the order in which its map hands them out, a number as its text.
#[verifier::external_body]
fn copy_json(tree: &serde_json::Value) -> (out: Json)
    ensures
        out@ == json_content(*tree),
{
    match tree {
        serde_json::Value::Null => Json::Null,
        serde_json::Value::Bool(flag) => Json::Bool(*flag),
        serde_json::Value::Number(number) => Json::Number(number.to_string()),
        serde_json::Value::String(text) => Json::Text(text.clone()),
        serde_json::Value::Array(items) => Json::List(items.iter().map(copy_json).collect()),
        serde_json::Value::Object(map) => Json::Object(
            map.iter().map(|(key, value)| Member { key: key.clone(), value: copy_json(value) }).collect(),
        ),
    }
}

impl Json {
    /// Parses a JSON text; a text that is not well formed gives the parser's
    /// message.
    pub fn parse(text: &str) -> (out: Result<Json, String>)
        ensures
            out is Ok <==> json_document(text@) is Some,
            out matches Ok(value) ==> json_document(text@) == Some(value@),
    {
        match read_json(text) {
            Ok(tree) => Ok(copy_json(&tree)),
            Err(reason) => Err(reason),
        }
    }

    /// Looks `key` up among the members of an object; anything but an object
    /// has no members.
    pub fn get(&self, key: &str) -> (out: Option<&Json>)
        ensures
            match out {
                Some(found) => self@.get(key@) == Some(found@),
                None => self@.get(key@) is None,
            },
    {
        match self {
            Json::Object(members) => {
                let mut i: usize = 0;
                proof {
                    lemma_entries(members@);
                }
                while i < members.len()
                    invariant
                        i <= members.len(),
                        self@ == JsonView::Object(entries(members@)),
                        entries(members@).len() == members@.len(),
                        forall|j: int|
                            0 <= j < members@.len() ==> (#[trigger] entries(members@)[j]) == (
                                members@[j].key@,
                                members@[j].value@,
                            ),
                        forall|j: int| 0 <= j < i ==> members@[j].key@ != key@,
                    decreases members.len() - i,
                {
                    if same_text(members[i].key.as_str(), key) {
                        proof {
                            lemma_member_of_index(entries(members@), key@, i as int);
                        }
                        return Some(&members[i].value);
                    }
                    i += 1;
                }
                proof {
                    lemma_member_of_absent(entries(members@), key@);
                }
                None
            },
            _ => None,
        }
    }

    /// The text of a string value.
    pub fn as_str(&self) -> (out: Option<&String>)
        ensures
            match self@ {
                JsonView::Text(text) => out matches Some(found) && found@ == text,
                _ => out is None,
            },
    {
        match self {
            Json::Text(text) => Some(text),
            _ => None,
        }
    }

    /// The flag of a boolean value.
    pub fn as_bool(&self) -> (out: Option<bool>)
        ensures
            match self@ {
                JsonView::Bool(flag) => out == Some(flag),
                _ => out is None,
            },
    {
        match self {
            Json::Bool(flag) => Some(*flag),
            _ => None,
        }
    }

    pub fn is_object(&self) -> (out: bool)
        ensures
            out == (self@ is Object),
    {
        match self {
            Json::Object(_) => true,
            _ => false,
        }
    }

    /// A copy that holds the same content.
    #[verifier::loop_isolation(false)]
    pub fn copy(&self) -> (out: Json)
        ensures
            out@ == self@,
        decreases self,
    {
        match self {
            Json::Null => Json::Null,
            Json::Bool(flag) => Json::Bool(*flag),
            Json::Number(digits) => Json::Number(digits.clone()),
            Json::Text(text) => Json::Text(text.clone()),
            Json::List(items) => {
                let mut out: Vec<Json> = Vec::new();
                let mut i: usize = 0;
                while i < items.len()
                    invariant
                        i <= items.len(),
                        out@.len() == i,
                        forall|j: int| 0 <= j < i ==> out@[j]@ == items@[j]@,
                    decreases items.len() - i,
                {
                    out.push(items[i].copy());
                    i += 1;
                }
                proof {
                    lemma_contents(out@);
                    lemma_contents(items@);
                    assert(contents(out@) =~= contents(items@));
                }
                Json::List(out)
            },
            Json::Object(members) => {
                let mut out: Vec<Member> = Vec::new();
                let mut i: usize = 0;
                while i < members.len()
                    invariant
                        i <= members.len(),
                        out@.len() == i,
                        forall|j: int|
                            0 <= j < i ==> out@[j].key@ == members@[j].key@ && out@[j].value@
                                == members@[j].value@,
                    decreases members.len() - i,
                {
                    out.push(Member { key: members[i].key.clone(), value: members[i].value.copy() });
                    i += 1;
                }
                proof {
                    lemma_entries(out@);
                    lemma_entries(members@);
                    assert(entries(out@) =~= entries(members@));
                }
                Json::Object(out)
            },
        }
    }

    /// Sets the member `key` of an object to `value`: the first member under
    /// `key` is overwritten in place; without one, the member is added last.
    /// Anything but an object is handed back unchanged.
    #[verifier::loop_isolation(false)]
    pub fn with_member(self, key: String, value: Json) -> (out: Json)
        ensures
            out@ == self@.with_member(key@, value@),
    {
        match self {
            Json::Object(mut members) => {
                let ghost initial = members@;
                let ghost before = entries(initial);
                proof {
                    lemma_entries(initial);
                    lemma_position(before, key@);
                }
                let mut i: usize = 0;
                while i < members.len()
                    invariant
                        i <= members.len(),
                        members@ == initial,
                        forall|j: int| 0 <= j < i ==> members@[j].key@ != key@,
                    decreases members.len() - i,
                {
                    if same_text(members[i].key.as_str(), key.as_str()) {
                        assert(before[i as int].0 == key@);
                        assert(position(before, key@) == Some(i as int)) by {
                            let first = position(before, key@)->0;
                            if first < i {
                                assert(before[first].0 == members@[first].key@);
                            }
                        }
                        members[i] = Member { key, value };
                        let out = Json::Object(members);
                        proof {
                            lemma_entries(members@);
                            assert(entries(members@) =~= before.update(i as int, (key@, value@)));
                        }
                        return out;
                    }
                    i += 1;
                }
                assert(position(before, key@) is None) by {
                    if position(before, key@) is Some {
                        let first = position(before, key@)->0;
                        assert(before[first].0 == members@[first].key@);
                    }
                }
                members.push(Member { key, value });
                let out = Json::Object(members);
                proof {
                    lemma_entries(members@);
                    assert(entries(members@) =~= before.push((key@, value@)));
                }
                out
            },
            other => other,
        }
    }
}

/// A copy of a list of members with the same entries.
pub fn copy_members(members: &Vec<Member>) -> (out: Vec<Member>)
    ensures
        entries(out@) == entries(members@),
{
    let mut out: Vec<Member> = Vec::new();
    let mut i: usize = 0;
    while i < members.len()
        invariant
            i <= members.len(),
            out@.len() == i,
            forall|j: int|
                0 <= j < i ==> out@[j].key@ == members@[j].key@ && out@[j].value@
                    == members@[j].value@,
        decreases members.len() - i,
    {
        out.push(Member { key: members[i].key.clone(), value: members[i].value.copy() });
        i += 1;
    }
    proof {
        lemma_entries(out@);
        lemma_entries(members@);
        assert(entries(out@) =~= entries(members@));
    }
    out
}

} // verus!
