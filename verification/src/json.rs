//! JSON documents as `serde_json` reads, builds and writes them.

use vstd::prelude::*;

verus! {

/// The content of a JSON document.
pub enum Json {
    Null,
    Bool(bool),
    /// A whole number that is not negative.
    Unsigned(u64),
    /// A whole number below zero.
    Negative(i64),
    /// Any other number, by the bits of its binary representation.
    Fraction(u64),
    Text(Seq<char>),
    List(Seq<Json>),
    Object(Map<Seq<char>, Json>),
}

impl Json {
    /// The member of an object under a key.
    pub open spec fn get(self, key: Seq<char>) -> Option<Json> {
        match self {
            Json::Object(members) => if members.dom().contains(key) {
                Some(members[key])
            } else {
                None
            },
            _ => None,
        }
    }

    /// The text of a string.
    pub open spec fn as_text(self) -> Option<Seq<char>> {
        match self {
            Json::Text(text) => Some(text),
            _ => None,
        }
    }

    /// The value of a whole number that is not negative.
    pub open spec fn as_unsigned(self) -> Option<u64> {
        match self {
            Json::Unsigned(n) => Some(n),
            _ => None,
        }
    }

    /// The elements of an array.
    pub open spec fn as_list(self) -> Option<Seq<Json>> {
        match self {
            Json::List(items) => Some(items),
            _ => None,
        }
    }

    /// The text of the member under a key.
    pub open spec fn text_at(self, key: Seq<char>) -> Option<Seq<char>> {
        match self.get(key) {
            Some(member) => member.as_text(),
            None => None,
        }
    }

    /// The whole number under a key.
    pub open spec fn unsigned_at(self, key: Seq<char>) -> Option<u64> {
        match self.get(key) {
            Some(member) => member.as_unsigned(),
            None => None,
        }
    }

    /// The array under a key.
    pub open spec fn list_at(self, key: Seq<char>) -> Option<Seq<Json>> {
        match self.get(key) {
            Some(member) => member.as_list(),
            None => None,
        }
    }

    /// Whether the document nests at most `levels` arrays and objects in one another.
    pub open spec fn nests_within(self, levels: nat) -> bool
        decreases levels,
    {
        match self {
            Json::List(items) => levels > 0 && forall|i: int|
                0 <= i < items.len() ==> (#[trigger] items[i]).nests_within((levels - 1) as nat),
            Json::Object(members) => levels > 0 && forall|key: Seq<char>|
                members.dom().contains(key) ==> (#[trigger] members[key]).nests_within(
                    (levels - 1) as nat,
                ),
            _ => true,
        }
    }

    /// Whether the document nests at most `levels` arrays and objects in one another and
    /// holds no number but whole ones.
    pub open spec fn is_plain(self, levels: nat) -> bool
        decreases levels,
    {
        match self {
            Json::Fraction(_) => false,
            Json::Negative(n) => n < 0,
            Json::List(items) => levels > 0 && forall|i: int|
                0 <= i < items.len() ==> (#[trigger] items[i]).is_plain((levels - 1) as nat),
            Json::Object(members) => levels > 0 && members.dom().finite() && forall|key: Seq<char>|
                members.dom().contains(key) ==> (#[trigger] members[key]).is_plain(
                    (levels - 1) as nat,
                ),
            _ => true,
        }
    }

    /// A plain document nests no deeper than it says.
    pub proof fn plain_nests_within(self, levels: nat)
        requires
            self.is_plain(levels),
        ensures
            self.nests_within(levels),
        decreases levels,
    {
        match self {
            Json::List(items) => {
                assert forall|i: int| 0 <= i < items.len() implies (
                #[trigger] items[i]).nests_within((levels - 1) as nat) by {
                    items[i].plain_nests_within((levels - 1) as nat);
                }
            },
            Json::Object(members) => {
                assert forall|key: Seq<char>| members.dom().contains(key) implies (
                #[trigger] members[key]).nests_within((levels - 1) as nat) by {
                    members[key].plain_nests_within((levels - 1) as nat);
                }
            },
            _ => {},
        }
    }

    /// A plain document stays plain when deeper nesting is allowed, and nests no deeper.
    pub proof fn plain_allows_more(self, levels: nat, more: nat)
        requires
            self.is_plain(levels),
            levels <= more,
        ensures
            self.is_plain(more),
            self.nests_within(more),
        decreases levels,
    {
        match self {
            Json::List(items) => {
                assert forall|i: int| 0 <= i < items.len() implies (#[trigger] items[i]).is_plain(
                    (more - 1) as nat,
                ) by {
                    items[i].plain_allows_more((levels - 1) as nat, (more - 1) as nat);
                }
            },
            Json::Object(members) => {
                assert forall|key: Seq<char>| members.dom().contains(key) implies (
                #[trigger] members[key]).is_plain((more - 1) as nat) by {
                    members[key].plain_allows_more((levels - 1) as nat, (more - 1) as nat);
                }
            },
            _ => {},
        }
        self.plain_nests_within(more);
    }
}

/// How deeply documents may nest; `serde_json` reads no deeper.
pub open spec fn max_levels() -> nat {
    127
}

/// A JSON document, `serde_json::Value`.
#[verifier::external_type_specification]
#[verifier::external_body]
pub struct ExValue(serde_json::Value);

/// What a `serde_json::Value` holds.
pub uninterp spec fn document(value: serde_json::Value) -> Json;

/// What `serde_json::from_str` reads a text as, when it is a JSON document.
pub uninterp spec fn parsed(text: Seq<char>) -> Option<Json>;

/// What `serde_json::Value` writes a document as.
pub uninterp spec fn written(document: Json) -> Seq<char>;

/// Calls `serde_json::from_str`, which reads a text as JSON or finds that it is not; which
/// of the two, and what document, depends on the text alone. The parser refuses documents
/// that nest deeper than its limit.
#[verifier::external_body]
pub(crate) fn parse(text: &str) -> (value: Option<serde_json::Value>)
    ensures
        value is Some == parsed(text@) is Some,
        value is Some ==> parsed(text@) == Some(document(value->0)),
        value is Some ==> document(value->0).nests_within(max_levels()),
{
    serde_json::from_str(text).ok()
}

/// Calls `to_string` of `serde_json::Value`. What it writes depends on the document alone.
/// If the document has no fractional number, `serde_json::from_str` reads what was written as
/// that document. Only for documents that nest no deeper than the parser follows.
#[verifier::external_body]
pub(crate) fn write(value: &serde_json::Value) -> (text: String)
    requires
        document(*value).nests_within(max_levels()),
    ensures
        text@ == written(document(*value)),
        document(*value).is_plain(max_levels()) ==> parsed(text@) == Some(document(*value)),
{
    value.to_string()
}

/// Calls `serde_json::Value::get` with a key: the member of an object, if it has it.
#[verifier::external_body]
pub(crate) fn get<'a>(value: &'a serde_json::Value, key: &str) -> (member: Option<&'a serde_json::Value>)
    ensures
        member is Some == document(*value).get(key@) is Some,
        member is Some ==> document(*value).get(key@) == Some(document(*member->0)),
{
    value.get(key)
}

/// `serde_json::Value::as_str` gives the text of a string.
pub assume_specification[ serde_json::Value::as_str ](value: &serde_json::Value) -> (text: Option<
    &str,
>)
    ensures
        text is Some == document(*value).as_text() is Some,
        text is Some ==> document(*value).as_text() == Some(text->0@),
;

/// `serde_json::Value::as_u64` gives the value of a whole number that is not negative.
pub assume_specification[ serde_json::Value::as_u64 ](value: &serde_json::Value) -> (number: Option<
    u64,
>)
    ensures
        number == document(*value).as_unsigned(),
;

/// `serde_json::Value::as_array` gives the elements of an array.
pub assume_specification[ serde_json::Value::as_array ](value: &serde_json::Value) -> (items: Option<
    &Vec<serde_json::Value>,
>)
    ensures
        items is Some == document(*value).as_list() is Some,
        items is Some ==> document(*value).as_list() == Some(
            items->0@.map_values(|item: serde_json::Value| document(item)),
        ),
;

/// Builds `serde_json::Value::Object` of an empty `serde_json::Map`.
#[verifier::external_body]
pub(crate) fn new_object() -> (value: serde_json::Value)
    ensures
        document(value) == Json::Object(Map::empty()),
{
    serde_json::Value::Object(serde_json::Map::new())
}

/// Assigns through the `IndexMut` of `serde_json::Value`, which puts a member into an object.
#[verifier::external_body]
pub(crate) fn set(object: &mut serde_json::Value, key: &str, member: serde_json::Value)
    requires
        document(*old(object)) is Object,
    ensures
        document(*final(object)) == Json::Object(
            document(*old(object))->Object_0.insert(key@, document(member)),
        ),
{
    object[key] = member;
}

/// Builds `serde_json::Value::Array`.
#[verifier::external_body]
pub(crate) fn list(items: Vec<serde_json::Value>) -> (value: serde_json::Value)
    ensures
        document(value) == Json::List(
            items@.map_values(|item: serde_json::Value| document(item)),
        ),
{
    serde_json::Value::Array(items)
}

/// Calls `serde_json::Value::from` on a text.
#[verifier::external_body]
pub(crate) fn text(content: &str) -> (value: serde_json::Value)
    ensures
        document(value) == Json::Text(content@),
{
    serde_json::Value::from(content)
}

/// Calls `serde_json::Value::from` on a signed number.
#[verifier::external_body]
pub(crate) fn integer(n: i64) -> (value: serde_json::Value)
    ensures
        n >= 0 ==> document(value) == Json::Unsigned(n as u64),
        n < 0 ==> document(value) == Json::Negative(n),
{
    serde_json::Value::from(n)
}

/// Calls `serde_json::Value::from` on an unsigned number.
#[verifier::external_body]
pub(crate) fn unsigned(n: u64) -> (value: serde_json::Value)
    ensures
        document(value) == Json::Unsigned(n),
{
    serde_json::Value::from(n)
}

/// Calls `serde_json::Value::from` on a truth value.
#[verifier::external_body]
pub(crate) fn boolean(b: bool) -> (value: serde_json::Value)
    ensures
        document(value) == Json::Bool(b),
{
    serde_json::Value::from(b)
}

/// Reads the text of the member under a key.
pub fn text_at<'a>(value: &'a serde_json::Value, key: &str) -> (text: Option<&'a str>)
    ensures
        text is Some == document(*value).text_at(key@) is Some,
        text is Some ==> document(*value).text_at(key@) == Some(text->0@),
{
    match get(value, key) {
        Some(member) => member.as_str(),
        None => None,
    }
}

/// Reads a copy of the text of the member under a key.
pub fn owned_text_at(value: &serde_json::Value, key: &str) -> (text: Option<String>)
    ensures
        crate::text::text_view(text) == document(*value).text_at(key@),
{
    match text_at(value, key) {
        Some(text) => Some(text.to_owned()),
        None => None,
    }
}

/// Reads the whole number under a key.
pub fn unsigned_at(value: &serde_json::Value, key: &str) -> (number: Option<u64>)
    ensures
        number == document(*value).unsigned_at(key@),
{
    match get(value, key) {
        Some(member) => member.as_u64(),
        None => None,
    }
}

/// Reads the elements of the array under a key.
pub fn list_at<'a>(value: &'a serde_json::Value, key: &str) -> (items: Option<
    &'a Vec<serde_json::Value>,
>)
    ensures
        items is Some == document(*value).list_at(key@) is Some,
        items is Some ==> document(*value).list_at(key@) == Some(
            items->0@.map_values(|item: serde_json::Value| document(item)),
        ),
{
    match get(value, key) {
        Some(member) => member.as_array(),
        None => None,
    }
}

/// An object has the members that it is made of, and no document but an object has any.
pub proof fn members_are_those_of_objects(document: Json, members: Map<Seq<char>, Json>, key: Seq<char>)
    ensures
        Json::Object(members).get(key) == (if members.dom().contains(key) {
            Some(members[key])
        } else {
            None
        }),
        !(document is Object) ==> document.get(key) is None,
{
}

/// A member is text, a whole number or a list exactly if its value is one.
pub proof fn members_have_the_kind_of_their_values(
    document: Json,
    key: Seq<char>,
    text: Seq<char>,
    number: u64,
    items: Seq<Json>,
)
    ensures
        document.text_at(key) == Some(text) <==> document.get(key) == Some(Json::Text(text)),
        document.unsigned_at(key) == Some(number) <==> document.get(key) == Some(
            Json::Unsigned(number),
        ),
        document.list_at(key) == Some(items) <==> document.get(key) == Some(Json::List(items)),
        document.text_at(key) is Some <==> document.get(key) is Some && document.get(key)->0
            is Text,
        document.unsigned_at(key) is Some <==> document.get(key) is Some && document.get(key)->0
            is Unsigned,
        document.list_at(key) is Some <==> document.get(key) is Some && document.get(key)->0
            is List,
{
}

} // verus!
