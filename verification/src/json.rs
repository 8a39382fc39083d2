//! JSON documents that configuration carries along.

use crate::text::same_text;
use vstd::prelude::*;

verus! {

/// A JSON document. Numbers keep their source text; the members of an object are in order and
/// have distinct names when the document comes from a parser.
#[derive(Debug, Eq, PartialEq)]
pub enum JsonValue {
    Null,
    Bool(bool),
    Number(String),
    String(String),
    Array(Vec<JsonValue>),
    Object(Vec<(String, JsonValue)>),
}

/// The mathematical content of a [`JsonValue`].
pub enum JsonView {
    Null,
    Bool(bool),
    Number(Seq<char>),
    String(Seq<char>),
    Array(Seq<JsonView>),
    Object(Seq<(Seq<char>, JsonView)>),
}

/// The content of a document.
pub open spec fn json_content(value: JsonValue) -> JsonView
    decreases value,
{
    match value {
        JsonValue::Null => JsonView::Null,
        JsonValue::Bool(value) => JsonView::Bool(value),
        JsonValue::Number(text) => JsonView::Number(text@),
        JsonValue::String(text) => JsonView::String(text@),
        JsonValue::Array(values) => JsonView::Array(array_content(values@)),
        JsonValue::Object(members) => JsonView::Object(object_content(members@)),
    }
}

/// The contents of the elements of an array.
pub open spec fn array_content(values: Seq<JsonValue>) -> Seq<JsonView>
    decreases values,
{
    if values.len() == 0 {
        Seq::empty()
    } else {
        array_content(values.drop_last()).push(json_content(values.last()))
    }
}

/// The contents of the members of an object.
pub open spec fn object_content(members: Seq<(String, JsonValue)>) -> Seq<(Seq<char>, JsonView)>
    decreases members,
{
    if members.len() == 0 {
        Seq::empty()
    } else {
        object_content(members.drop_last()).push(
            (members.last().0@, json_content(members.last().1)),
        )
    }
}

impl View for JsonValue {
    type V = JsonView;

    open spec fn view(&self) -> JsonView {
        json_content(*self)
    }
}

/// The contents of an array, element by element.
proof fn lemma_array_content(values: Seq<JsonValue>)
    ensures
        array_content(values).len() == values.len(),
        forall|i: int|
            0 <= i < values.len() ==> (#[trigger] array_content(values)[i]) == json_content(
                values[i],
            ),
    decreases values.len(),
{
    if values.len() > 0 {
        lemma_array_content(values.drop_last());
    }
}

/// The contents of an object, member by member.
proof fn lemma_object_content(members: Seq<(String, JsonValue)>)
    ensures
        object_content(members).len() == members.len(),
        forall|i: int|
            0 <= i < members.len() ==> (#[trigger] object_content(members)[i]) == (
                members[i].0@,
                json_content(members[i].1),
            ),
    decreases members.len(),
{
    if members.len() > 0 {
        lemma_object_content(members.drop_last());
    }
}

/// The first member called `name`.
pub open spec fn find_member(members: Seq<(Seq<char>, JsonView)>, name: Seq<char>) -> Option<
    JsonView,
>
    decreases members.len(),
{
    if members.len() == 0 {
        None
    } else if members[0].0 == name {
        Some(members[0].1)
    } else {
        find_member(members.drop_first(), name)
    }
}

/// The member called `name` of an object; other documents have no members.
pub open spec fn member_of(value: JsonView, name: Seq<char>) -> Option<JsonView> {
    match value {
        JsonView::Object(members) => find_member(members, name),
        _ => None,
    }
}

/// Whether the document has the shape of a key set: an object whose `keys` is a non-empty array.
pub open spec fn is_key_set(value: JsonView) -> bool {
    member_of(value, "keys"@) matches Some(JsonView::Array(keys)) && keys.len() > 0
}

impl JsonValue {
    /// The member called `name`, if this is an object that has one.
    pub fn get(&self, name: &str) -> (member: Option<&JsonValue>)
        ensures
            match member {
                Some(member) => member_of(self@, name@) == Some(member@),
                None => member_of(self@, name@) is None,
            },
    {
        match self {
            JsonValue::Object(members) => {
                let ghost all = object_content(members@);
                proof {
                    lemma_object_content(members@);
                    assert(all.skip(0) =~= all);
                }
                for i in 0..members.len()
                    invariant
                        all.len() == members@.len(),
                        forall|j: int|
                            0 <= j < members@.len() ==> (#[trigger] all[j]) == (
                                members@[j].0@,
                                json_content(members@[j].1),
                            ),
                        member_of(self@, name@) == find_member(all.skip(i as int), name@),
                {
                    let ghost rest = all.skip(i as int);
                    assert(rest[0] == all[i as int]);
                    if same_text(members[i].0.as_str(), name) {
                        return Some(&members[i].1);
                    }
                    assert(rest.drop_first() =~= all.skip(i + 1));
                }
                None
            },
            _ => None,
        }
    }

    /// Whether this is an object whose `keys` member is a non-empty array.
    pub fn has_keys(&self) -> (yes: bool)
        ensures
            yes == is_key_set(self@),
    {
        match self.get("keys") {
            Some(JsonValue::Array(keys)) => {
                proof {
                    lemma_array_content(keys@);
                }
                keys.len() > 0
            },
            _ => false,
        }
    }
}

fn copy_of(value: &JsonValue) -> (copy: JsonValue)
    ensures
        copy@ == value@,
    decreases *value,
{
    match value {
        JsonValue::Null => JsonValue::Null,
        JsonValue::Bool(value) => JsonValue::Bool(*value),
        JsonValue::Number(text) => JsonValue::Number(text.clone()),
        JsonValue::String(text) => JsonValue::String(text.clone()),
        JsonValue::Array(values) => {
            let mut copies: Vec<JsonValue> = Vec::new();
            assert(array_content(copies@) =~= array_content(values@.take(0)));
            for i in 0..values.len()
                invariant
                    *value == JsonValue::Array(*values),
                    array_content(copies@) == array_content(values@.take(i as int)),
            {
                let ghost before = copies@;
                assert(decreases_to!(*value => value->Array_0));
                assert(decreases_to!(*values => values[i as int]));
                copies.push(copy_of(&values[i]));
                assert(copies@.drop_last() =~= before);
                assert(values@.take(i + 1).drop_last() =~= values@.take(i as int));
            }
            assert(values@.take(values@.len() as int) =~= values@);
            JsonValue::Array(copies)
        },
        JsonValue::Object(members) => {
            let mut copies: Vec<(String, JsonValue)> = Vec::new();
            assert(object_content(copies@) =~= object_content(members@.take(0)));
            for i in 0..members.len()
                invariant
                    *value == JsonValue::Object(*members),
                    object_content(copies@) == object_content(members@.take(i as int)),
            {
                let ghost before = copies@;
                assert(decreases_to!(*value => value->Object_0));
                assert(decreases_to!(*members => members[i as int]));
                assert(decreases_to!(members[i as int] => members[i as int].1));
                copies.push((members[i].0.clone(), copy_of(&members[i].1)));
                assert(copies@.drop_last() =~= before);
                assert(members@.take(i + 1).drop_last() =~= members@.take(i as int));
            }
            assert(members@.take(members@.len() as int) =~= members@);
            JsonValue::Object(copies)
        },
    }
}

impl Clone for JsonValue {
    fn clone(&self) -> (copy: JsonValue)
        ensures
            copy@ == self@,
    {
        copy_of(self)
    }
}

// ---------------------------------------------------------------------------------------------
// Laws
// ---------------------------------------------------------------------------------------------

/// The content of a document is that of its parts: arrays element by element, objects member by
/// member, in their order.
pub proof fn json_content_is_that_of_its_parts(
    flag: bool,
    text: String,
    values: Vec<JsonValue>,
    members: Vec<(String, JsonValue)>,
)
    ensures
        JsonValue::Null@ == JsonView::Null,
        JsonValue::Bool(flag)@ == JsonView::Bool(flag),
        JsonValue::Number(text)@ == JsonView::Number(text@),
        JsonValue::String(text)@ == JsonView::String(text@),
        JsonValue::Array(values)@ matches JsonView::Array(contents) && contents.len() == values@.len()
            && forall|i: int|
            0 <= i < values@.len() ==> #[trigger] contents[i] == values@[i]@,
        JsonValue::Object(members)@ matches JsonView::Object(contents) && contents.len()
            == members@.len() && forall|i: int|
            0 <= i < members@.len() ==> #[trigger] contents[i] == (
                members@[i].0@,
                members@[i].1@,
            ),
{
    lemma_array_content(values@);
    lemma_object_content(members@);
}

/// A document is a key set exactly when it is an object whose first member called `keys` is an
/// array with an element.
pub proof fn key_sets_have_keys(value: JsonView)
    ensures
        is_key_set(value) <==> (value matches JsonView::Object(members) && exists|i: int| {
            &&& 0 <= i < members.len()
            &&& (#[trigger] members[i]).0 == "keys"@
            &&& forall|j: int| 0 <= j < i ==> (#[trigger] members[j]).0 != "keys"@
            &&& members[i].1 matches JsonView::Array(keys) && keys.len() > 0
        }),
{
    if let JsonView::Object(members) = value {
        lemma_find_member(members, "keys"@);
        if is_key_set(value) {
            let i = choose|i: int|
                0 <= i < members.len() && (#[trigger] members[i]).0 == "keys"@ && find_member(
                    members,
                    "keys"@,
                ) == Some(members[i].1) && forall|j: int|
                    0 <= j < i ==> (#[trigger] members[j]).0 != "keys"@;
            assert(members[i].0 == "keys"@);
        }
        if exists|i: int| {
            &&& 0 <= i < members.len()
            &&& (#[trigger] members[i]).0 == "keys"@
            &&& forall|j: int| 0 <= j < i ==> (#[trigger] members[j]).0 != "keys"@
            &&& members[i].1 matches JsonView::Array(keys) && keys.len() > 0
        } {
            let i = choose|i: int| {
                &&& 0 <= i < members.len()
                &&& (#[trigger] members[i]).0 == "keys"@
                &&& forall|j: int| 0 <= j < i ==> (#[trigger] members[j]).0 != "keys"@
                &&& members[i].1 matches JsonView::Array(keys) && keys.len() > 0
            };
            assert(members[i].0 == "keys"@);
            let k = choose|k: int|
                0 <= k < members.len() && (#[trigger] members[k]).0 == "keys"@ && find_member(
                    members,
                    "keys"@,
                ) == Some(members[k].1) && forall|j: int|
                    0 <= j < k ==> (#[trigger] members[j]).0 != "keys"@;
            if k < i {
                assert(members[k].0 != "keys"@);
            }
            if i < k {
                assert(members[i].0 != "keys"@);
            }
        }
    }
}

proof fn lemma_find_member(members: Seq<(Seq<char>, JsonView)>, name: Seq<char>)
    ensures
        find_member(members, name) is None ==> forall|i: int|
            0 <= i < members.len() ==> (#[trigger] members[i]).0 != name,
        find_member(members, name) is Some ==> exists|i: int|
            0 <= i < members.len() && (#[trigger] members[i]).0 == name && find_member(
                members,
                name,
            ) == Some(members[i].1) && forall|j: int|
                0 <= j < i ==> (#[trigger] members[j]).0 != name,
    decreases members.len(),
{
    if members.len() > 0 {
        let rest = members.drop_first();
        lemma_find_member(rest, name);
        if members[0].0 == name {
            assert(members[0].0 == name);
        } else if find_member(rest, name) is None {
            assert forall|i: int| 0 <= i < members.len() implies (#[trigger] members[i]).0
                != name by {
                if i > 0 {
                    assert(rest[i - 1].0 != name);
                }
            }
        } else {
            let i = choose|i: int|
                0 <= i < rest.len() && (#[trigger] rest[i]).0 == name && find_member(rest, name)
                    == Some(rest[i].1) && forall|j: int|
                    0 <= j < i ==> (#[trigger] rest[j]).0 != name;
            assert(members[i + 1].0 == name);
            assert forall|j: int| 0 <= j < i + 1 implies (#[trigger] members[j]).0 != name by {
                if j > 0 {
                    assert(rest[j - 1].0 != name);
                }
            }
        }
    }
}

/// The member of a document under a name is the first of that name in an object; other documents
/// have no members.
pub proof fn members_are_found_by_name(
    value: JsonView,
    name: Seq<char>,
    members: Seq<(Seq<char>, JsonView)>,
    i: int,
)
    ensures
        !(value is Object) ==> member_of(value, name) is None,
        (forall|j: int| 0 <= j < members.len() ==> (#[trigger] members[j]).0 != name) ==> member_of(
            JsonView::Object(members),
            name,
        ) is None,
        0 <= i < members.len() && members[i].0 == name && (forall|j: int|
            0 <= j < i ==> (#[trigger] members[j]).0 != name) ==> member_of(
            JsonView::Object(members),
            name,
        ) == Some(members[i].1),
{
    lemma_find_member(members, name);
    if find_member(members, name) is Some {
        let k = choose|k: int|
            0 <= k < members.len() && (#[trigger] members[k]).0 == name && find_member(members, name)
                == Some(members[k].1) && forall|j: int|
                0 <= j < k ==> (#[trigger] members[j]).0 != name;
        if 0 <= i < members.len() && members[i].0 == name && (forall|j: int|
            0 <= j < i ==> (#[trigger] members[j]).0 != name) {
            if k < i {
                assert(members[k].0 != name);
            }
            if i < k {
                assert(members[i].0 != name);
            }
        }
    } else if 0 <= i < members.len() {
        assert(members[i].0 != name);
    }
}

} // verus!
