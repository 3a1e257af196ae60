//! The JSON values that travel to the relay: filters and request frames.

use vstd::prelude::*;
use vstd::std_specs::cmp::PartialEqSpec;

verus! {

/// A JSON value made of whole numbers, strings, arrays and objects.
///
/// An object lists its members in the order they were written; where a name
/// occurs twice, the later member counts.
#[derive(Debug)]
pub enum Json {
    Number(u64),
    Text(String),
    List(Vec<Json>),
    Object(Vec<Member>),
}

/// One member of a JSON object.
#[derive(Debug)]
pub struct Member {
    pub name: String,
    pub value: Json,
}

/// The meaning of a JSON value: the order of an object's members is gone.
pub enum JsonView {
    Number(u64),
    Text(Seq<char>),
    List(Seq<JsonView>),
    Object(Map<Seq<char>, JsonView>),
}

/// Whether member `i` is the one that counts for `name`.
pub open spec fn counts(members: Seq<Member>, name: Seq<char>, i: int) -> bool {
    &&& 0 <= i < members.len()
    &&& members[i].name@ == name
    &&& forall|j: int| i < j < members.len() ==> members[j].name@ != name
}

/// Whether some member has this name.
pub open spec fn has_member(members: Seq<Member>, name: Seq<char>) -> bool {
    exists|i: int| 0 <= i < members.len() && #[trigger] members[i].name@ == name
}

/// The place of the member that counts for `name`.
pub open spec fn place_of(members: Seq<Member>, name: Seq<char>) -> int {
    choose|i: int| counts(members, name, i)
}

/// The meaning of a JSON value.
pub open spec fn meaning(json: Json) -> JsonView
    decreases json,
{
    match json {
        Json::Number(n) => JsonView::Number(n),
        Json::Text(text) => JsonView::Text(text@),
        Json::List(items) => JsonView::List(
            Seq::new(
                items@.len(),
                |i: int|
                    if 0 <= i < items@.len() {
                        meaning(items@[i])
                    } else {
                        arbitrary()
                    },
            ),
        ),
        Json::Object(members) => JsonView::Object(
            Map::new(
                |name: Seq<char>| has_member(members@, name),
                |name: Seq<char>|
                    {
                        let i = place_of(members@, name);
                        if 0 <= i < members@.len() {
                            meaning(members@[i].value)
                        } else {
                            arbitrary()
                        }
                    },
            ),
        ),
    }
}

impl View for Json {
    type V = JsonView;

    open spec fn view(&self) -> JsonView {
        meaning(*self)
    }
}

/// The members of an object, each by its meaning.
pub proof fn lemma_object_view(members: Vec<Member>)
    ensures
        Json::Object(members)@ is Object,
        forall|name: Seq<char>| #[trigger]
            Json::Object(members)@->Object_0.contains_key(name) <==> has_member(members@, name),
        forall|name: Seq<char>| #[trigger]
            Json::Object(members)@->Object_0.contains_key(name)
                ==> Json::Object(members)@->Object_0[name] == members@[place_of(
                members@,
                name,
            )].value@,
{
    assert forall|name: Seq<char>| #[trigger]
        Json::Object(members)@->Object_0.contains_key(name) implies Json::Object(
        members,
    )@->Object_0[name] == members@[place_of(members@, name)].value@ by {
        lemma_place_of(members@, name);
    }
}

/// A member with a given name exists exactly when one of them counts.
pub proof fn lemma_place_of(members: Seq<Member>, name: Seq<char>)
    ensures
        has_member(members, name) <==> counts(members, name, place_of(members, name)),
{
    if has_member(members, name) {
        lemma_some_member_counts(members, name, members.len() as int);
    }
}

/// At most one member counts for a name.
proof fn lemma_counts_once(members: Seq<Member>, name: Seq<char>, i: int, j: int)
    requires
        counts(members, name, i),
        counts(members, name, j),
    ensures
        i == j,
{
    if i < j {
        assert(members[j].name@ != name);
    } else if j < i {
        assert(members[i].name@ != name);
    }
}

/// Which member counts depends on the names alone.
proof fn lemma_place_by_names(a: Seq<Member>, b: Seq<Member>, name: Seq<char>)
    requires
        a.len() == b.len(),
        forall|i: int| 0 <= i < a.len() ==> (#[trigger] a[i]).name@ == b[i].name@,
    ensures
        has_member(a, name) == has_member(b, name),
        has_member(a, name) ==> place_of(a, name) == place_of(b, name),
{
    lemma_place_of(a, name);
    lemma_place_of(b, name);
    if has_member(a, name) {
        let i = place_of(a, name);
        assert(a[i].name@ == b[i].name@);
        assert(has_member(b, name));
        assert forall|j: int| i < j < b.len() implies b[j].name@ != name by {
            assert(a[j].name@ != name);
        }
        assert(counts(b, name, i));
        lemma_counts_once(b, name, i, place_of(b, name));
    }
    if has_member(b, name) {
        let i = choose|i: int| 0 <= i < b.len() && #[trigger] b[i].name@ == name;
        assert(a[i].name@ == name);
    }
}

/// Searching downwards from `upto`, above which no member has the name, finds
/// the member that counts.
proof fn lemma_some_member_counts(members: Seq<Member>, name: Seq<char>, upto: int)
    requires
        0 <= upto <= members.len(),
        has_member(members, name),
        forall|j: int| upto <= j < members.len() ==> members[j].name@ != name,
    ensures
        exists|i: int| counts(members, name, i),
    decreases upto,
{
    if upto > 0 {
        if members[upto - 1].name@ == name {
            assert(counts(members, name, upto - 1));
        } else {
            lemma_some_member_counts(members, name, upto - 1);
        }
    }
}

/// Finds the member of an object that counts for `name`.
fn find_member(members: &Vec<Member>, name: &String) -> (found: Option<usize>)
    ensures
        match found {
            Some(i) => counts(members@, name@, i as int) && i == place_of(members@, name@),
            None => !has_member(members@, name@),
        },
{
    let mut i: usize = members.len();
    while i > 0
        invariant
            i <= members.len(),
            forall|j: int| i <= j < members.len() ==> members[j].name@ != name@,
        decreases i,
    {
        i = i - 1;
        if members[i].name == *name {
            assert(counts(members@, name@, i as int));
            proof {
                lemma_place_of(members@, name@);
                lemma_counts_once(members@, name@, i as int, place_of(members@, name@));
            }
            return Some(i);
        }
    }
    None
}

impl Json {
    /// Copies the value.
    pub fn duplicate(&self) -> (copy: Json)
        ensures
            copy@ == self@,
        decreases self,
    {
        match self {
            Json::Number(n) => Json::Number(*n),
            Json::Text(text) => Json::Text(text.clone()),
            Json::List(items) => {
                let mut copies: Vec<Json> = Vec::new();
                let mut i: usize = 0;
                while i < items.len()
                    invariant
                        self is List,
                        self->List_0 == *items,
                        i <= items.len(),
                        copies.len() == i,
                        forall|j: int| 0 <= j < i ==> (#[trigger] copies@[j])@ == items@[j]@,
                    decreases items.len() - i,
                {
                    assert(decreases_to!(*self => items@[i as int]));
                    copies.push(items[i].duplicate());
                    i = i + 1;
                }
                let copy = Json::List(copies);
                assert(copy@->List_0 =~= self@->List_0);
                copy
            },
            Json::Object(members) => {
                let mut copies: Vec<Member> = Vec::new();
                let mut i: usize = 0;
                while i < members.len()
                    invariant
                        self is Object,
                        self->Object_0 == *members,
                        i <= members.len(),
                        copies.len() == i,
                        forall|j: int|
                            0 <= j < i ==> (#[trigger] copies@[j]).name == members@[j].name
                                && copies@[j].value@ == members@[j].value@,
                    decreases members.len() - i,
                {
                    assert(decreases_to!(*self => members@[i as int].value));
                    let value = members[i].value.duplicate();
                    copies.push(Member { name: members[i].name.clone(), value });
                    i = i + 1;
                }
                let copy = Json::Object(copies);
                proof {
                    lemma_object_view(copies);
                    lemma_object_view(*members);
                    assert forall|name: Seq<char>| #[trigger]
                        copy@->Object_0.contains_key(name) == self@->Object_0.contains_key(name)
                            && (self@->Object_0.contains_key(name) ==> copy@->Object_0[name]
                            == self@->Object_0[name]) by {
                        lemma_place_by_names(copies@, members@, name);
                        lemma_place_of(copies@, name);
                    }
                    assert(copy@->Object_0 =~= self@->Object_0);
                }
                copy
            },
        }
    }

    /// Whether two values mean the same: equal numbers, equal strings, equal
    /// arrays item by item, or objects with the same members in any order.
    pub fn same_as(&self, other: &Json) -> (same: bool)
        ensures
            same == (self@ == other@),
        decreases self,
    {
        match (self, other) {
            (Json::Number(a), Json::Number(b)) => *a == *b,
            (Json::Text(a), Json::Text(b)) => *a == *b,
            (Json::List(a), Json::List(b)) => {
                if a.len() != b.len() {
                    assert(self@->List_0.len() != other@->List_0.len());
                    return false;
                }
                let mut i: usize = 0;
                while i < a.len()
                    invariant
                        self is List,
                        self->List_0 == *a,
                        other is List,
                        other->List_0 == *b,
                        a.len() == b.len(),
                        i <= a.len(),
                        forall|j: int| 0 <= j < i ==> (#[trigger] a@[j])@ == b@[j]@,
                    decreases a.len() - i,
                {
                    assert(decreases_to!(*self => a@[i as int]));
                    if !a[i].same_as(&b[i]) {
                        assert(self@->List_0[i as int] != other@->List_0[i as int]);
                        return false;
                    }
                    i = i + 1;
                }
                assert(self@->List_0 =~= other@->List_0);
                true
            },
            (Json::Object(a), Json::Object(b)) => {
                let mut i: usize = 0;
                while i < a.len()
                    invariant
                        self is Object,
                        self->Object_0 == *a,
                        other is Object,
                        other->Object_0 == *b,
                        i <= a.len(),
                        forall|j: int|
                            0 <= j < i ==> {
                                let name = (#[trigger] a@[j]).name@;
                                &&& other@->Object_0.contains_key(name)
                                &&& other@->Object_0[name] == self@->Object_0[name]
                            },
                    decreases a.len() - i,
                {
                    proof {
                        lemma_object_view(*a);
                        lemma_object_view(*b);
                    }
                    let name = &a[i].name;
                    assert(has_member(a@, name@));
                    assert(self@->Object_0.contains_key(name@));
                    match (find_member(a, name), find_member(b, name)) {
                        (Some(at), Some(bt)) => {
                            assert(decreases_to!(*self => a@[at as int].value));
                            if !a[at].value.same_as(&b[bt].value) {
                                return false;
                            }
                        },
                        _ => {
                            return false;
                        },
                    }
                    i = i + 1;
                }
                let mut i: usize = 0;
                while i < b.len()
                    invariant
                        self is Object,
                        self->Object_0 == *a,
                        other is Object,
                        other->Object_0 == *b,
                        i <= b.len(),
                        forall|j: int| 0 <= j < i ==> has_member(a@, (#[trigger] b@[j]).name@),
                    decreases b.len() - i,
                {
                    proof {
                        lemma_object_view(*a);
                        lemma_object_view(*b);
                    }
                    let name = &b[i].name;
                    assert(has_member(b@, name@));
                    if find_member(a, name).is_none() {
                        assert(other@->Object_0.contains_key(name@));
                        assert(!self@->Object_0.contains_key(name@));
                        return false;
                    }
                    i = i + 1;
                }
                proof {
                    lemma_object_view(*a);
                    lemma_object_view(*b);
                    assert forall|name: Seq<char>|
                        self@->Object_0.contains_key(name) == other@->Object_0.contains_key(name)
                            && (self@->Object_0.contains_key(name)
                            ==> #[trigger] self@->Object_0[name] == other@->Object_0[name]) by {
                        if has_member(a@, name) {
                            let j = choose|j: int|
                                0 <= j < a@.len() && #[trigger] a@[j].name@ == name;
                            assert(other@->Object_0.contains_key(a@[j].name@));
                        }
                        if has_member(b@, name) {
                            let j = choose|j: int|
                                0 <= j < b@.len() && #[trigger] b@[j].name@ == name;
                            assert(has_member(a@, b@[j].name@));
                        }
                    }
                    assert(self@->Object_0 =~= other@->Object_0);
                }
                true
            },
            _ => false,
        }
    }
}

impl Clone for Json {
    fn clone(&self) -> (copy: Json)
        ensures
            copy@ == self@,
    {
        self.duplicate()
    }
}

impl PartialEq for Json {
    fn eq(&self, other: &Json) -> (same: bool) {
        self.same_as(other)
    }
}

impl vstd::std_specs::cmp::PartialEqSpecImpl for Json {
    open spec fn obeys_eq_spec() -> bool {
        true
    }

    open spec fn eq_spec(&self, other: &Json) -> bool {
        self@ == other@
    }
}

/// A number means itself, and a text means its characters.
pub proof fn law_numbers_and_texts_mean_themselves(number: u64, text: String)
    ensures
        Json::Number(number)@ == JsonView::Number(number),
        Json::Text(text)@ == JsonView::Text(text@),
{
}

/// An array means its items, all of them and in their order.
pub proof fn law_array_means_its_items(items: Vec<Json>)
    ensures
        Json::List(items)@ is List,
        Json::List(items)@->List_0.len() == items@.len(),
        forall|i: int|
            0 <= i < items@.len() ==> #[trigger] Json::List(items)@->List_0[i] == items@[i]@,
{
}

/// An object has the names of its members and no others, and under each name
/// the value of the last member with that name.
pub proof fn law_object_means_its_members(members: Vec<Member>)
    ensures
        Json::Object(members)@ is Object,
        forall|name: Seq<char>| #[trigger]
            Json::Object(members)@->Object_0.contains_key(name) <==> exists|i: int|
                0 <= i < members@.len() && #[trigger] members@[i].name@ == name,
        forall|i: int|
            0 <= i < members@.len() && (forall|j: int|
                i < j < members@.len() ==> #[trigger] members@[j].name@ != members@[i].name@)
                ==> Json::Object(members)@->Object_0[(#[trigger] members@[i]).name@]
                == members@[i].value@,
{
    lemma_object_view(members);
    let object = Json::Object(members)@->Object_0;
    assert forall|i: int|
        0 <= i < members@.len() && (forall|j: int|
            i < j < members@.len() ==> #[trigger] members@[j].name@
                != members@[i].name@) implies object[(#[trigger] members@[i]).name@]
        == members@[i].value@ by {
        let name = members@[i].name@;
        assert(has_member(members@, name));
        assert(object.contains_key(name));
        lemma_place_of(members@, name);
        assert(counts(members@, name, i));
        lemma_counts_once(members@, name, i, place_of(members@, name));
    }
}

/// Two values compare as equal exactly when they mean the same.
pub proof fn law_equal_values_mean_the_same(a: Json, b: Json)
    ensures
        a.eq_spec(&b) <==> a@ == b@,
        a.eq_spec(&b) <==> b.eq_spec(&a),
        a.eq_spec(&a),
{
}

} // verus!
