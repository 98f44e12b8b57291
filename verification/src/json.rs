//! Structured values as manifests and settings hold them.
use crate::sorted;
use crate::table;
use crate::table::TextMap;
use crate::text;
use crate::value::Value;
use vstd::prelude::*;
use vstd::string::*;

verus! {

/// A structured value. A number is kept as it is written. Of two fields with
/// one name the first counts.
#[derive(Debug)]
pub enum Json {
    Null,
    Bool(bool),
    Number(String),
    Text(String),
    List(Vec<Json>),
    Object(Vec<(String, Json)>),
}

/// The mathematical value of a [`Json`]: the order of an object's fields does
/// not count.
pub enum JsonModel {
    Null,
    Bool(bool),
    Number(Seq<char>),
    Text(Seq<char>),
    List(Seq<JsonModel>),
    Object(Map<Seq<char>, JsonModel>),
}

/// The values that a list of structured values stands for.
pub open spec fn list_model(items: Seq<Json>) -> Seq<JsonModel>
    decreases items,
{
    if items.len() == 0 {
        Seq::empty()
    } else {
        list_model(items.drop_last()).push(json_model(items.last()))
    }
}

/// The map that a list of fields stands for.
pub open spec fn fields_model(fields: Seq<(String, Json)>) -> Map<Seq<char>, JsonModel>
    decreases fields,
{
    if fields.len() == 0 {
        Map::empty()
    } else {
        let first = fields_model(fields.drop_last());
        let (name, value) = fields.last();
        if first.dom().contains(name@) {
            first
        } else {
            first.insert(name@, json_model(value))
        }
    }
}

/// What a structured value stands for.
pub open spec fn json_model(json: Json) -> JsonModel
    decreases json,
{
    match json {
        Json::Null => JsonModel::Null,
        Json::Bool(b) => JsonModel::Bool(b),
        Json::Number(s) => JsonModel::Number(s@),
        Json::Text(s) => JsonModel::Text(s@),
        Json::List(items) => JsonModel::List(list_model(items@)),
        Json::Object(fields) => JsonModel::Object(fields_model(fields@)),
    }
}

impl DeepView for Json {
    type V = JsonModel;

    open spec fn deep_view(&self) -> JsonModel {
        json_model(*self)
    }
}

pub proof fn lemma_list_model(items: Seq<Json>)
    ensures
        list_model(items).len() == items.len(),
        forall|i: int| 0 <= i < items.len() ==> list_model(items)[i] == json_model(items[i]),
    decreases items.len(),
{
    if items.len() > 0 {
        lemma_list_model(items.drop_last());
    }
}

/// The field of the map is the first one with its name.
pub proof fn lemma_fields_model(fields: Seq<(String, Json)>, name: Seq<char>)
    ensures
        fields_model(fields).dom().contains(name) <==> exists|i: int|
            0 <= i < fields.len() && (#[trigger] fields[i]).0@ == name,
        forall|i: int|
            0 <= i < fields.len() && (#[trigger] fields[i]).0@ == name && (forall|j: int|
                0 <= j < i ==> (#[trigger] fields[j]).0@ != name) ==> fields_model(fields)[name]
                == json_model(fields[i].1),
    decreases fields.len(),
{
    if fields.len() > 0 {
        let n = fields.len() - 1;
        let rest = fields.drop_last();
        lemma_fields_model(rest, name);
        assert(forall|i: int| 0 <= i < n ==> rest[i] == fields[i]);
        if fields_model(rest).dom().contains(name) {
            let k = choose|i: int| 0 <= i < rest.len() && (#[trigger] rest[i]).0@ == name;
            assert(fields[k].0@ == name);
        } else {
            assert forall|i: int| 0 <= i < n implies (#[trigger] fields[i]).0@ != name by {
                assert(rest[i] == fields[i]);
            }
            if fields_model(fields).dom().contains(name) {
                assert(fields[n].0@ == name);
            }
        }
        assert forall|i: int|
            0 <= i < fields.len() && (#[trigger] fields[i]).0@ == name && (forall|j: int|
                0 <= j < i ==> (#[trigger] fields[j]).0@ != name) implies fields_model(fields)[name]
            == json_model(fields[i].1) by {
            if i < n {
                assert(rest[i].0@ == name);
                assert forall|j: int| 0 <= j < i implies (#[trigger] rest[j]).0@ != name by {
                    assert(rest[j] == fields[j]);
                }
            } else {
                assert(fields[n].0@ == name);
            }
        }
    }
}

proof fn lemma_field_present(fields: Seq<(String, Json)>, i: int)
    requires
        0 <= i < fields.len(),
    ensures
        fields_model(fields).dom().contains(fields[i].0@),
{
    lemma_fields_model(fields, fields[i].0@);
}

proof fn lemma_field_index(fields: Seq<(String, Json)>, name: Seq<char>) -> (i: int)
    requires
        fields_model(fields).dom().contains(name),
    ensures
        0 <= i < fields.len(),
        fields[i].0@ == name,
{
    lemma_fields_model(fields, name);
    choose|i: int| 0 <= i < fields.len() && (#[trigger] fields[i]).0@ == name
}

/// The field `name` of an object.
pub open spec fn field(json: JsonModel, name: Seq<char>) -> Option<JsonModel> {
    match json {
        JsonModel::Object(fields) => if fields.dom().contains(name) {
            Some(fields[name])
        } else {
            None
        },
        _ => None,
    }
}

/// The text that a value is, if it is one.
pub open spec fn as_text(json: Option<JsonModel>) -> Option<Seq<char>> {
    match json {
        Some(JsonModel::Text(s)) => Some(s),
        _ => None,
    }
}

/// The truth value that a value is, if it is one.
pub open spec fn as_bool(json: Option<JsonModel>) -> Option<bool> {
    match json {
        Some(JsonModel::Bool(b)) => Some(b),
        _ => None,
    }
}

/// There is a field with a name before another.
pub open spec fn named_before(fields: Seq<(String, Json)>, name: Seq<char>, n: int) -> bool {
    exists|j: int| 0 <= j < n && (#[trigger] fields[j]).0@ == name
}

/// The first field with a name stands at a place.
pub open spec fn is_first_named(fields: Seq<(String, Json)>, name: Seq<char>, i: int) -> bool {
    0 <= i < fields.len() && fields[i].0@ == name && !named_before(fields, name, i)
}

/// The field `name` of an object, as it stands there.
pub open spec fn child(json: &Json, name: Seq<char>) -> Option<&Json> {
    match json {
        Json::Object(fields) => if named_before(fields@, name, fields@.len() as int) {
            Some(&fields@[choose|i: int| #[trigger] is_first_named(fields@, name, i)].1)
        } else {
            None
        },
        _ => None,
    }
}

/// The position of the first field with a name.
pub fn find_field(fields: &Vec<(String, Json)>, name: &str) -> (found: Option<usize>)
    ensures
        match found {
            Some(i) => is_first_named(fields@, name@, i as int),
            None => !named_before(fields@, name@, fields@.len() as int),
        },
        match found {
            Some(i) => i < fields@.len() && fields_model(fields@).dom().contains(name@)
                && fields_model(fields@)[name@] == json_model(fields@[i as int].1),
            None => !fields_model(fields@).dom().contains(name@),
        },
{
    proof {
        lemma_fields_model(fields@, name@);
    }
    let mut i: usize = 0;
    while i < fields.len()
        invariant
            i <= fields@.len(),
            forall|j: int| 0 <= j < i ==> (#[trigger] fields@[j]).0@ != name@,
        decreases fields@.len() - i,
    {
        if text::same_text(fields[i].0.as_str(), name) {
            assert(fields@[i as int].0@ == name@);
            proof {
                lemma_fields_model(fields@, name@);
            }
            return Some(i);
        }
        i = i + 1;
    }
    None
}

impl Json {
    /// The field `name` of an object.
    pub fn get(&self, name: &str) -> (value: Option<&Json>)
        ensures
            value.deep_view() == field(self.deep_view(), name@),
            value == child(self, name@),
    {
        match self {
            Json::Object(fields) => match find_field(fields, name) {
                Some(i) => {
                    proof {
                        let k = choose|k: int| #[trigger] is_first_named(fields@, name@, k);
                        assert(is_first_named(fields@, name@, i as int));
                        assert(fields@[i as int].0@ == name@);
                        assert(k == i);
                    }
                    Some(&fields[i].1)
                },
                None => None,
            },
            _ => None,
        }
    }

    /// The text that the value is, if it is one.
    pub fn as_str(&self) -> (s: Option<&str>)
        ensures
            s.deep_view() == as_text(Some(self.deep_view())),
    {
        match self {
            Json::Text(s) => Some(s.as_str()),
            _ => None,
        }
    }

    /// The truth value that the value is, if it is one.
    pub fn as_bool(&self) -> (b: Option<bool>)
        ensures
            b == as_bool(Some(self.deep_view())),
    {
        match self {
            Json::Bool(b) => Some(*b),
            _ => None,
        }
    }

    fn copy(&self) -> (copy: Json)
        ensures
            copy.deep_view() == self.deep_view(),
        decreases self,
    {
        match self {
            Json::Null => Json::Null,
            Json::Bool(b) => Json::Bool(*b),
            Json::Number(s) => Json::Number(s.clone()),
            Json::Text(s) => Json::Text(s.clone()),
            Json::List(items) => {
                let mut copies: Vec<Json> = Vec::new();
                let mut i: usize = 0;
                while i < items.len()
                    invariant
                        decreases_to!(self => items@),
                        i <= items@.len(),
                        list_model(copies@) == list_model(items@.take(i as int)),
                    decreases items@.len() - i,
                {
                    assert(decreases_to!(items@ => items@[i as int]));
                    let ghost before = copies@;
                    copies.push(items[i].copy());
                    proof {
                        assert(copies@.drop_last() =~= before);
                        assert(items@.take(i + 1).drop_last() =~= items@.take(i as int));
                    }
                    i = i + 1;
                }
                assert(items@.take(i as int) =~= items@);
                Json::List(copies)
            },
            Json::Object(fields) => {
                let mut copies: Vec<(String, Json)> = Vec::new();
                let mut i: usize = 0;
                while i < fields.len()
                    invariant
                        decreases_to!(self => fields@),
                        i <= fields@.len(),
                        fields_model(copies@) == fields_model(fields@.take(i as int)),
                    decreases fields@.len() - i,
                {
                    assert(decreases_to!(fields@ => fields@[i as int]));
                    assert(decreases_to!(fields@[i as int] => fields@[i as int].1));
                    let ghost before = copies@;
                    copies.push((fields[i].0.clone(), fields[i].1.copy()));
                    proof {
                        assert(copies@.drop_last() =~= before);
                        assert(fields@.take(i + 1).drop_last() =~= fields@.take(i as int));
                    }
                    i = i + 1;
                }
                assert(fields@.take(i as int) =~= fields@);
                Json::Object(copies)
            },
        }
    }
}


/// Whether every name of `fields` is one of `others`.
fn names_are_among(fields: &Vec<(String, Json)>, others: &Vec<(String, Json)>) -> (yes: bool)
    ensures
        yes == fields_model(fields@).dom().subset_of(fields_model(others@).dom()),
{
    let ghost mine = fields_model(fields@);
    let ghost theirs = fields_model(others@);
    let mut i: usize = 0;
    while i < fields.len()
        invariant
            mine == fields_model(fields@),
            theirs == fields_model(others@),
            i <= fields@.len(),
            forall|j: int| 0 <= j < i ==> theirs.dom().contains((#[trigger] fields@[j]).0@),
        decreases fields@.len() - i,
    {
        proof {
            lemma_field_present(fields@, i as int);
        }
        if find_field(others, fields[i].0.as_str()).is_none() {
            assert(mine.dom().contains(fields@[i as int].0@));
            return false;
        }
        i = i + 1;
    }
    assert forall|name: Seq<char>| mine.dom().contains(name) implies theirs.dom().contains(name) by {
        let i = lemma_field_index(fields@, name);
    }
    true
}

impl Json {
    fn equals(&self, other: &Json) -> (same: bool)
        ensures
            same == (self.deep_view() == other.deep_view()),
        decreases self,
    {
        match (self, other) {
            (Json::Null, Json::Null) => true,
            (Json::Bool(a), Json::Bool(b)) => *a == *b,
            (Json::Number(a), Json::Number(b)) => text::same_text(a.as_str(), b.as_str()),
            (Json::Text(a), Json::Text(b)) => text::same_text(a.as_str(), b.as_str()),
            (Json::List(a), Json::List(b)) => {
                proof {
                    lemma_list_model(a@);
                    lemma_list_model(b@);
                }
                if a.len() != b.len() {
                    return false;
                }
                let mut i: usize = 0;
                while i < a.len()
                    invariant
                        decreases_to!(self => a@),
                        i <= a@.len(),
                        a@.len() == b@.len(),
                        forall|j: int| 0 <= j < i ==> list_model(a@)[j] == list_model(b@)[j],
                        list_model(a@).len() == a@.len(),
                        list_model(b@).len() == b@.len(),
                        forall|j: int|
                            0 <= j < a@.len() ==> list_model(a@)[j] == json_model(a@[j]),
                        forall|j: int|
                            0 <= j < b@.len() ==> list_model(b@)[j] == json_model(b@[j]),
                        self.deep_view() == JsonModel::List(list_model(a@)),
                        other.deep_view() == JsonModel::List(list_model(b@)),
                    decreases a@.len() - i,
                {
                    assert(decreases_to!(a@ => a@[i as int]));
                    if !a[i].equals(&b[i]) {
                        assert(list_model(a@)[i as int] != list_model(b@)[i as int]);
                        return false;
                    }
                    i = i + 1;
                }
                assert(list_model(a@) =~= list_model(b@));
                true
            },
            (Json::Object(a), Json::Object(b)) => {
                let ghost mine = fields_model(a@);
                let ghost theirs = fields_model(b@);
                if !names_are_among(a, b) || !names_are_among(b, a) {
                    return false;
                }
                let mut i: usize = 0;
                while i < a.len()
                    invariant
                        decreases_to!(self => a@),
                        i <= a@.len(),
                        mine == fields_model(a@),
                        theirs == fields_model(b@),
                        mine.dom().subset_of(theirs.dom()),
                        forall|j: int|
                            0 <= j < i ==> mine[(#[trigger] a@[j]).0@] == theirs[a@[j].0@],
                        self.deep_view() == JsonModel::Object(mine),
                        other.deep_view() == JsonModel::Object(theirs),
                    decreases a@.len() - i,
                {
                    let name = a[i].0.as_str();
                    proof {
                        lemma_field_present(a@, i as int);
                    }
                    match (find_field(a, name), find_field(b, name)) {
                        (Some(j), Some(k)) => {
                            assert(decreases_to!(a@ => a@[j as int]));
                            assert(decreases_to!(a@[j as int] => a@[j as int].1));
                            if !a[j].1.equals(&b[k].1) {
                                return false;
                            }
                        },
                        _ => {
                            assert(false);
                        },
                    }
                    i = i + 1;
                }
                assert forall|name: Seq<char>| mine.dom().contains(name) implies mine[name]
                    == theirs[name] by {
                    let i = lemma_field_index(a@, name);
                }
                assert(mine =~= theirs);
                true
            },
            _ => false,
        }
    }
}

impl Value for Json {
    fn duplicate(&self) -> Json {
        self.copy()
    }

    fn same(&self, other: &Json) -> bool {
        self.equals(other)
    }
}

/// The texts among the fields of an object, by name.
pub open spec fn text_fields(json: JsonModel) -> Map<Seq<char>, Seq<char>> {
    Map::new(
        |name: Seq<char>| as_text(field(json, name)) is Some,
        |name: Seq<char>| as_text(field(json, name))->0,
    )
}

/// The texts among the fields of an object, by name; none where the value is
/// absent or no object.
pub open spec fn text_map(json: Option<JsonModel>) -> Map<Seq<char>, Seq<char>> {
    match json {
        Some(json) => text_fields(json),
        None => Map::empty(),
    }
}

/// The texts among the fields of an object, by name.
pub fn json_string_map(value: Option<&Json>) -> (map: TextMap<String>)
    ensures
        map.deep_view() == text_map(value.deep_view()),
{
    let mut map: TextMap<String> = TextMap::new();
    match value {
        Some(Json::Object(fields)) => {
            let ghost model = value->0.deep_view();
            let ghost all = fields_model(fields@);
            let ghost mut done: Set<Seq<char>> = Set::empty();
            let mut i: usize = 0;
            while i < fields.len()
                invariant
                    model == JsonModel::Object(all),
                    all == fields_model(fields@),
                    i <= fields@.len(),
                    forall|name: Seq<char>|
                        done.contains(name) <==> exists|j: int|
                            0 <= j < i && (#[trigger] fields@[j]).0@ == name,
                    map.deep_view() =~= text_fields(model).restrict(done),
                decreases fields@.len() - i,
            {
                let name = fields[i].0.as_str();
                proof {
                    lemma_field_present(fields@, i as int);
                }
                match find_field(fields, name) {
                    Some(k) => match &fields[k].1 {
                        Json::Text(s) => {
                            map.insert(fields[i].0.clone(), s.clone());
                        },
                        _ => {},
                    },
                    None => {},
                }
                proof {
                    let added = done.insert(name@);
                    assert forall|other: Seq<char>|
                        added.contains(other) <==> exists|j: int|
                            0 <= j < i + 1 && (#[trigger] fields@[j]).0@ == other by {
                        if other == name@ {
                            assert(fields@[i as int].0@ == other);
                        }
                        if done.contains(other) {
                            let j = choose|j: int| 0 <= j < i && (#[trigger] fields@[j]).0@ == other;
                            assert(fields@[j].0@ == other);
                        }
                    }
                    assert(map.deep_view() =~= text_fields(model).restrict(added));
                    done = added;
                }
                i = i + 1;
            }
            proof {
                assert forall|name: Seq<char>| text_fields(model).dom().contains(name) implies done.contains(
                    name,
                ) by {
                    let i = lemma_field_index(fields@, name);
                }
                assert(map.deep_view() =~= text_fields(model));
            }
        },
        _ => {
            assert(map.deep_view() =~= text_map(value.deep_view()));
        },
    }
    map
}

/// The names of the fields of an object, in order, each once.
pub fn field_names(fields: &Vec<(String, Json)>) -> (names: Vec<String>)
    ensures
        names.deep_view() == sorted::in_order(fields_model(fields@).dom()),
        sorted::is_sorted(names.deep_view()),
        names.deep_view().to_set() == fields_model(fields@).dom(),
{
    let mut list: Vec<String> = Vec::new();
    let ghost model = fields_model(fields@);
    let mut i: usize = 0;
    while i < fields.len()
        invariant
            i <= fields@.len(),
            list@.len() == i,
            forall|j: int| 0 <= j < i ==> #[trigger] list.deep_view()[j] == fields@[j].0@,
        decreases fields@.len() - i,
    {
        let ghost before = list.deep_view();
        list.push(fields[i].0.clone());
        assert(list.deep_view() =~= before.push(fields@[i as int].0@));
        i = i + 1;
    }
    proof {
        let all = list.deep_view();
        assert forall|name: Seq<char>| all.to_set().contains(name) <==> model.dom().contains(
            name,
        ) by {
            if all.contains(name) {
                let j = all.index_of(name);
                lemma_field_present(fields@, j);
            }
            if model.dom().contains(name) {
                let j = lemma_field_index(fields@, name);
                assert(all[j] == name);
            }
        }
        assert(all.to_set() =~= model.dom());
    }
    sorted::sorted_texts(&list)
}

/// An object without fields stands for the empty map, and no other does.
pub proof fn lemma_no_fields(fields: Seq<(String, Json)>)
    ensures
        fields.len() == 0 <==> fields_model(fields) == Map::<Seq<char>, JsonModel>::empty(),
{
    if fields.len() > 0 {
        lemma_field_present(fields, 0);
    }
}

/// The texts among the first `n` fields, in their order.
pub open spec fn text_entries(fields: Seq<(String, Json)>, n: int) -> Seq<(Seq<char>, Seq<char>)>
    decreases n,
{
    if n <= 0 {
        Seq::empty()
    } else {
        let before = text_entries(fields, n - 1);
        let (name, value) = fields[n - 1];
        match value {
            Json::Text(s) if !named_before(fields, name@, n - 1) => before.push((name@, s@)),
            _ => before,
        }
    }
}

/// The texts among the fields of an object, in their order; none where the
/// value is absent or no object.
pub open spec fn entries_of(value: Option<&Json>) -> Seq<(Seq<char>, Seq<char>)> {
    match value {
        Some(Json::Object(fields)) => text_entries(fields@, fields@.len() as int),
        _ => Seq::empty(),
    }
}

proof fn lemma_text_entries(fields: Seq<(String, Json)>, n: int)
    requires
        0 <= n <= fields.len(),
    ensures
        table::keys(text_entries(fields, n)).no_duplicates(),
        forall|k: int|
            0 <= k < text_entries(fields, n).len() ==> named_before(
                fields,
                (#[trigger] text_entries(fields, n)[k]).0,
                n,
            ) && as_text(field(JsonModel::Object(fields_model(fields)), text_entries(fields, n)[k].0))
                == Some(text_entries(fields, n)[k].1),
        forall|j: int|
            0 <= j < n && !named_before(fields, fields[j].0@, j) && (#[trigger] fields[j]).1 is Text
                ==> table::keys(text_entries(fields, n)).contains(fields[j].0@),
    decreases n,
{
    if n > 0 {
        lemma_text_entries(fields, n - 1);
        let before = text_entries(fields, n - 1);
        let all = text_entries(fields, n);
        let (name, value) = fields[n - 1];
        assert(fields[n - 1].0@ == name@);
        assert forall|other: Seq<char>| named_before(fields, other, n - 1) implies named_before(
            fields,
            other,
            n,
        ) by {
            let j = choose|j: int| 0 <= j < n - 1 && (#[trigger] fields[j]).0@ == other;
            assert(fields[j].0@ == other);
        }
        if value is Text && !named_before(fields, name@, n - 1) {
            lemma_fields_model(fields, name@);
            assert forall|j: int| 0 <= j < n - 1 implies (#[trigger] fields[j]).0@ != name@ by {}
            assert(all == before.push((name@, value->Text_0@)));
            assert(table::keys(all) =~= table::keys(before).push(name@));
            assert forall|k: int| 0 <= k < before.len() implies table::keys(before)[k] != name@ by {
                assert(named_before(fields, before[k].0, n - 1));
            }
            assert forall|k: int| 0 <= k < all.len() implies named_before(
                fields,
                (#[trigger] all[k]).0,
                n,
            ) && as_text(field(JsonModel::Object(fields_model(fields)), all[k].0)) == Some(
                all[k].1,
            ) by {
                if k < before.len() {
                    assert(all[k] == before[k]);
                }
            }
            assert forall|j: int|
                0 <= j < n && !named_before(fields, fields[j].0@, j) && (
                #[trigger] fields[j]).1 is Text implies table::keys(all).contains(fields[j].0@) by {
                if j == n - 1 {
                    assert(table::keys(all)[all.len() - 1] == name@);
                } else {
                    let k = table::keys(before).index_of(fields[j].0@);
                    assert(table::keys(all)[k] == fields[j].0@);
                }
            }
        }
    }
}

proof fn lemma_first_with_name(fields: Seq<(String, Json)>, i: int) -> (j: int)
    requires
        0 <= i < fields.len(),
    ensures
        0 <= j <= i,
        fields[j].0@ == fields[i].0@,
        !named_before(fields, fields[j].0@, j),
    decreases i,
{
    if named_before(fields, fields[i].0@, i) {
        let k = choose|k: int| 0 <= k < i && (#[trigger] fields[k]).0@ == fields[i].0@;
        lemma_first_with_name(fields, k)
    } else {
        i
    }
}

/// The texts among the fields of an object, in their order.
pub fn json_text_entries(value: Option<&Json>) -> (entries: Vec<(String, String)>)
    ensures
        entries.deep_view() == entries_of(value),
{
    let mut entries: Vec<(String, String)> = Vec::new();
    assert(entries.deep_view() =~= Seq::empty());
    if let Some(Json::Object(fields)) = value {
        let mut i: usize = 0;
        while i < fields.len()
            invariant
                i <= fields@.len(),
                entries.deep_view() == text_entries(fields@, i as int),
            decreases fields@.len() - i,
        {
            let name = fields[i].0.as_str();
            let mut first = true;
            let mut j: usize = 0;
            while j < i
                invariant
                    j <= i < fields@.len(),
                    first == !named_before(fields@, name@, j as int),
                decreases i - j,
            {
                if text::same_text(fields[j].0.as_str(), name) {
                    assert(fields@[j as int].0@ == name@);
                    first = false;
                }
                j = j + 1;
            }
            if first {
                if let Json::Text(s) = &fields[i].1 {
                    let ghost before = entries.deep_view();
                    entries.push((text::copy(name), s.clone()));
                    assert(entries.deep_view() =~= before.push((name@, s@)));
                }
            }
            i = i + 1;
        }
    }
    entries
}

} // verus!
