//! Checksums of texts and of structured values.
use crate::json;
use crate::json::{Json, JsonModel};
use crate::sorted;
use crate::text;
use vstd::prelude::*;
use vstd::string::*;
use vstd::utf8::*;

verus! {

/// The SHA-256 digest of some bytes.
pub uninterp spec fn sha256_digest(data: Seq<u8>) -> Seq<u8>;

/// Computes `sha2::Sha256::digest`. The digest is named: it is a function of the
/// bytes alone, and takes 32 bytes.
#[verifier::external_body]
fn sha256(data: &[u8]) -> (digest: Vec<u8>)
    ensures
        digest@ == sha256_digest(data@),
        digest@.len() == 32,
{
    <sha2::Sha256 as sha2::Digest>::digest(data).to_vec()
}

/// The 64 characters of Base64.
pub open spec fn base64_alphabet() -> Seq<char> {
    "ABCDEFGHIJKLMNOPQRSTUVWXYZabcdefghijklmnopqrstuvwxyz0123456789+/"@
}

/// The byte at `i`, or zero behind the end.
pub open spec fn byte_at(data: Seq<u8>, i: int) -> int {
    if 0 <= i < data.len() {
        data[i] as int
    } else {
        0
    }
}

/// The character at `i` of the Base64 form: of the 24 bits of three bytes the
/// six that are its turn, or the pad where no byte is left.
pub open spec fn base64_char(data: Seq<u8>, i: int) -> char {
    let first = i / 4 * 3;
    let bits = byte_at(data, first) * 0x10000 + byte_at(data, first + 1) * 0x100 + byte_at(
        data,
        first + 2,
    );
    let turn = i % 4;
    if turn == 0 {
        base64_alphabet()[bits / 0x40000]
    } else if turn == 1 {
        base64_alphabet()[bits / 0x1000 % 64]
    } else if first + turn - 1 >= data.len() {
        '='
    } else if turn == 2 {
        base64_alphabet()[bits / 64 % 64]
    } else {
        base64_alphabet()[bits % 64]
    }
}

/// The padded Base64 form of some bytes.
pub open spec fn base64_text(data: Seq<u8>) -> Seq<char> {
    Seq::new(((data.len() + 2) / 3 * 4) as nat, |i: int| base64_char(data, i))
}

/// Encodes with `base64::engine::general_purpose::STANDARD`: the standard
/// alphabet, with padding. The call fails where the length of the result does
/// not fit a `usize`.
#[verifier::external_body]
fn base64_encode(data: &[u8]) -> (encoded: String)
    requires
        data@.len() <= 0x1000_0000,
    ensures
        encoded@ == base64_text(data@),
{
    base64::Engine::encode(&base64::engine::general_purpose::STANDARD, data)
}

/// The checksum of a text.
pub open spec fn checksum(s: Seq<char>) -> Seq<char> {
    "sha256-"@ + base64_text(sha256_digest(encode_utf8(s)))
}

/// The checksum of a text.
pub fn text_checksum(s: &str) -> (sum: String)
    ensures
        sum@ == checksum(s@),
{
    let digest = sha256(s.as_bytes());
    let encoded = base64_encode(digest.as_slice());
    text::copy("sha256-").concat(encoded.as_str())
}

/// A text with its length in bytes before it.
pub open spec fn string_token(s: Seq<char>) -> Seq<char> {
    "string:"@ + text::decimal(text::byte_len(s)) + ":"@ + s
}

/// Texts one after the other, each with its length.
pub open spec fn string_tokens(list: Seq<Seq<char>>) -> Seq<char>
    decreases list.len(),
{
    if list.len() == 0 {
        Seq::empty()
    } else {
        string_tokens(list.drop_last()) + string_token(list.last())
    }
}

/// Where a list of `n` items begins.
pub open spec fn list_head(n: nat) -> Seq<char> {
    "array:"@ + text::decimal(n) + ":"@
}

/// A list of texts.
pub open spec fn texts_form(list: Seq<Seq<char>>) -> Seq<char> {
    list_head(list.len()) + string_tokens(list)
}

/// The fields of an object with these names, one after the other.
pub open spec fn fields_form(json: JsonModel, names: Seq<Seq<char>>) -> Seq<char>
    decreases json, 0nat, names.len(),
{
    if names.len() == 0 {
        Seq::empty()
    } else {
        let name = names.last();
        fields_form(json, names.drop_last()) + string_token(name) + ":"@ + (match json {
            JsonModel::Object(fields) => if fields.dom().contains(name) {
                hash_form(fields[name])
            } else {
                Seq::empty()
            },
            _ => Seq::empty(),
        }) + ","@
    }
}

/// The forms of the items of a list.
pub open spec fn item_forms(items: Seq<JsonModel>) -> Seq<Seq<char>>
    decreases items, 0nat, items.len(),
{
    if items.len() == 0 {
        Seq::empty()
    } else {
        item_forms(items.drop_last()).push(hash_form(items.last()))
    }
}

/// The form in which a structured value is hashed: neither the order of fields
/// nor that of list items counts.
pub open spec fn hash_form(json: JsonModel) -> Seq<char>
    decreases json, 1nat, 0nat,
{
    match json {
        JsonModel::Object(fields) => "object:"@ + text::decimal(fields.dom().len()) + ":"@
            + fields_form(json, sorted::in_order(fields.dom())),
        JsonModel::List(items) => {
            let forms = item_forms(items);
            list_head(items.len()) + (if items.len() == 0 {
                Seq::empty()
            } else if items.len() == 1 {
                forms[0]
            } else {
                texts_form(forms.sort_by(sorted::not_behind()))
            })
        },
        JsonModel::Text(s) => string_token(s),
        JsonModel::Number(s) => "number:"@ + s,
        JsonModel::Bool(b) => if b {
            "bool:true"@
        } else {
            "bool:false"@
        },
        JsonModel::Null => "Null"@,
    }
}

/// A text with its length in bytes before it.
pub fn serialize_string_token(s: &str) -> (token: String)
    ensures
        token@ == string_token(s@),
{
    let n = text::utf8_len(s);
    text::copy("string:").concat(text::decimal_text(n).as_str()).concat(":").concat(s)
}

fn head_of_list(n: usize) -> (head: String)
    ensures
        head@ == list_head(n as nat),
{
    text::copy("array:").concat(text::decimal_text(n as u128).as_str()).concat(":")
}

/// A list of texts.
pub fn serialize_array_of_strings(list: &Vec<String>) -> (out: String)
    ensures
        out@ == texts_form(list.deep_view()),
{
    let ghost all = list.deep_view();
    let mut out = head_of_list(list.len());
    let mut i: usize = 0;
    assert(out@ =~= list_head(all.len()) + string_tokens(all.take(0)));
    while i < list.len()
        invariant
            i <= list@.len(),
            all == list.deep_view(),
            out@ == list_head(all.len()) + string_tokens(all.take(i as int)),
        decreases list@.len() - i,
    {
        let ghost before = out@;
        let token = serialize_string_token(list[i].as_str());
        out.append(token.as_str());
        proof {
            assert(all.take(i + 1).drop_last() =~= all.take(i as int));
            assert(all.take(i + 1).last() == list@[i as int]@);
            assert(out@ =~= list_head(all.len()) + (string_tokens(all.take(i as int)) + token@));
        }
        i = i + 1;
    }
    assert(all.take(i as int) =~= all);
    out
}

/// The form in which a structured value is hashed.
pub fn object_hash_serialize_json(value: &Json) -> (out: String)
    ensures
        out@ == hash_form(value.deep_view()),
    decreases value,
{
    match value {
        Json::Object(fields) => {
            let ghost model = json::fields_model(fields@);
            let names = json::field_names(fields);
            let n: usize = names.len();
            let mut out = text::copy("object:").concat(
                text::decimal_text(n as u128).as_str(),
            ).concat(":");
            let ghost head = out@;
            let ghost all = names.deep_view();
            proof {
                sorted::lemma_sorted_distinct(all);
                all.unique_seq_to_set();
                assert(all.to_set() == model.dom());
            }
            let mut i: usize = 0;
            assert(out@ =~= head + fields_form(JsonModel::Object(model), all.take(0)));
            while i < n
                invariant
                    decreases_to!(value => fields@),
                    i <= n,
                    n == names@.len(),
                    all == names.deep_view(),
                    all.to_set() == model.dom(),
                    model == json::fields_model(fields@),
                    out@ == head + fields_form(JsonModel::Object(model), all.take(i as int)),
                decreases n - i,
            {
                let ghost done = all.take(i as int);
                let name = names[i].as_str();
                proof {
                    assert(all[i as int] == name@);
                    assert(all.to_set().contains(all[i as int]));
                    assert(all.take(i + 1).drop_last() =~= done);
                }
                let token = serialize_string_token(name);
                out.append(token.as_str());
                out.append(":");
                let ghost begun = out@;
                match json::find_field(fields, name) {
                    Some(k) => {
                        assert(decreases_to!(fields@ => fields@[k as int]));
                        assert(decreases_to!(fields@[k as int] => fields@[k as int].1));
                        let form = object_hash_serialize_json(&fields[k].1);
                        out.append(form.as_str());
                        assert(form@ == hash_form(model[name@]));
                        assert(out@ == begun + hash_form(model[name@]));
                    },
                    None => {
                        assert(false);
                    },
                }
                out.append(",");
                assert(out@ =~= head + (fields_form(JsonModel::Object(model), done) + string_token(name@) + ":"@
                    + hash_form(model[name@]) + ","@));
                i = i + 1;
            }
            assert(all.take(i as int) =~= all);
            out
        },
        Json::List(items) => {
            let n: usize = items.len();
            let ghost model = json::list_model(items@);
            let mut forms: Vec<String> = Vec::new();
            let mut i: usize = 0;
            proof {
                json::lemma_list_model(items@);
                assert(forms.deep_view() =~= item_forms(model.take(0)));
            }
            while i < n
                invariant
                    decreases_to!(value => items@),
                    n == items@.len(),
                    i <= n,
                    model == json::list_model(items@),
                    model.len() == n,
                    forall|j: int| 0 <= j < n ==> model[j] == json::json_model(items@[j]),
                    forms.deep_view() == item_forms(model.take(i as int)),
                    forms@.len() == i,
                decreases n - i,
            {
                assert(decreases_to!(items@ => items@[i as int]));
                let ghost before = forms.deep_view();
                let form = object_hash_serialize_json(&items[i]);
                let ghost added = form@;
                forms.push(form);
                proof {
                    assert(forms.deep_view() =~= before.push(added));
                    assert(model.take(i + 1).drop_last() =~= model.take(i as int));
                    assert(model.take(i + 1).last() == model[i as int]);
                }
                i = i + 1;
            }
            assert(model.take(i as int) =~= model);
            let mut out = head_of_list(n);
            if n == 1 {
                assert(forms.deep_view()[0] == forms@[0]@);
                out.append(forms[0].as_str());
            } else if n > 1 {
                let sorted_forms = sorted::sort_list(&forms);
                out.append(serialize_array_of_strings(&sorted_forms).as_str());
            } else {
                assert(out@ =~= hash_form(value.deep_view()));
            }
            out
        },
        Json::Text(s) => serialize_string_token(s.as_str()),
        Json::Number(s) => text::copy("number:").concat(s.as_str()),
        Json::Bool(b) => if *b {
            text::copy("bool:true")
        } else {
            text::copy("bool:false")
        },
        Json::Null => text::copy("Null"),
    }
}

/// The checksum of an object that has fields.
pub open spec fn object_checksum(json: Option<JsonModel>) -> Option<Seq<char>> {
    match json {
        Some(JsonModel::Object(fields)) => if fields == Map::<Seq<char>, JsonModel>::empty() {
            None
        } else {
            Some(checksum(hash_form(json->0)))
        },
        _ => None,
    }
}

/// The checksum of an object that has fields.
pub fn hash_object_nullable_with_prefix(object: Option<&Json>) -> (sum: Option<String>)
    ensures
        sum.deep_view() == object_checksum(object.deep_view()),
{
    match object {
        Some(value) => match value {
            Json::Object(fields) => {
                proof {
                    json::lemma_no_fields(fields@);
                }
                if fields.len() == 0 {
                    return None;
                }
                let raw = object_hash_serialize_json(value);
                Some(text_checksum(raw.as_str()))
            },
            _ => None,
        },
        None => None,
    }
}

/// Two objects that differ in the order of their fields alone have one checksum.
pub proof fn law_field_order_does_not_count(a: Json, b: Json)
    requires
        a.deep_view() == b.deep_view(),
    ensures
        hash_form(a.deep_view()) == hash_form(b.deep_view()),
        object_checksum(Some(a.deep_view())) == object_checksum(Some(b.deep_view())),
{
}

/// Two lists of the same items in different orders have one form.
pub proof fn law_item_order_does_not_count(a: Seq<JsonModel>, b: Seq<JsonModel>)
    requires
        a.to_multiset() == b.to_multiset(),
    ensures
        hash_form(JsonModel::List(a)) == hash_form(JsonModel::List(b)),
{
    vstd::seq_lib::to_multiset_len(a);
    vstd::seq_lib::to_multiset_len(b);
    if a.len() == 1 {
        vstd::seq_lib::to_multiset_contains(a, a[0]);
        vstd::seq_lib::to_multiset_contains(b, a[0]);
        assert(a.contains(a[0]));
        assert(b.contains(a[0]));
        assert(a =~= b);
    } else if a.len() > 1 {
        lemma_item_forms_multiset(a, b);
        sorted::lemma_sort_by_members(item_forms(a), item_forms(b));
    }
}

proof fn lemma_item_forms(items: Seq<JsonModel>)
    ensures
        item_forms(items).len() == items.len(),
        forall|i: int| 0 <= i < items.len() ==> #[trigger] item_forms(items)[i] == hash_form(
            items[i],
        ),
    decreases items.len(),
{
    if items.len() > 0 {
        lemma_item_forms(items.drop_last());
    }
}

proof fn lemma_item_forms_multiset(a: Seq<JsonModel>, b: Seq<JsonModel>)
    requires
        a.to_multiset() == b.to_multiset(),
    ensures
        item_forms(a).to_multiset() == item_forms(b).to_multiset(),
    decreases a.len(),
{
    vstd::seq_lib::to_multiset_len(a);
    vstd::seq_lib::to_multiset_len(b);
    if a.len() == 0 {
        assert(a =~= b);
    } else {
        let x = a.last();
        assert(a[a.len() - 1] == x);
        vstd::seq_lib::to_multiset_contains(a, x);
        vstd::seq_lib::to_multiset_contains(b, x);
        assert(a.contains(x));
        let k = b.index_of(x);
        assert(b.contains(x));
        assert(b[k] == x);
        let rest = a.drop_last();
        let others = b.remove(k);
        vstd::seq_lib::to_multiset_remove(a, a.len() - 1);
        vstd::seq_lib::to_multiset_remove(b, k);
        assert(a.remove(a.len() - 1) =~= rest);
        lemma_item_forms_multiset(rest, others);
        let forms = item_forms(b);
        lemma_item_forms(a);
        lemma_item_forms(b);
        lemma_item_forms(rest);
        lemma_item_forms(others);
        assert(forms.remove(k) =~= item_forms(others));
        assert(forms =~= forms.remove(k).insert(k, forms[k]));
        vstd::seq_lib::to_multiset_insert(forms.remove(k), k, forms[k]);
        assert(item_forms(a) =~= item_forms(rest).push(hash_form(x)));
        vstd::seq_lib::to_multiset_build(item_forms(rest), hash_form(x));
    }
}

/// Each position below `n` stands in the sequence once.
pub open spec fn is_permutation(order: Seq<int>, n: nat) -> bool {
    &&& order.len() == n
    &&& order.no_duplicates()
    &&& forall|i: int| 0 <= i < n ==> 0 <= #[trigger] order[i] < n
}

/// Two values differ in the order of list items alone, at whatever depth.
pub open spec fn is_reordered(a: JsonModel, b: JsonModel) -> bool
    decreases a,
{
    match (a, b) {
        (JsonModel::Object(mine), JsonModel::Object(theirs)) => {
            &&& mine.dom() == theirs.dom()
            &&& forall|name: Seq<char>| #[trigger]
                mine.dom().contains(name) ==> is_reordered(mine[name], theirs[name])
        },
        (JsonModel::List(mine), JsonModel::List(theirs)) => {
            &&& mine.len() == theirs.len()
            &&& exists|order: Seq<int>| #[trigger]
                is_permutation(order, mine.len()) && forall|i: int|
                    0 <= i < mine.len() ==> is_reordered(#[trigger] mine[i], theirs[order[i]])
        },
        _ => a == b,
    }
}

/// Sequences that differ in their order alone have the same members.
proof fn lemma_permuted<A>(a: Seq<A>, b: Seq<A>, order: Seq<int>)
    requires
        a.len() == b.len(),
        is_permutation(order, a.len()),
        forall|i: int| 0 <= i < a.len() ==> #[trigger] a[i] == b[order[i]],
    ensures
        a.to_multiset() == b.to_multiset(),
    decreases a.len(),
{
    if a.len() == 0 {
        assert(a =~= b);
    } else {
        let n = a.len() - 1;
        let k = order[n];
        let rest = a.drop_last();
        let others = b.remove(k);
        let left = Seq::new(
            n as nat,
            |i: int|
                if order[i] < k {
                    order[i]
                } else {
                    order[i] - 1
                },
        );
        assert forall|i: int| 0 <= i < n implies 0 <= #[trigger] left[i] < n && rest[i]
            == others[left[i]] by {
            assert(order[i] != order[n]);
            assert(a[i] == b[order[i]]);
        }
        assert forall|i: int, j: int| 0 <= i < n && 0 <= j < n && i != j implies left[i]
            != left[j] by {
            assert(order[i] != order[j]);
            assert(order[i] != order[n]);
            assert(order[j] != order[n]);
        }
        lemma_permuted(rest, others, left);
        assert(a[n] == b[k]);
        assert(a =~= rest.push(b[k]));
        vstd::seq_lib::to_multiset_build(rest, b[k]);
        assert(b =~= others.insert(k, b[k]));
        vstd::seq_lib::to_multiset_insert(others, k, b[k]);
    }
}

proof fn lemma_reordered_fields(a: JsonModel, b: JsonModel, names: Seq<Seq<char>>)
    requires
        a is Object,
        b is Object,
        is_reordered(a, b),
    ensures
        fields_form(a, names) == fields_form(b, names),
    decreases a, 0nat, names.len(),
{
    if names.len() > 0 {
        let name = names.last();
        lemma_reordered_fields(a, b, names.drop_last());
        let mine = a->Object_0;
        let theirs = b->Object_0;
        if mine.dom().contains(name) {
            lemma_reordered(mine[name], theirs[name]);
        }
    }
}

proof fn lemma_reordered(a: JsonModel, b: JsonModel)
    requires
        is_reordered(a, b),
    ensures
        hash_form(a) == hash_form(b),
    decreases a, 1nat, 0nat,
{
    match (a, b) {
        (JsonModel::Object(mine), JsonModel::Object(theirs)) => {
            lemma_reordered_fields(a, b, sorted::in_order(mine.dom()));
        },
        (JsonModel::List(mine), JsonModel::List(theirs)) => {
            let order = choose|order: Seq<int>| #[trigger]
                is_permutation(order, mine.len()) && forall|i: int|
                    0 <= i < mine.len() ==> is_reordered(#[trigger] mine[i], theirs[order[i]]);
            lemma_item_forms(mine);
            lemma_item_forms(theirs);
            assert forall|i: int| 0 <= i < mine.len() implies #[trigger] item_forms(mine)[i]
                == item_forms(theirs)[order[i]] by {
                lemma_reordered(mine[i], theirs[order[i]]);
                assert(item_forms(theirs)[order[i]] == hash_form(theirs[order[i]]));
            }
            lemma_permuted(item_forms(mine), item_forms(theirs), order);
            if mine.len() == 1 {
                assert(order[0] == 0);
            } else if mine.len() > 1 {
                sorted::lemma_sort_by_members(item_forms(mine), item_forms(theirs));
            }
        },
        _ => {},
    }
}

/// Two values that differ in the order of fields and list items alone, at
/// whatever depth, have one form and one checksum.
pub proof fn law_order_does_not_count(a: JsonModel, b: JsonModel)
    requires
        is_reordered(a, b),
    ensures
        hash_form(a) == hash_form(b),
        object_checksum(Some(a)) == object_checksum(Some(b)),
{
    lemma_reordered(a, b);
    if a is Object {
        let mine = a->Object_0;
        let theirs = b->Object_0;
        if mine.dom() == Set::<Seq<char>>::empty() {
            assert(mine =~= Map::empty());
            assert(theirs =~= Map::empty());
        }
    }
}

} // verus!
