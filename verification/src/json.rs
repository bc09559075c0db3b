//! Documents: the values that manifests, alerts and check parameters are made of.

use vstd::prelude::*;
#[allow(unused_imports)]
use vstd::string::*;
#[allow(unused_imports)]
use crate::text::{in_quotes, is_plain, same};

verus! {

/// A document. An object holds its fields in the order they were written.
#[derive(Debug)]
pub enum Json {
    Null,
    Bool(bool),
    /// A number, as it is written.
    Num(String),
    Str(String),
    Arr(Vec<Json>),
    Obj(Vec<(String, Json)>),
}

/// What a document says.
pub enum Doc {
    Null,
    Bool(bool),
    Num(Seq<char>),
    Str(Seq<char>),
    Arr(Seq<Doc>),
    Obj(Seq<(Seq<char>, Doc)>),
}

/// The keys and contents of an object's fields.
pub type Fields = Seq<(Seq<char>, Doc)>;

/// The content of `j`.
pub open spec fn doc_of(j: Json) -> Doc
    decreases j,
{
    match j {
        Json::Null => Doc::Null,
        Json::Bool(b) => Doc::Bool(b),
        Json::Num(n) => Doc::Num(n@),
        Json::Str(s) => Doc::Str(s@),
        Json::Arr(items) => Doc::Arr(items_of(items@)),
        Json::Obj(fields) => Doc::Obj(fields_of(fields@)),
    }
}

/// The contents of the items of a list.
pub open spec fn items_of(items: Seq<Json>) -> Seq<Doc>
    decreases items,
{
    if items.len() == 0 {
        Seq::empty()
    } else {
        items_of(items.drop_last()).push(doc_of(items.last()))
    }
}

/// The keys and contents of the fields of an object.
pub open spec fn fields_of(fields: Seq<(String, Json)>) -> Seq<(Seq<char>, Doc)>
    decreases fields,
{
    if fields.len() == 0 {
        Seq::empty()
    } else {
        fields_of(fields.drop_last()).push((fields.last().0@, doc_of(fields.last().1)))
    }
}

impl View for Json {
    type V = Doc;

    open spec fn view(&self) -> Doc {
        doc_of(*self)
    }
}

/// A list has as many contents as items, item by item.
pub proof fn items_at(items: Seq<Json>)
    ensures
        items_of(items).len() == items.len(),
        forall|i: int| 0 <= i < items.len() ==> #[trigger] items_of(items)[i] == doc_of(items[i]),
    decreases items.len(),
{
    if items.len() > 0 {
        items_at(items.drop_last());
        assert forall|i: int| 0 <= i < items.len() implies #[trigger] items_of(items)[i] == doc_of(items[i]) by {
            if i < items.len() - 1 {
                assert(items_of(items)[i] == items_of(items.drop_last())[i]);
                assert(items.drop_last()[i] == items[i]);
            }
        }
    }
}

/// An object has as many contents as fields, field by field.
pub proof fn fields_at(fields: Seq<(String, Json)>)
    ensures
        fields_of(fields).len() == fields.len(),
        forall|i: int|
            0 <= i < fields.len() ==> #[trigger] fields_of(fields)[i] == (fields[i].0@, doc_of(fields[i].1)),
    decreases fields.len(),
{
    if fields.len() > 0 {
        fields_at(fields.drop_last());
        assert forall|i: int| 0 <= i < fields.len() implies #[trigger] fields_of(fields)[i] == (
            fields[i].0@,
            doc_of(fields[i].1),
        ) by {
            if i < fields.len() - 1 {
                assert(fields_of(fields)[i] == fields_of(fields.drop_last())[i]);
                assert(fields.drop_last()[i] == fields[i]);
            }
        }
    }
}

/// A text value.
pub fn text_value(s: &str) -> (j: Json)
    ensures
        j@ == Doc::Str(s@),
{
    Json::Str(s.to_owned())
}

/// The fields of an empty object.
pub fn no_fields() -> (fields: Vec<(String, Json)>)
    ensures
        fields@.len() == 0,
        fields_of(fields@) == Fields::empty(),
{
    Vec::new()
}

/// The items of an empty list.
pub fn no_items() -> (items: Vec<Json>)
    ensures
        items@.len() == 0,
        items_of(items@) == Seq::<Doc>::empty(),
{
    Vec::new()
}

/// An object with these fields.
pub fn object(fields: Vec<(String, Json)>) -> (j: Json)
    ensures
        j@ == Doc::Obj(fields_of(fields@)),
{
    Json::Obj(fields)
}

/// A list of these items.
pub fn list(items: Vec<Json>) -> (j: Json)
    ensures
        j@ == Doc::Arr(items_of(items@)),
{
    Json::Arr(items)
}

/// Adds a field at the end of an object's fields.
pub fn put(fields: &mut Vec<(String, Json)>, key: &str, value: Json)
    ensures
        fields_of(final(fields)@) == fields_of(old(fields)@).push((key@, value@)),
{
    fields.push((key.to_owned(), value));
    proof {
        assert(fields@.drop_last() =~= old(fields)@);
    }
}

/// Adds a text field at the end of an object's fields.
pub fn put_text(fields: &mut Vec<(String, Json)>, key: &str, value: &str)
    ensures
        fields_of(final(fields)@) == fields_of(old(fields)@).push((key@, Doc::Str(value@))),
{
    put(fields, key, text_value(value))
}

/// Adds an item at the end of a list.
pub fn add_item(items: &mut Vec<Json>, value: Json)
    ensures
        items_of(final(items)@) == items_of(old(items)@).push(value@),
        final(items)@ == old(items)@.push(value),
{
    items.push(value);
    proof {
        assert(items@.drop_last() =~= old(items)@);
    }
}

/// The content of the first field of `d` called `key`.
pub open spec fn field(fields: Seq<(Seq<char>, Doc)>, key: Seq<char>) -> Option<Doc>
    decreases fields.len(),
{
    if fields.len() == 0 {
        None
    } else if fields[0].0 == key {
        Some(fields[0].1)
    } else {
        field(fields.drop_first(), key)
    }
}

impl Json {
    /// A copy of the document.
    pub fn copy(&self) -> (r: Json)
        ensures
            r@ == self@,
        decreases *self,
    {
        match self {
            Json::Null => Json::Null,
            Json::Bool(b) => Json::Bool(*b),
            Json::Num(n) => Json::Num(n.clone()),
            Json::Str(s) => Json::Str(s.clone()),
            Json::Arr(items) => {
                let mut out = no_items();
                let mut i: usize = 0;
                while i < items.len()
                    invariant
                        i <= items@.len(),
                        *self == Json::Arr(*items),
                        items_of(out@) == items_of(items@.take(i as int)),
                    decreases items@.len() - i,
                {
                    proof {
                        assert(items@.take(i as int + 1).drop_last() =~= items@.take(i as int));
                        assert(decreases_to!(*self => self->Arr_0));
                        assert(decreases_to!(self->Arr_0 => self->Arr_0@[i as int]));
                    }
                    let one = items[i].copy();
                    add_item(&mut out, one);
                    i = i + 1;
                }
                proof {
                    assert(items@.take(items@.len() as int) =~= items@);
                }
                list(out)
            },
            Json::Obj(fields) => {
                let mut out = no_fields();
                let mut i: usize = 0;
                while i < fields.len()
                    invariant
                        i <= fields@.len(),
                        *self == Json::Obj(*fields),
                        fields_of(out@) == fields_of(fields@.take(i as int)),
                    decreases fields@.len() - i,
                {
                    proof {
                        assert(fields@.take(i as int + 1).drop_last() =~= fields@.take(i as int));
                        assert(decreases_to!(*self => self->Obj_0));
                        assert(decreases_to!(self->Obj_0 => self->Obj_0@[i as int]));
                        assert(decreases_to!(fields@[i as int] => fields@[i as int].1));
                    }
                    let one = fields[i].1.copy();
                    put(&mut out, fields[i].0.as_str(), one);
                    i = i + 1;
                }
                proof {
                    assert(fields@.take(fields@.len() as int) =~= fields@);
                }
                object(out)
            },
        }
    }

    /// The first field called `key`, where this is an object that has one.
    pub fn get(&self, key: &str) -> (r: Option<&Json>)
        ensures
            self@ matches Doc::Obj(fields) ==> match field(fields, key@) {
                Some(d) => r matches Some(j) && j@ == d,
                None => r is None,
            },
            !(self@ is Obj) ==> r is None,
    {
        match self {
            Json::Obj(fields) => {
                proof {
                    fields_at(fields@);
                    assert(fields_of(fields@).skip(0) =~= fields_of(fields@));
                }
                let mut i: usize = 0;
                while i < fields.len()
                    invariant
                        i <= fields@.len(),
                        self@ == Doc::Obj(fields_of(fields@)),
                        fields_of(fields@).len() == fields@.len(),
                        forall|k: int|
                            0 <= k < fields@.len() ==> #[trigger] fields_of(fields@)[k] == (
                                fields@[k].0@,
                                doc_of(fields@[k].1),
                            ),
                        field(fields_of(fields@), key@) == field(fields_of(fields@).skip(i as int), key@),
                    decreases fields@.len() - i,
                {
                    proof {
                        assert(fields_of(fields@).skip(i as int)[0] == fields_of(fields@)[i as int]);
                    }
                    if same(fields[i].0.as_str(), key) {
                        return Some(&fields[i].1);
                    }
                    proof {
                        assert(fields_of(fields@).skip(i as int).drop_first() =~= fields_of(fields@).skip(i as int + 1));
                    }
                    i = i + 1;
                }
                None
            },
            _ => None,
        }
    }

    /// The text, where this is one.
    pub fn as_str(&self) -> (r: Option<&str>)
        ensures
            r is Some <==> self@ is Str,
            r matches Some(s) ==> self@ == Doc::Str(s@),
    {
        match self {
            Json::Str(s) => Some(s.as_str()),
            _ => None,
        }
    }
}

/// What `serde_json::to_string` writes for a string: in quotes, with JSON's escapes.
pub uninterp spec fn json_text(s: Seq<char>) -> Seq<char>;

/// `serde_json::to_string` of a string, which cannot fail. The escapes are named, not
/// restated; a text that needs none stands in the quotes as it is.
#[verifier::external_body]
pub(crate) fn quote(s: &str) -> (out: String)
    ensures
        out@ == json_text(s@),
        is_plain(s@) ==> out@ == in_quotes(s@),
{
    serde_json::to_string(s).unwrap()
}

/// The first field of a name is the one that counts, and without one there is none.
pub proof fn the_first_field_counts(fields: Seq<(Seq<char>, Doc)>, key: Seq<char>, i: int)
    ensures
        0 <= i < fields.len() && fields[i].0 == key && (forall|j: int| 0 <= j < i ==> (#[trigger] fields[j]).0 != key)
            ==> field(fields, key) == Some(fields[i].1),
        (forall|j: int| 0 <= j < fields.len() ==> (#[trigger] fields[j]).0 != key) ==> field(fields, key) is None,
    decreases fields.len(),
{
    if fields.len() > 0 {
        let rest = fields.drop_first();
        the_first_field_counts(rest, key, i - 1);
        if 0 < i < fields.len() && forall|j: int| 0 <= j < i ==> (#[trigger] fields[j]).0 != key {
            assert(fields[0].0 != key);
            assert(rest[i - 1] == fields[i]);
            assert forall|j: int| 0 <= j < i - 1 implies (#[trigger] rest[j]).0 != key by {
                assert(rest[j] == fields[j + 1]);
            }
        }
        if forall|j: int| 0 <= j < fields.len() ==> (#[trigger] fields[j]).0 != key {
            assert(fields[0].0 != key);
            assert forall|j: int| 0 <= j < rest.len() implies (#[trigger] rest[j]).0 != key by {
                assert(rest[j] == fields[j + 1]);
            }
        }
    }
}

} // verus!
