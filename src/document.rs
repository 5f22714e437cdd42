//! Attribute documents and their flattening into one-level tags.
//!
//! A document is nested (objects, arrays, scalars, null); a vector tile
//! feature only holds flat `key -> scalar` tags. Flattening walks the
//! document with an accumulating key: an object field `f` under key `k`
//! gets key `k_f` (just `f` at the root), array elements keep the key of
//! their array, scalars give one tag each and null gives none. A double
//! `-0.0` gives the tag `0.0`.

use vstd::prelude::*;

verus! {

/// A nested attribute document.
#[derive(Debug)]
pub enum Document {
    Null,
    Bool(bool),
    /// A number that fits a signed 64-bit integer.
    Int(i64),
    /// A non-negative number that only fits an unsigned 64-bit integer.
    Uint(u64),
    /// Any other number, by the bit pattern of its IEEE 754 double.
    Double(u64),
    Str(String),
    Array(Vec<Document>),
    /// Fields in document order.
    Object(Vec<(String, Document)>),
}

/// The scalar value of a tag.
#[derive(Debug, PartialEq, Eq)]
pub enum TagValue {
    Bool(bool),
    Int(i64),
    Uint(u64),
    /// The bit pattern of an IEEE 754 double.
    Double(u64),
    Str(String),
}

pub ghost enum TagValueView {
    Bool(bool),
    Int(i64),
    Uint(u64),
    Double(u64),
    Str(Seq<char>),
}

impl View for TagValue {
    type V = TagValueView;

    open spec fn view(&self) -> TagValueView {
        match self {
            TagValue::Bool(b) => TagValueView::Bool(*b),
            TagValue::Int(i) => TagValueView::Int(*i),
            TagValue::Uint(u) => TagValueView::Uint(*u),
            TagValue::Double(d) => TagValueView::Double(*d),
            TagValue::Str(s) => TagValueView::Str(s@),
        }
    }
}

/// One flat tag.
#[derive(Debug, PartialEq, Eq)]
pub struct Tag {
    pub key: String,
    pub value: TagValue,
}

impl View for Tag {
    type V = (Seq<char>, TagValueView);

    open spec fn view(&self) -> (Seq<char>, TagValueView) {
        (self.key@, self.value@)
    }
}

pub open spec fn tag_views(tags: Seq<Tag>) -> Seq<(Seq<char>, TagValueView)> {
    tags.map_values(|t: Tag| t@)
}

/// The bit pattern of the double `-0.0`.
pub const NEGATIVE_ZERO: u64 = 0x8000_0000_0000_0000;

/// The bit pattern a double tag is written with: `-0.0` is written as
/// `0.0`, since the tile format's value tables do not tell the two apart.
pub open spec fn tag_double(bits: u64) -> u64 {
    if bits == NEGATIVE_ZERO {
        0
    } else {
        bits
    }
}

/// No tag holds the double `-0.0`.
pub open spec fn no_negative_zero(tags: Seq<Tag>) -> bool {
    forall|i: int| 0 <= i < tags.len() ==> #[trigger] tags[i].value != TagValue::Double(NEGATIVE_ZERO)
}

/// The key of field `field` under key `key`.
pub open spec fn field_key(key: Seq<char>, field: Seq<char>) -> Seq<char> {
    if key.len() == 0 {
        field
    } else {
        key + "_"@ + field
    }
}

/// The tags of `d` under key `key`, in document order.
pub open spec fn flatten(d: Document, key: Seq<char>) -> Seq<(Seq<char>, TagValueView)>
    decreases d, 0nat,
{
    match d {
        Document::Null => Seq::empty(),
        Document::Bool(b) => seq![(key, TagValueView::Bool(b))],
        Document::Int(i) => seq![(key, TagValueView::Int(i))],
        Document::Uint(u) => seq![(key, TagValueView::Uint(u))],
        Document::Double(bits) => seq![(key, TagValueView::Double(tag_double(bits)))],
        Document::Str(s) => seq![(key, TagValueView::Str(s@))],
        Document::Array(items) => flatten_items(items@, key, items@.len()),
        Document::Object(fields) => flatten_fields(fields@, key, fields@.len()),
    }
}

/// The tags of the first `n` elements of an array, all under `key`.
pub open spec fn flatten_items(items: Seq<Document>, key: Seq<char>, n: nat) -> Seq<(Seq<char>, TagValueView)>
    decreases items, n,
{
    if n == 0 || n > items.len() {
        Seq::empty()
    } else {
        flatten_items(items, key, (n - 1) as nat) + flatten(items[n - 1], key)
    }
}

/// The tags of the first `n` fields of an object under `key`.
pub open spec fn flatten_fields(fields: Seq<(String, Document)>, key: Seq<char>, n: nat) -> Seq<(Seq<char>, TagValueView)>
    decreases fields, n,
{
    if n == 0 || n > fields.len() {
        Seq::empty()
    } else {
        flatten_fields(fields, key, (n - 1) as nat) + flatten(
            fields[n - 1].1,
            field_key(key, fields[n - 1].0@),
        )
    }
}

/// The key of field `field` under key `key`.
fn extend_key(key: &String, field: &String) -> (r: String)
    ensures
        r@ == field_key(key@, field@),
{
    if key.as_str().unicode_len() == 0 {
        field.clone()
    } else {
        let mut k = key.clone();
        k.append("_");
        k.append(field.as_str());
        k
    }
}

/// Appends the tags of `d` under `key` to `out`, in document order.
fn flatten_into(d: &Document, key: &String, out: &mut Vec<Tag>)
    requires
        no_negative_zero(old(out)@),
    ensures
        tag_views(final(out)@) == tag_views(old(out)@) + flatten(*d, key@),
        no_negative_zero(final(out)@),
    decreases d,
{
    let ghost start = tag_views(out@);
    match d {
        Document::Null => {
            assert(tag_views(out@) =~= start + flatten(*d, key@));
        },
        Document::Bool(b) => {
            out.push(Tag { key: key.clone(), value: TagValue::Bool(*b) });
            assert(tag_views(out@) =~= start + flatten(*d, key@));
        },
        Document::Int(i) => {
            out.push(Tag { key: key.clone(), value: TagValue::Int(*i) });
            assert(tag_views(out@) =~= start + flatten(*d, key@));
        },
        Document::Uint(u) => {
            out.push(Tag { key: key.clone(), value: TagValue::Uint(*u) });
            assert(tag_views(out@) =~= start + flatten(*d, key@));
        },
        Document::Double(bits) => {
            let tag_bits = if *bits == NEGATIVE_ZERO {
                0
            } else {
                *bits
            };
            out.push(Tag { key: key.clone(), value: TagValue::Double(tag_bits) });
            assert(tag_views(out@) =~= start + flatten(*d, key@));
        },
        Document::Str(s) => {
            out.push(Tag { key: key.clone(), value: TagValue::Str(s.clone()) });
            assert(tag_views(out@) =~= start + flatten(*d, key@));
        },
        Document::Array(items) => {
            let mut i: usize = 0;
            while i < items.len()
                invariant
                    i <= items@.len(),
                    *d == Document::Array(*items),
                    tag_views(out@) == start + flatten_items(items@, key@, i as nat),
                    no_negative_zero(out@),
                decreases items@.len() - i,
            {
                proof {
                    assert(decreases_to!(*d => (*d)->Array_0));
                    assert(decreases_to!(*items => items@));
                    assert(decreases_to!(items@ => items@[i as int]));
                }
                flatten_into(&items[i], key, out);
                assert(tag_views(out@) =~= start + flatten_items(items@, key@, (i + 1) as nat));
                i = i + 1;
            }
        },
        Document::Object(fields) => {
            let mut i: usize = 0;
            while i < fields.len()
                invariant
                    i <= fields@.len(),
                    *d == Document::Object(*fields),
                    tag_views(out@) == start + flatten_fields(fields@, key@, i as nat),
                    no_negative_zero(out@),
                decreases fields@.len() - i,
            {
                let field_key = extend_key(key, &fields[i].0);
                proof {
                    assert(decreases_to!(*d => (*d)->Object_0));
                    assert(decreases_to!(*fields => fields@));
                    assert(decreases_to!(fields@ => fields@[i as int]));
                    assert(decreases_to!(fields@[i as int] => fields@[i as int].1));
                }
                flatten_into(&fields[i].1, &field_key, out);
                assert(tag_views(out@) =~= start + flatten_fields(fields@, key@, (i + 1) as nat));
                i = i + 1;
            }
        },
    }
}

/// The flat tags of a document, in document order, keys built from the
/// root with no prefix.
pub fn flatten_document(d: &Document) -> (r: Vec<Tag>)
    ensures
        tag_views(r@) == flatten(*d, Seq::empty()),
        no_negative_zero(r@),
{
    let mut tags: Vec<Tag> = Vec::new();
    let root = String::new();
    flatten_into(d, &root, &mut tags);
    assert(tag_views(tags@) =~= flatten(*d, Seq::empty()));
    tags
}

} // verus!
