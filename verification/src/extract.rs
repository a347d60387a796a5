//! From the tags of an image file to the metadata tree: what each kind of
//! tag value becomes, how a tag is recorded, and how the tree is put
//! together. Reading the file is not done here.

use vstd::prelude::*;
use crate::text::{
    decimal_text, digits_of, is_digit, lemma_digits_round_trip, lemma_first_index_unique,
};
use crate::transform::{
    lemma_nanometers_of_counting_numbers, lemma_written_digits, nanometers, nanometers_of,
    resolution_nanometers,
};
use crate::value::{array_view, distinct_names, is_finite_bits, GenericValue, Number, Tree};

verus! {

/// The value of a tag. A floating-point value is held as the IEEE-754
/// binary64 bit pattern of the number.
#[derive(Debug, PartialEq, Eq)]
pub enum IfdValue {
    Byte(u8),
    Ascii(String),
    Short(u16),
    Rational(u32, u32),
    SignedByte(i8),
    SignedShort(i16),
    Float(u64),
    Double(u64),
    List(Vec<IfdValue>),
    Unsigned(u32),
    /// A value of any other kind.
    Other,
}

/// The number with the bit pattern `bits`, or null where the pattern is none.
pub open spec fn float_tree(bits: u64) -> Tree {
    if is_finite_bits(bits) {
        Tree::Number(Number::Float(bits))
    } else {
        Tree::Null
    }
}

/// The text `num/den`.
pub open spec fn rational_text(num: u32, den: u32) -> Seq<char> {
    digits_of(num as nat) + seq!['/'] + digits_of(den as nat)
}

/// What the items of a list become, in order.
pub open spec fn list_trees(items: Seq<IfdValue>) -> Seq<Tree>
    decreases items,
{
    Seq::new(
        items.len(),
        |i: int|
            if 0 <= i < items.len() {
                value_tree(items[i])
            } else {
                Tree::Null
            },
    )
}

/// What a tag value becomes in the metadata tree: an integer becomes a
/// number, a text a text, a rational the text `num/den`, a list the array
/// of what its items become, and any other kind an empty object.
pub open spec fn value_tree(v: IfdValue) -> Tree
    decreases v,
{
    match v {
        IfdValue::Byte(n) => Tree::Number(Number::PosInt(n as u64)),
        IfdValue::Ascii(s) => Tree::Text(s@),
        IfdValue::Short(n) => Tree::Number(Number::PosInt(n as u64)),
        IfdValue::Rational(num, den) => Tree::Text(rational_text(num, den)),
        IfdValue::SignedByte(n) => Tree::Number(Number::of_signed(n as i64)),
        IfdValue::SignedShort(n) => Tree::Number(Number::of_signed(n as i64)),
        IfdValue::Float(bits) => float_tree(bits),
        IfdValue::Double(bits) => float_tree(bits),
        IfdValue::List(items) => Tree::Array(list_trees(items@)),
        IfdValue::Unsigned(n) => Tree::Number(Number::PosInt(n as u64)),
        IfdValue::Other => Tree::Object(Seq::empty()),
    }
}

/// The name of the kind of a tag value.
pub open spec fn kind_name(v: IfdValue) -> Seq<char> {
    match v {
        IfdValue::Byte(_) => "Byte"@,
        IfdValue::Ascii(_) => "ASCII"@,
        IfdValue::Short(_) => "Short"@,
        IfdValue::Rational(_, _) => "Rational"@,
        IfdValue::SignedByte(_) => "SignedByte"@,
        IfdValue::SignedShort(_) => "SignedShort"@,
        IfdValue::Float(_) => "Float"@,
        IfdValue::Double(_) => "Double"@,
        IfdValue::List(_) => "List"@,
        IfdValue::Unsigned(_) => "Unsigned"@,
        IfdValue::Other => "Unknown"@,
    }
}

/// The record of one tag: its name, its value and the name of its kind.
pub open spec fn tag_tree(name: Seq<char>, v: IfdValue) -> Tree {
    Tree::Object(
        seq![
            ("tag"@, Tree::Text(name)),
            ("value"@, value_tree(v)),
            ("type"@, Tree::Text(kind_name(v))),
        ],
    )
}

/// The records of the tags, in order.
pub open spec fn tag_trees(tags: Seq<(String, IfdValue)>) -> Seq<Tree> {
    Seq::new(tags.len(), |i: int| tag_tree(tags[i].0@, tags[i].1))
}

/// The metadata tree of an image: the name of its file, its width and
/// height, and its tags.
pub open spec fn metadata_tree(filename: Seq<char>, width: u32, height: u32, tags: Tree) -> Tree {
    Tree::Object(
        seq![
            ("filename"@, Tree::Text(filename)),
            (
                "dimensions"@,
                Tree::Object(
                    seq![
                        ("width"@, Tree::Number(Number::PosInt(width as u64))),
                        ("height"@, Tree::Number(Number::PosInt(height as u64))),
                    ],
                ),
            ),
            ("tags"@, tags),
        ],
    )
}

/// The text that is written for a rational reads back as that rational:
/// the resolution transform finds in it the numerator and the denominator
/// that were written.
pub proof fn lemma_rational_round_trip(num: u32, den: u32)
    ensures
        resolution_nanometers(rational_text(num, den)) == Some(
            nanometers_of(num as nat, den as nat) as int,
        ),
        nanometers(value_tree(IfdValue::Rational(num, den))) == Tree::Number(
            Number::PosInt(nanometers_of(num as nat, den as nat) as u64),
        ),
{
    let a = digits_of(num as nat);
    let b = digits_of(den as nat);
    let s = rational_text(num, den);
    lemma_digits_round_trip(num as nat);
    lemma_digits_round_trip(den as nat);
    assert forall|j: int| 0 <= j < a.len() implies s[j] != '/' by {
        assert(s[j] == a[j]);
        assert(is_digit(a[j]));
    }
    assert(s[a.len() as int] == '/');
    lemma_first_index_unique(s, '/', a.len() as int);
    assert(s.take(a.len() as int) =~= a);
    assert(s.skip(a.len() as int + 1) =~= b);
    lemma_written_digits(a);
    lemma_written_digits(b);
    lemma_nanometers_of_counting_numbers(num as u64, den as u64);
}

/// What a tag value becomes is well formed.
pub proof fn lemma_value_tree_wf(v: IfdValue)
    ensures
        value_tree(v).wf(),
    decreases v,
{
    match v {
        IfdValue::List(items) => {
            let trees = list_trees(items@);
            assert forall|i: int| 0 <= i < trees.len() implies (#[trigger] trees[i]).wf() by {
                lemma_value_tree_wf(items@[i]);
            }
        },
        IfdValue::Other => {
            assert(distinct_names(Seq::<(Seq<char>, Tree)>::empty()));
        },
        _ => {},
    }
}

/// The record of a tag is well formed.
pub proof fn lemma_tag_tree_wf(name: Seq<char>, v: IfdValue)
    ensures
        tag_tree(name, v).wf(),
{
    reveal_strlit("tag");
    reveal_strlit("value");
    reveal_strlit("type");
    lemma_value_tree_wf(v);
    let members = seq![
        ("tag"@, Tree::Text(name)),
        ("value"@, value_tree(v)),
        ("type"@, Tree::Text(kind_name(v))),
    ];
    assert("tag"@.len() == 3 && "value"@.len() == 5 && "type"@.len() == 4);
    assert(distinct_names(members));
    assert forall|k: int| 0 <= k < members.len() implies (#[trigger] members[k]).1.wf() by {}
}

/// The array of the records of the tags is well formed.
pub proof fn lemma_tag_trees_wf(tags: Seq<(String, IfdValue)>)
    ensures
        Tree::Array(tag_trees(tags)).wf(),
{
    let records = tag_trees(tags);
    assert forall|i: int| 0 <= i < records.len() implies (#[trigger] records[i]).wf() by {
        lemma_tag_tree_wf(tags[i].0@, tags[i].1);
    }
}

/// The metadata tree of an image with well-formed tags is well formed.
pub proof fn lemma_metadata_tree_wf(filename: Seq<char>, width: u32, height: u32, tags: Tree)
    requires
        tags.wf(),
    ensures
        metadata_tree(filename, width, height, tags).wf(),
{
    reveal_strlit("filename");
    reveal_strlit("dimensions");
    reveal_strlit("tags");
    reveal_strlit("width");
    reveal_strlit("height");
    let dims = seq![
        ("width"@, Tree::Number(Number::PosInt(width as u64))),
        ("height"@, Tree::Number(Number::PosInt(height as u64))),
    ];
    assert("width"@.len() == 5 && "height"@.len() == 6);
    assert(distinct_names(dims));
    assert forall|k: int| 0 <= k < dims.len() implies (#[trigger] dims[k]).1.wf() by {}
    assert(Tree::Object(dims).wf());
    let top = seq![
        ("filename"@, Tree::Text(filename)),
        ("dimensions"@, Tree::Object(dims)),
        ("tags"@, tags),
    ];
    assert("filename"@.len() == 8 && "dimensions"@.len() == 10 && "tags"@.len() == 4);
    assert(distinct_names(top));
    assert forall|k: int| 0 <= k < top.len() implies (#[trigger] top[k]).1.wf() by {}
}

/// The number with the bit pattern `bits`, or null.
fn float_value(bits: u64) -> (r: GenericValue)
    ensures
        r@ == float_tree(bits),
{
    if Number::Float(bits).is_well_formed() {
        GenericValue::Number(Number::Float(bits))
    } else {
        GenericValue::Null
    }
}

/// The text `num/den`.
fn rational_value(num: u32, den: u32) -> (r: GenericValue)
    ensures
        r@ == Tree::Text(rational_text(num, den)),
{
    let mut text = decimal_text(num as u64);
    text.append("/");
    text.append(decimal_text(den as u64).as_str());
    proof {
        reveal_strlit("/");
        assert("/"@ =~= seq!['/']);
    }
    GenericValue::Text(text)
}

/// What a tag value becomes in the metadata tree, and the name of its kind.
pub fn extract_value(ifd_value: &IfdValue) -> (r: (GenericValue, &'static str))
    ensures
        r.0@ == value_tree(*ifd_value),
        r.1@ == kind_name(*ifd_value),
        r.0@.wf(),
    decreases ifd_value,
{
    proof {
        lemma_value_tree_wf(*ifd_value);
    }
    match ifd_value {
        IfdValue::Byte(val) => (GenericValue::unsigned(*val as u64), "Byte"),
        IfdValue::Ascii(s) => (GenericValue::Text(s.clone()), "ASCII"),
        IfdValue::Short(val) => (GenericValue::unsigned(*val as u64), "Short"),
        IfdValue::Rational(val_1, val_2) => (rational_value(*val_1, *val_2), "Rational"),
        IfdValue::SignedByte(val) => (GenericValue::signed(*val as i64), "SignedByte"),
        IfdValue::SignedShort(val) => (GenericValue::signed(*val as i64), "SignedShort"),
        IfdValue::Float(bits) => (float_value(*bits), "Float"),
        IfdValue::Double(bits) => (float_value(*bits), "Double"),
        IfdValue::List(vals) => {
            let mut items: Vec<GenericValue> = Vec::new();
            let mut i: usize = 0;
            while i < vals.len()
                invariant
                    i <= vals.len(),
                    items.len() == i,
                    *ifd_value == IfdValue::List(*vals),
                    forall|j: int| 0 <= j < i ==> items@[j]@ == value_tree(vals@[j]),
                decreases vals.len() - i,
            {
                assert(ifd_value->List_0 == *vals);
                let (item, _) = extract_value(&vals[i]);
                items.push(item);
                i = i + 1;
            }
            assert(array_view(items@) =~= list_trees(vals@));
            (GenericValue::Array(items), "List")
        },
        IfdValue::Unsigned(val) => (GenericValue::unsigned(*val as u64), "Unsigned"),
        IfdValue::Other => {
            let r = GenericValue::Object(Vec::new());
            assert(r@->Object_0 =~= Seq::empty());
            (r, "Unknown")
        },
    }
}

/// The record of the tag called `name` with the value `value`.
pub fn tag_record(name: &str, value: &IfdValue) -> (r: GenericValue)
    ensures
        r@ == tag_tree(name@, *value),
        r@.wf(),
{
    proof {
        lemma_tag_tree_wf(name@, *value);
    }
    let (v, kind) = extract_value(value);
    let ghost vt = v@;
    let mut members: Vec<(String, GenericValue)> = Vec::new();
    members.push(("tag".to_owned(), GenericValue::text(name)));
    members.push(("value".to_owned(), v));
    members.push(("type".to_owned(), GenericValue::text(kind)));
    let r = GenericValue::Object(members);
    assert(r@->Object_0 =~= seq![
        ("tag"@, Tree::Text(name@)),
        ("value"@, vt),
        ("type"@, Tree::Text(kind@)),
    ]);
    r
}

/// The array of the records of `tags`, in their order.
pub fn tag_list(tags: &Vec<(String, IfdValue)>) -> (r: GenericValue)
    ensures
        r@ == Tree::Array(tag_trees(tags@)),
        r@.wf(),
{
    proof {
        lemma_tag_trees_wf(tags@);
    }
    let mut items: Vec<GenericValue> = Vec::new();
    let mut i: usize = 0;
    while i < tags.len()
        invariant
            i <= tags.len(),
            items.len() == i,
            forall|j: int| 0 <= j < i ==> items@[j]@ == tag_tree(tags@[j].0@, tags@[j].1),
        decreases tags.len() - i,
    {
        items.push(tag_record(tags[i].0.as_str(), &tags[i].1));
        i = i + 1;
    }
    assert(array_view(items@) =~= tag_trees(tags@));
    GenericValue::Array(items)
}

/// The metadata tree of the image in the file `filename`.
pub fn assemble_metadata(filename: &str, width: u32, height: u32, tags: GenericValue) -> (r:
    GenericValue)
    ensures
        r@ == metadata_tree(filename@, width, height, tags@),
        tags@.wf() ==> r@.wf(),
{
    proof {
        if tags@.wf() {
            lemma_metadata_tree_wf(filename@, width, height, tags@);
        }
    }
    let ghost tt = tags@;
    let mut dimensions: Vec<(String, GenericValue)> = Vec::new();
    dimensions.push(("width".to_owned(), GenericValue::unsigned(width as u64)));
    dimensions.push(("height".to_owned(), GenericValue::unsigned(height as u64)));
    let dims = GenericValue::Object(dimensions);
    assert(dims@->Object_0 =~= seq![
        ("width"@, Tree::Number(Number::PosInt(width as u64))),
        ("height"@, Tree::Number(Number::PosInt(height as u64))),
    ]);
    let ghost dt = dims@;
    let mut members: Vec<(String, GenericValue)> = Vec::new();
    members.push(("filename".to_owned(), GenericValue::text(filename)));
    members.push(("dimensions".to_owned(), dims));
    members.push(("tags".to_owned(), tags));
    let r = GenericValue::Object(members);
    assert(r@->Object_0 =~= seq![
        ("filename"@, Tree::Text(filename@)),
        ("dimensions"@, dt),
        ("tags"@, tt),
    ]);
    r
}

} // verus!
