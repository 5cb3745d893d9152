//! The values that the cache stores, their size in bytes and their text.

use vstd::prelude::*;
use vstd::string::*;
use crate::text::byte_len;
use crate::text::decimal;
use crate::text::owned;
use crate::text::push_decimal;
use crate::text::push_signed_decimal;
use crate::text::same_bytes;
use crate::text::same_text;
use vstd::std_specs::cmp::PartialEqSpecImpl;
use crate::text::signed_decimal;
use crate::text::text_len;

verus! {

broadcast use vstd::seq::group_seq_axioms, vstd::std_specs::vec::group_vec_axioms;

/// Bytes charged for an integer or a float.
pub const SCALAR_BYTES: usize = 8;

/// Bytes charged for a hash, on top of its fields.
pub const HASH_OVERHEAD: usize = 48;

/// Bytes charged for a list, on top of its items.
pub const LIST_OVERHEAD: usize = 24;

/// Bytes charged for a set, on top of its members.
pub const SET_OVERHEAD: usize = 48;

/// A 64-bit binary float, held by its bit pattern and its decimal text.
///
/// This library does no floating-point arithmetic and no float formatting:
/// whoever makes the value supplies the text that displays it.
#[derive(Debug, Clone, PartialEq)]
pub struct FloatValue {
    pub bits: u64,
    pub text: String,
}

/// A value that the cache can store.
///
/// A hash holds its fields, and a set its members, in a vector. Both are
/// meant to hold no key twice; [`Value::is_well_formed`] tells whether they
/// do. The order in which a hash holds its fields, or a set its members,
/// means nothing: two values are equal whatever that order is.
#[derive(Debug)]
pub enum Value {
    /// A text.
    String(String),
    /// A 64-bit signed integer.
    Integer(i64),
    /// A 64-bit binary float.
    Float(FloatValue),
    /// A sequence of bytes.
    Bytes(Vec<u8>),
    /// Fields: keys with their values, in no meaningful order.
    Hash(Vec<(String, Value)>),
    /// Values in order.
    List(Vec<Value>),
    /// Texts, in no meaningful order.
    StringSet(Vec<String>),
}

/// The mathematical content of a [`Value`].
pub enum ValueModel {
    String(Seq<char>),
    Integer(int),
    Float(u64, Seq<char>),
    Bytes(Seq<u8>),
    Hash(Seq<(Seq<char>, ValueModel)>),
    List(Seq<ValueModel>),
    StringSet(Seq<Seq<char>>),
}

/// The content of each text of a sequence.
pub open spec fn texts_view(s: Seq<String>) -> Seq<Seq<char>> {
    Seq::new(s.len(), |i: int| s[i]@)
}

/// The content of a value.
pub open spec fn value_view(v: Value) -> ValueModel
    decreases v, 0nat,
{
    match v {
        Value::String(s) => ValueModel::String(s@),
        Value::Integer(i) => ValueModel::Integer(i as int),
        Value::Float(f) => ValueModel::Float(f.bits, f.text@),
        Value::Bytes(b) => ValueModel::Bytes(b@),
        Value::Hash(h) => ValueModel::Hash(fields_view(h@)),
        Value::List(l) => ValueModel::List(items_view(l@)),
        Value::StringSet(s) => ValueModel::StringSet(texts_view(s@)),
    }
}

/// The content of each value of a sequence.
pub open spec fn items_view(items: Seq<Value>) -> Seq<ValueModel>
    decreases items, 1nat,
{
    if items.len() == 0 {
        Seq::empty()
    } else {
        items_view(items.drop_last()).push(value_view(items.last()))
    }
}

/// The content of each field of a sequence.
pub open spec fn fields_view(fields: Seq<(String, Value)>) -> Seq<(Seq<char>, ValueModel)>
    decreases fields, 1nat,
{
    if fields.len() == 0 {
        Seq::empty()
    } else {
        fields_view(fields.drop_last()).push((fields.last().0@, value_view(fields.last().1)))
    }
}

/// The largest number that fits a `usize`, or `n` itself where it fits.
pub open spec fn saturate(n: nat) -> usize {
    if n <= usize::MAX {
        n as usize
    } else {
        usize::MAX
    }
}

/// Bytes that the texts of a sequence occupy together.
pub open spec fn texts_bytes(s: Seq<Seq<char>>) -> nat
    decreases s.len(),
{
    if s.len() == 0 {
        0
    } else {
        texts_bytes(s.drop_last()) + byte_len(s.last())
    }
}

/// Bytes charged for the items of a list together.
pub open spec fn items_size(items: Seq<ValueModel>) -> nat
    decreases items, 1nat,
{
    if items.len() == 0 {
        0
    } else {
        items_size(items.drop_last()) + items.last().size()
    }
}

/// Bytes charged for the fields of a hash together: each key and each value.
pub open spec fn fields_size(fields: Seq<(Seq<char>, ValueModel)>) -> nat
    decreases fields, 1nat,
{
    if fields.len() == 0 {
        0
    } else {
        fields_size(fields.drop_last()) + byte_len(fields.last().0) + fields.last().1.size()
    }
}

/// Whether no two fields have the same key.
pub open spec fn keys_differ(fields: Seq<(Seq<char>, ValueModel)>) -> bool {
    forall|i: int, j: int| 0 <= i < j < fields.len() ==> (#[trigger] fields[i]).0 != (
    #[trigger] fields[j]).0
}

/// Whether every item is well formed.
pub open spec fn items_well_formed(items: Seq<ValueModel>) -> bool
    decreases items, 1nat,
{
    if items.len() == 0 {
        true
    } else {
        items_well_formed(items.drop_last()) && items.last().well_formed()
    }
}

/// Whether the value of every field is well formed.
pub open spec fn fields_well_formed(fields: Seq<(Seq<char>, ValueModel)>) -> bool
    decreases fields, 1nat,
{
    if fields.len() == 0 {
        true
    } else {
        fields_well_formed(fields.drop_last()) && fields.last().1.well_formed()
    }
}

/// How many of `fields` have the key `key` and a value that equals `value`.
pub open spec fn count_fields(
    fields: Seq<(Seq<char>, ValueModel)>,
    key: Seq<char>,
    value: ValueModel,
) -> nat
    decreases value, 1nat, fields.len(),
{
    if fields.len() == 0 {
        0
    } else {
        count_fields(fields.drop_last(), key, value) + if fields.last().0 == key && value.same(
            fields.last().1,
        ) {
            1nat
        } else {
            0nat
        }
    }
}

/// How many of `texts` are `text`.
pub open spec fn count_texts(texts: Seq<Seq<char>>, text: Seq<char>) -> nat
    decreases texts.len(),
{
    if texts.len() == 0 {
        0
    } else {
        count_texts(texts.drop_last(), text) + if texts.last() == text {
            1nat
        } else {
            0nat
        }
    }
}

impl ValueModel {
    /// Whether two values are equal. Texts, numbers and bytes are equal
    /// where they are the same; lists where they hold equal items in the
    /// same order; hashes where they hold equal fields, and sets where they
    /// hold the same members, each as often in the one as in the other, in
    /// whatever order.
    pub open spec fn same(self, other: ValueModel) -> bool
        decreases self, 0nat, 0nat,
    {
        match (self, other) {
            (ValueModel::String(a), ValueModel::String(b)) => a == b,
            (ValueModel::Integer(a), ValueModel::Integer(b)) => a == b,
            (ValueModel::Float(a, s), ValueModel::Float(b, t)) => a == b && s == t,
            (ValueModel::Bytes(a), ValueModel::Bytes(b)) => a == b,
            (ValueModel::Hash(a), ValueModel::Hash(b)) => a.len() == b.len() && forall|i: int|
                0 <= i < a.len() ==> count_fields(a, (#[trigger] a[i]).0, a[i].1) == count_fields(
                    b,
                    a[i].0,
                    a[i].1,
                ),
            (ValueModel::List(a), ValueModel::List(b)) => a.len() == b.len() && forall|i: int|
                0 <= i < a.len() ==> (#[trigger] a[i]).same(b[i]),
            (ValueModel::StringSet(a), ValueModel::StringSet(b)) => a.len() == b.len() && forall|
                i: int,
            |
                0 <= i < a.len() ==> count_texts(a, #[trigger] a[i]) == count_texts(b, a[i]),
            _ => false,
        }
    }

    /// Bytes charged for the value: the payload of a text or of bytes, eight
    /// bytes for a number, and for a container its overhead and its contents.
    pub open spec fn size(self) -> nat
        decreases self, 0nat,
    {
        match self {
            ValueModel::String(s) => byte_len(s),
            ValueModel::Integer(_) => SCALAR_BYTES as nat,
            ValueModel::Float(_, _) => SCALAR_BYTES as nat,
            ValueModel::Bytes(b) => b.len(),
            ValueModel::Hash(h) => HASH_OVERHEAD as nat + fields_size(h),
            ValueModel::List(l) => LIST_OVERHEAD as nat + items_size(l),
            ValueModel::StringSet(s) => SET_OVERHEAD as nat + texts_bytes(s),
        }
    }

    /// Whether the value is what a hash, a list and a set are meant to
    /// be: no hash holds a key twice, no set a member twice, and so in
    /// every value inside.
    pub open spec fn well_formed(self) -> bool
        decreases self, 0nat,
    {
        match self {
            ValueModel::Hash(h) => keys_differ(h) && fields_well_formed(h),
            ValueModel::List(l) => items_well_formed(l),
            ValueModel::StringSet(s) => s.no_duplicates(),
            _ => true,
        }
    }

    /// The lower-case name of the value's kind.
    pub open spec fn kind_name(self) -> Seq<char> {
        match self {
            ValueModel::String(_) => "string"@,
            ValueModel::Integer(_) => "integer"@,
            ValueModel::Float(_, _) => "float"@,
            ValueModel::Bytes(_) => "bytes"@,
            ValueModel::Hash(_) => "hash"@,
            ValueModel::List(_) => "list"@,
            ValueModel::StringSet(_) => "set"@,
        }
    }

    /// The text that displays the value: a text or a number as it is, and
    /// for bytes or a container what it is and how much it holds.
    pub open spec fn text(self) -> Seq<char> {
        match self {
            ValueModel::String(s) => s,
            ValueModel::Integer(i) => signed_decimal(i),
            ValueModel::Float(_, t) => t,
            ValueModel::Bytes(b) => decimal(b.len()) + " bytes"@,
            ValueModel::Hash(h) => "hash with "@ + decimal(h.len()) + " fields"@,
            ValueModel::List(l) => "list with "@ + decimal(l.len()) + " items"@,
            ValueModel::StringSet(s) => "set with "@ + decimal(s.len()) + " members"@,
        }
    }
}

/// Adds two sizes, stopping at the largest `usize`.
pub fn add_saturating(a: usize, b: usize) -> (r: usize)
    ensures
        r == saturate((a + b) as nat),
{
    a.saturating_add(b)
}

/// Saturating a sum of saturated terms is saturating the sum.
pub proof fn lemma_saturate_sum(x: nat, y: nat)
    ensures
        saturate((saturate(x) + saturate(y)) as nat) == saturate(x + y),
{
}

/// The content of a sequence of values has as many items as the sequence.
pub proof fn lemma_items_view_len(items: Seq<Value>)
    ensures
        items_view(items).len() == items.len(),
    decreases items.len(),
{
    if items.len() > 0 {
        lemma_items_view_len(items.drop_last());
    }
}

/// The content of a sequence of fields has as many fields as the sequence.
pub proof fn lemma_fields_view_len(fields: Seq<(String, Value)>)
    ensures
        fields_view(fields).len() == fields.len(),
    decreases fields.len(),
{
    if fields.len() > 0 {
        lemma_fields_view_len(fields.drop_last());
    }
}

/// The content of the item at a place is the item at that place of the content.
pub proof fn lemma_items_view_at(items: Seq<Value>, i: int)
    requires
        0 <= i < items.len(),
    ensures
        items_view(items).len() == items.len(),
        items_view(items)[i] == items[i]@,
    decreases items.len(),
{
    lemma_items_view_len(items);
    lemma_items_view_len(items.drop_last());
    if i < items.len() - 1 {
        lemma_items_view_at(items.drop_last(), i);
    }
}

/// The content of the field at a place is the field at that place of the content.
pub proof fn lemma_fields_view_at(fields: Seq<(String, Value)>, i: int)
    requires
        0 <= i < fields.len(),
    ensures
        fields_view(fields).len() == fields.len(),
        fields_view(fields)[i] == (fields[i].0@, fields[i].1@),
    decreases fields.len(),
{
    lemma_fields_view_len(fields);
    lemma_fields_view_len(fields.drop_last());
    if i < fields.len() - 1 {
        lemma_fields_view_at(fields.drop_last(), i);
    }
}

/// Items that are all well formed are each well formed.
pub proof fn lemma_items_all(items: Seq<ValueModel>, i: int)
    requires
        0 <= i < items.len(),
    ensures
        items_well_formed(items) ==> items[i].well_formed(),
    decreases items.len(),
{
    if i < items.len() - 1 {
        lemma_items_all(items.drop_last(), i);
    }
}

/// Fields whose values are all well formed have each a well-formed value.
pub proof fn lemma_fields_all(fields: Seq<(Seq<char>, ValueModel)>, i: int)
    requires
        0 <= i < fields.len(),
    ensures
        fields_well_formed(fields) ==> fields[i].1.well_formed(),
    decreases fields.len(),
{
    if i < fields.len() - 1 {
        lemma_fields_all(fields.drop_last(), i);
    }
}

/// Fields of which two have one key do not all differ in their keys.
pub proof fn lemma_not_well_formed_hash(fields: Seq<(Seq<char>, ValueModel)>, i: int, j: int)
    requires
        0 <= i < j < fields.len(),
        fields[i].0 == fields[j].0,
    ensures
        !keys_differ(fields),
{
}

/// Every value equals itself, so two values with one content are equal.
pub proof fn law_equality_is_reflexive(v: ValueModel)
    ensures
        v.same(v),
    decreases v,
{
    match v {
        ValueModel::List(items) => {
            assert forall|i: int| 0 <= i < items.len() implies (#[trigger] items[i]).same(
                items[i],
            ) by {
                law_equality_is_reflexive(items[i]);
            }
        },
        _ => {},
    }
}

/// Fields put together hold a field as often as they hold it apart.
pub proof fn lemma_count_fields_adds(
    front: Seq<(Seq<char>, ValueModel)>,
    back: Seq<(Seq<char>, ValueModel)>,
    key: Seq<char>,
    value: ValueModel,
)
    ensures
        count_fields(front + back, key, value) == count_fields(front, key, value) + count_fields(
            back,
            key,
            value,
        ),
    decreases back.len(),
{
    if back.len() == 0 {
        assert(front + back =~= front);
    } else {
        assert((front + back).drop_last() =~= front + back.drop_last());
        assert((front + back).last() == back.last());
        lemma_count_fields_adds(front, back.drop_last(), key, value);
    }
}

/// Texts put together hold a text as often as they hold it apart.
pub proof fn lemma_count_texts_adds(front: Seq<Seq<char>>, back: Seq<Seq<char>>, text: Seq<char>)
    ensures
        count_texts(front + back, text) == count_texts(front, text) + count_texts(back, text),
    decreases back.len(),
{
    if back.len() == 0 {
        assert(front + back =~= front);
    } else {
        assert((front + back).drop_last() =~= front + back.drop_last());
        assert((front + back).last() == back.last());
        lemma_count_texts_adds(front, back.drop_last(), text);
    }
}

/// The order of fields and of members means nothing: a hash equals the
/// hash that holds its fields from any place on and then those before
/// that place, and so does a set with its members.
pub proof fn law_order_means_nothing(
    front: Seq<(Seq<char>, ValueModel)>,
    back: Seq<(Seq<char>, ValueModel)>,
    first: Seq<Seq<char>>,
    last: Seq<Seq<char>>,
)
    ensures
        ValueModel::Hash(front + back).same(ValueModel::Hash(back + front)),
        ValueModel::StringSet(first + last).same(ValueModel::StringSet(last + first)),
{
    let one = front + back;
    assert forall|i: int| 0 <= i < one.len() implies count_fields(
        one,
        (#[trigger] one[i]).0,
        one[i].1,
    ) == count_fields(back + front, one[i].0, one[i].1) by {
        lemma_count_fields_adds(front, back, one[i].0, one[i].1);
        lemma_count_fields_adds(back, front, one[i].0, one[i].1);
    }
    let all = first + last;
    assert forall|i: int| 0 <= i < all.len() implies count_texts(all, #[trigger] all[i])
        == count_texts(last + first, all[i]) by {
        lemma_count_texts_adds(first, last, all[i]);
        lemma_count_texts_adds(last, first, all[i]);
    }
}

impl View for Value {
    type V = ValueModel;

    open spec fn view(&self) -> ValueModel {
        value_view(*self)
    }
}

/// A copy of each text of a vector.
pub fn copy_texts(texts: &Vec<String>) -> (r: Vec<String>)
    ensures
        texts_view(r@) == texts_view(texts@),
{
    let mut out: Vec<String> = Vec::new();
    let mut i: usize = 0;
    while i < texts.len()
        invariant
            i <= texts.len(),
            out@.len() == i,
            forall|j: int| 0 <= j < i ==> out@[j]@ == texts@[j]@,
        decreases texts.len() - i,
    {
        out.push(texts[i].clone());
        i += 1;
    }
    assert(texts_view(out@) =~= texts_view(texts@));
    out
}

/// Bytes that the texts of a vector occupy together, stopping at the largest `usize`.
pub fn texts_memory(texts: &Vec<String>) -> (r: usize)
    ensures
        r == saturate(texts_bytes(texts_view(texts@))),
{
    let mut total: usize = 0;
    let mut i: usize = 0;
    assert(texts_view(texts@.subrange(0, 0)) =~= Seq::empty());
    while i < texts.len()
        invariant
            i <= texts.len(),
            total == saturate(texts_bytes(texts_view(texts@.subrange(0, i as int)))),
        decreases texts.len() - i,
    {
        let n = text_len(texts[i].as_str());
        proof {
            let before = texts_view(texts@.subrange(0, i as int));
            let after = texts_view(texts@.subrange(0, i + 1));
            assert(after.drop_last() =~= before);
            assert(after.last() == texts@[i as int]@);
            lemma_saturate_sum(texts_bytes(before), byte_len(texts@[i as int]@));
        }
        total = add_saturating(total, n);
        i += 1;
    }
    assert(texts@.subrange(0, texts.len() as int) =~= texts@);
    total
}

/// How many of `texts` are `text`.
fn count_texts_of(texts: &Vec<String>, text: &str) -> (n: usize)
    ensures
        n == count_texts(texts_view(texts@), text@),
{
    let mut n: usize = 0;
    let mut i: usize = 0;
    assert(texts_view(texts@.subrange(0, 0)) =~= Seq::empty());
    while i < texts.len()
        invariant
            i <= texts.len(),
            n <= i,
            n == count_texts(texts_view(texts@.subrange(0, i as int)), text@),
        decreases texts.len() - i,
    {
        proof {
            let before = texts_view(texts@.subrange(0, i as int));
            let after = texts_view(texts@.subrange(0, i + 1));
            assert(after.drop_last() =~= before);
            assert(after.last() == texts@[i as int]@);
        }
        if same_text(texts[i].as_str(), text) {
            n = n + 1;
        }
        i = i + 1;
    }
    assert(texts@.subrange(0, texts.len() as int) =~= texts@);
    n
}

/// How many of `fields` have the key `key` and a value that equals `value`.
#[verifier::loop_isolation(false)]
fn count_fields_of(fields: &Vec<(String, Value)>, key: &str, value: &Value) -> (n: usize)
    ensures
        n == count_fields(fields_view(fields@), key@, value@),
    decreases value, 1nat, 0nat,
{
    let mut n: usize = 0;
    let mut i: usize = 0;
    while i < fields.len()
        invariant
            i <= fields.len(),
            n <= i,
            n == count_fields(fields_view(fields@.subrange(0, i as int)), key@, value@),
        decreases fields.len() - i,
    {
        proof {
            let before = fields_view(fields@.subrange(0, i as int));
            let after = fields_view(fields@.subrange(0, i + 1));
            assert(fields@.subrange(0, i + 1).drop_last() =~= fields@.subrange(0, i as int));
            assert(after.drop_last() =~= before);
            assert(after.last() == (fields@[i as int].0@, fields@[i as int].1@));
        }
        if same_text(fields[i].0.as_str(), key) && value.same_as(&fields[i].1) {
            n = n + 1;
        }
        i = i + 1;
    }
    assert(fields@.subrange(0, fields.len() as int) =~= fields@);
    n
}

impl PartialEq for Value {
    fn eq(&self, other: &Value) -> (b: bool) {
        self.same_as(other)
    }
}

impl PartialEqSpecImpl for Value {
    open spec fn obeys_eq_spec() -> bool {
        true
    }

    open spec fn eq_spec(&self, other: &Value) -> bool {
        self@.same(other@)
    }
}

impl Value {
    /// Whether two values are equal, whatever the order in which a hash
    /// holds its fields or a set its members.
    #[verifier::loop_isolation(false)]
    pub fn same_as(&self, other: &Value) -> (b: bool)
        ensures
            b == self@.same(other@),
        decreases self, 0nat, 0nat,
    {
        match (self, other) {
            (Value::String(a), Value::String(b)) => same_text(a.as_str(), b.as_str()),
            (Value::Integer(a), Value::Integer(b)) => *a == *b,
            (Value::Float(a), Value::Float(b)) => a.bits == b.bits && same_text(
                a.text.as_str(),
                b.text.as_str(),
            ),
            (Value::Bytes(a), Value::Bytes(b)) => same_bytes(a.as_slice(), b.as_slice()),
            (Value::Hash(a), Value::Hash(b)) => {
                proof {
                    lemma_fields_view_len(a@);
                    lemma_fields_view_len(b@);
                }
                if a.len() != b.len() {
                    return false;
                }
                let ghost fa = fields_view(a@);
                let ghost fb = fields_view(b@);
                let mut i: usize = 0;
                while i < a.len()
                    invariant
                        i <= a.len(),
                        forall|j: int|
                            0 <= j < i ==> count_fields(fa, (#[trigger] fa[j]).0, fa[j].1)
                                == count_fields(fb, fa[j].0, fa[j].1),
                    decreases a.len() - i,
                {
                    assert(decreases_to!(*a => a[i as int]));
                    let in_a = count_fields_of(a, a[i].0.as_str(), &a[i].1);
                    let in_b = count_fields_of(b, a[i].0.as_str(), &a[i].1);
                    proof {
                        lemma_fields_view_at(a@, i as int);
                    }
                    if in_a != in_b {
                        return false;
                    }
                    i = i + 1;
                }
                true
            },
            (Value::List(a), Value::List(b)) => {
                proof {
                    lemma_items_view_len(a@);
                    lemma_items_view_len(b@);
                }
                if a.len() != b.len() {
                    return false;
                }
                let ghost ia = items_view(a@);
                let ghost ib = items_view(b@);
                let mut i: usize = 0;
                while i < a.len()
                    invariant
                        i <= a.len(),
                        forall|j: int| 0 <= j < i ==> (#[trigger] ia[j]).same(ib[j]),
                    decreases a.len() - i,
                {
                    assert(decreases_to!(*a => a[i as int]));
                    proof {
                        lemma_items_view_at(a@, i as int);
                        lemma_items_view_at(b@, i as int);
                    }
                    if !a[i].same_as(&b[i]) {
                        return false;
                    }
                    i = i + 1;
                }
                true
            },
            (Value::StringSet(a), Value::StringSet(b)) => {
                if a.len() != b.len() {
                    return false;
                }
                let ghost ta = texts_view(a@);
                let ghost tb = texts_view(b@);
                let mut i: usize = 0;
                while i < a.len()
                    invariant
                        i <= a.len(),
                        forall|j: int|
                            0 <= j < i ==> count_texts(ta, #[trigger] ta[j]) == count_texts(
                                tb,
                                ta[j],
                            ),
                    decreases a.len() - i,
                {
                    let in_a = count_texts_of(a, a[i].as_str());
                    let in_b = count_texts_of(b, a[i].as_str());
                    assert(ta[i as int] == a@[i as int]@);
                    if in_a != in_b {
                        return false;
                    }
                    i = i + 1;
                }
                true
            },
            _ => false,
        }
    }

    /// The lower-case name of the value's kind.
    pub fn kind_name(&self) -> (r: &'static str)
        ensures
            r@ == self@.kind_name(),
    {
        match self {
            Value::String(_) => "string",
            Value::Integer(_) => "integer",
            Value::Float(_) => "float",
            Value::Bytes(_) => "bytes",
            Value::Hash(_) => "hash",
            Value::List(_) => "list",
            Value::StringSet(_) => "set",
        }
    }

    /// Bytes charged for the value, stopping at the largest `usize`.
    #[verifier::loop_isolation(false)]
    pub fn memory_usage(&self) -> (r: usize)
        ensures
            r == saturate(self@.size()),
        decreases self,
    {
        match self {
            Value::String(s) => text_len(s.as_str()),
            Value::Integer(_) => SCALAR_BYTES,
            Value::Float(_) => SCALAR_BYTES,
            Value::Bytes(b) => b.len(),
            Value::Hash(h) => {
                let mut total: usize = HASH_OVERHEAD;
                let mut i: usize = 0;
                while i < h.len()
                    invariant
                        i <= h.len(),
                        total == saturate(
                            HASH_OVERHEAD as nat + fields_size(
                                fields_view(h@.subrange(0, i as int)),
                            ),
                        ),
                    decreases h.len() - i,
                {
                    let k = text_len(h[i].0.as_str());
                    assert(decreases_to!(*h => h[i as int]));
                    let v = h[i].1.memory_usage();
                    proof {
                        let before = fields_view(h@.subrange(0, i as int));
                        let after = fields_view(h@.subrange(0, i + 1));
                        assert(h@.subrange(0, i + 1).drop_last() =~= h@.subrange(0, i as int));
                        assert(after.drop_last() =~= before);
                        assert(after.last() == (h@[i as int].0@, h@[i as int].1@));
                    }
                    total = add_saturating(add_saturating(total, k), v);
                    i += 1;
                }
                assert(h@.subrange(0, h.len() as int) =~= h@);
                total
            },
            Value::List(l) => {
                let mut total: usize = LIST_OVERHEAD;
                let mut i: usize = 0;
                while i < l.len()
                    invariant
                        i <= l.len(),
                        total == saturate(
                            LIST_OVERHEAD as nat + items_size(items_view(l@.subrange(0, i as int))),
                        ),
                    decreases l.len() - i,
                {
                    assert(decreases_to!(*l => l[i as int]));
                    let v = l[i].memory_usage();
                    proof {
                        let before = items_view(l@.subrange(0, i as int));
                        let after = items_view(l@.subrange(0, i + 1));
                        assert(l@.subrange(0, i + 1).drop_last() =~= l@.subrange(0, i as int));
                        assert(after.drop_last() =~= before);
                        assert(after.last() == l@[i as int]@);
                    }
                    total = add_saturating(total, v);
                    i += 1;
                }
                assert(l@.subrange(0, l.len() as int) =~= l@);
                total
            },
            Value::StringSet(s) => add_saturating(SET_OVERHEAD, texts_memory(s)),
        }
    }

    /// Whether the value is well formed: no hash in it holds a key twice
    /// and no set in it a member twice.
    #[verifier::loop_isolation(false)]
    pub fn is_well_formed(&self) -> (b: bool)
        ensures
            b == self@.well_formed(),
        decreases self,
    {
        match self {
            Value::Hash(h) => {
                let mut i: usize = 0;
                while i < h.len()
                    invariant
                        i <= h.len(),
                        fields_well_formed(fields_view(h@.subrange(0, i as int))),
                        keys_differ(fields_view(h@.subrange(0, i as int))),
                    decreases h.len() - i,
                {
                    let ghost before = fields_view(h@.subrange(0, i as int));
                    let ghost after = fields_view(h@.subrange(0, i + 1));
                    proof {
                        assert(h@.subrange(0, i + 1).drop_last() =~= h@.subrange(0, i as int));
                        assert(after.drop_last() =~= before);
                        assert(after.last() == (h@[i as int].0@, h@[i as int].1@));
                        lemma_fields_view_len(h@.subrange(0, i as int));
                        lemma_fields_view_len(h@.subrange(0, i + 1));
                    }
                    let mut j: usize = 0;
                    while j < i
                        invariant
                            j <= i,
                            i < h.len(),
                            forall|l: int| 0 <= l < j ==> (#[trigger] before[l]).0 != h@[i as int].0@,
                        decreases i - j,
                    {
                        proof {
                            lemma_fields_view_at(h@.subrange(0, i as int), j as int);
                        }
                        if crate::text::same_text(h[j].0.as_str(), h[i].0.as_str()) {
                            proof {
                                lemma_fields_view_at(h@, j as int);
                                lemma_fields_view_at(h@, i as int);
                                lemma_fields_view_len(h@);
                                lemma_not_well_formed_hash(fields_view(h@), j as int, i as int);
                            }
                            return false;
                        }
                        j = j + 1;
                    }
                    assert(decreases_to!(*h => h[i as int]));
                    if !h[i].1.is_well_formed() {
                        proof {
                            lemma_fields_view_at(h@, i as int);
                            lemma_fields_view_len(h@);
                            lemma_fields_all(fields_view(h@), i as int);
                        }
                        return false;
                    }
                    proof {
                        assert forall|a: int, b: int| 0 <= a < b < after.len() implies (
                        #[trigger] after[a]).0 != (#[trigger] after[b]).0 by {
                            if b < i {
                                assert(after[a] == before[a]);
                                assert(after[b] == before[b]);
                            } else {
                                assert(after[a] == before[a]);
                            }
                        }
                    }
                    i = i + 1;
                }
                assert(h@.subrange(0, h.len() as int) =~= h@);
                true
            },
            Value::List(l) => {
                let mut i: usize = 0;
                while i < l.len()
                    invariant
                        i <= l.len(),
                        items_well_formed(items_view(l@.subrange(0, i as int))),
                    decreases l.len() - i,
                {
                    proof {
                        let before = items_view(l@.subrange(0, i as int));
                        let after = items_view(l@.subrange(0, i + 1));
                        assert(l@.subrange(0, i + 1).drop_last() =~= l@.subrange(0, i as int));
                        assert(after.drop_last() =~= before);
                        assert(after.last() == l@[i as int]@);
                    }
                    assert(decreases_to!(*l => l[i as int]));
                    if !l[i].is_well_formed() {
                        proof {
                            lemma_items_view_at(l@, i as int);
                            lemma_items_view_len(l@);
                            lemma_items_all(items_view(l@), i as int);
                        }
                        return false;
                    }
                    i = i + 1;
                }
                assert(l@.subrange(0, l.len() as int) =~= l@);
                true
            },
            Value::StringSet(s) => {
                let mut i: usize = 0;
                while i < s.len()
                    invariant
                        i <= s.len(),
                        forall|a: int, b: int| 0 <= a < b < i ==> s@[a]@ != s@[b]@,
                    decreases s.len() - i,
                {
                    let mut j: usize = 0;
                    while j < i
                        invariant
                            j <= i,
                            i < s.len(),
                            forall|a: int| 0 <= a < j ==> s@[a]@ != s@[i as int]@,
                        decreases i - j,
                    {
                        if crate::text::same_text(s[j].as_str(), s[i].as_str()) {
                            assert(texts_view(s@)[j as int] == texts_view(s@)[i as int]);
                            return false;
                        }
                        j = j + 1;
                    }
                    i = i + 1;
                }
                assert(texts_view(s@).no_duplicates());
                true
            },
            _ => true,
        }
    }

    /// The text that displays the value.
    pub fn to_text(&self) -> (r: String)
        ensures
            r@ == self@.text(),
    {
        match self {
            Value::String(s) => s.clone(),
            Value::Integer(i) => {
                let mut out = String::new();
                push_signed_decimal(&mut out, *i);
                assert(Seq::<char>::empty() + signed_decimal(*i as int) =~= signed_decimal(
                    *i as int,
                ));
                out
            },
            Value::Float(f) => f.text.clone(),
            Value::Bytes(b) => {
                let mut out = String::new();
                push_decimal(&mut out, b.len() as u64);
                out.append(" bytes");
                assert(out@ =~= decimal(b@.len()) + " bytes"@);
                out
            },
            Value::Hash(h) => {
                let mut out = owned("hash with ");
                push_decimal(&mut out, h.len() as u64);
                out.append(" fields");
                proof {
                    lemma_fields_view_len(h@);
                }
                out
            },
            Value::List(l) => {
                let mut out = owned("list with ");
                push_decimal(&mut out, l.len() as u64);
                out.append(" items");
                proof {
                    lemma_items_view_len(l@);
                }
                out
            },
            Value::StringSet(s) => {
                let mut out = owned("set with ");
                push_decimal(&mut out, s.len() as u64);
                out.append(" members");
                out
            },
        }
    }
}

impl Clone for Value {
    #[verifier::loop_isolation(false)]
    fn clone(&self) -> (r: Value)
        ensures
            r@ == self@,
        decreases self,
    {
        match self {
            Value::String(s) => Value::String(s.clone()),
            Value::Integer(i) => Value::Integer(*i),
            Value::Float(f) => Value::Float(FloatValue { bits: f.bits, text: f.text.clone() }),
            Value::Bytes(b) => Value::Bytes(b.clone()),
            Value::Hash(h) => {
                let mut out: Vec<(String, Value)> = Vec::new();
                let mut i: usize = 0;
                while i < h.len()
                    invariant
                        i <= h.len(),
                        out@.len() == i,
                        self == Value::Hash(*h),
                        fields_view(out@) == fields_view(h@.subrange(0, i as int)),
                    decreases h.len() - i,
                {
                    let key = h[i].0.clone();
                    assert(decreases_to!(*h => h[i as int]));
                    let val = h[i].1.clone();
                    proof {
                        assert(h@.subrange(0, i + 1).drop_last() =~= h@.subrange(0, i as int));
                        assert(out@.push((key, val)).drop_last() =~= out@);
                    }
                    out.push((key, val));
                    i += 1;
                }
                assert(h@.subrange(0, h.len() as int) =~= h@);
                Value::Hash(out)
            },
            Value::List(l) => {
                let mut out: Vec<Value> = Vec::new();
                let mut i: usize = 0;
                while i < l.len()
                    invariant
                        i <= l.len(),
                        out@.len() == i,
                        self == Value::List(*l),
                        items_view(out@) == items_view(l@.subrange(0, i as int)),
                    decreases l.len() - i,
                {
                    assert(decreases_to!(*l => l[i as int]));
                    let val = l[i].clone();
                    proof {
                        assert(l@.subrange(0, i + 1).drop_last() =~= l@.subrange(0, i as int));
                        assert(out@.push(val).drop_last() =~= out@);
                    }
                    out.push(val);
                    i += 1;
                }
                assert(l@.subrange(0, l.len() as int) =~= l@);
                Value::List(out)
            },
            Value::StringSet(s) => Value::StringSet(copy_texts(s)),
        }
    }
}

} // verus!
