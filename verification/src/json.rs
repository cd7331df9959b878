//! JSON documents.
//!
//! [`JsonValue`] is the crate's own document type and [`Json`] what it means.
//! An object is a list of fields; [`Fields::insert`] keeps it in ascending order
//! of the keys, each key once. Parsing and printing are `serde_json`'s.

use serde_json::Value;
use vstd::prelude::*;

use crate::text;
use crate::text::{is_text_before, same};

verus! {

/// What a [`JsonValue`] means.
pub enum Json {
    Null,
    Bool(bool),
    Integer(int),
    /// A number that is not an integer of at most 64 bits.
    Decimal(serde_json::Number),
    Text(Seq<char>),
    List(Seq<Json>),
    Object(Seq<(Seq<char>, Json)>),
}

/// `serde_json::Number`: held for numbers that are no 64-bit integers, and
/// never looked into.
#[verifier::external_type_specification]
#[verifier::external_body]
pub struct ExternalNumber(serde_json::Number);

/// `serde_json::Value`: the form in which a document is parsed and printed.
#[verifier::external_type_specification]
#[verifier::external_body]
pub struct ExternalValue(serde_json::Value);

/// How a number is held.
#[derive(Debug, PartialEq)]
enum Repr {
    Unsigned(u64),
    Negative(i64),
    Decimal(serde_json::Number),
}

/// A JSON number.
#[derive(Debug, PartialEq)]
pub struct Numeral {
    repr: Repr,
}

/// The fields of a JSON object.
#[derive(Debug, PartialEq)]
pub struct Fields {
    entries: Vec<(String, JsonValue)>,
}

/// A JSON document.
#[derive(Debug, PartialEq)]
pub enum JsonValue {
    Null,
    Bool(bool),
    Numeral(Numeral),
    Text(String),
    List(Vec<JsonValue>),
    Object(Fields),
}

/// The documents of a list.
pub open spec fn jsons(items: Seq<JsonValue>) -> Seq<Json> {
    Seq::new(items.len(), |i: int| items[i].json())
}

/// The position of the first field at or after `from` that has this key, or the
/// number of fields.
pub open spec fn position_from(
    fields: Seq<(Seq<char>, Json)>,
    key: Seq<char>,
    from: int,
) -> int
    decreases fields.len() - from,
{
    if from >= fields.len() {
        fields.len() as int
    } else if fields[from].0 == key {
        from
    } else {
        position_from(fields, key, from + 1)
    }
}

/// Whether an object has a field of this name.
pub open spec fn has_field(fields: Seq<(Seq<char>, Json)>, key: Seq<char>) -> bool {
    position_from(fields, key, 0) < fields.len()
}

/// The value of a field.
pub open spec fn field(fields: Seq<(Seq<char>, Json)>, key: Seq<char>) -> Option<Json> {
    let at = position_from(fields, key, 0);
    if at < fields.len() {
        Some(fields[at].1)
    } else {
        None
    }
}

/// Where a new key goes: before the first key that is greater.
pub open spec fn slot_from(
    fields: Seq<(Seq<char>, Json)>,
    key: Seq<char>,
    from: int,
) -> int
    decreases fields.len() - from,
{
    if from >= fields.len() {
        fields.len() as int
    } else if text::text_before(key, fields[from].0) {
        from
    } else {
        slot_from(fields, key, from + 1)
    }
}

/// An object with one field set.
pub open spec fn with_field(
    fields: Seq<(Seq<char>, Json)>,
    key: Seq<char>,
    value: Json,
) -> Seq<(Seq<char>, Json)> {
    let at = position_from(fields, key, 0);
    if at < fields.len() {
        fields.update(at, (key, value))
    } else {
        fields.insert(slot_from(fields, key, 0), (key, value))
    }
}

/// An object with one field taken out.
pub open spec fn without_field(
    fields: Seq<(Seq<char>, Json)>,
    key: Seq<char>,
) -> Seq<(Seq<char>, Json)> {
    let at = position_from(fields, key, 0);
    if at < fields.len() {
        fields.remove(at)
    } else {
        fields
    }
}

/// Keys in ascending order, each once.
pub open spec fn ordered(fields: Seq<(Seq<char>, Json)>) -> bool {
    forall|i: int, j: int|
        0 <= i < j < fields.len() ==> text::text_before(#[trigger] fields[i].0, #[trigger] fields[j].0)
}

pub proof fn position_bounds(fields: Seq<(Seq<char>, Json)>, key: Seq<char>, from: int)
    requires
        0 <= from <= fields.len(),
    ensures
        from <= position_from(fields, key, from) <= fields.len(),
        position_from(fields, key, from) < fields.len() ==> fields[position_from(
            fields,
            key,
            from,
        )].0 == key,
        forall|i: int|
            from <= i < position_from(fields, key, from) ==> (#[trigger] fields[i]).0 != key,
        from <= slot_from(fields, key, from) <= fields.len(),
        slot_from(fields, key, from) < fields.len() ==> text::text_before(
            key,
            fields[slot_from(fields, key, from)].0,
        ),
        forall|i: int|
            from <= i < slot_from(fields, key, from) ==> !text::text_before(
                key,
                (#[trigger] fields[i]).0,
            ),
    decreases fields.len() - from,
{
    if from < fields.len() {
        position_bounds(fields, key, from + 1);
    }
}

/// The field at a position is what its key finds, where it is the first.
pub proof fn found_at(fields: Seq<(Seq<char>, Json)>, at: int)
    requires
        0 <= at < fields.len(),
        forall|i: int| 0 <= i < at ==> (#[trigger] fields[i]).0 != fields[at].0,
    ensures
        position_from(fields, fields[at].0, 0) == at,
        field(fields, fields[at].0) == Some(fields[at].1),
{
    position_bounds(fields, fields[at].0, 0);
    let p = position_from(fields, fields[at].0, 0);
    if p > at {
        assert(fields[at].0 != fields[at].0);
    }
}

/// In an ordered object every key finds its own field.
pub proof fn ordered_finds(fields: Seq<(Seq<char>, Json)>, at: int)
    requires
        ordered(fields),
        0 <= at < fields.len(),
    ensures
        position_from(fields, fields[at].0, 0) == at,
        field(fields, fields[at].0) == Some(fields[at].1),
{
    assert forall|i: int| 0 <= i < at implies (#[trigger] fields[i]).0 != fields[at].0 by {
        text::text_order(fields[i].0, fields[at].0, fields[at].0);
    }
    found_at(fields, at);
}

/// A key that no field has finds nothing.
pub proof fn not_found(fields: Seq<(Seq<char>, Json)>, key: Seq<char>)
    requires
        forall|i: int| 0 <= i < fields.len() ==> (#[trigger] fields[i]).0 != key,
    ensures
        field(fields, key) is None,
        !has_field(fields, key),
{
    position_bounds(fields, key, 0);
}

/// Setting a field gives it that value and leaves every other field alone.
pub proof fn set_field(
    fields: Seq<(Seq<char>, Json)>,
    key: Seq<char>,
    value: Json,
    other: Seq<char>,
)
    ensures
        field(with_field(fields, key, value), key) == Some(value),
        other != key ==> field(with_field(fields, key, value), other) == field(fields, other),
        other != key ==> has_field(with_field(fields, key, value), other) == has_field(
            fields,
            other,
        ),
        has_field(with_field(fields, key, value), key),
{
    position_bounds(fields, key, 0);
    position_bounds(fields, other, 0);
    let after = with_field(fields, key, value);
    let at = position_from(fields, key, 0);
    if at < fields.len() {
        found_at(after, at);
        if other != key {
            let p = position_from(fields, other, 0);
            if p < fields.len() {
                assert(after[p] == fields[p]);
                assert forall|i: int| 0 <= i < p implies (#[trigger] after[i]).0 != other by {
                    assert(after[i].0 == fields[i].0);
                }
                found_at(after, p);
            } else {
                assert forall|i: int| 0 <= i < after.len() implies (#[trigger] after[i]).0
                    != other by {
                    assert(after[i].0 == fields[i].0);
                }
                not_found(after, other);
            }
        }
    } else {
        let slot = slot_from(fields, key, 0);
        assert(after[slot] == (key, value));
        assert forall|i: int| 0 <= i < slot implies (#[trigger] after[i]).0 != key by {
            assert(after[i] == fields[i]);
        }
        found_at(after, slot);
        if other != key {
            let p = position_from(fields, other, 0);
            let q = if p < slot {
                p
            } else {
                p + 1
            };
            assert forall|i: int| 0 <= i < q implies (#[trigger] after[i]).0 != other by {
                if i < slot {
                    assert(after[i] == fields[i]);
                } else if i > slot {
                    assert(after[i] == fields[i - 1]);
                }
            }
            if p < fields.len() {
                assert(after[q] == fields[p]);
                found_at(after, q);
            } else {
                not_found(after, other);
            }
        }
    }
}

/// Taking a field out of an ordered object leaves none of that name, and every
/// other field as it was.
pub proof fn unset_field(
    fields: Seq<(Seq<char>, Json)>,
    key: Seq<char>,
    other: Seq<char>,
)
    requires
        ordered(fields),
    ensures
        field(without_field(fields, key), key) is None,
        !has_field(without_field(fields, key), key),
        other != key ==> field(without_field(fields, key), other) == field(fields, other),
        other != key ==> has_field(without_field(fields, key), other) == has_field(fields, other),
        ordered(without_field(fields, key)),
{
    position_bounds(fields, key, 0);
    position_bounds(fields, other, 0);
    let after = without_field(fields, key);
    let at = position_from(fields, key, 0);
    if at < fields.len() {
        assert forall|i: int| 0 <= i < after.len() implies (#[trigger] after[i]).0 != key by {
            let j = if i < at {
                i
            } else {
                i + 1
            };
            assert(after[i] == fields[j]);
            text::text_order(fields[j].0, key, key);
        }
        not_found(after, key);
        assert forall|i: int, j: int| 0 <= i < j < after.len() implies text::text_before(
            #[trigger] after[i].0,
            #[trigger] after[j].0,
        ) by {
            let i0 = if i < at {
                i
            } else {
                i + 1
            };
            let j0 = if j < at {
                j
            } else {
                j + 1
            };
            assert(after[i] == fields[i0] && after[j] == fields[j0]);
        }
        if other != key {
            let p = position_from(fields, other, 0);
            if p < fields.len() {
                let q = if p < at {
                    p
                } else {
                    p - 1
                };
                assert(after[q] == fields[p]);
                ordered_finds(after, q);
            } else {
                assert forall|i: int| 0 <= i < after.len() implies (#[trigger] after[i]).0
                    != other by {
                    let j = if i < at {
                        i
                    } else {
                        i + 1
                    };
                    assert(after[i] == fields[j]);
                }
                not_found(after, other);
            }
        }
    }
}

/// Setting a field keeps an object ordered.
pub proof fn set_field_ordered(fields: Seq<(Seq<char>, Json)>, key: Seq<char>, value: Json)
    requires
        ordered(fields),
    ensures
        ordered(with_field(fields, key, value)),
{
    position_bounds(fields, key, 0);
    let after = with_field(fields, key, value);
    let at = position_from(fields, key, 0);
    if at < fields.len() {
        assert forall|i: int, j: int| 0 <= i < j < after.len() implies text::text_before(
            #[trigger] after[i].0,
            #[trigger] after[j].0,
        ) by {
            assert(after[i].0 == fields[i].0 && after[j].0 == fields[j].0);
        }
    } else {
        let slot = slot_from(fields, key, 0);
        assert forall|i: int, j: int| 0 <= i < j < after.len() implies text::text_before(
            #[trigger] after[i].0,
            #[trigger] after[j].0,
        ) by {
            if j < slot {
                assert(after[i] == fields[i] && after[j] == fields[j]);
            } else if j == slot {
                assert(after[i] == fields[i]);
                text::text_order(fields[i].0, key, key);
            } else if i == slot {
                assert(after[j] == fields[j - 1]);
                text::text_order(key, fields[slot].0, fields[j - 1].0);
            } else if i < slot {
                assert(after[i] == fields[i] && after[j] == fields[j - 1]);
            } else {
                assert(after[i] == fields[i - 1] && after[j] == fields[j - 1]);
            }
        }
    }
}

impl Json {
    /// Every object in the document has its keys in ascending order, each once.
    pub open spec fn well_ordered(self) -> bool
        decreases self,
    {
        match self {
            Json::List(items) => forall|i: int|
                0 <= i < items.len() ==> (#[trigger] items[i]).well_ordered(),
            Json::Object(fields) => ordered(fields) && (forall|i: int|
                0 <= i < fields.len() ==> (#[trigger] fields[i]).1.well_ordered()),
            _ => true,
        }
    }

    /// The value of a field; nothing where the document is no object.
    pub open spec fn get(self, key: Seq<char>) -> Option<Json> {
        match self {
            Json::Object(fields) => field(fields, key),
            _ => None,
        }
    }

    pub open spec fn text(self) -> Option<Seq<char>> {
        match self {
            Json::Text(text) => Some(text),
            _ => None,
        }
    }
}

impl View for Numeral {
    type V = Json;

    closed spec fn view(&self) -> Json {
        match self.repr {
            Repr::Unsigned(n) => Json::Integer(n as int),
            Repr::Negative(n) => Json::Integer(n as int),
            Repr::Decimal(n) => Json::Decimal(n),
        }
    }
}

/// `serde_json::Number`'s `Clone`, derived by its crate: the copy is the number
/// itself.
pub assume_specification[ <serde_json::Number as Clone>::clone ](
    n: &serde_json::Number,
) -> (res: serde_json::Number)
    ensures
        res == *n,
;

impl Clone for Numeral {
    fn clone(&self) -> (res: Self)
        ensures
            res@ == self@,
    {
        match &self.repr {
            Repr::Unsigned(n) => Numeral { repr: Repr::Unsigned(*n) },
            Repr::Negative(n) => Numeral { repr: Repr::Negative(*n) },
            Repr::Decimal(n) => Numeral { repr: Repr::Decimal(n.clone()) },
        }
    }
}

impl Numeral {
    pub fn from_u64(n: u64) -> (res: Numeral)
        ensures
            res@ == Json::Integer(n as int),
    {
        Numeral { repr: Repr::Unsigned(n) }
    }

    pub fn from_i64(n: i64) -> (res: Numeral)
        ensures
            res@ == Json::Integer(n as int),
    {
        if n >= 0 {
            Numeral { repr: Repr::Unsigned(n as u64) }
        } else {
            Numeral { repr: Repr::Negative(n) }
        }
    }

    /// The number, where it is an integer that fits.
    pub fn as_i64(&self) -> (res: Option<i64>)
        ensures
            res == (match self@ {
                Json::Integer(n) if i64::MIN <= n <= i64::MAX => Some(n as i64),
                _ => None,
            }),
    {
        match &self.repr {
            Repr::Unsigned(n) => if *n <= i64::MAX as u64 {
                Some(*n as i64)
            } else {
                None
            },
            Repr::Negative(n) => Some(*n),
            Repr::Decimal(_) => None,
        }
    }

    /// The number, where it is an integer without a sign that fits.
    pub fn as_u64(&self) -> (res: Option<u64>)
        ensures
            res == (match self@ {
                Json::Integer(n) if 0 <= n <= u64::MAX => Some(n as u64),
                _ => None,
            }),
    {
        match &self.repr {
            Repr::Unsigned(n) => Some(*n),
            Repr::Negative(n) => if *n >= 0 {
                Some(*n as u64)
            } else {
                None
            },
            Repr::Decimal(_) => None,
        }
    }

    pub proof fn is_number(&self)
        ensures
            self@ is Integer || self@ is Decimal,
    {
    }
}

impl Fields {
    /// The keys and what they stand for, in order.
    pub closed spec fn fields(&self) -> Seq<(Seq<char>, Json)>
        decreases self,
    {
        Seq::new(
            self.entries@.len(),
            |i: int|
                if 0 <= i < self.entries@.len() {
                    (self.entries@[i].0@, self.entries@[i].1.json())
                } else {
                    arbitrary()
                },
        )
    }

    /// The keys are in ascending order, each once.
    #[verifier::type_invariant]
    pub open spec fn key_order(self) -> bool {
        ordered(self.fields())
    }

    proof fn unfold(&self)
        ensures
            self.fields().len() == self.entries@.len(),
            forall|i: int|
                0 <= i < self.entries@.len() ==> #[trigger] self.fields()[i] == (
                    self.entries@[i].0@,
                    self.entries@[i].1.json(),
                ),
    {
        reveal_with_fuel(Fields::fields, 2);
        reveal_with_fuel(JsonValue::json, 2);
    }

    pub fn new() -> (res: Fields)
        ensures
            res.fields() == Seq::<(Seq<char>, Json)>::empty(),
    {
        Fields { entries: Vec::new() }
    }

    pub fn len(&self) -> (res: usize)
        ensures
            res == self.fields().len(),
    {
        self.entries.len()
    }

    pub fn is_empty(&self) -> (res: bool)
        ensures
            res == (self.fields().len() == 0),
    {
        self.entries.len() == 0
    }

    /// The name of a field.
    pub fn key(&self, at: usize) -> (res: &str)
        requires
            at < self.fields().len(),
        ensures
            res@ == self.fields()[at as int].0,
    {
        self.entries[at].0.as_str()
    }

    /// The value of a field.
    pub fn value(&self, at: usize) -> (res: &JsonValue)
        requires
            at < self.fields().len(),
        ensures
            res.json() == self.fields()[at as int].1,
    {
        &self.entries[at].1
    }

    fn position(&self, key: &str) -> (res: usize)
        ensures
            res == position_from(self.fields(), key@, 0),
            res <= self.fields().len(),
    {
        let mut at: usize = 0;
        proof {
            self.unfold();
        }
        while at < self.entries.len()
            invariant
                at <= self.entries.len(),
                self.fields().len() == self.entries@.len(),
                forall|i: int|
                    0 <= i < self.entries@.len() ==> #[trigger] self.fields()[i] == (
                        self.entries@[i].0@,
                        self.entries@[i].1.json(),
                    ),
                position_from(self.fields(), key@, 0) == position_from(
                    self.fields(),
                    key@,
                    at as int,
                ),
            decreases self.entries.len() - at,
        {
            assert(self.fields()[at as int].0 == self.entries@[at as int].0@);
            if same(self.entries[at].0.as_str(), key) {
                return at;
            }
            at += 1;
        }
        at
    }

    fn slot(&self, key: &str) -> (res: usize)
        ensures
            res == slot_from(self.fields(), key@, 0),
            res <= self.fields().len(),
    {
        let mut at: usize = 0;
        proof {
            self.unfold();
        }
        while at < self.entries.len()
            invariant
                at <= self.entries.len(),
                self.fields().len() == self.entries@.len(),
                forall|i: int|
                    0 <= i < self.entries@.len() ==> #[trigger] self.fields()[i] == (
                        self.entries@[i].0@,
                        self.entries@[i].1.json(),
                    ),
                slot_from(self.fields(), key@, 0) == slot_from(self.fields(), key@, at as int),
            decreases self.entries.len() - at,
        {
            assert(self.fields()[at as int].0 == self.entries@[at as int].0@);
            if is_text_before(key, self.entries[at].0.as_str()) {
                return at;
            }
            at += 1;
        }
        at
    }

    /// An object from its fields, in the order they come.
    pub(crate) fn from_entries(entries: Vec<(String, JsonValue)>) -> (res: Fields)
        requires
            forall|i: int, j: int|
                0 <= i < j < entries@.len() ==> text::text_before(
                    #[trigger] entries@[i].0@,
                    #[trigger] entries@[j].0@,
                ),
        ensures
            res.fields().len() == entries@.len(),
            forall|i: int|
                0 <= i < entries@.len() ==> #[trigger] res.fields()[i] == (
                    entries@[i].0@,
                    entries@[i].1.json(),
                ),
    {
        proof {
            Fields { entries }.unfold();
        }
        Fields { entries }
    }

    pub fn get(&self, key: &str) -> (res: Option<&JsonValue>)
        ensures
            match res {
                Some(value) => field(self.fields(), key@) == Some(value.json()),
                None => field(self.fields(), key@) is None,
            },
    {
        let at = self.position(key);
        if at < self.entries.len() {
            Some(&self.entries[at].1)
        } else {
            None
        }
    }

    pub fn contains_key(&self, key: &str) -> (res: bool)
        ensures
            res == has_field(self.fields(), key@),
    {
        self.position(key) < self.entries.len()
    }

    /// Sets a field.
    pub fn insert(&mut self, key: String, value: JsonValue)
        ensures
            final(self).fields() == with_field(old(self).fields(), key@, value.json()),
    {
        let ghost before = self.fields();
        let ghost fresh = (key@, value.json());
        proof {
            use_type_invariant(&*self);
            set_field_ordered(before, key@, value.json());
            self.unfold();
        }
        let at = self.position(key.as_str());
        let slot = self.slot(key.as_str());
        let mut entries: Vec<(String, JsonValue)> = Vec::new();
        std::mem::swap(&mut entries, &mut self.entries);
        if at < entries.len() {
            entries[at] = (key, value);
            proof {
                Fields { entries }.unfold();
                assert(Fields { entries }.fields() =~= before.update(at as int, fresh));
            }
        } else {
            entries.insert(slot, (key, value));
            proof {
                Fields { entries }.unfold();
                assert(Fields { entries }.fields() =~= before.insert(slot as int, fresh));
            }
        }
        self.entries = entries;
    }

    /// Takes a field out.
    pub fn remove(&mut self, key: &str) -> (res: Option<JsonValue>)
        ensures
            final(self).fields() == without_field(old(self).fields(), key@),
            match res {
                Some(value) => field(old(self).fields(), key@) == Some(value.json()),
                None => field(old(self).fields(), key@) is None,
            },
    {
        let ghost before = self.fields();
        proof {
            use_type_invariant(&*self);
            unset_field(before, key@, key@);
            self.unfold();
        }
        let at = self.position(key);
        if at >= self.entries.len() {
            return None;
        }
        let mut entries: Vec<(String, JsonValue)> = Vec::new();
        std::mem::swap(&mut entries, &mut self.entries);
        let (_, value) = entries.remove(at);
        proof {
            Fields { entries }.unfold();
            assert(Fields { entries }.fields() =~= before.remove(at as int));
        }
        self.entries = entries;
        Some(value)
    }
}

impl Clone for Fields {
    fn clone(&self) -> (res: Self)
        ensures
            res.fields() == self.fields(),
        decreases self.fields(),
    {
        let mut entries: Vec<(String, JsonValue)> = Vec::new();
        let mut i: usize = 0;
        while i < self.entries.len()
            invariant
                i <= self.entries.len(),
                entries@.len() == i,
                forall|j: int| 0 <= j < i ==> #[trigger] entries@[j].0@ == self.entries@[j].0@,
                forall|j: int|
                    0 <= j < i ==> #[trigger] entries@[j].1.json() == self.entries@[j].1.json(),
            decreases self.entries.len() - i,
        {
            proof {
                assert(self.fields()[i as int].1 == self.entries@[i as int].1.json());
                assert(decreases_to!(self.fields() => self.fields()[i as int]));
            }
            entries.push((self.entries[i].0.clone(), self.entries[i].1.clone()));
            i += 1;
        }
        proof {
            use_type_invariant(self);
            Fields { entries }.unfold();
            self.unfold();
            assert(Fields { entries }.fields() =~= self.fields());
        }
        Fields { entries }
    }
}

impl JsonValue {
    /// What the document means.
    pub open spec fn json(&self) -> Json
        decreases self,
    {
        match self {
            JsonValue::Null => Json::Null,
            JsonValue::Bool(b) => Json::Bool(*b),
            JsonValue::Numeral(n) => n@,
            JsonValue::Text(s) => Json::Text(s@),
            JsonValue::List(items) => Json::List(
                Seq::new(
                    items@.len(),
                    |i: int|
                        if 0 <= i < items@.len() {
                            items@[i].json()
                        } else {
                            arbitrary()
                        },
                ),
            ),
            JsonValue::Object(map) => Json::Object(map.fields()),
        }
    }

    /// A list means the list of what its items mean.
    pub proof fn list_json(items: Vec<JsonValue>)
        ensures
            JsonValue::List(items).json() == Json::List(jsons(items@)),
    {
        assert(JsonValue::List(items).json()->List_0 =~= jsons(items@));
    }
}

impl JsonValue {
    /// The kind of a document is the kind of what it means.
    pub proof fn kinds(&self)
        ensures
            self.json() is Null <==> self is Null,
            self.json() is Bool <==> self is Bool,
            self.json() is Text <==> self is Text,
            self.json() is List <==> self is List,
            self.json() is Object <==> self is Object,
            self.json() is Integer || self.json() is Decimal <==> self is Numeral,
    {
        if let JsonValue::Numeral(n) = self {
            n.is_number();
        }
    }

    pub fn is_null(&self) -> (res: bool)
        ensures
            res == (self.json() is Null),
    {
        proof {
            self.kinds();
        }
        match self {
            JsonValue::Null => true,
            _ => false,
        }
    }

    pub fn as_bool(&self) -> (res: Option<bool>)
        ensures
            match res {
                Some(b) => self.json() == Json::Bool(b),
                None => self.json() !is Bool,
            },
    {
        proof {
            self.kinds();
        }
        match self {
            JsonValue::Bool(b) => Some(*b),
            _ => None,
        }
    }

    /// The number, where the document is an integer that fits.
    pub fn as_i64(&self) -> (res: Option<i64>)
        ensures
            res == (match self.json() {
                Json::Integer(n) if i64::MIN <= n <= i64::MAX => Some(n as i64),
                _ => None,
            }),
    {
        proof {
            self.kinds();
        }
        match self {
            JsonValue::Numeral(n) => n.as_i64(),
            _ => None,
        }
    }

    /// The number, where the document is an integer without a sign that fits.
    pub fn as_u64(&self) -> (res: Option<u64>)
        ensures
            res == (match self.json() {
                Json::Integer(n) if 0 <= n <= u64::MAX => Some(n as u64),
                _ => None,
            }),
    {
        proof {
            self.kinds();
        }
        match self {
            JsonValue::Numeral(n) => n.as_u64(),
            _ => None,
        }
    }

    pub fn as_str(&self) -> (res: Option<&str>)
        ensures
            match res {
                Some(text) => self.json() == Json::Text(text@),
                None => self.json() !is Text,
            },
    {
        proof {
            self.kinds();
        }
        match self {
            JsonValue::Text(text) => Some(text.as_str()),
            _ => None,
        }
    }

    pub fn as_array(&self) -> (res: Option<&Vec<JsonValue>>)
        ensures
            match res {
                Some(items) => self.json() == Json::List(jsons(items@)),
                None => self.json() !is List,
            },
    {
        proof {
            self.kinds();
        }
        match self {
            JsonValue::List(items) => {
                proof {
                    JsonValue::list_json(*items);
                }
                Some(items)
            },
            _ => None,
        }
    }

    pub fn as_object(&self) -> (res: Option<&Fields>)
        ensures
            match res {
                Some(map) => self.json() == Json::Object(map.fields()),
                None => self.json() !is Object,
            },
    {
        proof {
            self.kinds();
        }
        match self {
            JsonValue::Object(map) => Some(map),
            _ => None,
        }
    }

    /// The value of a field; nothing where the document is no object.
    pub fn get(&self, key: &str) -> (res: Option<&JsonValue>)
        ensures
            match res {
                Some(value) => self.json().get(key@) == Some(value.json()),
                None => self.json().get(key@) is None,
            },
    {
        match self.as_object() {
            Some(map) => map.get(key),
            None => None,
        }
    }
}

impl Clone for JsonValue {
    fn clone(&self) -> (res: Self)
        ensures
            res.json() == self.json(),
        decreases self.json(),
    {
        match self {
            JsonValue::Null => JsonValue::Null,
            JsonValue::Bool(b) => JsonValue::Bool(*b),
            JsonValue::Numeral(n) => JsonValue::Numeral(n.clone()),
            JsonValue::Text(s) => JsonValue::Text(s.clone()),
            JsonValue::List(items) => {
                let mut copy: Vec<JsonValue> = Vec::new();
                let mut i: usize = 0;
                proof {
                    JsonValue::list_json(*items);
                }
                while i < items.len()
                    invariant
                        i <= items.len(),
                        copy@.len() == i,
                        self.json() == Json::List(jsons(items@)),
                        forall|j: int|
                            0 <= j < i ==> #[trigger] copy@[j].json() == items@[j].json(),
                    decreases items.len() - i,
                {
                    proof {
                        assert(jsons(items@)[i as int] == items@[i as int].json());
                        assert(decreases_to!(self.json() => self.json()->List_0));
                        assert(decreases_to!(self.json()->List_0 => self.json()->List_0[i as int]));
                    }
                    copy.push(items[i].clone());
                    i += 1;
                }
                proof {
                    JsonValue::list_json(copy);
                    assert(jsons(copy@) =~= jsons(items@));
                }
                JsonValue::List(copy)
            },
            JsonValue::Object(map) => {
                assert(decreases_to!(self.json() => self.json()->Object_0));
                JsonValue::Object(map.clone())
            },
        }
    }
}

// ---------------------------------------------------------------------------
// Parsing and printing
// ---------------------------------------------------------------------------

/// The document a `serde_json::Value` holds.
pub uninterp spec fn held(value: serde_json::Value) -> Json;

/// What `serde_json` prints for a document on one line.
pub uninterp spec fn compact_text(doc: Json) -> Seq<char>;

/// What `serde_json` prints for a document over several lines.
pub uninterp spec fn pretty_text(doc: Json) -> Seq<char>;

/// The document that `serde_json` reads in a text, if it is JSON.
pub uninterp spec fn parsed(text: Seq<char>) -> Option<Json>;

/// Whether `serde_json::Value::pointer` finds something at a JSON Pointer.
pub uninterp spec fn pointer_resolves(doc: Json, pointer: Seq<char>) -> bool;

/// A document as `serde_json` holds it: the same kinds, texts and numbers, and
/// for every field of an object, whose keys are in order and distinct, one entry
/// of its map.
#[verifier::external_body]
pub(crate) fn to_serde(doc: &JsonValue) -> (res: serde_json::Value)
    ensures
        held(res) == doc.json(),
{
    match doc {
        JsonValue::Null => Value::Null,
        JsonValue::Bool(b) => Value::Bool(*b),
        JsonValue::Numeral(n) => match &n.repr {
            Repr::Unsigned(n) => Value::from(*n),
            Repr::Negative(n) => Value::from(*n),
            Repr::Decimal(n) => Value::Number(n.clone()),
        },
        JsonValue::Text(text) => Value::String(text.clone()),
        JsonValue::List(items) => Value::Array(items.iter().map(to_serde).collect()),
        JsonValue::Object(map) => Value::Object(
            map.entries.iter().map(|(key, value)| (key.clone(), to_serde(value))).collect(),
        ),
    }
}

/// The document that a `serde_json::Value` holds: integers of 64 bits as such,
/// every other number as the decimal it is, and the entries of a map, which
/// iterates in key order, as fields.
#[verifier::external_body]
pub(crate) fn from_serde(value: serde_json::Value) -> (res: JsonValue)
    ensures
        res.json() == held(value),
{
    match value {
        Value::Null => JsonValue::Null,
        Value::Bool(b) => JsonValue::Bool(b),
        Value::Number(n) => JsonValue::Numeral(Numeral { repr: match (n.as_u64(), n.as_i64()) {
            (Some(u), _) => Repr::Unsigned(u),
            (None, Some(i)) => Repr::Negative(i),
            (None, None) => Repr::Decimal(n),
        } }),
        Value::String(text) => JsonValue::Text(text),
        Value::Array(items) => JsonValue::List(items.into_iter().map(from_serde).collect()),
        Value::Object(map) => JsonValue::Object(Fields {
            entries: map.into_iter().map(|(key, item)| (key, from_serde(item))).collect(),
        }),
    }
}

/// `serde_json::Value`'s `Display`: the document on one line.
#[verifier::external_body]
fn print_compact(value: &serde_json::Value) -> (res: String)
    ensures
        res@ == compact_text(held(*value)),
{
    value.to_string()
}

/// `serde_json::to_string_pretty`: the document over several lines. It cannot
/// fail on a `Value`, whose keys are all strings.
#[verifier::external_body]
fn print_pretty(value: &serde_json::Value) -> (res: String)
    ensures
        res@ == pretty_text(held(*value)),
{
    serde_json::to_string_pretty(value).unwrap_or_default()
}

/// `serde_json::from_str` into a `Value`: the document a text spells out, and
/// nothing where the text is not JSON.
#[verifier::external_body]
fn read_value(source: &str) -> (res: Option<serde_json::Value>)
    ensures
        match res {
            Some(value) => parsed(source@) == Some(held(value)),
            None => parsed(source@) is None,
        },
{
    serde_json::from_str(source).ok()
}

/// `serde_json::Value::pointer`: whether a JSON Pointer leads somewhere.
#[verifier::external_body]
fn value_has_pointer(value: &serde_json::Value, pointer: &str) -> (res: bool)
    ensures
        res == pointer_resolves(held(*value), pointer@),
{
    value.pointer(pointer).is_some()
}

/// The document on one line.
pub fn to_compact(doc: &JsonValue) -> (res: String)
    ensures
        res@ == compact_text(doc.json()),
{
    let value = to_serde(doc);
    print_compact(&value)
}

/// The document over several lines, indented.
pub fn to_pretty(doc: &JsonValue) -> (res: String)
    ensures
        res@ == pretty_text(doc.json()),
{
    let value = to_serde(doc);
    print_pretty(&value)
}

/// The document a text spells out, if it is JSON.
pub fn parse_json(source: &str) -> (res: Option<JsonValue>)
    ensures
        match res {
            Some(doc) => parsed(source@) == Some(doc.json()),
            None => parsed(source@) is None,
        },
{
    match read_value(source) {
        Some(value) => Some(from_serde(value)),
        None => None,
    }
}

/// Whether a JSON Pointer leads somewhere in the document.
pub fn has_pointer(doc: &JsonValue, pointer: &str) -> (res: bool)
    ensures
        res == pointer_resolves(doc.json(), pointer@),
{
    let value = to_serde(doc);
    value_has_pointer(&value, pointer)
}

} // verus!
