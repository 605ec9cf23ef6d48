//! Tables: an array part for the keys `1..=n` and a list of entries for all
//! other keys.

use crate::number::{is_nan, number_to_integer, spec_is_nan, spec_number_to_integer};
use crate::value::{
    contents, lemma_equality_is_an_equivalence, spec_values_equal, values_equal, Value,
};
use vstd::prelude::*;

verus! {

/// Why a key cannot be written to.
#[derive(Clone, Copy, Debug, PartialEq, Eq, Structural)]
pub enum InvalidKey {
    IsNil,
    IsNaN,
}

/// A table: the values of the keys `1..=array.len()`, and the other keys with
/// their values.
pub struct Table {
    pub array: Vec<Value>,
    pub entries: Vec<(Value, Value)>,
}

/// The mathematical content of a table.
pub struct TableModel {
    /// The values of the keys `1..=array.len()`, in order.
    pub array: Seq<Value>,
    /// The other keys with their values.
    pub entries: Seq<(Value, Value)>,
}

impl View for Table {
    type V = TableModel;

    open spec fn view(&self) -> TableModel {
        TableModel { array: self.array@, entries: self.entries@ }
    }
}

/// A key as the table holds it: a number that equals a 64-bit integer is
/// that integer.
pub open spec fn spec_normalize_key(key: Value) -> Value {
    match key {
        Value::Number(n) => match spec_number_to_integer(n) {
            Some(i) => Value::Integer(i),
            None => key,
        },
        _ => key,
    }
}

/// A key as the table holds it.
#[verifier::when_used_as_spec(spec_normalize_key)]
pub fn normalize_key(key: Value) -> (r: Value)
    ensures
        r == spec_normalize_key(key),
{
    match key {
        Value::Number(n) => match number_to_integer(n) {
            Some(i) => Value::Integer(i),
            None => key,
        },
        _ => key,
    }
}

/// Why a key cannot be written to, if it cannot: it is nil or a NaN.
pub open spec fn spec_check_key(key: Value) -> Option<InvalidKey> {
    match key {
        Value::Nil => Some(InvalidKey::IsNil),
        Value::Number(n) => if spec_is_nan(n) {
            Some(InvalidKey::IsNaN)
        } else {
            None
        },
        _ => None,
    }
}

/// The position of the first entry at or after `from` whose key equals `key`.
pub open spec fn find_entry(
    entries: Seq<(Value, Value)>,
    strings: Seq<Seq<u8>>,
    key: Value,
    from: int,
) -> Option<int>
    decreases entries.len() - from,
{
    if from < 0 || from >= entries.len() {
        None
    } else if spec_values_equal(strings, entries[from].0, key) {
        Some(from)
    } else {
        find_entry(entries, strings, key, from + 1)
    }
}

/// The entries whose key does not equal `key`, in their order.
pub open spec fn without_key(entries: Seq<(Value, Value)>, strings: Seq<Seq<u8>>, key: Value) -> Seq<
    (Value, Value),
>
    decreases entries.len(),
{
    if entries.len() == 0 {
        entries
    } else if spec_values_equal(strings, entries.last().0, key) {
        without_key(entries.drop_last(), strings, key)
    } else {
        without_key(entries.drop_last(), strings, key).push(entries.last())
    }
}

impl TableModel {
    pub open spec fn empty() -> TableModel {
        TableModel { array: Seq::empty(), entries: Seq::empty() }
    }

    /// Whether the key, as normalized, lies in the array part.
    pub open spec fn in_array(self, key: Value) -> bool {
        key matches Value::Integer(i) && 1 <= i <= self.array.len()
    }

    /// The value at a key; `Nil` where the table holds none.
    pub open spec fn get(self, strings: Seq<Seq<u8>>, key: Value) -> Value {
        let k = spec_normalize_key(key);
        if self.in_array(k) {
            self.array[k->Integer_0 - 1]
        } else {
            match find_entry(self.entries, strings, k, 0) {
                Some(j) => self.entries[j].1,
                None => Value::Nil,
            }
        }
    }

    /// The table after `key` was given `value`. Writing `Nil` removes the key.
    pub open spec fn set(self, strings: Seq<Seq<u8>>, key: Value, value: Value) -> TableModel {
        let k = spec_normalize_key(key);
        if self.in_array(k) {
            TableModel { array: self.array.update(k->Integer_0 - 1, value), ..self }
        } else if (k matches Value::Integer(i) && i == self.array.len() + 1) && !(value is Nil) {
            TableModel {
                array: self.array.push(value),
                entries: without_key(self.entries, strings, k),
            }
        } else if value is Nil {
            TableModel { entries: without_key(self.entries, strings, k), ..self }
        } else {
            TableModel { entries: without_key(self.entries, strings, k).push((k, value)), ..self }
        }
    }

    /// Whether the table holds a value other than `Nil` at the integer `n`.
    pub open spec fn holds(self, strings: Seq<Seq<u8>>, n: int) -> bool {
        i64::MIN <= n <= i64::MAX && !(self.get(strings, Value::Integer(n as i64)) is Nil)
    }

    /// A border: position `n` holds a value, or `n` is 0, and position
    /// `n + 1` holds none.
    pub open spec fn is_border(self, strings: Seq<Seq<u8>>, n: int) -> bool {
        &&& n >= 0
        &&& n == 0 || self.holds(strings, n)
        &&& !self.holds(strings, n + 1)
    }

    /// The first position at or below `n` in the array part that holds a
    /// value, or 0.
    pub open spec fn border_below(self, n: int) -> int
        decreases n,
    {
        if n <= 0 || n > self.array.len() {
            0
        } else if !(self.array[n - 1] is Nil) {
            n
        } else {
            self.border_below(n - 1)
        }
    }

    /// The first position at or above `n` whose successor holds no value.
    pub open spec fn border_above(self, strings: Seq<Seq<u8>>, n: int) -> int
        decreases i64::MAX - n,
    {
        if n >= i64::MAX || n < 0 {
            n
        } else if self.holds(strings, n + 1) {
            self.border_above(strings, n + 1)
        } else {
            n
        }
    }

    /// The length of the table: the border found by going down from the
    /// end of the array part where that end holds no value, and up from it
    /// through the entries otherwise.
    pub open spec fn length(self, strings: Seq<Seq<u8>>) -> int {
        let n = self.array.len() as int;
        if n > 0 && self.array[n - 1] is Nil {
            self.border_below(n)
        } else {
            self.border_above(strings, n)
        }
    }
}

/// Going down the array part ends on a border.
pub proof fn lemma_border_below(t: TableModel, strings: Seq<Seq<u8>>, n: int)
    requires
        0 <= n < t.array.len(),
        n < i64::MAX,
        t.array[n] is Nil,
    ensures
        t.is_border(strings, t.border_below(n)),
        0 <= t.border_below(n) <= n,
    decreases n,
{
    if n > 0 && t.array[n - 1] is Nil {
        lemma_border_below(t, strings, n - 1);
    }
}

/// Going up from a position that holds a value, or from 0, ends on a border.
pub proof fn lemma_border_above(t: TableModel, strings: Seq<Seq<u8>>, n: int)
    requires
        0 <= n <= i64::MAX,
        n == 0 || t.holds(strings, n),
    ensures
        t.is_border(strings, t.border_above(strings, n)),
        n <= t.border_above(strings, n) <= i64::MAX,
    decreases i64::MAX - n,
{
    if n < i64::MAX && t.holds(strings, n + 1) {
        lemma_border_above(t, strings, n + 1);
    }
}

/// The length of a table is one of its borders.
pub proof fn lemma_length_is_border(t: TableModel, strings: Seq<Seq<u8>>)
    requires
        t.array.len() <= i64::MAX,
    ensures
        t.is_border(strings, t.length(strings)),
        0 <= t.length(strings) <= i64::MAX,
{
    let n = t.array.len() as int;
    if n > 0 && t.array[n - 1] is Nil {
        lemma_border_below(t, strings, n - 1);
    } else {
        lemma_border_above(t, strings, n);
    }
}

proof fn lemma_without_key(entries: Seq<(Value, Value)>, strings: Seq<Seq<u8>>, key: Value, from: int)
    requires
        0 <= from,
    ensures
        find_entry(without_key(entries, strings, key), strings, key, from) is None,
        without_key(entries, strings, key).len() <= entries.len(),
    decreases entries.len(),
{
    let w = without_key(entries, strings, key);
    if entries.len() == 0 {
    } else if spec_values_equal(strings, entries.last().0, key) {
        lemma_without_key(entries.drop_last(), strings, key, from);
    } else {
        let rest = without_key(entries.drop_last(), strings, key);
        lemma_without_key(entries.drop_last(), strings, key, from);
        lemma_find_push_other(rest, strings, key, entries.last(), from);
    }
}

proof fn lemma_find_push_other(
    entries: Seq<(Value, Value)>,
    strings: Seq<Seq<u8>>,
    key: Value,
    entry: (Value, Value),
    from: int,
)
    requires
        0 <= from,
        find_entry(entries, strings, key, from) is None,
        !spec_values_equal(strings, entry.0, key),
    ensures
        find_entry(entries.push(entry), strings, key, from) is None,
    decreases entries.len() - from,
{
    if from < entries.len() {
        lemma_find_push_other(entries, strings, key, entry, from + 1);
    } else if from == entries.len() {
        assert(find_entry(entries.push(entry), strings, key, from + 1) is None);
    }
}

proof fn lemma_find_push_same(
    entries: Seq<(Value, Value)>,
    strings: Seq<Seq<u8>>,
    key: Value,
    entry: (Value, Value),
    from: int,
)
    requires
        0 <= from <= entries.len(),
        find_entry(entries, strings, key, from) is None,
        spec_values_equal(strings, entry.0, key),
    ensures
        find_entry(entries.push(entry), strings, key, from) == Some(entries.len() as int),
    decreases entries.len() - from,
{
    if from < entries.len() {
        lemma_find_push_same(entries, strings, key, entry, from + 1);
    }
}

/// A key that can be written to equals itself.
pub proof fn lemma_key_equals_itself(strings: Seq<Seq<u8>>, key: Value)
    requires
        spec_check_key(key) is None,
    ensures
        spec_values_equal(strings, spec_normalize_key(key), spec_normalize_key(key)),
        spec_check_key(spec_normalize_key(key)) is None,
{
}

/// Reading a key after writing it gives the value written, `Nil` after a
/// removal included; and the length of the table that results is one of
/// its borders.
pub proof fn lemma_get_after_set(t: TableModel, strings: Seq<Seq<u8>>, key: Value, value: Value)
    requires
        spec_check_key(key) is None,
        t.array.len() < i64::MAX,
    ensures
        t.set(strings, key, value).get(strings, key) == value,
        t.set(strings, key, value).is_border(strings, t.set(strings, key, value).length(strings)),
{
    let k = spec_normalize_key(key);
    let after = t.set(strings, key, value);
    lemma_key_equals_itself(strings, key);
    lemma_length_is_border(after, strings);
    if t.in_array(k) {
    } else if (k matches Value::Integer(i) && i == t.array.len() + 1) && !(value is Nil) {
    } else {
        let rest = without_key(t.entries, strings, k);
        lemma_without_key(t.entries, strings, k, 0);
        if !(value is Nil) {
            lemma_find_push_same(rest, strings, k, (k, value), 0);
        }
    }
}

/// The value of the first entry whose key equals `key`; `Nil` if there
/// is none.
pub open spec fn lookup(entries: Seq<(Value, Value)>, strings: Seq<Seq<u8>>, key: Value) -> Value {
    match find_entry(entries, strings, key, 0) {
        Some(j) => entries[j].1,
        None => Value::Nil,
    }
}

proof fn lemma_find_bounds(entries: Seq<(Value, Value)>, strings: Seq<Seq<u8>>, key: Value, from: int)
    requires
        0 <= from,
    ensures
        find_entry(entries, strings, key, from) matches Some(j) ==> from <= j < entries.len()
            && spec_values_equal(strings, entries[j].0, key),
    decreases entries.len() - from,
{
    if from < entries.len() && !spec_values_equal(strings, entries[from].0, key) {
        lemma_find_bounds(entries, strings, key, from + 1);
    }
}

proof fn lemma_find_push_found(
    entries: Seq<(Value, Value)>,
    strings: Seq<Seq<u8>>,
    key: Value,
    entry: (Value, Value),
    from: int,
)
    requires
        0 <= from,
        find_entry(entries, strings, key, from) is Some,
    ensures
        find_entry(entries.push(entry), strings, key, from) == find_entry(
            entries,
            strings,
            key,
            from,
        ),
    decreases entries.len() - from,
{
    lemma_find_bounds(entries, strings, key, from);
    if !spec_values_equal(strings, entries[from].0, key) {
        lemma_find_push_found(entries, strings, key, entry, from + 1);
        assert(entries.push(entry)[from] == entries[from]);
    } else {
        assert(entries.push(entry)[from] == entries[from]);
    }
}

/// What looking up a key finds after an entry was added at the end.
proof fn lemma_lookup_push(
    entries: Seq<(Value, Value)>,
    strings: Seq<Seq<u8>>,
    key: Value,
    entry: (Value, Value),
)
    ensures
        lookup(entries.push(entry), strings, key) == (if find_entry(entries, strings, key, 0)
            is Some {
            lookup(entries, strings, key)
        } else if spec_values_equal(strings, entry.0, key) {
            entry.1
        } else {
            Value::Nil
        }),
        find_entry(entries.push(entry), strings, key, 0) is Some <==> (find_entry(
            entries,
            strings,
            key,
            0,
        ) is Some || spec_values_equal(strings, entry.0, key)),
{
    if find_entry(entries, strings, key, 0) is Some {
        lemma_find_push_found(entries, strings, key, entry, 0);
        lemma_find_bounds(entries, strings, key, 0);
        let j = find_entry(entries, strings, key, 0).unwrap();
        assert(entries.push(entry)[j] == entries[j]);
    } else if spec_values_equal(strings, entry.0, key) {
        lemma_find_push_same(entries, strings, key, entry, 0);
    } else {
        lemma_find_push_other(entries, strings, key, entry, 0);
    }
}

/// Taking the entries of one key away leaves what the other keys find.
proof fn lemma_lookup_without(
    entries: Seq<(Value, Value)>,
    strings: Seq<Seq<u8>>,
    key: Value,
    other: Value,
)
    requires
        !spec_values_equal(strings, other, key),
    ensures
        lookup(without_key(entries, strings, key), strings, other) == lookup(
            entries,
            strings,
            other,
        ),
        find_entry(without_key(entries, strings, key), strings, other, 0) is Some <==> find_entry(
            entries,
            strings,
            other,
            0,
        ) is Some,
    decreases entries.len(),
{
    if entries.len() > 0 {
        let rest = entries.drop_last();
        let last = entries.last();
        assert(rest.push(last) =~= entries);
        lemma_lookup_without(rest, strings, key, other);
        lemma_lookup_push(rest, strings, other, last);
        if spec_values_equal(strings, last.0, key) {
            lemma_equality_is_an_equivalence(strings, other, last.0, key);
            lemma_equality_is_an_equivalence(strings, last.0, other, key);
        } else {
            lemma_lookup_push(without_key(rest, strings, key), strings, other, last);
        }
    }
}

/// Writing a key leaves every other key as it was: what is read at a
/// key that does not equal the key written is what was read before.
pub proof fn lemma_get_other(
    t: TableModel,
    strings: Seq<Seq<u8>>,
    key: Value,
    value: Value,
    other: Value,
)
    requires
        spec_check_key(key) is None,
        !spec_values_equal(strings, spec_normalize_key(other), spec_normalize_key(key)),
    ensures
        t.set(strings, key, value).get(strings, other) == t.get(strings, other),
{
    let k = spec_normalize_key(key);
    let o = spec_normalize_key(other);
    lemma_lookup_without(t.entries, strings, k, o);
    if !t.in_array(k) {
        let rest = without_key(t.entries, strings, k);
        if !((k matches Value::Integer(i) && i == t.array.len() + 1) && !(value is Nil)) && !(value
            is Nil) {
            lemma_lookup_push(rest, strings, o, (k, value));
            lemma_equality_is_an_equivalence(strings, k, o, k);
        }
    }
}

impl Table {
    pub fn new() -> (r: Table)
        ensures
            r@ == TableModel::empty(),
    {
        Table { array: Vec::new(), entries: Vec::new() }
    }

    fn find(&self, strings: &Vec<Vec<u8>>, key: Value) -> (r: Option<usize>)
        ensures
            r matches Some(j) ==> j < self.entries.len(),
            match r {
                Some(j) => find_entry(self@.entries, contents(strings@), key, 0) == Some(j as int),
                None => find_entry(self@.entries, contents(strings@), key, 0) is None,
            },
    {
        let mut j: usize = 0;
        while j < self.entries.len()
            invariant
                j <= self.entries.len(),
                find_entry(self@.entries, contents(strings@), key, 0) == find_entry(
                    self@.entries,
                    contents(strings@),
                    key,
                    j as int,
                ),
            decreases self.entries.len() - j,
        {
            if values_equal(strings, self.entries[j].0, key) {
                return Some(j);
            }
            j = j + 1;
        }
        None
    }

    /// The value at a key; `Nil` where the table holds none.
    pub fn get(&self, strings: &Vec<Vec<u8>>, key: Value) -> (r: Value)
        ensures
            r == self@.get(contents(strings@), key),
    {
        let k = normalize_key(key);
        if let Value::Integer(i) = k {
            if 1 <= i && (i as u64) <= self.array.len() as u64 {
                return self.array[(i - 1) as usize];
            }
        }
        match self.find(strings, k) {
            Some(j) => self.entries[j].1,
            None => Value::Nil,
        }
    }

    fn remove_key(&mut self, strings: &Vec<Vec<u8>>, key: Value)
        ensures
            final(self)@.array == old(self)@.array,
            final(self)@.entries == without_key(old(self)@.entries, contents(strings@), key),
    {
        let mut kept: Vec<(Value, Value)> = Vec::new();
        let mut j: usize = 0;
        while j < self.entries.len()
            invariant
                j <= self.entries.len(),
                kept@ == without_key(self@.entries.take(j as int), contents(strings@), key),
            decreases self.entries.len() - j,
        {
            let entry = self.entries[j];
            assert(self@.entries.take(j + 1).drop_last() =~= self@.entries.take(j as int));
            if !values_equal(strings, entry.0, key) {
                kept.push(entry);
            }
            j = j + 1;
        }
        assert(self@.entries.take(j as int) =~= self@.entries);
        self.entries = kept;
    }

    /// Gives `key` the value `value`; `Nil` removes the key. Fails, and
    /// leaves the table as it is, on a key that is nil or a NaN.
    pub fn set(&mut self, strings: &Vec<Vec<u8>>, key: Value, value: Value) -> (r: Result<
        (),
        InvalidKey,
    >)
        ensures
            match spec_check_key(key) {
                Some(e) => r == Err::<(), InvalidKey>(e) && final(self)@ == old(self)@,
                None => r is Ok && final(self)@ == old(self)@.set(contents(strings@), key, value),
            },
    {
        match key {
            Value::Nil => {
                return Err(InvalidKey::IsNil);
            },
            Value::Number(n) => {
                if is_nan(n) {
                    return Err(InvalidKey::IsNaN);
                }
            },
            _ => {},
        }
        let k = normalize_key(key);
        if let Value::Integer(i) = k {
            if 1 <= i && (i as u64) <= self.array.len() as u64 {
                self.array[(i - 1) as usize] = value;
                return Ok(());
            }
            if i >= 1 && (i as u64) == (self.array.len() as u64) + 1 {
                if let Value::Nil = value {
                } else {
                    self.remove_key(strings, k);
                    self.array.push(value);
                    return Ok(());
                }
            }
        }
        self.remove_key(strings, k);
        if let Value::Nil = value {
        } else {
            self.entries.push((k, value));
        }
        Ok(())
    }

    /// The length of the table, which is one of its borders.
    pub fn length(&self, strings: &Vec<Vec<u8>>) -> (r: i64)
        requires
            self.array.len() <= i64::MAX,
        ensures
            r == self@.length(contents(strings@)),
            self@.is_border(contents(strings@), r as int),
    {
        proof {
            lemma_length_is_border(self@, contents(strings@));
        }
        let n: usize = self.array.len();
        if n > 0 && matches!(self.array[n - 1], Value::Nil) {
            let mut j: usize = n;
            while j > 0 && matches!(self.array[j - 1], Value::Nil)
                invariant
                    j <= n,
                    n == self.array.len(),
                    self@.border_below(n as int) == self@.border_below(j as int),
                decreases j,
            {
                j = j - 1;
            }
            j as i64
        } else {
            let mut j: i64 = n as i64;
            while j < i64::MAX && !matches!(self.get(strings, Value::Integer(j + 1)), Value::Nil)
                invariant
                    0 <= j,
                    self@.border_above(contents(strings@), n as int) == self@.border_above(
                        contents(strings@),
                        j as int,
                    ),
                decreases i64::MAX - j,
            {
                j = j + 1;
            }
            j
        }
    }
}

} // verus!
