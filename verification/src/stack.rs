//! Moving runs of values on a value stack.

use crate::value::Value;
use vstd::prelude::*;

verus! {

/// The stack with `values` written from slot `at` on. A stack that is too
/// short grows, and a slot that nothing is written to is `Nil`.
pub open spec fn spec_write_at(stack: Seq<Value>, at: int, values: Seq<Value>) -> Seq<Value> {
    let len = if stack.len() >= at + values.len() {
        stack.len() as int
    } else {
        at + values.len()
    };
    Seq::new(
        len as nat,
        |i: int|
            if at <= i < at + values.len() {
                values[i - at]
            } else if i < stack.len() {
                stack[i]
            } else {
                Value::Nil
            },
    )
}

/// The first `n` of the values, with `Nil` for each one that is missing.
pub open spec fn spec_pad_or_cut(values: Seq<Value>, n: int) -> Seq<Value> {
    Seq::new(
        n as nat,
        |i: int|
            if i < values.len() {
                values[i]
            } else {
                Value::Nil
            },
    )
}

/// The `count` values from slot `start` on, if the stack holds them all.
pub open spec fn spec_slice(stack: Seq<Value>, start: int, count: int) -> Option<Seq<Value>> {
    if 0 <= start && 0 <= count && start + count <= stack.len() {
        Some(stack.subrange(start, start + count))
    } else {
        None
    }
}

/// The stack cut to `len` slots if it is longer.
pub open spec fn spec_cut(stack: Seq<Value>, len: int) -> Seq<Value> {
    if 0 <= len <= stack.len() {
        stack.take(len)
    } else {
        stack
    }
}

/// Whether `values` can be written from slot `at` on: the slots exist
/// on this machine.
pub open spec fn fits(at: int, count: int) -> bool {
    at + count <= usize::MAX
}

/// Writes values from a slot on; the stack grows if it is too short.
pub fn write_at(stack: &mut Vec<Value>, at: usize, values: &Vec<Value>)
    requires
        fits(at as int, values.len() as int),
    ensures
        final(stack)@ == spec_write_at(old(stack)@, at as int, values@),
{
    let end: usize = at + values.len();
    while stack.len() < end
        invariant
            stack.len() >= old(stack).len(),
            stack.len() <= end || stack.len() == old(stack).len(),
            stack@.take(old(stack).len() as int) == old(stack)@,
            forall|i: int| old(stack).len() <= i < stack.len() ==> stack@[i] == Value::Nil,
        decreases end - stack.len(),
    {
        let ghost before = stack@;
        stack.push(Value::Nil);
        assert(stack@.take(old(stack).len() as int) =~= before.take(old(stack).len() as int));
    }
    let ghost grown = stack@;
    let mut j: usize = 0;
    while j < values.len()
        invariant
            j <= values.len(),
            end == at + values.len(),
            stack.len() == grown.len(),
            grown.len() >= end,
            forall|i: int| 0 <= i < at + j ==> stack@[i] == (if at <= i { values@[i - at] } else { grown[i] }),
            forall|i: int| at + j <= i < grown.len() ==> stack@[i] == grown[i],
        decreases values.len() - j,
    {
        stack[at + j] = values[j];
        j = j + 1;
    }
    assert(stack@ =~= spec_write_at(old(stack)@, at as int, values@)) by {
        assert forall|i: int| 0 <= i < stack.len() implies stack@[i] == spec_write_at(
            old(stack)@,
            at as int,
            values@,
        )[i] by {
            if i < old(stack).len() {
                assert(grown[i] == grown.take(old(stack).len() as int)[i]);
            }
        }
    }
}

/// The first `n` of the values, with `Nil` for each one that is missing.
pub fn pad_or_cut(values: &Vec<Value>, n: usize) -> (r: Vec<Value>)
    ensures
        r@ == spec_pad_or_cut(values@, n as int),
{
    let mut r: Vec<Value> = Vec::new();
    let mut i: usize = 0;
    while i < n
        invariant
            i <= n,
            r@ == spec_pad_or_cut(values@, i as int),
        decreases n - i,
    {
        let v = if i < values.len() { values[i] } else { Value::Nil };
        r.push(v);
        assert(r@ =~= spec_pad_or_cut(values@, i + 1));
        i = i + 1;
    }
    r
}

/// A copy of `count` values from a slot on, if the stack holds them all.
pub fn slice(stack: &Vec<Value>, start: usize, count: usize) -> (r: Option<Vec<Value>>)
    ensures
        match spec_slice(stack@, start as int, count as int) {
            Some(s) => r matches Some(v) && v@ == s,
            None => r is None,
        },
{
    if start > stack.len() || count > stack.len() - start {
        return None;
    }
    let mut r: Vec<Value> = Vec::new();
    let mut i: usize = 0;
    while i < count
        invariant
            i <= count,
            start + count <= stack.len(),
            r@ == stack@.subrange(start as int, start + i),
        decreases count - i,
    {
        r.push(stack[start + i]);
        assert(r@ =~= stack@.subrange(start as int, start + i + 1));
        i = i + 1;
    }
    Some(r)
}

/// Cuts the stack to `len` slots if it is longer.
pub fn cut(stack: &mut Vec<Value>, len: usize)
    ensures
        final(stack)@ == spec_cut(old(stack)@, len as int),
{
    stack.truncate(len);
}

/// The stack made at least `len` slots long, with `Nil` in the new slots.
pub open spec fn spec_grown(stack: Seq<Value>, len: int) -> Seq<Value> {
    spec_write_at(stack, len, Seq::empty())
}

/// Makes the stack at least `len` slots long.
pub fn grow(stack: &mut Vec<Value>, len: usize)
    ensures
        final(stack)@ == spec_grown(old(stack)@, len as int),
{
    let nothing: Vec<Value> = Vec::new();
    write_at(stack, len, &nothing);
}

} // verus!
