//! Plain scalar cell values, as they travel between handlers and the store.

use vstd::prelude::*;

verus! {

/// One column value. `Real` carries a raw IEEE-754 bit pattern through the
/// library untouched; the library never computes on it.
#[derive(PartialEq, Eq, Debug)]
pub enum Value {
    Int(i64),
    Real(u64),
    Text(String),
}

impl Clone for Value {
    fn clone(&self) -> (r: Self)
        ensures
            r == *self,
    {
        match self {
            Value::Int(x) => Value::Int(*x),
            Value::Real(b) => Value::Real(*b),
            Value::Text(s) => Value::Text(s.clone()),
        }
    }
}

/// Clones a row of values, preserving each cell.
pub fn clone_row(r: &Vec<Value>) -> (c: Vec<Value>)
    ensures
        c@ =~= r@,
{
    let mut c: Vec<Value> = Vec::new();
    let mut i: usize = 0;
    while i < r.len()
        invariant
            0 <= i <= r@.len(),
            c@ =~= r@.take(i as int),
        decreases r@.len() - i,
    {
        c.push(r[i].clone());
        proof {
            assert(c@ =~= r@.take(i as int + 1));
        }
        i += 1;
    }
    proof {
        assert(r@.take(r@.len() as int) =~= r@);
    }
    c
}

} // verus!
