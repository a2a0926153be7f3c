//! A JSON value model of the library's own. It carries as plain values
//! everything the dispatcher reads; a number is held as its decimal
//! rendering, and an object keeps its members in order.

use vstd::prelude::*;

verus! {

#[derive(Debug, PartialEq, Eq)]
pub enum Json {
    Null,
    Bool(bool),
    Num(String),
    Str(String),
    Arr(Vec<Json>),
    Obj(Vec<(String, Json)>),
}

/// The value of the first member with the given key, if any.
pub open spec fn spec_obj_lookup(pairs: Seq<(String, Json)>, key: Seq<char>) -> Option<Json>
    decreases pairs.len(),
{
    if pairs.len() == 0 {
        None
    } else if pairs[0].0@ == key {
        Some(pairs[0].1)
    } else {
        spec_obj_lookup(pairs.drop_first(), key)
    }
}

/// The member of an object for a key; `None` for a missing member or for a
/// value that is not an object.
pub open spec fn spec_get(j: Json, key: Seq<char>) -> Option<Json> {
    match j {
        Json::Obj(pairs) => spec_obj_lookup(pairs@, key),
        _ => None,
    }
}

proof fn lemma_lookup_skip(pairs: Seq<(String, Json)>, key: Seq<char>, i: int)
    requires
        0 <= i <= pairs.len(),
        forall|j: int| 0 <= j < i ==> (#[trigger] pairs[j]).0@ != key,
    ensures
        spec_obj_lookup(pairs, key) == spec_obj_lookup(pairs.skip(i), key),
    decreases i,
{
    if i > 0 {
        assert(pairs[0].0@ != key);
        let t = pairs.drop_first();
        assert forall|j: int| 0 <= j < i - 1 implies (#[trigger] t[j]).0@ != key by {
            assert(t[j] == pairs[j + 1]);
        }
        lemma_lookup_skip(t, key, i - 1);
        assert(t.skip(i - 1) =~= pairs.skip(i));
    } else {
        assert(pairs.skip(0) =~= pairs);
    }
}

/// Compares two string slices by their character sequences.
pub fn str_eq(a: &str, b: &str) -> (r: bool)
    ensures
        r == (a@ == b@),
{
    let sa = a.to_owned();
    let sb = b.to_owned();
    sa == sb
}

/// Finds the first member with the given key and borrows its value.
pub fn obj_find<'a>(pairs: &'a Vec<(String, Json)>, key: &str) -> (r: Option<&'a Json>)
    ensures
        match r {
            Some(j) => spec_obj_lookup(pairs@, key@) == Some(*j),
            None => spec_obj_lookup(pairs@, key@) is None,
        },
{
    let mut i: usize = 0;
    while i < pairs.len()
        invariant
            i <= pairs@.len(),
            forall|j: int| 0 <= j < i ==> (#[trigger] pairs@[j]).0@ != key@,
        decreases pairs@.len() - i,
    {
        if str_eq(pairs[i].0.as_str(), key) {
            proof {
                lemma_lookup_skip(pairs@, key@, i as int);
                assert(pairs@.skip(i as int)[0] == pairs@[i as int]);
            }
            return Some(&pairs[i].1);
        }
        i += 1;
    }
    proof {
        lemma_lookup_skip(pairs@, key@, pairs@.len() as int);
        assert(pairs@.skip(pairs@.len() as int).len() == 0);
    }
    None
}

/// Removes the first member with the given key and returns its value.
pub fn obj_take(pairs: &mut Vec<(String, Json)>, key: &str) -> (r: Option<Json>)
    ensures
        r == spec_obj_lookup(old(pairs)@, key@),
{
    let mut i: usize = 0;
    while i < pairs.len()
        invariant
            pairs@ == old(pairs)@,
            i <= pairs@.len(),
            forall|j: int| 0 <= j < i ==> (#[trigger] pairs@[j]).0@ != key@,
        decreases pairs@.len() - i,
    {
        if str_eq(pairs[i].0.as_str(), key) {
            proof {
                lemma_lookup_skip(pairs@, key@, i as int);
                assert(pairs@.skip(i as int)[0] == pairs@[i as int]);
            }
            let pair = pairs.remove(i);
            return Some(pair.1);
        }
        i += 1;
    }
    proof {
        lemma_lookup_skip(pairs@, key@, pairs@.len() as int);
        assert(pairs@.skip(pairs@.len() as int).len() == 0);
    }
    None
}

} // verus!
