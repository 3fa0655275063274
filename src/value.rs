use vstd::prelude::*;

verus! {

#[verifier::external_type_specification]
#[verifier::external_body]
pub struct ExNumber(serde_json::Number);

/// Relies on serde_json's derived `Clone` for `Number`, which copies the number.
pub assume_specification[ <serde_json::Number as Clone>::clone ](n: &serde_json::Number) -> (r:
    serde_json::Number)
    ensures
        r == *n,
;

/// A tagged recursive value exchanged with the host and the interpreter.
///
/// Objects keep their entries in insertion order.
#[derive(Debug, PartialEq)]
pub enum HostValue {
    Null,
    Bool(bool),
    Number(serde_json::Number),
    String(String),
    Array(Vec<HostValue>),
    Object(Vec<(String, HostValue)>),
}

/// The first entry of an object's entries whose key is `key`.
pub open spec fn entries_get(
    entries: Seq<(String, HostValue)>,
    key: Seq<char>,
) -> Option<HostValue>
    decreases entries.len(),
{
    if entries.len() == 0 {
        None
    } else if entries[0].0@ == key {
        Some(entries[0].1)
    } else {
        entries_get(entries.drop_first(), key)
    }
}

/// Looks `key` up among an object's entries; the first match wins.
pub fn object_get<'a>(entries: &'a Vec<(String, HostValue)>, key: &String) -> (r: Option<
    &'a HostValue,
>)
    ensures
        r matches Some(v) ==> entries_get(entries@, key@) == Some(*v),
        r is None ==> entries_get(entries@, key@) is None,
{
    let mut i: usize = 0;
    assert(entries@.skip(0) =~= entries@);
    while i < entries.len()
        invariant
            i <= entries.len(),
            entries_get(entries@, key@) == entries_get(entries@.skip(i as int), key@),
        decreases entries.len() - i,
    {
        assert(entries@.skip(i as int).drop_first() =~= entries@.skip(i + 1));
        if entries[i].0 == *key {
            return Some(&entries[i].1);
        }
        i = i + 1;
    }
    None
}

} // verus!
