use vstd::prelude::*;
use vstd::utf8::{decode_utf8, encode_utf8, valid_utf8};

use crate::codec::{base64_decode_of, base64_of, decode_base64, decode_utf8_bytes, encode_base64};
use crate::text::{multimap_append, multimap_push, multimap_view, push_char, MultiMapModel};
use crate::value::HostValue;

verus! {

broadcast use vstd::string::group_string_axioms;

/// A failure of a capability called by a map: its arguments have the wrong
/// type or content.
#[derive(Debug, PartialEq)]
pub enum BridgeError {
    Type(String),
}

/// A text that starts with `p` and goes on with `s` starts with `p`.
proof fn lemma_prefix(p: Seq<char>, s: Seq<char>)
    ensures
        p.is_prefix_of(p + s),
{
    assert(p =~= (p + s).subrange(0, p.len() as int));
}

/// Decodes UTF-8 bytes into a string.
pub fn bytes_to_utf8(bytes: &[u8]) -> (r: Result<String, BridgeError>)
    ensures
        r is Ok <==> valid_utf8(bytes@),
        r matches Ok(s) ==> s@ == decode_utf8(bytes@),
        r matches Err(BridgeError::Type(m)) ==> "Could not decode bytes at UTF-8: "@.is_prefix_of(m@),
{
    match decode_utf8_bytes(bytes) {
        Ok(s) => Ok(s),
        Err(e) => {
            let mut m = String::from_str("Could not decode bytes at UTF-8: ");
            m.append(e.as_str());
            proof {
                lemma_prefix("Could not decode bytes at UTF-8: "@, e@);
            }
            Err(BridgeError::Type(m))
        },
    }
}

/// The UTF-8 bytes of a string.
pub fn utf8_to_bytes(s: &str) -> (r: Vec<u8>)
    ensures
        r@ == encode_utf8(s@),
{
    vstd::slice::slice_to_vec(s.as_bytes())
}

/// Decoding the UTF-8 bytes of any string gives the string back.
pub proof fn lemma_utf8_round_trip(s: Seq<char>)
    ensures
        valid_utf8(encode_utf8(s)),
        decode_utf8(encode_utf8(s)) == s,
{
    vstd::utf8::encode_utf8_valid_utf8(s);
    vstd::utf8::encode_utf8_decode_utf8(s);
}

/// The standard base64 text (with padding) of some bytes; decoding it gives
/// the bytes back.
pub fn bytes_to_base64(bytes: &[u8]) -> (r: Result<String, BridgeError>)
    ensures
        r is Ok <==> bytes@.len() <= usize::MAX / 2,
        r matches Ok(s) ==> s@ == base64_of(bytes@) && base64_decode_of(s@) == Some(bytes@),
{
    if bytes.len() > usize::MAX / 2 {
        return Err(BridgeError::Type(String::from_str("Input is too long to encode")));
    }
    Ok(encode_base64(bytes))
}

/// The bytes that a standard base64 text stands for.
pub fn base64_to_bytes(s: &str) -> (r: Result<Vec<u8>, BridgeError>)
    ensures
        r is Ok <==> base64_decode_of(s@) is Some,
        r matches Ok(v) ==> base64_decode_of(s@) == Some(v@),
        r matches Err(BridgeError::Type(m)) ==> "Could not decode string as base64: "@.is_prefix_of(
            m@,
        ),
{
    match decode_base64(s) {
        Ok(v) => Ok(v),
        Err(e) => {
            let mut m = String::from_str("Could not decode string as base64: ");
            m.append(e.as_str());
            proof {
                lemma_prefix("Could not decode string as base64: "@, e@);
            }
            Err(BridgeError::Type(m))
        },
    }
}

// ---------------------------------------------------------------------------
// Records as application/x-www-form-urlencoded text
// ---------------------------------------------------------------------------

/// Whether a byte stands for itself in form encoding: ASCII letters and
/// digits, `*`, `-`, `.` and `_`.
pub open spec fn form_unreserved(b: u8) -> bool {
    (97u8 <= b <= 122u8) || (65u8 <= b <= 90u8) || (48u8 <= b <= 57u8) || b == 42u8 || b == 45u8
        || b == 46u8 || b == 95u8
}

pub open spec fn hex_digits() -> Seq<char> {
    seq!['0', '1', '2', '3', '4', '5', '6', '7', '8', '9', 'A', 'B', 'C', 'D', 'E', 'F']
}

/// The form encoding of one byte: itself, `+` for a space, else `%XX`.
pub open spec fn form_byte(b: u8) -> Seq<char> {
    if form_unreserved(b) {
        seq![b as char]
    } else if b == 32u8 {
        seq!['+']
    } else {
        seq!['%', hex_digits()[(b / 16) as int], hex_digits()[(b % 16) as int]]
    }
}

/// The form encoding of some bytes.
pub open spec fn form_bytes(bs: Seq<u8>) -> Seq<char>
    decreases bs.len(),
{
    if bs.len() == 0 {
        Seq::empty()
    } else {
        form_bytes(bs.drop_last()) + form_byte(bs.last())
    }
}

/// The form encoding of a string, by its UTF-8 bytes.
pub open spec fn form_text(s: Seq<char>) -> Seq<char> {
    form_bytes(encode_utf8(s))
}

/// `k=v` for each value of each key, joined by `&`, keys in order and each
/// key's values in order.
pub open spec fn pairs_text(m: MultiMapModel) -> Seq<char>
    decreases m.len(),
{
    if m.len() == 0 {
        Seq::empty()
    } else {
        let prev = pairs_text(m.drop_last());
        let k = m.last().0;
        values_text(prev, k, m.last().1)
    }
}

/// `text` followed by `k=v` for each of `vs`, with `&` between pairs.
pub open spec fn values_text(text: Seq<char>, k: Seq<char>, vs: Seq<Seq<char>>) -> Seq<char>
    decreases vs.len(),
{
    if vs.len() == 0 {
        text
    } else {
        let prev = values_text(text, k, vs.drop_last());
        let sep = if prev.len() == 0 {
            Seq::empty()
        } else {
            seq!['&']
        };
        prev + sep + form_text(k) + seq!['='] + form_text(vs.last())
    }
}

/// The multimap a record stands for: each key's strings, in order.
pub open spec fn record_entries(e: Seq<(String, HostValue)>) -> MultiMapModel
    decreases e.len(),
{
    if e.len() == 0 {
        Seq::empty()
    } else {
        let prev = record_entries(e.drop_last());
        match e.last().1 {
            HostValue::Array(a) => append_all(prev, e.last().0@, a@),
            _ => prev,
        }
    }
}

/// Adds each string of `a` to the values of `k`.
pub open spec fn append_all(m: MultiMapModel, k: Seq<char>, a: Seq<HostValue>) -> MultiMapModel
    decreases a.len(),
{
    if a.len() == 0 {
        m
    } else {
        match a.last() {
            HostValue::String(s) => multimap_append(append_all(m, k, a.drop_last()), k, s@),
            _ => append_all(m, k, a.drop_last()),
        }
    }
}

/// Whether every value of a record is an array of strings.
pub open spec fn string_arrays(e: Seq<(String, HostValue)>) -> bool {
    forall|i: int| 0 <= i < e.len() ==> is_string_array(#[trigger] e[i].1)
}

/// Whether a value is an array of strings.
pub open spec fn is_string_array(v: HostValue) -> bool {
    v matches HostValue::Array(a) && forall|j: int| 0 <= j < a@.len() ==> (#[trigger] a@[j]) is String
}

fn form_encode_into(out: &mut String, s: &String)
    ensures
        final(out)@ == old(out)@ + form_text(s@),
{
    let bytes = s.as_str().as_bytes();
    let digits: [char; 16] = [
        '0', '1', '2', '3', '4', '5', '6', '7', '8', '9', 'A', 'B', 'C', 'D', 'E', 'F',
    ];
    assert(digits@ =~= hex_digits());
    let mut i: usize = 0;
    while i < bytes.len()
        invariant
            bytes@ == encode_utf8(s@),
            digits@ == hex_digits(),
            i <= bytes@.len(),
            out@ == old(out)@ + form_bytes(bytes@.take(i as int)),
        decreases bytes@.len() - i,
    {
        let b = bytes[i];
        let ghost before = out@;
        if (97u8 <= b && b <= 122u8) || (65u8 <= b && b <= 90u8) || (48u8 <= b && b <= 57u8) || b
            == 42u8 || b == 45u8 || b == 46u8 || b == 95u8 {
            push_char(out, b as char);
        } else if b == 32u8 {
            push_char(out, '+');
        } else {
            push_char(out, '%');
            push_char(out, digits[(b / 16) as usize]);
            push_char(out, digits[(b % 16) as usize]);
        }
        assert(out@ =~= before + form_byte(b));
        assert(bytes@.take(i + 1).drop_last() =~= bytes@.take(i as int));
        i = i + 1;
    }
    assert(bytes@.take(i as int) =~= bytes@);
}

/// Encodes a record of string arrays as `application/x-www-form-urlencoded`
/// text: keys in insertion order, each array's strings in order.
pub fn record_to_urlencoded(value: &HostValue) -> (r: Result<String, BridgeError>)
    ensures
        r is Ok <==> (value matches HostValue::Object(e) && string_arrays(e@)),
        r matches Ok(s) ==> (value matches HostValue::Object(e) && s@ == pairs_text(
            record_entries(e@),
        )),
        r matches Err(BridgeError::Type(m)) ==> m@ == "Values must be string arrays"@,
{
    let e = match value {
        HostValue::Object(e) => e,
        _ => {
            return Err(BridgeError::Type(String::from_str("Values must be string arrays")));
        },
    };
    let mut m: Vec<(String, Vec<String>)> = Vec::new();
    let mut i: usize = 0;
    while i < e.len()
        invariant
            *value == HostValue::Object(*e),
            i <= e@.len(),
            string_arrays(e@.take(i as int)),
            multimap_view(m@) == record_entries(e@.take(i as int)),
        decreases e@.len() - i,
    {
        assert(e@.take(i + 1).drop_last() =~= e@.take(i as int));
        let a = match &e[i].1 {
            HostValue::Array(a) => a,
            _ => {
                return Err(BridgeError::Type(String::from_str("Values must be string arrays")));
            },
        };
        let mut j: usize = 0;
        while j < a.len()
            invariant
                *value == HostValue::Object(*e),
                i < e@.len(),
                e@[i as int].1 == HostValue::Array(*a),
                j <= a@.len(),
                forall|t: int| 0 <= t < j ==> a@[t] is String,
                multimap_view(m@) == append_all(record_entries(e@.take(i as int)), e@[i as int].0@, a@.take(j as int)),
            decreases a@.len() - j,
        {
            assert(a@.take(j + 1).drop_last() =~= a@.take(j as int));
            match &a[j] {
                HostValue::String(s) => {
                    multimap_push(&mut m, e[i].0.clone(), s.clone());
                },
                _ => {
                    assert(!is_string_array(e@[i as int].1));
                    return Err(BridgeError::Type(String::from_str("Values must be string arrays")));
                },
            }
            j = j + 1;
        }
        assert(a@.take(j as int) =~= a@);
        assert(string_arrays(e@.take(i + 1)));
        i = i + 1;
    }
    assert(e@.take(i as int) =~= e@);
    let mut out = String::new();
    let mut k: usize = 0;
    while k < m.len()
        invariant
            k <= m@.len(),
            out@ == pairs_text(multimap_view(m@).take(k as int)),
        decreases m@.len() - k,
    {
        let vs = &m[k].1;
        let ghost base = out@;
        let mut j: usize = 0;
        while j < vs.len()
            invariant
                k < m@.len(),
                *vs == m@[k as int].1,
                j <= vs@.len(),
                out@ == values_text(base, m@[k as int].0@, multimap_view(m@)[k as int].1.take(j as int)),
            decreases vs@.len() - j,
        {
            assert(multimap_view(m@)[k as int].1.take(j + 1).drop_last() =~= multimap_view(m@)[k as int].1.take(j as int));
            if out.as_str().unicode_len() > 0 {
                push_char(&mut out, '&');
            }
            form_encode_into(&mut out, &m[k].0);
            push_char(&mut out, '=');
            form_encode_into(&mut out, &vs[j]);
            j = j + 1;
        }
        assert(multimap_view(m@)[k as int].1.take(j as int) =~= multimap_view(m@)[k as int].1);
        assert(multimap_view(m@).take(k + 1).drop_last() =~= multimap_view(m@).take(k as int));
        k = k + 1;
    }
    assert(multimap_view(m@).take(k as int) =~= multimap_view(m@));
    Ok(out)
}

} // verus!
