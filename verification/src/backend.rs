//! Instructions for the persistence backend, computed as plain values. The
//! transport adapter turns them one-for-one into its wire format and sends
//! them; what they mean for the store's state is what `store` proves.

use crate::codec::decodable;
use crate::codec::decode;
use crate::codec::decoded;
use crate::codec::encode;
use crate::codec::encoded;
use crate::errors::StoreError;
use vstd::prelude::*;

verus! {

/// The set instructions of one entry pass under a field-path prefix: the
/// entries with non-empty values, in order, each key encoded and prefixed.
pub open spec fn set_instructions(
    prefix: Seq<char>,
    es: Seq<(Seq<char>, Seq<char>)>,
) -> Seq<(Seq<char>, Seq<char>)>
    decreases es.len(),
{
    if es.len() == 0 {
        Seq::empty()
    } else {
        let rest = set_instructions(prefix, es.drop_last());
        let e = es.last();
        if e.1.len() > 0 {
            rest.push((prefix + encoded(e.0), e.1))
        } else {
            rest
        }
    }
}

/// The unset instructions: the field paths of the entries with empty values.
pub open spec fn unset_instructions(
    prefix: Seq<char>,
    es: Seq<(Seq<char>, Seq<char>)>,
) -> Seq<Seq<char>>
    decreases es.len(),
{
    if es.len() == 0 {
        Seq::empty()
    } else {
        let rest = unset_instructions(prefix, es.drop_last());
        let e = es.last();
        if e.1.len() == 0 {
            rest.push(prefix + encoded(e.0))
        } else {
            rest
        }
    }
}

/// Partitions one entry pass into the combined update the backend applies as
/// a single operation: set instructions for the non-empty values and unset
/// instructions for the empty ones, keys encoded under the given field-path
/// prefix (`bucket.` for the global bucket, `services.<name>.` for one
/// overlay).
pub fn plan_update(prefix: &str, entries: &Vec<(String, String)>) -> (r: (
    Vec<(String, String)>,
    Vec<String>,
))
    ensures
        r.0.deep_view() == set_instructions(prefix@, entries.deep_view()),
        r.1.deep_view() == unset_instructions(prefix@, entries.deep_view()),
{
    let ghost dv = entries.deep_view();
    let mut sets: Vec<(String, String)> = Vec::new();
    let mut unsets: Vec<String> = Vec::new();
    let n = entries.len();
    let mut i: usize = 0;
    proof {
        assert(dv.take(0) =~= Seq::<(Seq<char>, Seq<char>)>::empty());
        assert(sets.deep_view() =~= Seq::<(Seq<char>, Seq<char>)>::empty());
        assert(unsets.deep_view() =~= Seq::<Seq<char>>::empty());
    }
    while i < n
        invariant
            n == entries@.len(),
            dv == entries.deep_view(),
            dv.len() == n,
            i <= n,
            sets.deep_view() == set_instructions(prefix@, dv.take(i as int)),
            unsets.deep_view() == unset_instructions(prefix@, dv.take(i as int)),
        decreases n - i,
    {
        let k = &entries[i].0;
        let v = &entries[i].1;
        let mut path = prefix.to_owned();
        let enc = encode(k.as_str());
        path.append(enc.as_str());
        let ghost prev_sets = sets.deep_view();
        let ghost prev_unsets = unsets.deep_view();
        proof {
            assert(dv[i as int] == (k@, v@));
            assert(dv.take(i as int + 1).drop_last() =~= dv.take(i as int));
            assert(dv.take(i as int + 1).last() == dv[i as int]);
        }
        if v.as_str().is_empty() {
            unsets.push(path);
            proof {
                assert(unsets.deep_view() =~= prev_unsets.push(prefix@ + encoded(k@)));
            }
        } else {
            sets.push((path, v.clone()));
            proof {
                assert(sets.deep_view() =~= prev_sets.push((prefix@ + encoded(k@), v@)));
            }
        }
        i = i + 1;
    }
    proof {
        assert(dv.take(n as int) =~= dv);
    }
    (sets, unsets)
}

/// Decodes the keys of an attribute document read back from the backend. A
/// key outside this codec's image is foreign or corrupted data: the read
/// fails as a `Validation` error.
pub fn decode_entries(pairs: &Vec<(String, String)>) -> (r: Result<
    Vec<(String, String)>,
    StoreError,
>)
    ensures
        r is Ok <==> (forall|i: int| 0 <= i < pairs@.len() ==> decodable(#[trigger] pairs@[i].0@)),
        r matches Ok(out) ==> out@.len() == pairs@.len() && forall|i: int|
            0 <= i < pairs@.len() ==> (#[trigger] out@[i].0@) == decoded(pairs@[i].0@)
                && out@[i].1 == pairs@[i].1,
        r matches Err(e) ==> e == StoreError::Validation,
{
    let mut out: Vec<(String, String)> = Vec::new();
    let n = pairs.len();
    let mut i: usize = 0;
    while i < n
        invariant
            n == pairs@.len(),
            i <= n,
            out@.len() == i,
            forall|j: int| 0 <= j < i ==> decodable(#[trigger] pairs@[j].0@),
            forall|j: int| 0 <= j < i ==> (#[trigger] out@[j].0@) == decoded(pairs@[j].0@)
                && out@[j].1 == pairs@[j].1,
        decreases n - i,
    {
        let dk = match decode(pairs[i].0.as_str()) {
            Ok(d) => d,
            Err(e) => {
                return Err(e);
            },
        };
        out.push((dk, pairs[i].1.clone()));
        i = i + 1;
    }
    Ok(out)
}

} // verus!
