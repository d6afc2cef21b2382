//! Laws the profile store keeps, stated over the spec-level state transitions
//! and readings that the operations' contracts use (`set_effect`,
//! `select_keys`, `overlay_view`), and proved once for all inputs.

use crate::store::apply_entries;
use crate::store::overlay_view;
use crate::store::select_keys;
use crate::store::set_effect;
use crate::store::stored_or_empty;
use crate::store::ProfileData;
use vstd::prelude::*;

verus! {

/// Set-then-show: after a global set of one entry `(k, v)` with non-empty
/// `v`, a show of `[k]` on the same id returns exactly `{k: v}`.
pub proof fn lemma_set_then_show(m: Map<u64, ProfileData>, id: u64, k: Seq<char>, v: Seq<char>)
    requires
        v.len() > 0,
    ensures
        set_effect(m, id, seq![(k, v)]).contains_key(id),
        select_keys(set_effect(m, id, seq![(k, v)])[id].bucket, seq![k]) == map![k => v],
{
    let es = seq![(k, v)];
    let b = stored_or_empty(m, id).bucket;
    assert(es.drop_last() =~= Seq::<(Seq<char>, Seq<char>)>::empty());
    assert(apply_entries(b, Seq::<(Seq<char>, Seq<char>)>::empty()) == b);
    assert(es.last() == (k, v));
    assert(apply_entries(b, es) == b.insert(k, v));
    assert(seq![k][0] == k);
    assert(seq![k].contains(k));
    assert forall|x: Seq<char>| #[trigger] seq![k].contains(x) implies x == k by {
        let j = choose|j: int| 0 <= j < seq![k].len() && seq![k][j] == x;
    }
    assert(select_keys(b.insert(k, v), seq![k]) =~= map![k => v]);
}

/// Empty-value deletes: after a prior non-empty set of `k`, a set of `k` with
/// the empty value removes the key, and a show of `[k]` returns a map without
/// it.
pub proof fn lemma_empty_value_deletes(
    m: Map<u64, ProfileData>,
    id: u64,
    k: Seq<char>,
    v: Seq<char>,
)
    requires
        v.len() > 0,
    ensures
        !set_effect(set_effect(m, id, seq![(k, v)]), id, seq![(k, Seq::empty())])[id]
            .bucket.contains_key(k),
        select_keys(
            set_effect(set_effect(m, id, seq![(k, v)]), id, seq![(k, Seq::empty())])[id].bucket,
            seq![k],
        ) == Map::<Seq<char>, Seq<char>>::empty(),
{
    let m1 = set_effect(m, id, seq![(k, v)]);
    let es = seq![(k, Seq::<char>::empty())];
    let b1 = stored_or_empty(m1, id).bucket;
    assert(es.drop_last() =~= Seq::<(Seq<char>, Seq<char>)>::empty());
    assert(apply_entries(b1, Seq::<(Seq<char>, Seq<char>)>::empty()) == b1);
    assert(es.last() == (k, Seq::<char>::empty()));
    assert(apply_entries(b1, es) == b1.remove(k));
    assert(select_keys(set_effect(m1, id, es)[id].bucket, seq![k])
        =~= Map::<Seq<char>, Seq<char>>::empty());
}

/// Lazy creation: a global set on a previously unseen id creates the profile;
/// its bucket is exactly one set/unset pass over an empty bucket (so it holds
/// the non-deleted entries) and its overlay table is empty. A subsequent show
/// therefore reflects the entries, and a remove of that id succeeds.
pub proof fn lemma_lazy_creation(m: Map<u64, ProfileData>, id: u64, es: Seq<(Seq<char>, Seq<char>)>)
    requires
        !m.contains_key(id),
    ensures
        set_effect(m, id, es).contains_key(id),
        set_effect(m, id, es)[id].bucket == apply_entries(Map::empty(), es),
        set_effect(m, id, es)[id].services == Map::<Seq<char>, Map<Seq<char>, Seq<char>>>::empty(),
{
}

/// Overlay precedence: for a requested key, a value in the service overlay
/// strictly wins; a key absent there falls back to the global bucket.
pub proof fn lemma_overlay_precedence(
    svc: Map<Seq<char>, Seq<char>>,
    glob: Map<Seq<char>, Seq<char>>,
    ks: Seq<Seq<char>>,
    k: Seq<char>,
)
    requires
        ks.contains(k),
    ensures
        svc.contains_key(k) ==> overlay_view(svc, glob, ks).contains_key(k) && overlay_view(
            svc,
            glob,
            ks,
        )[k] == svc[k],
        !svc.contains_key(k) && glob.contains_key(k) ==> overlay_view(svc, glob, ks).contains_key(
            k,
        ) && overlay_view(svc, glob, ks)[k] == glob[k],
{
}

/// Overlay omission: a requested key present in neither the service overlay
/// nor the global bucket is omitted from the result (no error), for the
/// global reading and the overlay reading alike.
pub proof fn lemma_overlay_omission(
    svc: Map<Seq<char>, Seq<char>>,
    glob: Map<Seq<char>, Seq<char>>,
    ks: Seq<Seq<char>>,
    k: Seq<char>,
)
    requires
        !svc.contains_key(k),
        !glob.contains_key(k),
    ensures
        !overlay_view(svc, glob, ks).contains_key(k),
        !select_keys(glob, ks).contains_key(k),
{
}

/// The last value written to `k` by one entry pass, if any (the empty value
/// counts as a write: it deletes).
pub open spec fn last_write(es: Seq<(Seq<char>, Seq<char>)>, k: Seq<char>) -> Option<Seq<char>>
    decreases es.len(),
{
    if es.len() == 0 {
        None
    } else if es.last().0 == k {
        Some(es.last().1)
    } else {
        last_write(es.drop_last(), k)
    }
}

/// An entry pass leaves each key holding its last written value: deleted when
/// that value is empty, untouched when the pass never writes the key.
pub proof fn lemma_apply_entries_last_write(
    m: Map<Seq<char>, Seq<char>>,
    es: Seq<(Seq<char>, Seq<char>)>,
    k: Seq<char>,
)
    ensures
        apply_entries(m, es).contains_key(k) <==> (match last_write(es, k) {
            Some(v) => v.len() > 0,
            None => m.contains_key(k),
        }),
        apply_entries(m, es).contains_key(k) ==> apply_entries(m, es)[k] == (match last_write(
            es,
            k,
        ) {
            Some(v) => v,
            None => m[k],
        }),
    decreases es.len(),
{
    if es.len() == 0 {
    } else {
        lemma_apply_entries_last_write(m, es.drop_last(), k);
    }
}

/// A stored attribute table never holds a key whose value is empty: an entry
/// pass either stores a non-empty value or deletes the key, so emptiness of a
/// value can never be observed, only absence of its key.
pub proof fn lemma_no_empty_values(
    m: Map<Seq<char>, Seq<char>>,
    es: Seq<(Seq<char>, Seq<char>)>,
    k: Seq<char>,
)
    requires
        forall|x: Seq<char>| #[trigger] m.contains_key(x) ==> m[x].len() > 0,
        apply_entries(m, es).contains_key(k),
    ensures
        apply_entries(m, es)[k].len() > 0,
{
    lemma_apply_entries_last_write(m, es, k);
}

/// Idempotence: repeating the same global set yields the same final state as
/// performing it once.
pub proof fn lemma_set_idempotent(m: Map<u64, ProfileData>, id: u64, es: Seq<(Seq<char>, Seq<char>)>)
    ensures
        set_effect(set_effect(m, id, es), id, es) == set_effect(m, id, es),
{
    let m1 = set_effect(m, id, es);
    let b0 = stored_or_empty(m, id).bucket;
    let b1 = apply_entries(b0, es);
    let b2 = apply_entries(b1, es);
    assert forall|k: Seq<char>| #[trigger] b2.contains_key(k) implies b1.contains_key(k) && b2[k]
        == b1[k] by {
        lemma_apply_entries_last_write(b0, es, k);
        lemma_apply_entries_last_write(b1, es, k);
    }
    assert forall|k: Seq<char>| #[trigger] b1.contains_key(k) implies b2.contains_key(k) by {
        lemma_apply_entries_last_write(b0, es, k);
        lemma_apply_entries_last_write(b1, es, k);
    }
    assert(b2 =~= b1);
    assert(stored_or_empty(m1, id) == m1[id]);
    assert(set_effect(m1, id, es) =~~= set_effect(m, id, es));
}

} // verus!
