//! The profile store core: the profile data model and its mutation, query and
//! overlay-resolution logic.
//!
//! The store is modelled as the collection of profile documents that the
//! persistence backend holds, keyed by profile id. Attribute keys are stored
//! in codec-encoded form, exactly as the persisted layout keeps them; the
//! abstract content (`ProfileData`) reads them back through the codec, so the
//! contracts speak in caller-level keys throughout.

use crate::codec::decode;
use crate::codec::encode;
use crate::codec::encoded;
use crate::codec::lemma_decode_encode;
use crate::codec::lemma_encode_injective;
use crate::directory::gate_service;
use crate::directory::ExistsRes;
use crate::errors::StoreError;
use crate::strmap::StrMap;
use std::collections::HashMap;
use vstd::pervasive::unreached;
use vstd::prelude::*;

verus! {

broadcast use vstd::std_specs::hash::group_hash_axioms;

/// One profile document: the global attribute bucket and the per-service
/// overlays. Attribute keys are held codec-encoded; service names are raw.
pub struct Profile {
    pub(crate) id: u64,
    pub(crate) bucket: StrMap<String>,
    pub(crate) services: StrMap<StrMap<String>>,
}

/// The abstract content of one profile, keyed by decoded attribute keys.
#[verifier::ext_equal]
pub ghost struct ProfileData {
    pub bucket: Map<Seq<char>, Seq<char>>,
    pub services: Map<Seq<char>, Map<Seq<char>, Seq<char>>>,
}

/// The decoded-key reading of an attribute table that stores encoded keys.
pub open spec fn decoded_keys(m: Map<Seq<char>, Seq<char>>) -> Map<Seq<char>, Seq<char>> {
    Map::new(|k: Seq<char>| m.contains_key(encoded(k)), |k: Seq<char>| m[encoded(k)])
}

/// One set/unset pass over an attribute table, in entry order: a non-empty
/// value sets the key, an empty value unsets it.
pub open spec fn apply_entries(
    m: Map<Seq<char>, Seq<char>>,
    es: Seq<(Seq<char>, Seq<char>)>,
) -> Map<Seq<char>, Seq<char>>
    decreases es.len(),
{
    if es.len() == 0 {
        m
    } else {
        let rest = apply_entries(m, es.drop_last());
        let e = es.last();
        if e.1.len() == 0 {
            rest.remove(e.0)
        } else {
            rest.insert(e.0, e.1)
        }
    }
}

/// The requested keys that are present, with their values.
pub open spec fn select_keys(
    m: Map<Seq<char>, Seq<char>>,
    ks: Seq<Seq<char>>,
) -> Map<Seq<char>, Seq<char>> {
    Map::new(|k: Seq<char>| ks.contains(k) && m.contains_key(k), |k: Seq<char>| m[k])
}

/// The merged overlay reading of the requested keys: the service value wins
/// per key, keys absent from the overlay fall back to the global bucket, and
/// keys absent from both are omitted.
pub open spec fn overlay_view(
    svc: Map<Seq<char>, Seq<char>>,
    glob: Map<Seq<char>, Seq<char>>,
    ks: Seq<Seq<char>>,
) -> Map<Seq<char>, Seq<char>> {
    Map::new(
        |k: Seq<char>| ks.contains(k) && (svc.contains_key(k) || glob.contains_key(k)),
        |k: Seq<char>|
            if svc.contains_key(k) {
                svc[k]
            } else {
                glob[k]
            },
    )
}

/// A profile with nothing stored yet.
pub open spec fn empty_profile_data() -> ProfileData {
    ProfileData { bucket: Map::empty(), services: Map::empty() }
}

pub open spec fn stored_or_empty(m: Map<u64, ProfileData>, id: u64) -> ProfileData {
    if m.contains_key(id) {
        m[id]
    } else {
        empty_profile_data()
    }
}

/// What a global set does to the store: the profile is created lazily when
/// absent, and its bucket takes one set/unset pass; overlays are untouched.
pub open spec fn set_effect(
    m: Map<u64, ProfileData>,
    id: u64,
    es: Seq<(Seq<char>, Seq<char>)>,
) -> Map<u64, ProfileData> {
    let prior = stored_or_empty(m, id);
    m.insert(
        id,
        ProfileData { bucket: apply_entries(prior.bucket, es), services: prior.services },
    )
}

/// The overlay attributes a profile holds for one service (empty when the
/// service sub-map is absent).
pub open spec fn service_attrs(pd: ProfileData, name: Seq<char>) -> Map<Seq<char>, Seq<char>> {
    if pd.services.contains_key(name) {
        pd.services[name]
    } else {
        Map::empty()
    }
}

/// What a service-scoped set does to the store (the profile must exist: a
/// service-scoped set never creates one): the named overlay takes one
/// set/unset pass; the bucket and the other overlays are untouched.
pub open spec fn set_service_effect(
    m: Map<u64, ProfileData>,
    id: u64,
    name: Seq<char>,
    es: Seq<(Seq<char>, Seq<char>)>,
) -> Map<u64, ProfileData> {
    let prior = m[id];
    m.insert(
        id,
        ProfileData {
            bucket: prior.bucket,
            services: prior.services.insert(name, apply_entries(service_attrs(prior, name), es)),
        },
    )
}

impl Profile {
    /// All attribute tables are well-formed association maps.
    pub closed spec fn wf(&self) -> bool {
        &&& self.bucket.wf()
        &&& self.services.wf()
        &&& forall|n: Seq<char>, sub: StrMap<String>|
            #[trigger] self.services.has_entry(n, sub) ==> sub.wf()
    }

    /// The abstract content of this profile.
    pub closed spec fn model(&self) -> ProfileData {
        ProfileData {
            bucket: decoded_keys(self.bucket@),
            services: Map::new(
                |n: Seq<char>| self.services@.contains_key(n),
                |n: Seq<char>| decoded_keys(self.services@[n]),
            ),
        }
    }
}

/// The profile store: the documents the persistence backend holds, by id.
pub struct ProfileStore {
    profiles: HashMap<u64, Profile>,
}

impl ProfileStore {
    pub closed spec fn wf(&self) -> bool {
        forall|id: u64| #[trigger]
            self.profiles@.contains_key(id) ==> self.profiles@[id].wf() && self.profiles@[id].id
                == id
    }

    /// The abstract state: each stored profile's content, by id.
    pub closed spec fn model(&self) -> Map<u64, ProfileData> {
        Map::new(
            |id: u64| self.profiles@.contains_key(id),
            |id: u64| self.profiles@[id].model(),
        )
    }

    pub fn new() -> (r: Self)
        ensures
            r.wf(),
            r.model() == Map::<u64, ProfileData>::empty(),
    {
        let r = ProfileStore { profiles: HashMap::new() };
        proof {
            assert(r.model() =~= Map::<u64, ProfileData>::empty());
        }
        r
    }
}

proof fn lemma_contains_push<A>(s: Seq<A>, e: A, x: A)
    ensures
        s.push(e).contains(x) <==> (s.contains(x) || x == e),
{
    if s.contains(x) {
        let j = choose|j: int| 0 <= j < s.len() && s[j] == x;
        assert(s.push(e)[j] == x);
    }
    assert(s.push(e)[s.len() as int] == e);
    if s.push(e).contains(x) && x != e {
        let j = choose|j: int| 0 <= j < s.push(e).len() && s.push(e)[j] == x;
        assert(s[j] == x);
    }
}

proof fn lemma_decoded_keys_insert(m: Map<Seq<char>, Seq<char>>, k: Seq<char>, v: Seq<char>)
    ensures
        decoded_keys(m.insert(encoded(k), v)) == decoded_keys(m).insert(k, v),
{
    let lhs = decoded_keys(m.insert(encoded(k), v));
    let rhs = decoded_keys(m).insert(k, v);
    assert forall|x: Seq<char>| #[trigger] lhs.contains_key(x) implies rhs.contains_key(x)
        && lhs[x] == rhs[x] by {
        if encoded(x) == encoded(k) {
            lemma_encode_injective(x, k);
        }
    }
    assert forall|x: Seq<char>| #[trigger] rhs.contains_key(x) implies lhs.contains_key(x) by {
        if encoded(x) == encoded(k) {
            lemma_encode_injective(x, k);
        }
    }
    assert(lhs =~= rhs);
}

proof fn lemma_decoded_keys_remove(m: Map<Seq<char>, Seq<char>>, k: Seq<char>)
    ensures
        decoded_keys(m.remove(encoded(k))) == decoded_keys(m).remove(k),
{
    let lhs = decoded_keys(m.remove(encoded(k)));
    let rhs = decoded_keys(m).remove(k);
    assert forall|x: Seq<char>| #[trigger] lhs.contains_key(x) implies rhs.contains_key(x)
        && lhs[x] == rhs[x] by {
        if encoded(x) == encoded(k) {
            lemma_encode_injective(x, k);
        }
    }
    assert forall|x: Seq<char>| #[trigger] rhs.contains_key(x) implies lhs.contains_key(x) by {
        if encoded(x) == encoded(k) {
            lemma_encode_injective(x, k);
        }
    }
    assert(lhs =~= rhs);
}

/// One set/unset pass over one attribute table, with keys encoded on the way
/// in: the partition of entries into set and unset instructions that a single
/// combined backend update applies.
fn apply_update(attrs: &mut StrMap<String>, entries: &Vec<(String, String)>)
    requires
        old(attrs).wf(),
    ensures
        final(attrs).wf(),
        decoded_keys(final(attrs)@) == apply_entries(
            decoded_keys(old(attrs)@),
            entries.deep_view(),
        ),
{
    let ghost m0 = decoded_keys(old(attrs)@);
    let ghost dv = entries.deep_view();
    let n = entries.len();
    let mut i: usize = 0;
    proof {
        assert(dv.take(0) =~= Seq::<(Seq<char>, Seq<char>)>::empty());
    }
    while i < n
        invariant
            n == entries@.len(),
            dv == entries.deep_view(),
            dv.len() == n,
            i <= n,
            attrs.wf(),
            decoded_keys(attrs@) == apply_entries(m0, dv.take(i as int)),
        decreases n - i,
    {
        let k = &entries[i].0;
        let v = &entries[i].1;
        let enc = encode(k.as_str());
        let ghost prev = attrs@;
        proof {
            assert(dv[i as int] == (k@, v@));
            assert(dv.take(i as int + 1).drop_last() =~= dv.take(i as int));
            assert(dv.take(i as int + 1).last() == dv[i as int]);
        }
        if v.as_str().is_empty() {
            let _ = attrs.remove(&enc);
            proof {
                lemma_decoded_keys_remove(prev, k@);
                if !prev.contains_key(encoded(k@)) {
                    assert(decoded_keys(prev).remove(k@) =~= decoded_keys(prev));
                }
            }
        } else {
            attrs.insert(enc, v.clone());
            proof {
                lemma_decoded_keys_insert(prev, k@, v@);
            }
        }
        i = i + 1;
    }
    proof {
        assert(dv.take(n as int) =~= dv);
    }
}

/// Reads the requested keys out of one attribute table: each requested key is
/// encoded for the lookup, and found keys are decoded on the way back out.
fn read_attrs(attrs: &StrMap<String>, keys: &Vec<String>) -> (r: StrMap<String>)
    requires
        attrs.wf(),
    ensures
        r.wf(),
        r@ == select_keys(decoded_keys(attrs@), keys.deep_view()),
{
    let ghost dv = keys.deep_view();
    let ghost sel = decoded_keys(attrs@);
    let mut out = StrMap::<String>::new();
    let n = keys.len();
    let mut i: usize = 0;
    proof {
        assert(out@ =~= select_keys(sel, dv.take(0)));
    }
    while i < n
        invariant
            n == keys@.len(),
            dv == keys.deep_view(),
            sel == decoded_keys(attrs@),
            dv.len() == n,
            i <= n,
            attrs.wf(),
            out.wf(),
            out@ == select_keys(sel, dv.take(i as int)),
        decreases n - i,
    {
        let kref = &keys[i];
        let enc = encode(kref.as_str());
        proof {
            lemma_decode_encode(kref@);
            assert(dv[i as int] == kref@);
        }
        match attrs.get(&enc) {
            Some(v) => {
                let dk = match decode(enc.as_str()) {
                    Ok(d) => d,
                    Err(_) => unreached(),
                };
                out.insert(dk, v.clone());
            },
            None => {},
        }
        proof {
            let t0 = dv.take(i as int);
            let t1 = dv.take(i as int + 1);
            assert(t1 =~= t0.push(dv[i as int]));
            assert forall|x: Seq<char>| #[trigger] out@.contains_key(x) implies select_keys(
                sel,
                t1,
            ).contains_key(x) && out@[x] == select_keys(sel, t1)[x] by {
                lemma_contains_push(t0, dv[i as int], x);
            }
            assert forall|x: Seq<char>| #[trigger] select_keys(sel, t1).contains_key(
                x,
            ) implies out@.contains_key(x) by {
                lemma_contains_push(t0, dv[i as int], x);
            }
            assert(out@ =~= select_keys(sel, t1));
        }
        i = i + 1;
    }
    proof {
        assert(dv.take(n as int) =~= dv);
    }
    out
}

/// The requested keys that a partial result left open: those not present in
/// it. Order and duplicates are immaterial to the callers; membership is what
/// the contract pins down.
pub fn remaining_keys(keys: &Vec<String>, got: &StrMap<String>) -> (r: Vec<String>)
    requires
        got.wf(),
    ensures
        forall|x: Seq<char>| #[trigger] r.deep_view().contains(x) <==> (keys.deep_view().contains(
            x,
        ) && !got@.contains_key(x)),
{
    let ghost dv = keys.deep_view();
    let mut r: Vec<String> = Vec::new();
    let n = keys.len();
    let mut i: usize = 0;
    proof {
        assert(dv.take(0) =~= Seq::<Seq<char>>::empty());
        assert(r.deep_view() =~= Seq::<Seq<char>>::empty());
    }
    while i < n
        invariant
            n == keys@.len(),
            dv == keys.deep_view(),
            dv.len() == n,
            i <= n,
            got.wf(),
            forall|x: Seq<char>| #[trigger] r.deep_view().contains(x) <==> (dv.take(
                i as int,
            ).contains(x) && !got@.contains_key(x)),
        decreases n - i,
    {
        let kref = &keys[i];
        proof {
            assert(dv[i as int] == kref@);
        }
        let ghost prev = r.deep_view();
        if !got.contains_key(kref) {
            r.push(kref.clone());
            proof {
                assert(r.deep_view() =~= prev.push(kref@));
            }
        }
        proof {
            let t0 = dv.take(i as int);
            let t1 = dv.take(i as int + 1);
            assert(t1 =~= t0.push(dv[i as int]));
            assert forall|x: Seq<char>|
                #![trigger r.deep_view().contains(x)]
                r.deep_view().contains(x) == (t1.contains(x) && !got@.contains_key(x)) by {
                lemma_contains_push(t0, dv[i as int], x);
                lemma_contains_push(prev, kref@, x);
            }
        }
        i = i + 1;
    }
    proof {
        assert(dv.take(n as int) =~= dv);
    }
    r
}

impl Profile {
    /// Global query: the requested keys that are present in the profile's
    /// bucket, decoded; `NotFound` when the profile document is absent.
    pub fn show(store: &ProfileStore, id: u64, entries: &Vec<String>) -> (r: Result<
        StrMap<String>,
        StoreError,
    >)
        requires
            store.wf(),
        ensures
            r is Ok <==> store.model().contains_key(id),
            r matches Ok(values) ==> values.wf() && values@ == select_keys(
                store.model()[id].bucket,
                entries.deep_view(),
            ),
            r matches Err(e) ==> e == StoreError::NotFound,
    {
        match store.profiles.get(&id) {
            Some(p) => Ok(read_attrs(&p.bucket, entries)),
            None => Err(StoreError::NotFound),
        }
    }

    /// Global mutation: one combined set/unset pass over the profile's
    /// bucket. A profile is created lazily when the id was unseen, with the
    /// non-deleted entries as its initial bucket and no overlays.
    ///
    /// Operations here apply one at a time, so the backend race between two
    /// concurrent first sets of one id (both observing "no match" and both
    /// creating) is outside this model; an adapter that wants it closed must
    /// make the create-on-no-match step atomic on its backend.
    pub fn set(store: &mut ProfileStore, id: u64, entries: &Vec<(String, String)>) -> (r: Result<
        (),
        StoreError,
    >)
        requires
            old(store).wf(),
        ensures
            final(store).wf(),
            r is Ok,
            final(store).model() == set_effect(old(store).model(), id, entries.deep_view()),
    {
        let ghost m0 = old(store).model();
        let ghost dv = entries.deep_view();
        match store.profiles.remove(&id) {
            Some(mut p) => {
                let ghost p0 = p;
                apply_update(&mut p.bucket, entries);
                proof {
                    assert(p.model().services =~= p0.model().services);
                    assert forall|n2: Seq<char>, sub: StrMap<String>| #[trigger]
                        p.services.has_entry(n2, sub) implies sub.wf() by {
                        assert(p0.services.has_entry(n2, sub));
                    }
                    assert(p.model() =~= (ProfileData {
                        bucket: apply_entries(stored_or_empty(m0, id).bucket, dv),
                        services: stored_or_empty(m0, id).services,
                    }));
                }
                store.profiles.insert(id, p);
                proof {
                    assert(store.model() =~= set_effect(m0, id, dv));
                    assert forall|id2: u64| #[trigger]
                        store.profiles@.contains_key(id2) implies store.profiles@[id2].wf()
                        && store.profiles@[id2].id == id2 by {
                        if id2 != id {
                            assert(store.profiles@[id2] == old(store).profiles@[id2]);
                        }
                    }
                }
                Ok(())
            },
            None => {
                let mut p = Profile { id, bucket: StrMap::new(), services: StrMap::new() };
                apply_update(&mut p.bucket, entries);
                proof {
                    assert(decoded_keys(Map::<Seq<char>, Seq<char>>::empty())
                        =~= Map::<Seq<char>, Seq<char>>::empty());
                    assert(p.model().services =~= Map::<Seq<char>, Map<Seq<char>, Seq<char>>>::empty());
                    assert(p.model() =~= (ProfileData {
                        bucket: apply_entries(stored_or_empty(m0, id).bucket, dv),
                        services: stored_or_empty(m0, id).services,
                    }));
                }
                store.profiles.insert(id, p);
                proof {
                    assert(store.model() =~= set_effect(m0, id, dv));
                    assert forall|id2: u64| #[trigger]
                        store.profiles@.contains_key(id2) implies store.profiles@[id2].wf()
                        && store.profiles@[id2].id == id2 by {
                        if id2 != id {
                            assert(store.profiles@[id2] == old(store).profiles@[id2]);
                        }
                    }
                }
                Ok(())
            },
        }
    }

    /// Service-scoped query, gated on the directory's answer: the requested
    /// keys that are present under that service's overlay.
    pub fn show_service(
        store: &ProfileStore,
        id: u64,
        service: &String,
        entries: &Vec<String>,
        directory: &ExistsRes,
    ) -> (r: Result<StrMap<String>, StoreError>)
        requires
            store.wf(),
        ensures
            r is Ok <==> ((directory matches ExistsRes::Exists { value: true })
                && store.model().contains_key(id)),
            r matches Ok(values) ==> values.wf() && values@ == select_keys(
                service_attrs(store.model()[id], service@),
                entries.deep_view(),
            ),
            (directory matches ExistsRes::Exists { value: false }) ==> (r matches Err(e) && e
                == StoreError::ServiceNotFound),
            directory matches ExistsRes::Error { reason } ==> r matches Err(e) && e
                == (StoreError::Internal { reason: *reason }),
            ((directory matches ExistsRes::Exists { value: true }) && !store.model().contains_key(
                id,
            )) ==> (r matches Err(e) && e == StoreError::NotFound),
    {
        match gate_service(directory) {
            Ok(()) => {},
            Err(e) => {
                return Err(e);
            },
        }
        let p = match store.profiles.get(&id) {
            Some(p) => p,
            None => {
                return Err(StoreError::NotFound);
            },
        };
        match p.services.get(service) {
            Some(sub) => Ok(read_attrs(sub, entries)),
            None => {
                let out = StrMap::<String>::new();
                proof {
                    assert(out@ =~= select_keys(
                        service_attrs(store.model()[id], service@),
                        entries.deep_view(),
                    ));
                }
                Ok(out)
            },
        }
    }

    /// Merged overlay query, gated on the directory's answer: the service
    /// view is resolved for the full requested key set, the keys it leaves
    /// open are then resolved against the global bucket, and the two partial
    /// results are unioned — so a service value strictly wins per key.
    pub fn show_overlay(
        store: &ProfileStore,
        id: u64,
        service: &String,
        entries: &Vec<String>,
        directory: &ExistsRes,
    ) -> (r: Result<StrMap<String>, StoreError>)
        requires
            store.wf(),
        ensures
            r is Ok <==> ((directory matches ExistsRes::Exists { value: true })
                && store.model().contains_key(id)),
            r matches Ok(values) ==> values.wf() && values@ == overlay_view(
                service_attrs(store.model()[id], service@),
                store.model()[id].bucket,
                entries.deep_view(),
            ),
            (directory matches ExistsRes::Exists { value: false }) ==> (r matches Err(e) && e
                == StoreError::ServiceNotFound),
            directory matches ExistsRes::Error { reason } ==> r matches Err(e) && e
                == (StoreError::Internal { reason: *reason }),
            ((directory matches ExistsRes::Exists { value: true }) && !store.model().contains_key(
                id,
            )) ==> (r matches Err(e) && e == StoreError::NotFound),
    {
        let ghost dv = entries.deep_view();
        let ghost svcm = service_attrs(store.model()[id], service@);
        let ghost glob = store.model()[id].bucket;
        let svc_vals = match Self::show_service(store, id, service, entries, directory) {
            Ok(v) => v,
            Err(e) => {
                return Err(e);
            },
        };
        let remaining = remaining_keys(entries, &svc_vals);
        let ghost rdv = remaining.deep_view();
        let glob_vals = match Self::show(store, id, &remaining) {
            Ok(v) => v,
            Err(_) => unreached(),
        };
        let ghost svc_sel = svc_vals@;
        let ghost glob_sel = glob_vals@;
        let mut out = svc_vals;
        let n = remaining.len();
        let mut i: usize = 0;
        proof {
            assert(rdv.take(0) =~= Seq::<Seq<char>>::empty());
            assert(out@ =~= Map::new(
                |k: Seq<char>| svc_sel.contains_key(k) || (rdv.take(0).contains(k)
                    && glob_sel.contains_key(k)),
                |k: Seq<char>|
                    if svc_sel.contains_key(k) {
                        svc_sel[k]
                    } else {
                        glob_sel[k]
                    },
            ));
        }
        while i < n
            invariant
                n == remaining@.len(),
                rdv == remaining.deep_view(),
                rdv.len() == n,
                i <= n,
                out.wf(),
                glob_vals.wf(),
                glob_sel == glob_vals@,
                glob_sel == select_keys(glob, rdv),
                forall|x: Seq<char>| #[trigger] rdv.contains(x) <==> (dv.contains(x)
                    && !svc_sel.contains_key(x)),
                out@ == Map::new(
                    |k: Seq<char>| svc_sel.contains_key(k) || (rdv.take(i as int).contains(k)
                        && glob_sel.contains_key(k)),
                    |k: Seq<char>|
                        if svc_sel.contains_key(k) {
                            svc_sel[k]
                        } else {
                            glob_sel[k]
                        },
                ),
            decreases n - i,
        {
            let kref = &remaining[i];
            proof {
                assert(rdv[i as int] == kref@);
                assert(rdv.contains(kref@));
            }
            match glob_vals.get(kref) {
                Some(v) => {
                    out.insert(kref.clone(), v.clone());
                },
                None => {},
            }
            proof {
                let t0 = rdv.take(i as int);
                let t1 = rdv.take(i as int + 1);
                assert(t1 =~= t0.push(rdv[i as int]));
                assert forall|x: Seq<char>|
                    #![trigger t1.contains(x)]
                    t1.contains(x) <==> (t0.contains(x) || x == kref@) by {
                    lemma_contains_push(t0, rdv[i as int], x);
                }
                assert(out@ =~= Map::new(
                    |k: Seq<char>| svc_sel.contains_key(k) || (t1.contains(k)
                        && glob_sel.contains_key(k)),
                    |k: Seq<char>|
                        if svc_sel.contains_key(k) {
                            svc_sel[k]
                        } else {
                            glob_sel[k]
                        },
                ));
            }
            i = i + 1;
        }
        proof {
            assert(rdv.take(n as int) =~= rdv);
            assert(out@ =~= overlay_view(svcm, glob, dv));
        }
        Ok(out)
    }

    /// Service-scoped mutation, gated on the directory's answer: one combined
    /// set/unset pass over the named overlay. Unlike a global set, a
    /// service-scoped set on an absent profile is `NotFound`, never a
    /// creation.
    pub fn set_service(
        store: &mut ProfileStore,
        id: u64,
        service: &String,
        entries: &Vec<(String, String)>,
        directory: &ExistsRes,
    ) -> (r: Result<(), StoreError>)
        requires
            old(store).wf(),
        ensures
            final(store).wf(),
            r is Ok <==> ((directory matches ExistsRes::Exists { value: true }) && old(
                store,
            ).model().contains_key(id)),
            r is Ok ==> final(store).model() == set_service_effect(
                old(store).model(),
                id,
                service@,
                entries.deep_view(),
            ),
            r is Err ==> final(store).model() == old(store).model(),
            (directory matches ExistsRes::Exists { value: false }) ==> (r matches Err(e) && e
                == StoreError::ServiceNotFound),
            directory matches ExistsRes::Error { reason } ==> r matches Err(e) && e
                == (StoreError::Internal { reason: *reason }),
            ((directory matches ExistsRes::Exists { value: true }) && !old(
                store,
            ).model().contains_key(id)) ==> (r matches Err(e) && e == StoreError::NotFound),
    {
        let ghost m0 = old(store).model();
        let ghost dv = entries.deep_view();
        match gate_service(directory) {
            Ok(()) => {},
            Err(e) => {
                return Err(e);
            },
        }
        let mut p = match store.profiles.remove(&id) {
            Some(p) => p,
            None => {
                proof {
                    assert(store.model() =~= m0);
                }
                return Err(StoreError::NotFound);
            },
        };
        let ghost p0 = p;
        let mut sub = match p.services.remove(service) {
            Some(s) => s,
            None => StrMap::new(),
        };
        let ghost sub0 = sub;
        proof {
            if p0.services@.contains_key(service@) {
                assert(p0.services.has_entry(service@, sub0));
            } else {
                assert(decoded_keys(sub0@) =~= service_attrs(p0.model(), service@));
            }
            assert(decoded_keys(sub0@) == service_attrs(p0.model(), service@));
        }
        apply_update(&mut sub, entries);
        let ghost subv = sub@;
        let ghost subx = sub;
        p.services.insert(service.clone(), sub);
        proof {
            assert(decoded_keys(subv) == apply_entries(service_attrs(p0.model(), service@), dv));
            assert forall|n2: Seq<char>, s2: StrMap<String>| #[trigger]
                p.services.has_entry(n2, s2) implies s2.wf() by {
                if s2 == subx {
                    assert(subx.wf());
                } else {
                    assert(p0.services.has_entry(n2, s2));
                }
            }
            assert(p.model().services =~= p0.model().services.insert(
                service@,
                apply_entries(service_attrs(p0.model(), service@), dv),
            ));
            assert(p.model() =~= (ProfileData {
                bucket: m0[id].bucket,
                services: m0[id].services.insert(
                    service@,
                    apply_entries(service_attrs(m0[id], service@), dv),
                ),
            }));
        }
        store.profiles.insert(id, p);
        proof {
            assert(store.model() =~= set_service_effect(m0, id, service@, dv));
            assert forall|id2: u64| #[trigger] store.profiles@.contains_key(id2) implies store
                .profiles@[id2].wf() && store.profiles@[id2].id == id2 by {
                if id2 != id {
                    assert(store.profiles@[id2] == old(store).profiles@[id2]);
                }
            }
        }
        Ok(())
    }

    /// Destroys one service's overlay sub-map, gated on the directory's
    /// answer; the profile itself remains. `NotFound` when the profile is
    /// absent (the overlay sub-map itself need not be present).
    pub fn remove_service(
        store: &mut ProfileStore,
        id: u64,
        service: &String,
        directory: &ExistsRes,
    ) -> (r: Result<(), StoreError>)
        requires
            old(store).wf(),
        ensures
            final(store).wf(),
            r is Ok <==> ((directory matches ExistsRes::Exists { value: true }) && old(
                store,
            ).model().contains_key(id)),
            r is Ok ==> final(store).model() == old(store).model().insert(
                id,
                (ProfileData {
                    bucket: old(store).model()[id].bucket,
                    services: old(store).model()[id].services.remove(service@),
                }),
            ),
            r is Err ==> final(store).model() == old(store).model(),
            (directory matches ExistsRes::Exists { value: false }) ==> (r matches Err(e) && e
                == StoreError::ServiceNotFound),
            directory matches ExistsRes::Error { reason } ==> r matches Err(e) && e
                == (StoreError::Internal { reason: *reason }),
            ((directory matches ExistsRes::Exists { value: true }) && !old(
                store,
            ).model().contains_key(id)) ==> (r matches Err(e) && e == StoreError::NotFound),
    {
        let ghost m0 = old(store).model();
        match gate_service(directory) {
            Ok(()) => {},
            Err(e) => {
                return Err(e);
            },
        }
        let mut p = match store.profiles.remove(&id) {
            Some(p) => p,
            None => {
                proof {
                    assert(store.model() =~= m0);
                }
                return Err(StoreError::NotFound);
            },
        };
        let ghost p0 = p;
        let _ = p.services.remove(service);
        proof {
            assert forall|n2: Seq<char>, s2: StrMap<String>| #[trigger]
                p.services.has_entry(n2, s2) implies s2.wf() by {
                assert(p0.services.has_entry(n2, s2));
            }
            if !p0.services@.contains_key(service@) {
                assert(p0.services@.remove(service@) =~= p0.services@);
            }
            assert(p.model().services =~= p0.model().services.remove(service@));
            assert(p.model() =~= (ProfileData {
                bucket: m0[id].bucket,
                services: m0[id].services.remove(service@),
            }));
        }
        store.profiles.insert(id, p);
        proof {
            assert(store.model() =~= m0.insert(
                id,
                (ProfileData { bucket: m0[id].bucket, services: m0[id].services.remove(service@) }),
            ));
            assert forall|id2: u64| #[trigger] store.profiles@.contains_key(id2) implies store
                .profiles@[id2].wf() && store.profiles@[id2].id == id2 by {
                if id2 != id {
                    assert(store.profiles@[id2] == old(store).profiles@[id2]);
                }
            }
        }
        Ok(())
    }

    /// Destroys the whole profile; `NotFound` when no profile existed.
    pub fn remove(store: &mut ProfileStore, id: u64) -> (r: Result<(), StoreError>)
        requires
            old(store).wf(),
        ensures
            final(store).wf(),
            r is Ok <==> old(store).model().contains_key(id),
            r is Ok ==> final(store).model() == old(store).model().remove(id),
            r matches Err(e) ==> e == StoreError::NotFound && final(store).model() == old(
                store,
            ).model(),
    {
        match store.profiles.remove(&id) {
            Some(_) => {
                proof {
                    assert(store.model() =~= old(store).model().remove(id));
                }
                Ok(())
            },
            None => {
                proof {
                    assert(store.model() =~= old(store).model());
                }
                Err(StoreError::NotFound)
            },
        }
    }
}

} // verus!
