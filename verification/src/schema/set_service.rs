use crate::directory::ExistsRes;
use crate::errors::StoreError;
use crate::router::InternalRouter;
use crate::store::set_service_effect;
use crate::store::Profile;
use crate::store::ProfileStore;
use vstd::prelude::*;

verus! {

pub struct SetServiceEntry {
    pub key: String,
    pub value: String,
}

impl SetServiceEntry {
    pub fn into_tuple(self) -> (r: (String, String))
        ensures
            r == (self.key, self.value),
    {
        (self.key, self.value)
    }
}

/// The view of an entry list as key/value pairs.
pub open spec fn entries_view(es: Seq<SetServiceEntry>) -> Seq<(Seq<char>, Seq<char>)> {
    Seq::new(es.len(), |i: int| (es[i].key@, es[i].value@))
}

/// Turns an entry list into the pair list the store operations take.
pub fn entries_to_tuples(entries: Vec<SetServiceEntry>) -> (r: Vec<(String, String)>)
    ensures
        r.deep_view() == entries_view(entries@),
{
    let mut r: Vec<(String, String)> = Vec::new();
    let n = entries.len();
    let mut i: usize = 0;
    while i < n
        invariant
            n == entries@.len(),
            i <= n,
            r@.len() == i,
            forall|j: int| 0 <= j < i ==> #[trigger] r@[j] == (
                entries@[j].key,
                entries@[j].value,
            ),
        decreases n - i,
    {
        r.push((entries[i].key.clone(), entries[i].value.clone()));
        i = i + 1;
    }
    proof {
        assert(r.deep_view() =~= entries_view(entries@));
    }
    r
}

pub struct SetServiceReq {
    pub id: u64,
    pub service: String,
    pub entries: Vec<SetServiceEntry>,
}

pub enum SetServiceRes {
    Applied,
    Error { reason: String },
}

impl SetServiceRes {
    pub fn success(_res: ()) -> (r: Self)
        ensures
            r is Applied,
    {
        Self::Applied
    }

    pub fn failure(e: StoreError) -> (r: Self)
        ensures
            r matches SetServiceRes::Error { reason } && reason@ == e.reason_view(),
    {
        Self::Error { reason: e.reason() }
    }

    /// The HTTP status class the transport maps this outcome to.
    pub fn status(&self) -> (r: u16)
        ensures
            self is Applied ==> r == 200,
            self is Error ==> r == 500,
    {
        match self {
            SetServiceRes::Applied => 200,
            SetServiceRes::Error { .. } => 500,
        }
    }
}

impl InternalRouter {
    /// Service-scoped set, gated on the directory's answer.
    pub fn set_service(
        store: &mut ProfileStore,
        payload: SetServiceReq,
        directory: &ExistsRes,
    ) -> (r: SetServiceRes)
        requires
            old(store).wf(),
        ensures
            final(store).wf(),
            r is Applied <==> ((directory matches ExistsRes::Exists { value: true }) && old(
                store,
            ).model().contains_key(payload.id)),
            r is Applied ==> final(store).model() == set_service_effect(
                old(store).model(),
                payload.id,
                payload.service@,
                entries_view(payload.entries@),
            ),
            r is Error ==> final(store).model() == old(store).model(),
            (directory matches ExistsRes::Exists { value: false }) ==> (r matches
                SetServiceRes::Error { reason } && reason@ == (
            StoreError::ServiceNotFound).reason_view()),
            directory matches ExistsRes::Error { reason } ==> (r matches SetServiceRes::Error {
                reason: out_reason,
            } && out_reason@ == reason@),
            ((directory matches ExistsRes::Exists { value: true }) && !old(
                store,
            ).model().contains_key(payload.id)) ==> (r matches SetServiceRes::Error { reason }
                && reason@ == (StoreError::NotFound).reason_view()),
    {
        let tuples = entries_to_tuples(payload.entries);
        match Profile::set_service(store, payload.id, &payload.service, &tuples, directory) {
            Ok(()) => SetServiceRes::success(()),
            Err(e) => SetServiceRes::failure(e),
        }
    }
}

} // verus!
