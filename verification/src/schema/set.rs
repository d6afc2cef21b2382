use crate::errors::StoreError;
use crate::router::InternalRouter;
use crate::schema::set_service::entries_to_tuples;
use crate::schema::set_service::entries_view;
use crate::schema::set_service::SetServiceEntry;
use crate::store::set_effect;
use crate::store::Profile;
use crate::store::ProfileStore;
use vstd::prelude::*;

verus! {

pub struct SetReq {
    pub id: u64,
    pub entries: Vec<SetServiceEntry>,
}

pub enum SetRes {
    Applied,
    Error { reason: String },
}

impl SetRes {
    pub fn success(_res: ()) -> (r: Self)
        ensures
            r is Applied,
    {
        Self::Applied
    }

    pub fn failure(e: StoreError) -> (r: Self)
        ensures
            r matches SetRes::Error { reason } && reason@ == e.reason_view(),
    {
        Self::Error { reason: e.reason() }
    }

    /// The HTTP status class the transport maps this outcome to.
    pub fn status(&self) -> (r: u16)
        ensures
            self is Applied ==> r == 200,
            self is Error ==> r == 500,
    {
        match self {
            SetRes::Applied => 200,
            SetRes::Error { .. } => 500,
        }
    }
}

impl InternalRouter {
    /// Global set: one combined set/unset pass over the profile's bucket,
    /// creating the profile lazily when the id was unseen.
    pub fn set(store: &mut ProfileStore, payload: SetReq) -> (r: SetRes)
        requires
            old(store).wf(),
        ensures
            final(store).wf(),
            r is Applied,
            final(store).model() == set_effect(
                old(store).model(),
                payload.id,
                entries_view(payload.entries@),
            ),
    {
        let tuples = entries_to_tuples(payload.entries);
        match Profile::set(store, payload.id, &tuples) {
            Ok(()) => SetRes::success(()),
            Err(e) => SetRes::failure(e),
        }
    }
}

} // verus!
