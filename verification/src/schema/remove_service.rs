use crate::directory::ExistsRes;
use crate::errors::StoreError;
use crate::router::InternalRouter;
use crate::store::Profile;
use crate::store::ProfileData;
use crate::store::ProfileStore;
use vstd::prelude::*;

verus! {

pub struct RemoveServiceReq {
    pub id: u64,
    pub service: String,
}

pub enum RemoveServiceRes {
    Removed,
    Error { reason: String },
}

impl RemoveServiceRes {
    pub fn success(_res: ()) -> (r: Self)
        ensures
            r is Removed,
    {
        Self::Removed
    }

    pub fn failure(e: StoreError) -> (r: Self)
        ensures
            r matches RemoveServiceRes::Error { reason } && reason@ == e.reason_view(),
    {
        Self::Error { reason: e.reason() }
    }

    /// The HTTP status class the transport maps this outcome to.
    pub fn status(&self) -> (r: u16)
        ensures
            self is Removed ==> r == 200,
            self is Error ==> r == 500,
    {
        match self {
            RemoveServiceRes::Removed => 200,
            RemoveServiceRes::Error { .. } => 500,
        }
    }
}

impl InternalRouter {
    /// Removes one service's overlay sub-map, gated on the directory's
    /// answer; the profile itself remains.
    pub fn remove_service(
        store: &mut ProfileStore,
        payload: RemoveServiceReq,
        directory: &ExistsRes,
    ) -> (r: RemoveServiceRes)
        requires
            old(store).wf(),
        ensures
            final(store).wf(),
            r is Removed <==> ((directory matches ExistsRes::Exists { value: true }) && old(
                store,
            ).model().contains_key(payload.id)),
            r is Removed ==> final(store).model() == old(store).model().insert(
                payload.id,
                (ProfileData {
                    bucket: old(store).model()[payload.id].bucket,
                    services: old(store).model()[payload.id].services.remove(payload.service@),
                }),
            ),
            r is Error ==> final(store).model() == old(store).model(),
            (directory matches ExistsRes::Exists { value: false }) ==> (r matches
                RemoveServiceRes::Error { reason } && reason@ == (
            StoreError::ServiceNotFound).reason_view()),
            directory matches ExistsRes::Error { reason } ==> (r matches RemoveServiceRes::Error {
                reason: out_reason,
            } && out_reason@ == reason@),
            ((directory matches ExistsRes::Exists { value: true }) && !old(
                store,
            ).model().contains_key(payload.id)) ==> (r matches RemoveServiceRes::Error { reason }
                && reason@ == (StoreError::NotFound).reason_view()),
    {
        match Profile::remove_service(store, payload.id, &payload.service, directory) {
            Ok(()) => RemoveServiceRes::success(()),
            Err(e) => RemoveServiceRes::failure(e),
        }
    }
}

} // verus!
