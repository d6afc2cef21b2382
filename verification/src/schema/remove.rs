use crate::errors::StoreError;
use crate::router::InternalRouter;
use crate::store::Profile;
use crate::store::ProfileStore;
use vstd::prelude::*;

verus! {

pub struct RemoveReq {
    pub id: u64,
}

pub enum RemoveRes {
    Removed,
    Error { reason: String },
}

impl RemoveRes {
    pub fn success(_res: ()) -> (r: Self)
        ensures
            r is Removed,
    {
        Self::Removed
    }

    pub fn failure(e: StoreError) -> (r: Self)
        ensures
            r matches RemoveRes::Error { reason } && reason@ == e.reason_view(),
    {
        Self::Error { reason: e.reason() }
    }

    /// The HTTP status class the transport maps this outcome to.
    pub fn status(&self) -> (r: u16)
        ensures
            self is Removed ==> r == 200,
            self is Error ==> r == 500,
    {
        match self {
            RemoveRes::Removed => 200,
            RemoveRes::Error { .. } => 500,
        }
    }
}

impl InternalRouter {
    /// Removes the whole profile; answers with the failure reason when no
    /// profile existed.
    pub fn remove(store: &mut ProfileStore, payload: RemoveReq) -> (r: RemoveRes)
        requires
            old(store).wf(),
        ensures
            final(store).wf(),
            r is Removed <==> old(store).model().contains_key(payload.id),
            r is Removed ==> final(store).model() == old(store).model().remove(payload.id),
            r matches RemoveRes::Error { reason } ==> final(store).model() == old(store).model()
                && reason@ == (StoreError::NotFound).reason_view(),
    {
        match Profile::remove(store, payload.id) {
            Ok(()) => RemoveRes::success(()),
            Err(e) => RemoveRes::failure(e),
        }
    }
}

} // verus!
