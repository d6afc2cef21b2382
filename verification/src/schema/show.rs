use crate::errors::StoreError;
use crate::router::InternalRouter;
use crate::store::select_keys;
use crate::store::Profile;
use crate::store::ProfileStore;
use crate::strmap::StrMap;
use vstd::prelude::*;

verus! {

pub struct ShowReq {
    pub id: u64,
    pub entries: Vec<String>,
}

pub enum ShowRes {
    Show { values: StrMap<String> },
    Error { reason: String },
}

impl ShowRes {
    pub fn success(values: StrMap<String>) -> (r: Self)
        ensures
            r == (ShowRes::Show { values }),
    {
        Self::Show { values }
    }

    pub fn failure(e: StoreError) -> (r: Self)
        ensures
            r matches ShowRes::Error { reason } && reason@ == e.reason_view(),
    {
        Self::Error { reason: e.reason() }
    }

    /// The HTTP status class the transport maps this outcome to.
    pub fn status(&self) -> (r: u16)
        ensures
            self is Show ==> r == 200,
            self is Error ==> r == 500,
    {
        match self {
            ShowRes::Show { .. } => 200,
            ShowRes::Error { .. } => 500,
        }
    }
}

impl InternalRouter {
    /// Global show: the requested keys present in the profile's bucket, or
    /// the failure reason.
    pub fn show(store: &ProfileStore, payload: ShowReq) -> (r: ShowRes)
        requires
            store.wf(),
        ensures
            r is Show <==> store.model().contains_key(payload.id),
            r matches ShowRes::Show { values } ==> values.wf() && values@ == select_keys(
                store.model()[payload.id].bucket,
                payload.entries.deep_view(),
            ),
            r matches ShowRes::Error { reason } ==> reason@ == (
            StoreError::NotFound).reason_view(),
    {
        match Profile::show(store, payload.id, &payload.entries) {
            Ok(values) => ShowRes::success(values),
            Err(e) => ShowRes::failure(e),
        }
    }
}

} // verus!
