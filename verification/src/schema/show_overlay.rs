use crate::directory::ExistsRes;
use crate::errors::StoreError;
use crate::router::InternalRouter;
use crate::store::overlay_view;
use crate::store::service_attrs;
use crate::store::Profile;
use crate::store::ProfileStore;
use crate::strmap::StrMap;
use vstd::prelude::*;

verus! {

pub struct ShowOverlayReq {
    pub id: u64,
    pub service: String,
    pub entries: Vec<String>,
}

pub enum ShowOverlayRes {
    Show { values: StrMap<String> },
    Error { reason: String },
}

impl ShowOverlayRes {
    pub fn success(values: StrMap<String>) -> (r: Self)
        ensures
            r == (ShowOverlayRes::Show { values }),
    {
        Self::Show { values }
    }

    pub fn failure(e: StoreError) -> (r: Self)
        ensures
            r matches ShowOverlayRes::Error { reason } && reason@ == e.reason_view(),
    {
        Self::Error { reason: e.reason() }
    }

    /// The HTTP status class the transport maps this outcome to.
    pub fn status(&self) -> (r: u16)
        ensures
            self is Show ==> r == 200,
            self is Error ==> r == 500,
    {
        match self {
            ShowOverlayRes::Show { .. } => 200,
            ShowOverlayRes::Error { .. } => 500,
        }
    }
}

impl InternalRouter {
    /// Merged overlay show, gated on the directory's answer: service values
    /// win per key, the global bucket fills in the rest.
    pub fn show_overlay(
        store: &ProfileStore,
        payload: ShowOverlayReq,
        directory: &ExistsRes,
    ) -> (r: ShowOverlayRes)
        requires
            store.wf(),
        ensures
            r is Show <==> ((directory matches ExistsRes::Exists { value: true })
                && store.model().contains_key(payload.id)),
            r matches ShowOverlayRes::Show { values } ==> values.wf() && values@ == overlay_view(
                service_attrs(store.model()[payload.id], payload.service@),
                store.model()[payload.id].bucket,
                payload.entries.deep_view(),
            ),
            (directory matches ExistsRes::Exists { value: false }) ==> (r matches
                ShowOverlayRes::Error { reason } && reason@ == (
            StoreError::ServiceNotFound).reason_view()),
            directory matches ExistsRes::Error { reason } ==> (r matches ShowOverlayRes::Error {
                reason: out_reason,
            } && out_reason@ == reason@),
            ((directory matches ExistsRes::Exists { value: true }) && !store.model().contains_key(
                payload.id,
            )) ==> (r matches ShowOverlayRes::Error { reason } && reason@ == (
            StoreError::NotFound).reason_view()),
    {
        match Profile::show_overlay(store, payload.id, &payload.service, &payload.entries, directory) {
            Ok(values) => ShowOverlayRes::success(values),
            Err(e) => ShowOverlayRes::failure(e),
        }
    }
}

} // verus!
