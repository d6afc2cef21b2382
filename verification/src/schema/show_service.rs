use crate::directory::ExistsRes;
use crate::errors::StoreError;
use crate::router::InternalRouter;
use crate::store::select_keys;
use crate::store::service_attrs;
use crate::store::Profile;
use crate::store::ProfileStore;
use crate::strmap::StrMap;
use vstd::prelude::*;

verus! {

pub struct ShowServiceReq {
    pub id: u64,
    pub service: String,
    pub entries: Vec<String>,
}

pub enum ShowServiceRes {
    Show { values: StrMap<String> },
    Error { reason: String },
}

impl ShowServiceRes {
    pub fn success(values: StrMap<String>) -> (r: Self)
        ensures
            r == (ShowServiceRes::Show { values }),
    {
        Self::Show { values }
    }

    pub fn failure(e: StoreError) -> (r: Self)
        ensures
            r matches ShowServiceRes::Error { reason } && reason@ == e.reason_view(),
    {
        Self::Error { reason: e.reason() }
    }

    /// The HTTP status class the transport maps this outcome to.
    pub fn status(&self) -> (r: u16)
        ensures
            self is Show ==> r == 200,
            self is Error ==> r == 500,
    {
        match self {
            ShowServiceRes::Show { .. } => 200,
            ShowServiceRes::Error { .. } => 500,
        }
    }
}

impl InternalRouter {
    /// Service-scoped show, gated on the directory's answer.
    pub fn show_service(
        store: &ProfileStore,
        payload: ShowServiceReq,
        directory: &ExistsRes,
    ) -> (r: ShowServiceRes)
        requires
            store.wf(),
        ensures
            r is Show <==> ((directory matches ExistsRes::Exists { value: true })
                && store.model().contains_key(payload.id)),
            r matches ShowServiceRes::Show { values } ==> values.wf() && values@ == select_keys(
                service_attrs(store.model()[payload.id], payload.service@),
                payload.entries.deep_view(),
            ),
            (directory matches ExistsRes::Exists { value: false }) ==> (r matches
                ShowServiceRes::Error { reason } && reason@ == (
            StoreError::ServiceNotFound).reason_view()),
            directory matches ExistsRes::Error { reason } ==> (r matches ShowServiceRes::Error {
                reason: out_reason,
            } && out_reason@ == reason@),
            ((directory matches ExistsRes::Exists { value: true }) && !store.model().contains_key(
                payload.id,
            )) ==> (r matches ShowServiceRes::Error { reason } && reason@ == (
            StoreError::NotFound).reason_view()),
    {
        match Profile::show_service(store, payload.id, &payload.service, &payload.entries, directory) {
            Ok(values) => ShowServiceRes::success(values),
            Err(e) => ShowServiceRes::failure(e),
        }
    }
}

} // verus!
