//! The service directory collaborator: it answers whether a named dependent
//! service is known. The store receives the directory's answer as a value and
//! gates every service-scoped operation on it before touching any profile.

use crate::errors::StoreError;
use vstd::prelude::*;

verus! {

/// The directory's answer to an existence query.
#[derive(Clone, Debug, PartialEq, Eq)]
pub enum ExistsRes {
    Exists { value: bool },
    Error { reason: String },
}

/// The gating rule: a service-scoped operation proceeds only when the
/// directory affirms the service. An unknown service is `ServiceNotFound`,
/// and a directory failure propagates as `Internal` carrying its reason.
pub fn gate_service(directory: &ExistsRes) -> (r: Result<(), StoreError>)
    ensures
        r is Ok <==> directory matches ExistsRes::Exists { value: true },
        (directory matches ExistsRes::Exists { value: false }) ==> r == Result::<(),
            StoreError,
        >::Err(StoreError::ServiceNotFound),
        directory matches ExistsRes::Error { reason } ==> r == Result::<(), StoreError>::Err(
            StoreError::Internal { reason: *reason },
        ),
{
    match directory {
        ExistsRes::Exists { value: true } => Ok(()),
        ExistsRes::Exists { value: false } => Err(StoreError::ServiceNotFound),
        ExistsRes::Error { reason } => Err(StoreError::Internal { reason: reason.clone() }),
    }
}

} // verus!
