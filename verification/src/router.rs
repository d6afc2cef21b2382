//! The operation surface a transport dispatches into. `InternalRouter`
//! carries one verified entry point per store operation (its impls live with
//! each operation's schema). `Router` is the handle a transport adapter
//! mounts its HTTP routes on; the routing itself is I/O and lives outside the
//! verified core.

use vstd::prelude::*;

verus! {

pub struct InternalRouter;

pub struct Router;

} // verus!
