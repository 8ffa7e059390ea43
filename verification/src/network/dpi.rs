//! What inspection of a packet's payload hands to the tracker.

use vstd::prelude::*;
use crate::network::types::{ApplicationProtocol, ApplicationProtocolView};

verus! {

/// What inspection of one packet's payload found.
#[derive(Debug)]
pub struct DpiResult {
    pub application: ApplicationProtocol,
}

/// A `DpiResult` as a value.
pub struct DpiResultView {
    pub application: ApplicationProtocolView,
}

impl View for DpiResult {
    type V = DpiResultView;

    open spec fn view(&self) -> DpiResultView {
        DpiResultView { application: self.application@ }
    }
}

impl Clone for DpiResult {
    fn clone(&self) -> (r: Self)
        ensures
            r@ == self@,
    {
        Self { application: self.application.clone() }
    }
}

/// The value of an optional `DpiResult`.
pub open spec fn opt_result_view(o: Option<DpiResult>) -> Option<DpiResultView> {
    match o {
        Some(d) => Some(d@),
        None => None,
    }
}

} // verus!
