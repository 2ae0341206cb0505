//! The data shapes of the subscription boundary. The subscription flow
//! itself (validation service, persistence, transport) lives outside the
//! library; these are the plain values it exchanges.
use vstd::prelude::*;

verus! {

/// An incoming subscription request.
pub struct SubscribeRequest {
    pub email: String,
    pub ip_address: Option<String>,
    pub location: Option<String>,
    pub user_agent: Option<String>,
}

/// The reply sent back for a subscription attempt.
pub struct SubscribeResponse {
    pub status: String,
    pub message: String,
}

} // verus!
