//! The plain data shapes the adapter exchanges with its callers.

use vstd::prelude::*;

verus! {

/// Answer to an inspect request: whether the peer's configuration is
/// present and committed on the router.
pub struct IsValidResponse {
    pub valid: bool,
}

/// A single outcome message for the caller.
pub struct ApiResponse {
    pub success: bool,
    pub message: String,
}

/// The ghost shape of an [`ApiResponse`].
pub ghost struct ApiResponseView {
    pub success: bool,
    pub message: Seq<char>,
}

impl View for ApiResponse {
    type V = ApiResponseView;

    open spec fn view(&self) -> ApiResponseView {
        ApiResponseView { success: self.success, message: self.message@ }
    }
}

impl DeepView for ApiResponse {
    type V = ApiResponseView;

    open spec fn deep_view(&self) -> ApiResponseView {
        self.view()
    }
}

/// A request to provision a new peer, as the HTTP layer hands it over.
pub struct NewPeerRequest {
    pub firstname: String,
    pub lastname: String,
    pub device_id: String,
    pub public_key: String,
    pub psk: Option<String>,
}

/// A validated-or-not intent to create a peer: the request data together
/// with the tunnel addresses the caller assigned.
pub struct NewPeerIntent {
    pub firstname: String,
    pub lastname: String,
    pub device_id: String,
    pub public_key: String,
    pub psk: Option<String>,
    pub tunnel_ipv4: String,
    pub tunnel_ipv6: String,
}

/// The full view of one peer, as reported back to the HTTP layer.
pub struct PeerResponse {
    pub firstname: String,
    pub lastname: String,
    pub device_id: String,
    pub server_id: String,
    pub public_key: String,
    pub endpoint: Vec<String>,
    pub psk: Option<String>,
    pub tunnel_addr: Vec<String>,
    pub dns: Option<Vec<String>>,
    pub valid: bool,
}

/// The identifiers of all known peers.
pub struct IdentifierListResponse {
    pub peers: Vec<String>,
}

/// Every shape a peer-API call can answer with.
pub enum ApiReturnTypes {
    ApiResponse(ApiResponse),
    IsValidResponse(IsValidResponse),
    PeerResponse(PeerResponse),
    ListOfApiResponses(Vec<ApiResponse>),
    IdentifierListResponse(IdentifierListResponse),
}

} // verus!
