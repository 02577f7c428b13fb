//! The routes of the external adapter that checks compressed accuracy proofs
//! on behalf of an oracle network: what is served, where, and by which
//! handler. The server that serves them is built from this table.
use vstd::prelude::*;

verus! {

/// The HTTP methods that the adapter answers.
#[derive(Clone, Copy, Debug, PartialEq, Eq)]
pub enum Method {
    Post,
}

/// The request handlers of the adapter.
#[derive(Clone, Copy, Debug, PartialEq, Eq)]
pub enum Handler {
    /// Verifies the compressed proof carried by the request and answers
    /// whether it holds.
    Compute,
}

/// One route: a method and a path, the media type of the request body, the
/// name under which the handler receives that body, and the handler.
pub struct Route {
    pub method: Method,
    pub path: &'static str,
    pub format: &'static str,
    pub data: &'static str,
    pub handler: Handler,
}

/// Routes mounted under a base path.
pub struct Mount {
    pub base: &'static str,
    pub routes: Vec<Route>,
}

/// The routes of the adapter: under `/`, one route, `POST /compute`, with a
/// JSON body handed to the `Compute` handler as `compute_request`.
pub fn rocket() -> (r: Mount)
    ensures
        r.base@ == "/"@,
        r.routes.len() == 1,
        r.routes[0].method == Method::Post,
        r.routes[0].path@ == "/compute"@,
        r.routes[0].format@ == "json"@,
        r.routes[0].data@ == "compute_request"@,
        r.routes[0].handler == Handler::Compute,
{
    let mut routes: Vec<Route> = Vec::new();
    routes.push(
        Route {
            method: Method::Post,
            path: "/compute",
            format: "json",
            data: "compute_request",
            handler: Handler::Compute,
        },
    );
    Mount { base: "/", routes }
}

} // verus!
