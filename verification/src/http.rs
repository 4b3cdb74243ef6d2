//! The HTTP server's routes and how it listens.

use vstd::prelude::*;
use vstd::string::*;
use std::sync::Arc;
use crate::address::{addr_model, SocketAddress};
use crate::config::ApiConfig;
use crate::error::LoraDbError;
use crate::middleware::AuthMiddleware;

verus! {

#[derive(Debug, PartialEq, Eq, Structural, Clone, Copy)]
pub enum Method {
    Get,
    Post,
}

/// A route: its method, its path pattern, and whether a bearer token is
/// required.
pub struct Route {
    pub method: Method,
    pub path: &'static str,
    pub protected: bool,
}

pub open spec fn route_is(r: Route, m: Method, path: Seq<char>, protected: bool) -> bool {
    r.method == m && r.path@ == path && r.protected == protected
}

/// The routes the server answers: health is public; queries and devices
/// require a token.
pub fn routes() -> (r: Vec<Route>)
    ensures
        r@.len() == 4,
        route_is(r@[0], Method::Get, "/health"@, false),
        route_is(r@[1], Method::Post, "/query"@, true),
        route_is(r@[2], Method::Get, "/devices"@, true),
        route_is(r@[3], Method::Get, "/devices/:dev_eui"@, true),
{
    let mut r: Vec<Route> = Vec::new();
    r.push(Route { method: Method::Get, path: "/health", protected: false });
    r.push(Route { method: Method::Post, path: "/query", protected: true });
    r.push(Route { method: Method::Get, path: "/devices", protected: true });
    r.push(Route { method: Method::Get, path: "/devices/:dev_eui", protected: true });
    r
}

/// How the server listens.
pub enum Listener {
    /// Plain HTTP on the address.
    Plain { bind_addr: SocketAddress },
    /// HTTPS on the address, with the certificate and key files.
    Tls { bind_addr: SocketAddress, cert_path: String, key_path: String },
}

/// The API server: the handlers' state `A`, the authentication layer over
/// token service `S`, and the listening settings.
pub struct HttpServer<A, S> {
    pub app_state: A,
    pub auth_middleware: AuthMiddleware<S>,
    pub bind_addr: SocketAddress,
    pub enable_tls: bool,
    pub tls_cert_path: Option<String>,
    pub tls_key_path: Option<String>,
}

impl<A, S> HttpServer<A, S> {
    pub fn new(app_state: A, jwt_service: Arc<S>, config: ApiConfig) -> (r: HttpServer<A, S>)
        ensures
            r.app_state == app_state,
            r.auth_middleware.jwt_service == jwt_service,
            r.bind_addr == config.bind_addr,
            r.enable_tls == config.enable_tls,
            r.tls_cert_path == config.tls_cert,
            r.tls_key_path == config.tls_key,
    {
        HttpServer {
            app_state,
            auth_middleware: AuthMiddleware::new(jwt_service),
            bind_addr: config.bind_addr,
            enable_tls: config.enable_tls,
            tls_cert_path: config.tls_cert,
            tls_key_path: config.tls_key,
        }
    }

    /// How to listen: with TLS on, both the certificate and the key path
    /// must be configured.
    pub fn listener(&self) -> (r: Result<Listener, LoraDbError>)
        ensures
            !self.enable_tls ==> (r matches Ok(Listener::Plain { bind_addr }) && addr_model(bind_addr)
                == addr_model(self.bind_addr)),
            self.enable_tls && self.tls_cert_path is None ==> (r matches Err(
                LoraDbError::ConfigError(m),
            ) && m@ == "TLS enabled but cert path not configured"@),
            self.enable_tls && self.tls_cert_path is Some && self.tls_key_path is None
                ==> (r matches Err(LoraDbError::ConfigError(m)) && m@
                == "TLS enabled but key path not configured"@),
            self.enable_tls && self.tls_cert_path is Some && self.tls_key_path is Some
                ==> (r matches Ok(Listener::Tls { bind_addr, cert_path, key_path }) && addr_model(bind_addr)
                == addr_model(self.bind_addr) && cert_path == self.tls_cert_path.unwrap() && key_path
                == self.tls_key_path.unwrap()),
    {
        if !self.enable_tls {
            return Ok(Listener::Plain { bind_addr: self.bind_addr.copy() });
        }
        let cert_path = match &self.tls_cert_path {
            Some(p) => p.clone(),
            None => {
                return Err(
                    LoraDbError::ConfigError(String::from_str("TLS enabled but cert path not configured")),
                )
            },
        };
        let key_path = match &self.tls_key_path {
            Some(p) => p.clone(),
            None => {
                return Err(
                    LoraDbError::ConfigError(String::from_str("TLS enabled but key path not configured")),
                )
            },
        };
        Ok(Listener::Tls { bind_addr: self.bind_addr.copy(), cert_path, key_path })
    }
}

} // verus!
