use std::sync::Arc;
use loradb::http::{routes, HttpServer, Listener, Method};
use loradb::config::ApiConfig;
use loradb::error::LoraDbError;
use loradb::address::{IpAddress, SocketAddress};
use loradb::middleware::{check_jwt_secret, cors_headers, jwt_auth, security_headers, AuthMiddleware};

#[test]
fn bearer_tokens_are_extracted() {
    assert_eq!(jwt_auth(Some("Bearer abc.def.ghi")), Ok("abc.def.ghi"));
    assert_eq!(jwt_auth(Some("Bearer invalid-token")), Ok("invalid-token"));
    assert_eq!(jwt_auth(Some("Bearer ")), Ok(""));
}

#[test]
fn test_jwt_auth_missing_token() {
    assert_eq!(jwt_auth(None), Err(401));
}

#[test]
fn other_schemes_are_refused() {
    assert_eq!(jwt_auth(Some("Basic dXNlcjpwYXNz")), Err(401));
    assert_eq!(jwt_auth(Some("bearer abc")), Err(401));
    assert_eq!(jwt_auth(Some("Bearer")), Err(401));
}

#[test]
fn test_security_headers() {
    let headers = security_headers();
    let has = |name: &str| headers.iter().any(|h| h.name == name);
    assert!(has("strict-transport-security"));
    assert!(has("content-security-policy"));
    assert!(has("x-frame-options"));
    assert!(has("x-content-type-options"));
    assert!(has("x-xss-protection"));
    assert!(has("referrer-policy"));
    assert_eq!(headers[2].value, "DENY");
}

#[test]
fn cors_allows_any_origin() {
    let headers = cors_headers();
    assert_eq!(headers.len(), 3);
    assert_eq!(headers[0].name, "access-control-allow-origin");
    assert_eq!(headers[0].value, "*");
}

#[test]
fn routes_protect_everything_but_health() {
    let r = routes();
    assert_eq!(r.len(), 4);
    assert_eq!(r[0].path, "/health");
    assert!(!r[0].protected);
    assert!(r[1..].iter().all(|x| x.protected));
    assert_eq!(r[1].method, Method::Post);
}

fn api_config(enable_tls: bool, cert: Option<&str>, key: Option<&str>) -> ApiConfig {
    ApiConfig {
        bind_addr: SocketAddress { ip: IpAddress::V4(127, 0, 0, 1), port: 8080 },
        enable_tls,
        tls_cert: cert.map(|s| s.to_string()),
        tls_key: key.map(|s| s.to_string()),
        jwt_secret: "this-is-a-very-secure-secret-key-for-testing".to_string(),
        rate_limit_per_minute: 100,
    }
}

#[test]
fn listener_follows_tls_settings() {
    let auth = AuthMiddleware::new(Arc::new(7u8));
    assert_eq!(*auth.jwt_service, 7);
    let plain = HttpServer::new((), Arc::new(()), api_config(false, None, None));
    assert!(matches!(plain.listener(),
        Ok(Listener::Plain { bind_addr }) if bind_addr == SocketAddress { ip: IpAddress::V4(127, 0, 0, 1), port: 8080 }));
    let tls = HttpServer::new((), Arc::new(()), api_config(true, Some("c.pem"), Some("k.pem")));
    match tls.listener() {
        Ok(Listener::Tls { cert_path, key_path, .. }) => {
            assert_eq!(cert_path, "c.pem");
            assert_eq!(key_path, "k.pem");
        }
        _ => panic!("expected TLS"),
    }
    let no_cert = HttpServer::new((), Arc::new(()), api_config(true, None, Some("k.pem")));
    match no_cert.listener() {
        Err(LoraDbError::ConfigError(m)) => assert_eq!(m, "TLS enabled but cert path not configured"),
        _ => panic!("expected an error"),
    }
    let no_key = HttpServer::new((), Arc::new(()), api_config(true, Some("c.pem"), None));
    match no_key.listener() {
        Err(LoraDbError::ConfigError(m)) => assert_eq!(m, "TLS enabled but key path not configured"),
        _ => panic!("expected an error"),
    }
}

#[test]
fn jwt_secrets_need_thirty_two_bytes() {
    assert!(check_jwt_secret("this-is-a-very-secure-secret-key-for-testing").is_ok());
    assert!(check_jwt_secret("01234567890123456789012345678901").is_ok());
    assert!(check_jwt_secret("éééééééééééééééé").is_ok());
    match check_jwt_secret("0123456789012345678901234567890") {
        Err(LoraDbError::ConfigError(m)) => assert_eq!(m, "JWT secret must be at least 32 characters"),
        other => panic!("{:?}", other),
    }
}
