use opnsense_client::commands::connection_test_url;
use opnsense_client::http_client::{
    basic_auth_value, request_method, send_failure, status_failure, Method, SendFailure,
};
use opnsense_client::profile::{build_api_url, ApiInfo};
use opnsense_client::text::{decimal, occurs_more_than};

fn failure(is_timeout: bool, is_connect: bool, is_status: bool, text: &str) -> SendFailure {
    SendFailure { is_timeout, is_connect, is_status, text: text.to_string() }
}

fn connection(url: &str, port: u16) -> ApiInfo {
    ApiInfo {
        id: 1,
        profile_name: "main".to_string(),
        api_key: "k".to_string(),
        api_secret: "s".to_string(),
        api_url: url.to_string(),
        port,
        is_default: true,
    }
}

#[test]
fn numbers_are_written_in_decimal() {
    for n in [0u64, 1, 9, 10, 11, 99, 100, 443, 8443, 65535, 1_000_000, 4294967295, u64::MAX] {
        assert_eq!(decimal(n), n.to_string());
    }
}

#[test]
fn endpoint_addresses_join_address_port_and_path() {
    assert_eq!(
        build_api_url(&connection("https://192.168.1.1", 443), "/api/diagnostics/interface/getArp"),
        "https://192.168.1.1:443/api/diagnostics/interface/getArp"
    );
    assert_eq!(build_api_url(&connection("http://fw", 0), ""), "http://fw:0");
    assert_eq!(build_api_url(&connection("", 65535), "/x"), ":65535/x");
}

#[test]
fn connection_test_wants_a_base_address() {
    assert_eq!(
        connection_test_url("https://fw.example", 8443),
        Ok("https://fw.example:8443/api/diagnostics/system/systemTime".to_string())
    );
    assert_eq!(connection_test_url("fw", 80), Ok("fw:80/api/diagnostics/system/systemTime".to_string()));
    assert_eq!(connection_test_url("", 80), Ok(":80/api/diagnostics/system/systemTime".to_string()));
    let slash = Err("Invalid URL format: URL should not end with a trailing slash".to_string());
    assert_eq!(connection_test_url("https://fw.example/", 443), slash);
    assert_eq!(connection_test_url("/", 443), slash);
    assert_eq!(connection_test_url("https://fw?x=1/", 443), slash);
    let base = Err("Invalid URL format: URL should be a base URL without paths or query parameters".to_string());
    assert_eq!(connection_test_url("https://fw.example/api", 443), base);
    assert_eq!(connection_test_url("https://fw.example?x=1", 443), base);
    assert_eq!(connection_test_url("?", 443), base);
    assert!(occurs_more_than(b"a/b/c/d", b'/', 2));
    assert!(!occurs_more_than(b"a/b/c", b'/', 2));
    assert!(occurs_more_than(b"/", b'/', 0));
    assert!(!occurs_more_than(b"", b'/', 0));
}

#[test]
fn request_types_are_the_four_methods_in_capitals() {
    assert_eq!(request_method("GET"), Ok(Method::Get));
    assert_eq!(request_method("POST"), Ok(Method::Post));
    assert_eq!(request_method("PATCH"), Ok(Method::Patch));
    assert_eq!(request_method("PUT"), Ok(Method::Put));
    for other in ["DELETE", "get", "", "GET "] {
        assert_eq!(request_method(other), Err("Invalid request type".to_string()));
    }
}

#[test]
fn basic_authentication_encodes_key_colon_secret() {
    assert_eq!(basic_auth_value("Aladdin", "open sesame"), Some("Basic QWxhZGRpbjpvcGVuIHNlc2FtZQ==".to_string()));
    assert_eq!(basic_auth_value("", ""), Some("Basic Og==".to_string()));
    assert_eq!(basic_auth_value("k+/", "s\\é"), Some("Basic aysvOnNcw6k=".to_string()));
}

#[test]
fn statuses_have_their_messages() {
    assert_eq!(
        status_failure(401, "401 Unauthorized", "https://fw:443/api/x", "denied"),
        "Authentication failed (HTTP 401): Your API key or secret is incorrect"
    );
    assert_eq!(
        status_failure(403, "403 Forbidden", "https://fw:443/api/x", ""),
        "Permission denied (HTTP 403): Your API credentials don't have sufficient permissions"
    );
    assert_eq!(
        status_failure(404, "404 Not Found", "https://fw:443/api/core/tunables/get", ""),
        "API endpoint not found (HTTP 404): Tunables API requires OPNsense 25.x or newer"
    );
    assert_eq!(
        status_failure(404, "404 Not Found", "https://fw:443/api/core/tunables", ""),
        "API endpoint not found (HTTP 404): Check your firewall URL and port"
    );
    assert_eq!(
        status_failure(500, "500 Internal Server Error", "https://fw:443/api/x", "boom"),
        "Request to https://fw:443/api/x failed with status 500 Internal Server Error: boom"
    );
    assert_eq!(status_failure(302, "302 Found", "u", ""), "Request to u failed with status 302 Found: ");
}

#[test]
fn send_failures_are_told_apart() {
    let url = "https://fw:443/api";
    assert_eq!(
        send_failure(&failure(true, true, true, "proxy refused"), url),
        "Connection timed out: Server at https://fw:443/api is unreachable or not responding. This may be due to high load on the firewall or network congestion."
    );
    assert_eq!(
        send_failure(&failure(false, true, false, "tcp connect error: proxy refused"), url),
        "Proxy connection error: Unable to connect through proxy to https://fw:443/api. Check your proxy settings."
    );
    assert_eq!(
        send_failure(&failure(false, true, false, "Connection refused (os error 111), reset"), url),
        "Connection refused: The server at https://fw:443/api actively refused the connection. Please verify the port is correct and any firewall rules allow this connection."
    );
    assert_eq!(
        send_failure(&failure(false, true, false, "connection reset by peer"), url),
        "Connection reset: The connection to https://fw:443/api was reset. This may indicate network instability or an intermediate firewall blocking the connection."
    );
    assert_eq!(
        send_failure(&failure(false, true, true, "Refused"), url),
        "Connection error: Unable to connect to server at https://fw:443/api. Check your network connectivity, firewall settings, and verify the server is running."
    );
    assert_eq!(
        send_failure(&failure(false, false, true, "dns error"), url),
        "Invalid status: The server at https://fw:443/api returned an unexpected response. This may indicate API changes or incompatibility."
    );
    let dns = "DNS resolution error: Could not resolve hostname in URL https://fw:443/api. Please check your DNS settings and verify the hostname is correct.";
    assert_eq!(send_failure(&failure(false, false, false, "dns error: certificate"), url), dns);
    assert_eq!(send_failure(&failure(false, false, false, "could not resolve host"), url), dns);
    let tls = "SSL/TLS error: There was a problem with the server's security certificate at https://fw:443/api. This is expected for self-signed certificates and doesn't affect functionality.";
    assert_eq!(send_failure(&failure(false, false, false, "invalid certificate, handshake"), url), tls);
    assert_eq!(send_failure(&failure(false, false, false, "SSL routines"), url), tls);
    assert_eq!(send_failure(&failure(false, false, false, "TLS alert"), url), tls);
    assert_eq!(
        send_failure(&failure(false, false, false, "handshake failed"), url),
        "TLS handshake error: Failed to establish secure connection to https://fw:443/api. This may be due to protocol incompatibility or firewall restrictions."
    );
    assert_eq!(
        send_failure(&failure(false, false, false, "ssl tls Certificate"), url),
        "Request to https://fw:443/api failed: ssl tls Certificate - Please check your network connectivity and firewall configuration."
    );
}
