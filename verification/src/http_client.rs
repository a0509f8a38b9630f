//! What the HTTP helper decides without touching the network: which
//! request methods it accepts, the Basic authentication header, and the
//! message a failed request is reported with.

use vstd::prelude::*;
use vstd::string::StringExecFns;
use vstd::utf8::encode_utf8;

use base64::engine::general_purpose;
use base64::Engine;

use crate::text::{contains_bytes, has_part, same_text};

verus! {

/// The standard base64 encoding, with padding, of `bytes`.
pub uninterp spec fn base64_standard(bytes: Seq<u8>) -> Seq<char>;

/// Whether `len` bytes are few enough for their encoding to fit a buffer.
pub open spec fn encodable(len: nat) -> bool {
    len / 3 * 4 + 4 <= isize::MAX
}

/// Calls `Engine::encode` of base64's `STANDARD` engine. Trusted: the
/// result depends on the bytes alone. The input must be short enough for
/// the encoding to fit a buffer, since the crate panics otherwise.
#[verifier::external_body]
fn base64_encode(bytes: &[u8]) -> (text: String)
    requires
        encodable(bytes@.len()),
    ensures
        text@ == base64_standard(bytes@),
{
    general_purpose::STANDARD.encode(bytes)
}

/// The request methods the helper sends.
#[derive(Clone, Copy, Debug, PartialEq, Eq, Structural)]
pub enum Method {
    Get,
    Post,
    Patch,
    Put,
}

/// The method a request type names, if it names one.
pub open spec fn method_named(request_type: Seq<char>) -> Option<Method> {
    if request_type == "GET"@ {
        Some(Method::Get)
    } else if request_type == "POST"@ {
        Some(Method::Post)
    } else if request_type == "PATCH"@ {
        Some(Method::Patch)
    } else if request_type == "PUT"@ {
        Some(Method::Put)
    } else {
        None
    }
}

/// The method a request type names; any name but `GET`, `POST`, `PATCH`
/// and `PUT`, in capitals, is refused as an invalid request type.
pub fn request_method(request_type: &str) -> (res: Result<Method, String>)
    ensures
        match res {
            Ok(method) => method_named(request_type@) == Some(method),
            Err(message) => method_named(request_type@) is None && message@
                == "Invalid request type"@,
        },
{
    if same_text(request_type, "GET") {
        Ok(Method::Get)
    } else if same_text(request_type, "POST") {
        Ok(Method::Post)
    } else if same_text(request_type, "PATCH") {
        Ok(Method::Patch)
    } else if same_text(request_type, "PUT") {
        Ok(Method::Put)
    } else {
        Err("Invalid request type".to_owned())
    }
}

/// What is encoded for Basic authentication: key and secret with a colon
/// between them.
pub open spec fn credentials_text(api_key: Seq<char>, api_secret: Seq<char>) -> Seq<char> {
    api_key + ":"@ + api_secret
}

/// The value of the `Authorization` header for an API key and secret, or
/// `None` for credentials too long to encode.
pub fn basic_auth_value(api_key: &str, api_secret: &str) -> (value: Option<String>)
    ensures
        match value {
            Some(text) => encodable(encode_utf8(credentials_text(api_key@, api_secret@)).len())
                && text@ == "Basic "@ + base64_standard(
                encode_utf8(credentials_text(api_key@, api_secret@)),
            ),
            None => !encodable(encode_utf8(credentials_text(api_key@, api_secret@)).len()),
        },
{
    let mut credentials = api_key.to_owned();
    credentials.append(":");
    credentials.append(api_secret);
    let bytes = credentials.as_str().as_bytes();
    if bytes.len() / 3 > (isize::MAX as usize - 4) / 4 {
        return None;
    }
    let encoded = base64_encode(bytes);
    let mut value = "Basic ".to_owned();
    value.append(encoded.as_str());
    Some(value)
}

/// The message for a response whose status is not a success.
///
/// 401 and 403 have messages of their own, and so has 404, which for the
/// tunables endpoints points at the firewall's version. Every other status
/// is reported with the address, the status line and the body.
pub open spec fn status_message(
    status: u16,
    status_line: Seq<char>,
    url: Seq<char>,
    body: Seq<char>,
) -> Seq<char> {
    if status == 401 {
        "Authentication failed (HTTP 401): Your API key or secret is incorrect"@
    } else if status == 403 {
        "Permission denied (HTTP 403): Your API credentials don't have sufficient permissions"@
    } else if status == 404 {
        if has_part(encode_utf8(url), encode_utf8("/api/core/tunables/"@)) {
            "API endpoint not found (HTTP 404): Tunables API requires OPNsense 25.x or newer"@
        } else {
            "API endpoint not found (HTTP 404): Check your firewall URL and port"@
        }
    } else {
        "Request to "@ + url + " failed with status "@ + status_line + ": "@ + body
    }
}

/// The message for a response whose status is not a success. `status_line`
/// is the status as it is printed, code and reason.
pub fn status_failure(status: u16, status_line: &str, url: &str, body: &str) -> (message: String)
    ensures
        message@ == status_message(status, status_line@, url@, body@),
{
    if status == 401 {
        "Authentication failed (HTTP 401): Your API key or secret is incorrect".to_owned()
    } else if status == 403 {
        "Permission denied (HTTP 403): Your API credentials don't have sufficient permissions".to_owned()
    } else if status == 404 {
        if contains_bytes(url.as_bytes(), "/api/core/tunables/".as_bytes()) {
            "API endpoint not found (HTTP 404): Tunables API requires OPNsense 25.x or newer".to_owned()
        } else {
            "API endpoint not found (HTTP 404): Check your firewall URL and port".to_owned()
        }
    } else {
        let mut message = "Request to ".to_owned();
        message.append(url);
        message.append(" failed with status ");
        message.append(status_line);
        message.append(": ");
        message.append(body);
        message
    }
}

/// What is known of a request that could not be sent or answered.
#[derive(Debug, PartialEq, Eq)]
pub struct SendFailure {
    /// The request timed out.
    pub is_timeout: bool,
    /// The connection could not be made.
    pub is_connect: bool,
    /// The failure stems from the response's status.
    pub is_status: bool,
    /// The failure as the HTTP library prints it.
    pub text: String,
}

/// Whether the printed failure mentions `word`.
pub open spec fn mentions(text: Seq<char>, word: Seq<char>) -> bool {
    has_part(encode_utf8(text), encode_utf8(word))
}

/// `before`, the address, and `after`, in that order.
pub open spec fn around(before: Seq<char>, url: Seq<char>, after: Seq<char>) -> Seq<char> {
    before + url + after
}

/// The message for a request that could not be sent or answered: by what
/// kind of failure it was, and within a kind by what the printed failure
/// mentions.
pub open spec fn send_message(failure: SendFailure, url: Seq<char>) -> Seq<char> {
    let text = failure.text@;
    if failure.is_timeout {
        around(
            "Connection timed out: Server at "@,
            url,
            " is unreachable or not responding. This may be due to high load on the firewall or network congestion."@,
        )
    } else if failure.is_connect {
        if mentions(text, "proxy"@) {
            around(
                "Proxy connection error: Unable to connect through proxy to "@,
                url,
                ". Check your proxy settings."@,
            )
        } else if mentions(text, "refused"@) {
            around(
                "Connection refused: The server at "@,
                url,
                " actively refused the connection. Please verify the port is correct and any firewall rules allow this connection."@,
            )
        } else if mentions(text, "reset"@) {
            around(
                "Connection reset: The connection to "@,
                url,
                " was reset. This may indicate network instability or an intermediate firewall blocking the connection."@,
            )
        } else {
            around(
                "Connection error: Unable to connect to server at "@,
                url,
                ". Check your network connectivity, firewall settings, and verify the server is running."@,
            )
        }
    } else if failure.is_status {
        around(
            "Invalid status: The server at "@,
            url,
            " returned an unexpected response. This may indicate API changes or incompatibility."@,
        )
    } else if mentions(text, "dns error"@) || mentions(text, "not resolve"@) {
        around(
            "DNS resolution error: Could not resolve hostname in URL "@,
            url,
            ". Please check your DNS settings and verify the hostname is correct."@,
        )
    } else if mentions(text, "certificate"@) || mentions(text, "SSL"@) || mentions(text, "TLS"@) {
        around(
            "SSL/TLS error: There was a problem with the server's security certificate at "@,
            url,
            ". This is expected for self-signed certificates and doesn't affect functionality."@,
        )
    } else if mentions(text, "handshake"@) {
        around(
            "TLS handshake error: Failed to establish secure connection to "@,
            url,
            ". This may be due to protocol incompatibility or firewall restrictions."@,
        )
    } else {
        "Request to "@ + url + " failed: "@ + text
            + " - Please check your network connectivity and firewall configuration."@
    }
}

fn has_word(text: &str, word: &str) -> (yes: bool)
    ensures
        yes == mentions(text@, word@),
{
    contains_bytes(text.as_bytes(), word.as_bytes())
}

fn wrap(before: &str, url: &str, after: &str) -> (message: String)
    ensures
        message@ == around(before@, url@, after@),
{
    let mut message = before.to_owned();
    message.append(url);
    message.append(after);
    message
}

/// The message for a request that could not be sent or answered.
pub fn send_failure(failure: &SendFailure, url: &str) -> (message: String)
    ensures
        message@ == send_message(*failure, url@),
{
    let text = failure.text.as_str();
    if failure.is_timeout {
        wrap(
            "Connection timed out: Server at ",
            url,
            " is unreachable or not responding. This may be due to high load on the firewall or network congestion.",
        )
    } else if failure.is_connect {
        if has_word(text, "proxy") {
            wrap(
                "Proxy connection error: Unable to connect through proxy to ",
                url,
                ". Check your proxy settings.",
            )
        } else if has_word(text, "refused") {
            wrap(
                "Connection refused: The server at ",
                url,
                " actively refused the connection. Please verify the port is correct and any firewall rules allow this connection.",
            )
        } else if has_word(text, "reset") {
            wrap(
                "Connection reset: The connection to ",
                url,
                " was reset. This may indicate network instability or an intermediate firewall blocking the connection.",
            )
        } else {
            wrap(
                "Connection error: Unable to connect to server at ",
                url,
                ". Check your network connectivity, firewall settings, and verify the server is running.",
            )
        }
    } else if failure.is_status {
        wrap(
            "Invalid status: The server at ",
            url,
            " returned an unexpected response. This may indicate API changes or incompatibility.",
        )
    } else if has_word(text, "dns error") || has_word(text, "not resolve") {
        wrap(
            "DNS resolution error: Could not resolve hostname in URL ",
            url,
            ". Please check your DNS settings and verify the hostname is correct.",
        )
    } else if has_word(text, "certificate") || has_word(text, "SSL") || has_word(text, "TLS") {
        wrap(
            "SSL/TLS error: There was a problem with the server's security certificate at ",
            url,
            ". This is expected for self-signed certificates and doesn't affect functionality.",
        )
    } else if has_word(text, "handshake") {
        wrap(
            "TLS handshake error: Failed to establish secure connection to ",
            url,
            ". This may be due to protocol incompatibility or firewall restrictions.",
        )
    } else {
        let mut message = "Request to ".to_owned();
        message.append(url);
        message.append(" failed: ");
        message.append(text);
        message.append(" - Please check your network connectivity and firewall configuration.");
        message
    }
}

} // verus!
