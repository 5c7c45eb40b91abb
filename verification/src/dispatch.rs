//! Request routing: map a method name to its handler, and the fixed error
//! messages of the protocol layer.

use vstd::prelude::*;
use crate::text::{push_str_chars, chars_string, str_eq};

verus! {

/// The methods the server answers.
pub enum Route {
    Ping,
    ListDevices,
    SmokeTest,
    Transcribe,
    Unknown,
}

/// Route a request by its method name; exactly the four known names map to
/// handlers, anything else is unknown.
pub fn route_method(m: &str) -> (r: Route)
    ensures
        r is Ping <==> m@ == "ping"@,
        r is ListDevices <==> m@ == "list_devices"@,
        r is SmokeTest <==> m@ == "smoke_test"@,
        r is Transcribe <==> m@ == "transcribe"@,
        r is Unknown <==> (m@ != "ping"@ && m@ != "list_devices"@ && m@ != "smoke_test"@ && m@
            != "transcribe"@),
{
    proof {
        reveal_strlit("ping");
        reveal_strlit("list_devices");
        reveal_strlit("smoke_test");
        reveal_strlit("transcribe");
        assert("ping"@.len() == 4);
        assert("list_devices"@.len() == 12);
        assert("smoke_test"@.len() == 10);
        assert("transcribe"@.len() == 10);
        assert("smoke_test"@[0] == 's');
        assert("transcribe"@[0] == 't');
    }
    if str_eq(m, "ping") {
        Route::Ping
    } else if str_eq(m, "list_devices") {
        Route::ListDevices
    } else if str_eq(m, "smoke_test") {
        Route::SmokeTest
    } else if str_eq(m, "transcribe") {
        Route::Transcribe
    } else {
        Route::Unknown
    }
}

/// Append two string slices.
pub fn concat2(a: &str, b: &str) -> (r: String)
    ensures
        r@ == a@ + b@,
{
    let mut out: Vec<char> = Vec::new();
    push_str_chars(&mut out, a);
    push_str_chars(&mut out, b);
    chars_string(&out)
}

/// The reply to a request whose method nothing handles.
pub fn unknown_method_message(m: &str) -> (r: String)
    ensures
        r@ == "Unknown method: "@ + m@,
{
    concat2("Unknown method: ", m)
}

/// The reply to a line that does not decode as a request.
pub fn invalid_request_message(detail: &str) -> (r: String)
    ensures
        r@ == "Invalid request: "@ + detail@,
{
    concat2("Invalid request: ", detail)
}

/// The reply to transcription parameters of the wrong shape.
pub fn invalid_params_message(detail: &str) -> (r: String)
    ensures
        r@ == "Invalid transcribe params: "@ + detail@,
{
    concat2("Invalid transcribe params: ", detail)
}

} // verus!
