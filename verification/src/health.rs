//! The liveness and readiness probes.
//!
//! - `GET /healthz` gives 200 OK (liveness)
//! - `GET /readyz` gives 200 OK (readiness)
//!
//! No vault data is ever exposed.
use vstd::prelude::*;
use vstd::string::*;

use crate::text;
use crate::text::{nth_word_1, same_text};

verus! {

/// The address on which the probes are served.
pub const HEALTH_ADDRESS: &'static str = "0.0.0.0:8081";

/// The answer to a probe.
pub const OK_RESPONSE: &'static str =
    "HTTP/1.1 200 OK\r\nContent-Length: 2\r\nContent-Type: text/plain\r\n\r\nOK";

/// The answer to anything else.
pub const NOT_FOUND_RESPONSE: &'static str =
    "HTTP/1.1 404 Not Found\r\nContent-Length: 9\r\nContent-Type: text/plain\r\n\r\nNot Found";

/// The path in a request line: its second word, or `/` when it has none.
pub open spec fn request_path(request_line: Seq<char>) -> Seq<char> {
    match text::second_word(request_line) {
        Some(path) => path,
        None => "/"@,
    }
}

/// Whether a path is that of a probe.
pub open spec fn is_probe(path: Seq<char>) -> bool {
    path == "/healthz"@ || path == "/readyz"@
}

/// The response to a request, by its first line.
pub fn handle_request(request_line: &str) -> (r: &'static str)
    ensures
        r@ == (if is_probe(request_path(request_line@)) {
            OK_RESPONSE@
        } else {
            NOT_FOUND_RESPONSE@
        }),
        is_probe(request_path(request_line@)) ==> r@
            == "HTTP/1.1 200 OK\r\nContent-Length: 2\r\nContent-Type: text/plain\r\n\r\nOK"@,
        !is_probe(request_path(request_line@)) ==> r@
            == "HTTP/1.1 404 Not Found\r\nContent-Length: 9\r\nContent-Type: text/plain\r\n\r\nNot Found"@,
{
    let path = match nth_word_1(request_line) {
        Some(path) => path,
        None => "/".to_owned(),
    };
    if same_text(path.as_str(), "/healthz") || same_text(path.as_str(), "/readyz") {
        OK_RESPONSE
    } else {
        NOT_FOUND_RESPONSE
    }
}

/// Whether the headers of a request are over: after a line that could not be
/// read (`None`), at the end of the input (nothing read), or after a blank line.
pub fn headers_over(read: Option<usize>, line: &str) -> (r: bool)
    ensures
        r == match read {
            None => true,
            Some(n) => n == 0 || line@ == "\r\n"@ || line@ == "\n"@,
        },
{
    match read {
        None => true,
        Some(n) => n == 0 || same_text(line, "\r\n") || same_text(line, "\n"),
    }
}

/// A request is for the path that follows its method, and only those for
/// `/healthz` and `/readyz` are probes; without a path it is for the root.
pub proof fn law_probes_are_two_paths(
    method: Seq<char>,
    gap: Seq<char>,
    path: Seq<char>,
    rest: Seq<char>,
)
    requires
        text::all_white(method, false),
        text::all_white(gap, true),
        text::all_white(path, false),
        method.len() > 0,
        gap.len() > 0,
        path.len() > 0,
        rest.len() > 0 ==> text::is_white_space(rest[0]),
    ensures
        request_path(method + gap + path + rest) == path,
        is_probe(request_path(method + gap + path + rest)) <==> path == "/healthz"@ || path
            == "/readyz"@,
        request_path(method + gap) == "/"@,
        !is_probe(request_path(method + gap)),
{
    let none = Seq::<char>::empty();
    text::law_second_word_is_found(none, method, gap, path, rest);
    assert(none + method + gap + path + rest =~= method + gap + path + rest);
    assert(none + method + gap =~= method + gap);
    reveal_strlit("/");
    reveal_strlit("/healthz");
    reveal_strlit("/readyz");
    assert("/"@.len() == 1 && "/healthz"@.len() == 8 && "/readyz"@.len() == 7);
}

} // verus!
