//! What a control command says when it fails.
use vstd::prelude::*;
use vstd::string::*;
use crate::text::{is_prefix, starts_with};

verus! {

/// A connection failure gains a hint on how to start the daemon, naming the socket.
pub open spec fn connect_hint_text(err: Seq<char>, socket_path: Seq<char>) -> Seq<char> {
    if is_prefix("failed to connect to"@, err) {
        err + "\nhint: start daemon with: nighterrors run (socket: "@ + socket_path + ")"@
    } else {
        err
    }
}

/// Adds the hint on starting the daemon to a connection failure.
pub fn add_connect_hint(err: String, socket_path: &str) -> (r: String)
    ensures
        r@ == connect_hint_text(err@, socket_path@),
{
    if starts_with(err.as_str(), "failed to connect to") {
        let mut out = err;
        out.append("\nhint: start daemon with: nighterrors run (socket: ");
        out.append(socket_path);
        out.append(")");
        out
    } else {
        err
    }
}

/// The line printed for a failure: as it is where it starts with `error:`,
/// else with `error: ` in front.
pub open spec fn error_line_text(err: Seq<char>) -> Seq<char> {
    if is_prefix("error:"@, err) {
        err
    } else {
        "error: "@ + err
    }
}

/// The line printed for a failure.
pub fn error_line(err: &str) -> (r: String)
    ensures
        r@ == error_line_text(err@),
{
    if starts_with(err, "error:") {
        err.to_owned()
    } else {
        let mut out = String::from_str("error: ");
        out.append(err);
        out
    }
}

} // verus!
