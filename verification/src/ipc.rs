//! The line protocol between a control command and the daemon, and where its
//! socket lives.
use vstd::prelude::*;
use vstd::string::*;
use crate::num::nat_digits;
use crate::num::write_nat;
use crate::service::{join_path, path_join};
use crate::text::{is_prefix, starts_with};

verus! {

/// `s` without the `\r` and `\n` characters at its end.
pub open spec fn without_line_end(s: Seq<char>) -> Seq<char>
    decreases s.len(),
{
    if s.len() > 0 && (s.last() == '\r' || s.last() == '\n') {
        without_line_end(s.drop_last())
    } else {
        s
    }
}

/// `s.trim_end_matches(['\r', '\n'])`.
pub fn trim_line_end(s: &str) -> (r: String)
    ensures
        r@ == without_line_end(s@),
{
    let n = s.unicode_len();
    let mut b: usize = n;
    assert(s@.subrange(0, n as int) =~= s@);
    while b > 0 && (s.get_char(b - 1) == '\r' || s.get_char(b - 1) == '\n')
        invariant
            n == s@.len(),
            b <= n,
            without_line_end(s@) == without_line_end(s@.subrange(0, b as int)),
        decreases b,
    {
        assert(s@.subrange(0, b as int).drop_last() =~= s@.subrange(0, b - 1));
        b = b - 1;
    }
    proof {
        assert(s@.subrange(0, n as int) =~= s@);
    }
    s.substring_char(0, b).to_owned()
}

pub open spec fn empty_response_error() -> Seq<char> {
    "error: daemon returned an empty response"@
}

/// What a control command makes of the daemon's reply: the reply without its
/// line end, taken as success where it starts with `ok`.
pub open spec fn reply_outcome(reply: Seq<char>) -> Result<Seq<char>, Seq<char>> {
    let line = without_line_end(reply);
    if line.len() == 0 {
        Err(empty_response_error())
    } else if is_prefix("ok"@, line) {
        Ok(line)
    } else {
        Err(line)
    }
}

/// Reads the daemon's reply to a request.
pub fn interpret_response(reply: &str) -> (r: Result<String, String>)
    ensures
        match r {
            Ok(s) => reply_outcome(reply@) == Ok::<Seq<char>, Seq<char>>(s@),
            Err(e) => reply_outcome(reply@) == Err::<Seq<char>, Seq<char>>(e@),
        },
{
    let line = trim_line_end(reply);
    if line.unicode_len() == 0 {
        return Err(String::from_str("error: daemon returned an empty response"));
    }
    if starts_with(line.as_str(), "ok") {
        Ok(line)
    } else {
        Err(line)
    }
}

/// The default socket: `nighterrors/<display>.sock` in the runtime
/// directory, where the runtime directory defaults to `/run/user/<uid>` and
/// the display to `wayland-0` when unset or empty, as the shell's `${VAR:-default}`.
pub open spec fn socket_path_text(runtime_dir: Option<Seq<char>>, wayland_display: Option<Seq<char>>, uid: u32) -> Seq<char> {
    let dir = match runtime_dir {
        Some(d) if d.len() > 0 => d,
        _ => "/run/user/"@ + nat_digits(uid as nat),
    };
    let display = match wayland_display {
        Some(w) if w.len() > 0 => w,
        _ => "wayland-0"@,
    };
    path_join(path_join(dir, "nighterrors"@), display + ".sock"@)
}

/// The default socket path, from `XDG_RUNTIME_DIR`, `WAYLAND_DISPLAY` and the user id.
pub fn socket_path_from(runtime_dir: Option<&str>, wayland_display: Option<&str>, uid: u32) -> (r: String)
    ensures
        r@ == socket_path_text(
            match runtime_dir { Some(d) => Some(d@), None => None },
            match wayland_display { Some(w) => Some(w@), None => None },
            uid,
        ),
{
    let dir = match runtime_dir {
        Some(d) if d.unicode_len() > 0 => d.to_owned(),
        _ => {
            let mut d = String::from_str("/run/user/");
            write_nat(&mut d, uid as u64);
            d
        },
    };
    let mut file = match wayland_display {
        Some(w) if w.unicode_len() > 0 => w.to_owned(),
        _ => String::from_str("wayland-0"),
    };
    file.append(".sock");
    let base = join_path(dir.as_str(), "nighterrors");
    join_path(base.as_str(), file.as_str())
}

} // verus!
