//! Where a session's files are, given the environment of the process.

use crate::session::{
    first_usable, opt_view, resolve_session_dir, resolve_socket_path, session_dir_under,
    socket_path_of,
};
use crate::text::{decimal, is_digit, law_decimal_reads_back, lemma_decimal_digits};
use vstd::prelude::*;
use vstd::string::*;

verus! {

/// The program's name, below which its sessions are kept.
pub const PROG_BASENAME: &'static str = "hytch";

/// The session directory of a user.
pub open spec fn session_dir_for(env_home: Option<Seq<char>>, uid: u32) -> Seq<char> {
    session_dir_under(first_usable(env_home, None), "hytch"@, uid)
}

/// The log that belongs to a socket.
pub open spec fn log_path_of(socket_path: Seq<char>) -> Seq<char> {
    socket_path + ".log"@
}

/// The directory that session sockets live in. Only `$HOME` is consulted; the
/// passwd database is not.
pub fn session_dir(env_home: Option<&str>, uid: u32) -> (dir: String)
    ensures
        dir@ == session_dir_for(opt_view(env_home), uid),
{
    resolve_session_dir(env_home, None, PROG_BASENAME, uid)
}

/// The socket of the session `name`.
pub fn socket_path(name: &str, env_home: Option<&str>, uid: u32) -> (path: String)
    ensures
        path@ == socket_path_of(name@, session_dir_for(opt_view(env_home), uid)),
{
    let dir = session_dir(env_home, uid);
    resolve_socket_path(name, dir.as_str())
}

/// The log that belongs to a socket: the same path with `.log` behind it.
pub fn log_path_for(socket_path: &str) -> (path: String)
    ensures
        path@ == log_path_of(socket_path@),
{
    let mut path = socket_path.to_owned();
    path.append(".log");
    path
}

/// Sessions are kept below the home directory where it is usable, else in a
/// directory of the user's own below `/tmp`; a bare name is a file there, a name
/// with a `/` is a path of its own, and the log is beside the socket.
pub proof fn law_session_files_are_where_they_belong(
    name: &str,
    env_home: Option<&str>,
    uid: u32,
    dir: String,
    socket: String,
    asked: &str,
    log: String,
)
    requires
        call_ensures(session_dir, (env_home, uid), dir),
        call_ensures(socket_path, (name, env_home, uid), socket),
        call_ensures(log_path_for, (asked,), log),
    ensures
        env_home matches Some(home) ==> home@.len() > 0 && home@ != "/"@ ==> dir@ == home@
            + "/.cache/hytch"@,
        env_home is None || env_home->0@.len() == 0 || env_home->0@ == "/"@ ==> dir@
            == "/tmp/.hytch-"@ + decimal(uid as nat),
        name@.contains('/') ==> socket@ == name@,
        !name@.contains('/') ==> socket@ == dir@ + "/"@ + name@,
        log@ == asked@ + ".log"@,
{
    reveal_strlit("/");
    reveal_strlit("-");
    reveal_strlit("hytch");
    reveal_strlit("/.cache/");
    reveal_strlit("/.cache/hytch");
    reveal_strlit("/tmp/.");
    reveal_strlit("/tmp/.hytch-");
    assert("/"@ =~= seq!['/']);
    assert("/.cache/"@ + "hytch"@ =~= "/.cache/hytch"@);
    assert("/tmp/."@ + "hytch"@ + "-"@ =~= "/tmp/.hytch-"@);
    lemma_decimal_digits(uid as nat);
    if env_home is Some && env_home->0@.len() > 0 && env_home->0@ != "/"@ {
        let home = env_home->0@;
        assert(home + "/.cache/"@ + "hytch"@ =~= home + "/.cache/hytch"@);
        assert(dir@.last() == 'h');
    } else {
        assert(dir@ =~= "/tmp/.hytch-"@ + decimal(uid as nat));
        let digits = decimal(uid as nat);
        assert(is_digit(digits[digits.len() - 1]));
        assert(dir@.last() == digits.last());
    }
}

/// Users without a home directory do not share a session directory.
pub proof fn law_users_have_their_own_directories(a: u32, b: u32)
    requires
        session_dir_for(None, a) == session_dir_for(None, b),
    ensures
        a == b,
{
    law_decimal_reads_back(a as u64);
    law_decimal_reads_back(b as u64);
    let prefix = "/tmp/."@ + "hytch"@ + "-"@;
    assert(session_dir_for(None, a).skip(prefix.len() as int) =~= decimal(a as nat));
    assert(session_dir_for(None, b).skip(prefix.len() as int) =~= decimal(b as nat));
}

} // verus!
