//! Session naming, directory and socket-path resolution, and the ancestry
//! chain behind the self-attach guard. This is the one place that knows how a
//! session *name* becomes a socket *path*.

use crate::text::{
    chars_of, contains_char, decimal, join, joined, lemma_joined_concat, lemma_split_concat,
    lemma_split_one, lemma_split_pieces, push_decimal, split, split_on, str_eq, str_views,
};
use vstd::prelude::*;
use vstd::string::*;
use vstd::utf8::encode_utf8;

verus! {

/// The environment variable that holds a session's ancestry chain.
pub const SESSION_ENVVAR: &'static str = "HYTCH_SESSION";

/// The most bytes that the path of a Unix socket can have.
pub const MAX_SOCKET_PATH_LEN: usize = 107;

/// The view of an optional string slice.
pub open spec fn opt_view(s: Option<&str>) -> Option<Seq<char>> {
    match s {
        Some(t) => Some(t@),
        None => None,
    }
}

/// A home directory is usable if it is set, not empty and not `/`.
pub open spec fn usable(h: Option<Seq<char>>) -> Option<Seq<char>> {
    match h {
        Some(s) => if s.len() > 0 && s != seq!['/'] {
            Some(s)
        } else {
            None
        },
        None => None,
    }
}

/// The directory under a home directory, or the one that needs none.
pub open spec fn session_dir_under(
    home: Option<Seq<char>>,
    prog_basename: Seq<char>,
    uid: u32,
) -> Seq<char> {
    match home {
        Some(home) => home + "/.cache/"@ + prog_basename,
        None => "/tmp/."@ + prog_basename + "-"@ + decimal(uid as nat),
    }
}

/// The first home directory that is usable.
pub open spec fn first_usable(
    env_home: Option<Seq<char>>,
    passwd_home: Option<Seq<char>>,
) -> Option<Seq<char>> {
    if usable(env_home) is Some {
        usable(env_home)
    } else {
        usable(passwd_home)
    }
}

/// A path below a directory.
pub open spec fn path_join(dir: Seq<char>, name: Seq<char>) -> Seq<char> {
    if dir.len() == 0 || dir.last() == '/' {
        dir + name
    } else {
        dir + "/"@ + name
    }
}

/// A name with a `/` is a path already; any other is a file in `dir`.
pub open spec fn socket_path_of(name: Seq<char>, dir: Seq<char>) -> Seq<char> {
    if name.contains('/') {
        name
    } else {
        path_join(dir, name)
    }
}

/// A chain is there if it is set and not empty.
pub open spec fn chain_of(current: Option<Seq<char>>) -> Option<Seq<char>> {
    match current {
        Some(c) => if c.len() > 0 {
            Some(c)
        } else {
            None
        },
        None => None,
    }
}

/// The chain `current` with one more socket path at its end.
pub open spec fn extended(current: Option<Seq<char>>, path: Seq<char>) -> Seq<char> {
    match chain_of(current) {
        Some(chain) => chain + ":"@ + path,
        None => path,
    }
}

/// The socket paths of a chain, outermost first.
pub open spec fn ancestors(current: Option<Seq<char>>) -> Seq<Seq<char>> {
    match chain_of(current) {
        Some(chain) => split_on(chain, ':'),
        None => Seq::empty(),
    }
}

/// The last of the path segments that names something, where it is a name and
/// not `..`. Empty segments and `.` name nothing.
pub open spec fn last_name(segments: Seq<Seq<char>>) -> Option<Seq<char>>
    decreases segments.len(),
{
    if segments.len() == 0 {
        None
    } else {
        let s = segments.last();
        if s.len() == 0 || s == "."@ {
            last_name(segments.drop_last())
        } else if s == ".."@ {
            None
        } else {
            Some(s)
        }
    }
}

/// The file name of a path, or the whole path where it has none.
pub open spec fn base_name(path: Seq<char>) -> Seq<char> {
    match last_name(split_on(path, '/')) {
        Some(n) => n,
        None => path,
    }
}

/// The base names of a chain's paths with `" > "` between them.
pub open spec fn short_name_of(chain: Seq<char>) -> Seq<char> {
    joined(split_on(chain, ':').map_values(|p: Seq<char>| base_name(p)), " > "@)
}

/// Where session sockets live by default, given `$HOME` and the home directory
/// of the passwd database: below the first of the two that is usable, else
/// `/tmp/.<prog>-<uid>`.
pub fn resolve_session_dir(
    env_home: Option<&str>,
    passwd_home: Option<&str>,
    prog_basename: &str,
    uid: u32,
) -> (dir: String)
    ensures
        dir@ == session_dir_under(
            first_usable(opt_view(env_home), opt_view(passwd_home)),
            prog_basename@,
            uid,
        ),
{
    let home = match usable_home(env_home) {
        Some(h) => Some(h),
        None => usable_home(passwd_home),
    };
    let mut dir = String::new();
    match home {
        Some(h) => {
            dir.append(h);
            dir.append("/.cache/");
            dir.append(prog_basename);
            assert(dir@ =~= h@ + "/.cache/"@ + prog_basename@);
        },
        None => {
            dir.append("/tmp/.");
            dir.append(prog_basename);
            dir.append("-");
            push_decimal(&mut dir, uid as u64);
            assert(dir@ =~= "/tmp/."@ + prog_basename@ + "-"@ + decimal(uid as nat));
        },
    }
    dir
}

/// A home directory is usable if it is set, not empty and not `/`.
pub fn usable_home(h: Option<&str>) -> (r: Option<&str>)
    ensures
        opt_view(r) == usable(opt_view(h)),
{
    match h {
        Some(s) => {
            proof {
                reveal_strlit("/");
                assert("/"@ =~= seq!['/']);
            }
            if s.unicode_len() > 0 && !str_eq(s, "/") {
                Some(s)
            } else {
                None
            }
        },
        None => None,
    }
}

/// Resolves a session name to its socket path. A name that contains `/` is
/// used as it is; a bare name is a file in `session_dir`.
pub fn resolve_socket_path(name: &str, session_dir: &str) -> (path: String)
    ensures
        path@ == socket_path_of(name@, session_dir@),
{
    if contains_char(name, '/') {
        name.to_owned()
    } else {
        let dir = chars_of(session_dir);
        let mut path = String::new();
        path.append(session_dir);
        if dir.len() > 0 && dir[dir.len() - 1] != '/' {
            path.append("/");
        }
        path.append(name);
        assert(path@ =~= path_join(session_dir@, name@));
        path
    }
}

/// The ancestry chain of a session that is spawned inside `current`, its
/// parent's own chain: nested sessions accumulate, outermost first.
pub fn extend_ancestry(current: Option<&str>, new_socket_path: &str) -> (chain: String)
    ensures
        chain@ == extended(opt_view(current), new_socket_path@),
{
    let mut chain = String::new();
    match current {
        Some(c) => {
            if c.unicode_len() > 0 {
                chain.append(c);
                chain.append(":");
            }
        },
        None => {},
    }
    chain.append(new_socket_path);
    assert(chain@ =~= extended(opt_view(current), new_socket_path@));
    chain
}

/// Whether `target_socket_path` is one of the chain's paths: a direct
/// self-attach, or an indirect loop. Whole segments are compared.
pub fn ancestry_contains(chain: Option<&str>, target_socket_path: &str) -> (r: bool)
    ensures
        r == ancestors(opt_view(chain)).contains(target_socket_path@),
{
    match chain {
        Some(c) => {
            if c.unicode_len() == 0 {
                return false;
            }
            let segments = split(c, ':');
            let ghost views = str_views(segments@);
            let mut i: usize = 0;
            while i < segments.len()
                invariant
                    i <= segments.len(),
                    views == str_views(segments@),
                    views == ancestors(opt_view(chain)),
                    forall|j: int| 0 <= j < i ==> views[j] != target_socket_path@,
                decreases segments.len() - i,
            {
                if str_eq(segments[i], target_socket_path) {
                    assert(views[i as int] == target_socket_path@);
                    return true;
                }
                i += 1;
            }
            false
        },
        None => false,
    }
}

/// The file name of a path, or the whole path where it has none.
fn file_name<'a>(path: &'a str) -> (name: &'a str)
    ensures
        name@ == base_name(path@),
{
    let segments = split(path, '/');
    let ghost all = str_views(segments@);
    let mut n: usize = segments.len();
    assert(all.take(n as int) =~= all);
    while n > 0
        invariant
            n <= segments.len(),
            all == str_views(segments@),
            all == split_on(path@, '/'),
            last_name(all.take(n as int)) == last_name(all),
        decreases n,
    {
        let s = segments[n - 1];
        assert(all.take(n as int).last() == s@);
        assert(all.take(n as int).drop_last() =~= all.take(n - 1));
        if s.unicode_len() > 0 && !str_eq(s, ".") {
            if str_eq(s, "..") {
                return path;
            }
            return s;
        }
        n -= 1;
    }
    path
}

/// Human-readable form of an ancestry chain: base names only, joined by
/// `" > "`, outermost first.
pub fn short_name(chain: &str) -> (r: String)
    ensures
        r@ == short_name_of(chain@),
{
    let paths = split(chain, ':');
    let ghost all = split_on(chain@, ':');
    let mut names: Vec<&str> = Vec::new();
    let mut i: usize = 0;
    while i < paths.len()
        invariant
            i <= paths.len(),
            names.len() == i,
            all == str_views(paths@),
            forall|j: int| 0 <= j < i ==> (#[trigger] names@[j])@ == base_name(all[j]),
        decreases paths.len() - i,
    {
        let name = file_name(paths[i]);
        names.push(name);
        i += 1;
    }
    assert(str_views(names@) =~= all.map_values(|p: Seq<char>| base_name(p)));
    join(&names, " > ")
}

/// The position of the last `/`, where there is one.
pub open spec fn last_slash(s: Seq<char>) -> Option<nat>
    decreases s.len(),
{
    if s.len() == 0 {
        None
    } else if s.last() == '/' {
        Some((s.len() - 1) as nat)
    } else {
        last_slash(s.drop_last())
    }
}

/// The directory and the name of a path that is too long for a socket: what
/// stands before and after its last `/`.
pub open spec fn shortened(path: Seq<char>) -> Option<(Seq<char>, Seq<char>)> {
    match last_slash(path) {
        Some(i) => if encode_utf8(path).len() > MAX_SOCKET_PATH_LEN && i + 1 < path.len() {
            Some((if i == 0 { "/"@ } else { path.take(i as int) }, path.skip(i as int + 1)))
        } else {
            None
        },
        None => None,
    }
}

/// How to reach a socket whose path is too long to be bound or connected to:
/// the directory to change to, and the short name relative to it. `None` where
/// the path can be used as it is, or where it has no directory or no name.
pub fn shorten_for_unix_socket(path: &str) -> (r: Option<(String, String)>)
    ensures
        match r {
            Some((dir, name)) => shortened(path@) == Some((dir@, name@)),
            None => shortened(path@) is None,
        },
{
    if path.as_bytes().len() <= MAX_SOCKET_PATH_LEN {
        return None;
    }
    let chars = chars_of(path);
    let mut i: usize = chars.len();
    assert(path@.take(i as int) =~= path@);
    while i > 0
        invariant
            i <= chars.len(),
            chars@ == path@,
            encode_utf8(path@).len() > MAX_SOCKET_PATH_LEN,
            last_slash(path@.take(i as int)) == last_slash(path@),
        decreases i,
    {
        assert(path@.take(i as int).last() == path@[i - 1]);
        assert(path@.take(i as int).drop_last() =~= path@.take(i - 1));
        if chars[i - 1] == '/' {
            if i == chars.len() {
                return None;
            }
            let name = path.substring_char(i, chars.len());
            let dir = if i == 1 {
                "/"
            } else {
                path.substring_char(0, i - 1)
            };
            assert(name@ =~= path@.skip(i as int));
            assert(i != 1 ==> dir@ =~= path@.take(i - 1));
            return Some((dir.to_owned(), name.to_owned()));
        }
        i -= 1;
    }
    None
}

proof fn lemma_last_slash(s: Seq<char>)
    ensures
        match last_slash(s) {
            Some(i) => i < s.len() && s[i as int] == '/' && forall|j: int|
                i < j < s.len() ==> s[j] != '/',
            None => !s.contains('/'),
        },
    decreases s.len(),
{
    if s.len() > 0 && s.last() != '/' {
        let t = s.drop_last();
        lemma_last_slash(t);
        assert forall|j: int| 0 <= j < s.len() - 1 implies s[j] == t[j] by {}
        if last_slash(t) is None {
            if s.contains('/') {
                let j = choose|j: int| 0 <= j < s.len() && s[j] == '/';
                assert(t[j] == '/');
                assert(t.contains('/'));
            }
        }
    }
}

/// A shortened path still leads to the same socket: the name below the
/// directory is the path, and the name has no directory of its own.
pub proof fn law_shortened_path_is_the_same_path(path: Seq<char>, dir: Seq<char>, name: Seq<char>)
    requires
        shortened(path) == Some((dir, name)),
    ensures
        path == dir + "/"@ + name || (dir == "/"@ && path == dir + name),
        name.len() > 0,
        !name.contains('/'),
        encode_utf8(path).len() > MAX_SOCKET_PATH_LEN,
{
    lemma_last_slash(path);
    reveal_strlit("/");
    assert("/"@ =~= seq!['/']);
    let i = last_slash(path)->0 as int;
    if name.contains('/') {
        let j = choose|j: int| 0 <= j < name.len() && name[j] == '/';
        assert(path[i + 1 + j] == '/');
    }
    if i == 0 {
        assert(path =~= dir + name);
    } else {
        assert(path =~= dir + "/"@ + name);
    }
}

proof fn lemma_extended_ancestors(current: Option<Seq<char>>, path: Seq<char>)
    requires
        path.len() > 0 || chain_of(current) is Some,
    ensures
        ancestors(Some(extended(current, path))) == ancestors(current) + split_on(path, ':'),
{
    reveal_strlit(":");
    assert(":"@ =~= seq![':']);
    match chain_of(current) {
        Some(chain) => {
            lemma_split_concat(chain, path, ':');
        },
        None => {
            assert(ancestors(current) + split_on(path, ':') =~= split_on(path, ':'));
        },
    }
}

/// A session that is spawned is guarded against attaching to itself, it stays
/// guarded against every session that it runs in, and against no other. (A
/// socket path that holds the separator `:` cannot be told from two, and an
/// empty path makes no chain.)
pub proof fn law_extended_chain_guards(
    current: Option<Seq<char>>,
    path: Seq<char>,
    target: Seq<char>,
)
    requires
        path.len() > 0 || chain_of(current) is Some,
    ensures
        ancestors(Some(extended(current, path))).contains(target) == (ancestors(current).contains(
            target,
        ) || split_on(path, ':').contains(target)),
        !path.contains(':') ==> (split_on(path, ':').contains(target) <==> target == path),
{
    lemma_extended_ancestors(current, path);
    let a = ancestors(current);
    let c = split_on(path, ':');
    let b = a + c;
    if a.contains(target) {
        let i = choose|i: int| 0 <= i < a.len() && a[i] == target;
        assert(b[i] == target);
    }
    if c.contains(target) {
        let i = choose|i: int| 0 <= i < c.len() && c[i] == target;
        assert(b[a.len() + i] == target);
    }
    if b.contains(target) {
        let i = choose|i: int| 0 <= i < b.len() && b[i] == target;
        if i < a.len() {
            assert(a[i] == target);
        } else {
            assert(c[i - a.len()] == target);
        }
    }
    if !path.contains(':') {
        lemma_split_one(path, ':');
        assert(c[0] == path);
    }
}

/// The short form of an extended chain is the short form of the chain, then
/// that of the new path.
pub proof fn law_short_name_grows(chain: Seq<char>, path: Seq<char>)
    requires
        chain.len() > 0,
    ensures
        short_name_of(extended(Some(chain), path)) == short_name_of(chain) + " > "@ + short_name_of(
            path,
        ),
{
    lemma_extended_ancestors(Some(chain), path);
    reveal_strlit(":");
    let f = |p: Seq<char>| base_name(p);
    let a = split_on(chain, ':').map_values(f);
    let b = split_on(path, ':').map_values(f);
    lemma_split_pieces(chain, ':');
    lemma_split_pieces(path, ':');
    assert(extended(Some(chain), path).len() > 0);
    assert(split_on(extended(Some(chain), path), ':').map_values(f) =~= a + b);
    lemma_joined_concat(a, b, " > "@);
}

/// Two bare names in one directory have two sockets.
pub proof fn law_bare_names_do_not_collide(a: Seq<char>, b: Seq<char>, dir: Seq<char>)
    requires
        !a.contains('/'),
        !b.contains('/'),
        socket_path_of(a, dir) == socket_path_of(b, dir),
    ensures
        a == b,
{
    let prefix = if dir.len() == 0 || dir.last() == '/' {
        dir
    } else {
        dir + "/"@
    };
    assert(socket_path_of(a, dir).skip(prefix.len() as int) =~= a);
    assert(socket_path_of(b, dir).skip(prefix.len() as int) =~= b);
}

/// A home directory counts exactly where it is set, not empty and not `/`, and
/// then it is taken as it is.
pub proof fn law_usable_home_is_neither_empty_nor_the_root(h: Option<&str>, r: Option<&str>)
    requires
        call_ensures(usable_home, (h,), r),
    ensures
        r is Some <==> h is Some && h->0@.len() > 0 && h->0@ != "/"@,
        r is Some ==> r->0@ == h->0@,
{
    reveal_strlit("/");
    assert("/"@ =~= seq!['/']);
}

/// The session directory is below `$HOME` where that is usable, else below the
/// home directory of the passwd database where that is, else it is named after
/// the user's number.
pub proof fn law_session_dir_is_below_the_first_usable_home(
    env_home: Option<&str>,
    passwd_home: Option<&str>,
    prog_basename: &str,
    uid: u32,
    dir: String,
    first: Option<&str>,
    second: Option<&str>,
)
    requires
        call_ensures(resolve_session_dir, (env_home, passwd_home, prog_basename, uid), dir),
        call_ensures(usable_home, (env_home,), first),
        call_ensures(usable_home, (passwd_home,), second),
    ensures
        first is Some ==> dir@ == first->0@ + "/.cache/"@ + prog_basename@,
        first is None && second is Some ==> dir@ == second->0@ + "/.cache/"@ + prog_basename@,
        first is None && second is None ==> dir@ == "/tmp/."@ + prog_basename@ + "-"@ + decimal(
            uid as nat,
        ),
{
}

/// A name with a `/` is a path as it is. A bare name is a file of that name in
/// the directory, with one `/` between the two unless the directory ends in one
/// or is empty.
pub proof fn law_socket_path_ends_in_the_name(name: &str, session_dir: &str, path: String)
    requires
        call_ensures(resolve_socket_path, (name, session_dir), path),
    ensures
        name@.contains('/') ==> path@ == name@,
        !name@.contains('/') ==> name@.is_suffix_of(path@) && session_dir@.is_prefix_of(path@),
        !name@.contains('/') ==> path@.len() == session_dir@.len() + name@.len() + (
        if session_dir@.len() == 0 || session_dir@.last() == '/' {
            0int
        } else {
            1int
        }),
        !name@.contains('/') && session_dir@.len() > 0 ==> path@[path@.len() - name@.len() - 1]
            == '/',
{
    reveal_strlit("/");
    assert("/"@ =~= seq!['/']);
    if !name@.contains('/') {
        assert(path@.subrange(path@.len() - name@.len(), path@.len() as int) =~= name@);
        assert(path@.subrange(0, session_dir@.len() as int) =~= session_dir@);
    }
}

/// The chain of a session that runs in no other is its path; else it is the
/// chain of the other, a `:` and its path. It is kept in `HYTCH_SESSION`.
pub proof fn law_chain_grows_by_the_path(
    current: Option<&str>,
    new_socket_path: &str,
    chain: String,
)
    requires
        call_ensures(extend_ancestry, (current, new_socket_path), chain),
    ensures
        current is None || current->0@.len() == 0 ==> chain@ == new_socket_path@,
        current is Some && current->0@.len() > 0 ==> chain@ == current->0@ + ":"@
            + new_socket_path@,
        SESSION_ENVVAR@ == "HYTCH_SESSION"@,
{
}

/// A target is in a chain exactly where it is one of the pieces between the
/// `:`, as a whole; where there is no chain, or an empty one, no target is.
pub proof fn law_chain_contains_whole_paths(
    chain: Option<&str>,
    target: &str,
    r: bool,
    pieces: Vec<&str>,
)
    requires
        call_ensures(ancestry_contains, (chain, target), r),
        chain is Some ==> call_ensures(split, (chain->0, ':'), pieces),
    ensures
        chain is None || chain->0@.len() == 0 ==> !r,
        chain is Some && chain->0@.len() > 0 ==> (r <==> exists|i: int|
            0 <= i < pieces@.len() && (#[trigger] pieces@[i])@ == target@),
{
    if chain is Some && chain->0@.len() > 0 {
        let all = str_views(pieces@);
        assert(all == ancestors(opt_view(chain)));
        if r {
            let i = choose|i: int| 0 <= i < all.len() && all[i] == target@;
            assert(pieces@[i]@ == target@);
        }
        if exists|i: int| 0 <= i < pieces@.len() && (#[trigger] pieces@[i])@ == target@ {
            let i = choose|i: int| 0 <= i < pieces@.len() && (#[trigger] pieces@[i])@ == target@;
            assert(all[i] == target@);
        }
    }
}

/// Whoever is spawned inside a chain is in the chain that it gets, everyone who
/// was in the chain stays there, and no one else comes in.
pub proof fn law_spawned_session_is_guarded(
    current: Option<&str>,
    path: &str,
    chain: String,
    longer: &str,
    target: &str,
    before: bool,
    after: bool,
)
    requires
        call_ensures(extend_ancestry, (current, path), chain),
        longer@ == chain@,
        call_ensures(ancestry_contains, (current, target), before),
        call_ensures(ancestry_contains, (Some(longer), target), after),
        path@.len() > 0,
        !path@.contains(':'),
    ensures
        after <==> before || target@ == path@,
{
    law_extended_chain_guards(opt_view(current), path@, target@);
}

proof fn lemma_last_name_push(path: Seq<char>, name: Seq<char>)
    requires
        !name.contains('/'),
    ensures
        split_on(path + "/"@ + name, '/') == split_on(path, '/').push(name),
        split_on(name, '/') == seq![name],
{
    reveal_strlit("/");
    assert("/"@ =~= seq!['/']);
    lemma_split_concat(path, name, '/');
    lemma_split_one(name, '/');
    assert(split_on(path, '/') + seq![name] =~= split_on(path, '/').push(name));
}

/// The base name of a path is what stands behind its last `/`. A `/` at the end
/// and a `.` there do not count. A path that ends in `..`, or holds no name at
/// all, stands for itself.
pub proof fn law_base_name_is_the_last_segment(path: Seq<char>, name: Seq<char>)
    requires
        name.len() > 0,
        name != "."@,
        name != ".."@,
        !name.contains('/'),
    ensures
        base_name(name) == name,
        base_name(path + "/"@ + name) == name,
        base_name(path + "/"@ + name + "/"@) == name,
        base_name(path + "/"@ + name + "/"@ + "."@) == name,
        base_name(path + "/"@ + ".."@) == path + "/"@ + ".."@,
        base_name(Seq::empty()) == Seq::<char>::empty(),
        base_name("."@) == "."@,
        base_name(".."@) == ".."@,
        base_name("/"@) == "/"@,
{
    reveal_strlit("/");
    reveal_strlit(".");
    reveal_strlit("..");
    reveal_with_fuel(last_name, 3);
    let none = Seq::<char>::empty();
    let one = path + "/"@ + name;
    lemma_last_name_push(path, name);
    lemma_last_name_push(one, none);
    lemma_last_name_push(one, "."@);
    lemma_last_name_push(path, ".."@);
    lemma_last_name_push(none, none);
    lemma_last_name_push(none, "."@);
    lemma_last_name_push(none, ".."@);
    assert(seq![name].last() == name);
    let base = split_on(path, '/');
    assert(base.push(name).last() == name);
    assert(base.push(name).push(none).drop_last() =~= base.push(name));
    assert(base.push(name).push("."@).drop_last() =~= base.push(name));
    assert(one + "/"@ + none =~= one + "/"@);
    assert(base.push(".."@).last() == ".."@);
    assert(none + "/"@ + none =~= "/"@);
    assert(seq![none].drop_last() =~= Seq::<Seq<char>>::empty());
    assert(seq!["."@].drop_last() =~= Seq::<Seq<char>>::empty());
    assert(seq![none].push(none).drop_last() =~= seq![none]);
    assert(last_name(Seq::<Seq<char>>::empty()) is None);
    assert(last_name(seq![none]) is None);
}

/// However many `/` and `.` a path ends in, they do not count.
pub proof fn law_trailing_slashes_and_dots_do_not_count(path: Seq<char>)
    ensures
        last_name(split_on(path + "/"@, '/')) == last_name(split_on(path, '/')),
        last_name(split_on(path + "/"@ + "."@, '/')) == last_name(split_on(path, '/')),
{
    reveal_strlit("/");
    reveal_strlit(".");
    let none = Seq::<char>::empty();
    lemma_last_name_push(path, none);
    lemma_last_name_push(path, "."@);
    assert(path + "/"@ + none =~= path + "/"@);
    let base = split_on(path, '/');
    assert(base.push(none).drop_last() =~= base);
    assert(base.push("."@).drop_last() =~= base);
}

/// The short form of a chain of one path is its base name; that of a longer
/// chain is the short forms of its two parts with `" > "` between them.
pub proof fn law_short_name_is_made_of_base_names(
    chain: &str,
    short: String,
    first: &str,
    first_short: String,
    second: &str,
    second_short: String,
)
    requires
        call_ensures(short_name, (chain,), short),
        call_ensures(short_name, (first,), first_short),
        call_ensures(short_name, (second,), second_short),
        first@.len() > 0,
    ensures
        !chain@.contains(':') ==> short@ == base_name(chain@),
        chain@ == first@ + ":"@ + second@ ==> short@ == first_short@ + " > "@ + second_short@,
{
    let f = |p: Seq<char>| base_name(p);
    if !chain@.contains(':') {
        lemma_split_one(chain@, ':');
        assert(seq![chain@].map_values(f) =~= seq![base_name(chain@)]);
        assert(split_on(chain@, ':').map_values(f) =~= seq![base_name(chain@)]);
    }
    law_short_name_grows(first@, second@);
}

/// A path is shortened exactly where it has more than 107 bytes, a directory
/// and a name; the directory is not empty, and the two still make the path.
pub proof fn law_long_paths_are_shortened(path: &str, r: Option<(String, String)>)
    requires
        call_ensures(shorten_for_unix_socket, (path,), r),
    ensures
        r is Some <==> encode_utf8(path@).len() > 107 && path@.contains('/') && path@.last() != '/',
        r matches Some((dir, name)) ==> dir@.len() > 0 && name@.len() > 0 && !name@.contains('/')
            && (path@ == dir@ + "/"@ + name@ || (dir@ == "/"@ && path@ == dir@ + name@)),
{
    lemma_last_slash(path@);
    reveal_strlit("/");
    match last_slash(path@) {
        Some(i) => {
            assert(path@[i as int] == '/');
            assert(path@.contains('/'));
        },
        None => {},
    }
    match r {
        Some((dir, name)) => {
            law_shortened_path_is_the_same_path(path@, dir@, name@);
        },
        None => {},
    }
}

/// The socket of a bare name is called by that name.
pub proof fn law_bare_name_names_its_socket(name: &str, session_dir: &str, path: String)
    requires
        call_ensures(resolve_socket_path, (name, session_dir), path),
        !name@.contains('/'),
        name@.len() > 0,
        name@ != "."@,
        name@ != ".."@,
    ensures
        base_name(path@) == name@,
{
    reveal_strlit("/");
    assert("/"@ =~= seq!['/']);
    let dir = session_dir@;
    if dir.len() == 0 {
        law_base_name_is_the_last_segment(dir, name@);
        assert(dir + name@ =~= name@);
    } else if dir.last() == '/' {
        law_base_name_is_the_last_segment(dir.drop_last(), name@);
        assert(dir.drop_last() + "/"@ + name@ =~= dir + name@);
    } else {
        law_base_name_is_the_last_segment(dir, name@);
    }
}

} // verus!
