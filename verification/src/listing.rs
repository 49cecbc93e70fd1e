//! The listing of sessions: which files of the session directory are sessions,
//! in what order they come, and how each is shown.

use crate::commands::{problem, problem_line, warning, Report, ReportView, NAME_WIDTH};
use crate::paths::log_path_of;
use crate::text::{chars_of, pad, padded, str_eq, views};
use vstd::prelude::*;
use vstd::string::*;

verus! {

/// A file of the session directory.
#[derive(Debug, Clone, PartialEq, Eq)]
pub struct ListEntry {
    /// The bytes of its name, by which files are ordered.
    pub key: Vec<u8>,
    /// Its name as it is shown.
    pub name: String,
    /// Whether a daemon accepted a connection on it.
    pub running: bool,
    /// For a log: whether the socket that it belongs to is there.
    pub has_socket: bool,
}

/// A [`ListEntry`] by its contents.
#[verifier::ext_equal]
pub struct EntryView {
    pub key: Seq<u8>,
    pub name: Seq<char>,
    pub running: bool,
    pub has_socket: bool,
}

impl View for ListEntry {
    type V = EntryView;

    open spec fn view(&self) -> EntryView {
        EntryView {
            key: self.key@,
            name: self.name@,
            running: self.running,
            has_socket: self.has_socket,
        }
    }
}

/// The entries by their contents.
pub open spec fn entry_views(v: Seq<ListEntry>) -> Seq<EntryView> {
    v.map_values(|e: ListEntry| e@)
}

/// Whether `a` comes before `b` in the order of their bytes, or is the same.
pub open spec fn bytes_le(a: Seq<u8>, b: Seq<u8>) -> bool
    decreases a.len(),
{
    if a.len() == 0 {
        true
    } else if b.len() == 0 {
        false
    } else if a[0] != b[0] {
        a[0] < b[0]
    } else {
        bytes_le(a.drop_first(), b.drop_first())
    }
}

/// `x` put behind the entries of `s` that do not come after it.
pub open spec fn inserted(s: Seq<EntryView>, x: EntryView) -> Seq<EntryView>
    decreases s.len(),
{
    if s.len() == 0 || bytes_le(s.last().key, x.key) {
        s.push(x)
    } else {
        inserted(s.drop_last(), x).push(s.last())
    }
}

/// The entries in the order of their names; those with one name keep theirs.
pub open spec fn in_order(s: Seq<EntryView>) -> Seq<EntryView>
    decreases s.len(),
{
    if s.len() == 0 {
        s
    } else {
        inserted(in_order(s.drop_last()), s.last())
    }
}

/// What a log belongs to: its name without the suffix.
pub open spec fn log_owner(name: Seq<char>) -> Option<Seq<char>> {
    if name.len() >= 4 && name.skip(name.len() - 4) == ".log"@ {
        Some(name.take(name.len() - 4))
    } else {
        None
    }
}

/// Whether a file is a session's socket: it is not hidden, and no log.
pub open spec fn names_session(name: Seq<char>) -> bool {
    !(name.len() > 0 && name[0] == '.') && log_owner(name) is None
}

/// The line of a session.
pub open spec fn session_line(e: EntryView) -> Seq<char> {
    padded(e.name, NAME_WIDTH as nat) + (if e.running {
        " [running]"@
    } else {
        " [stale]"@
    })
}

/// The lines of the sessions among the entries.
pub open spec fn session_lines(s: Seq<EntryView>) -> Seq<Seq<char>>
    decreases s.len(),
{
    if s.len() == 0 {
        Seq::empty()
    } else if names_session(s.last().name) {
        session_lines(s.drop_last()).push(session_line(s.last()))
    } else {
        session_lines(s.drop_last())
    }
}

/// The line of a session of which only the log is left.
pub open spec fn exited_line(owner: Seq<char>) -> Seq<char> {
    padded(owner, NAME_WIDTH as nat) + " [exited]"@
}

/// The lines of the logs whose socket is gone.
pub open spec fn exited_lines(s: Seq<EntryView>) -> Seq<Seq<char>>
    decreases s.len(),
{
    if s.len() == 0 {
        Seq::empty()
    } else {
        let rest = exited_lines(s.drop_last());
        match log_owner(s.last().name) {
            Some(owner) => if s.last().has_socket {
                rest
            } else {
                rest.push(exited_line(owner))
            },
            None => rest,
        }
    }
}

/// The lines of a listing: the sessions, then, if asked for, those that have
/// exited.
pub open spec fn listing(s: Seq<EntryView>, show_all: bool) -> Seq<Seq<char>> {
    session_lines(s) + (if show_all {
        exited_lines(s)
    } else {
        Seq::empty()
    })
}

/// The lines, or a remark where there are none.
pub open spec fn or_none(lines: Seq<Seq<char>>, quiet: bool) -> ReportView {
    ReportView {
        code: 0,
        out: if lines.len() == 0 && !quiet {
            seq!["(no sessions)"@]
        } else {
            lines
        },
        err: Seq::empty(),
    }
}

/// Whether `a` comes before `b` in the order of their bytes, or is the same.
fn is_le(a: &Vec<u8>, b: &Vec<u8>) -> (r: bool)
    ensures
        r == bytes_le(a@, b@),
{
    let mut i: usize = 0;
    assert(a@.skip(0) =~= a@);
    assert(b@.skip(0) =~= b@);
    loop
        invariant
            i <= a@.len(),
            i <= b@.len(),
            bytes_le(a@.skip(i as int), b@.skip(i as int)) == bytes_le(a@, b@),
        decreases a@.len() - i,
    {
        if i == a.len() {
            return true;
        }
        if i == b.len() {
            return false;
        }
        assert(a@.skip(i as int).drop_first() =~= a@.skip(i + 1));
        assert(b@.skip(i as int).drop_first() =~= b@.skip(i + 1));
        if a[i] != b[i] {
            return a[i] < b[i];
        }
        i += 1;
    }
}

/// What the file `name` belongs to, if it is a log.
pub fn log_base<'a>(name: &'a str) -> (r: Option<&'a str>)
    ensures
        match r {
            Some(owner) => log_owner(name@) == Some(owner@),
            None => log_owner(name@) is None,
        },
{
    let n: usize = name.unicode_len();
    if n >= 4 {
        let suffix = name.substring_char(n - 4, n);
        assert(suffix@ =~= name@.skip(n - 4));
        if str_eq(suffix, ".log") {
            let owner = name.substring_char(0, n - 4);
            assert(owner@ =~= name@.take(n - 4));
            return Some(owner);
        }
    }
    None
}

/// Whether the file `name` is a session's socket, so that it is worth finding
/// out whether a daemon listens on it.
pub fn is_session_name(name: &str) -> (r: bool)
    ensures
        r == names_session(name@),
{
    let chars = chars_of(name);
    if chars.len() > 0 && chars[0] == '.' {
        return false;
    }
    log_base(name).is_none()
}

proof fn lemma_inserted_at(s: Seq<EntryView>, x: EntryView, at: int)
    requires
        0 <= at <= s.len(),
        forall|j: int| at <= j < s.len() ==> !bytes_le((#[trigger] s[j]).key, x.key),
        at > 0 ==> bytes_le(s[at - 1].key, x.key),
    ensures
        inserted(s, x) == s.insert(at, x),
    decreases s.len(),
{
    if at == s.len() {
        assert(s.insert(at, x) =~= s.push(x));
    } else {
        let t = s.drop_last();
        assert(s[s.len() - 1] == s.last());
        lemma_inserted_at(t, x, at);
        assert(s.insert(at, x) =~= t.insert(at, x).push(s.last()));
    }
}

/// The entries by the positions in `order`.
spec fn picked(all: Seq<EntryView>, order: Seq<usize>) -> Seq<EntryView> {
    order.map_values(|i: usize| all[i as int])
}

/// The positions of the entries in the order of their names.
fn sort_order(entries: &Vec<ListEntry>) -> (order: Vec<usize>)
    ensures
        order@.len() == entries@.len(),
        forall|j: int| 0 <= j < order@.len() ==> (#[trigger] order@[j]) < entries@.len(),
        picked(entry_views(entries@), order@) == in_order(entry_views(entries@)),
{
    let ghost all = entry_views(entries@);
    let mut order: Vec<usize> = Vec::new();
    let mut i: usize = 0;
    assert(picked(all, order@) =~= in_order(all.take(0)));
    while i < entries.len()
        invariant
            i <= entries@.len(),
            all == entry_views(entries@),
            order@.len() == i,
            forall|j: int| 0 <= j < order@.len() ==> (#[trigger] order@[j]) < i,
            picked(all, order@) == in_order(all.take(i as int)),
        decreases entries.len() - i,
    {
        let ghost sorted = picked(all, order@);
        let mut at: usize = order.len();
        while at > 0 && !is_le(&entries[order[at - 1]].key, &entries[i].key)
            invariant
                i < entries@.len(),
                at <= order@.len(),
                all == entry_views(entries@),
                sorted == picked(all, order@),
                forall|j: int| 0 <= j < order@.len() ==> (#[trigger] order@[j]) < i,
                forall|j: int|
                    at <= j < sorted.len() ==> !bytes_le(
                        (#[trigger] sorted[j]).key,
                        all[i as int].key,
                    ),
            decreases at,
        {
            assert(sorted[at - 1] == all[order@[at - 1] as int]);
            at -= 1;
        }
        proof {
            if at > 0 {
                assert(sorted[at - 1] == all[order@[at - 1] as int]);
            }
            lemma_inserted_at(sorted, all[i as int], at as int);
            assert(all.take(i + 1).drop_last() =~= all.take(i as int));
        }
        let ghost before = order@;
        order.insert(at, i);
        proof {
            assert(picked(all, order@) =~= sorted.insert(at as int, all[i as int]));
            assert forall|j: int| 0 <= j < order@.len() implies (#[trigger] order@[j]) < i + 1 by {
                if j < at {
                    assert(order@[j] == before[j]);
                } else if j > at {
                    assert(order@[j] == before[j - 1]);
                }
            }
        }
        i += 1;
    }
    assert(all.take(i as int) =~= all);
    order
}

/// The line of a session.
fn line_of(entry: &ListEntry) -> (line: String)
    ensures
        line@ == session_line(entry@),
{
    let mut line = pad(entry.name.as_str(), NAME_WIDTH);
    if entry.running {
        line.append(" [running]");
    } else {
        line.append(" [stale]");
    }
    line
}

/// Lists the files of a session directory, in the order of their names. A
/// session whose daemon accepts connections is running, which says nothing of
/// whether a client is attached to it; any other is stale. With `show_all`,
/// logs that are left of a session follow.
pub fn list(entries: &Vec<ListEntry>, show_all: bool, quiet: bool) -> (r: Report)
    ensures
        r@ == or_none(listing(in_order(entry_views(entries@)), show_all), quiet),
{
    let order = sort_order(entries);
    let ghost sorted = in_order(entry_views(entries@));
    let mut out: Vec<String> = Vec::new();
    let mut i: usize = 0;
    assert(views(out@) =~= session_lines(sorted.take(0)));
    while i < order.len()
        invariant
            i <= order@.len(),
            order@.len() == sorted.len(),
            forall|j: int| 0 <= j < order@.len() ==> (#[trigger] order@[j]) < entries@.len(),
            sorted == picked(entry_views(entries@), order@),
            views(out@) == session_lines(sorted.take(i as int)),
        decreases order.len() - i,
    {
        let entry = &entries[order[i]];
        let ghost before = out@;
        proof {
            assert(sorted[i as int] == entry@);
            assert(sorted.take(i + 1).last() == entry@);
            assert(sorted.take(i + 1).drop_last() =~= sorted.take(i as int));
        }
        if is_session_name(entry.name.as_str()) {
            let line = line_of(entry);
            out.push(line);
            assert(views(out@) =~= views(before).push(line@));
        }
        i += 1;
    }
    assert(sorted.take(i as int) =~= sorted);
    if show_all {
        let ghost first = views(out@);
        let mut j: usize = 0;
        assert(first + exited_lines(sorted.take(0)) =~= first);
        while j < order.len()
            invariant
                j <= order@.len(),
                order@.len() == sorted.len(),
                forall|j: int| 0 <= j < order@.len() ==> (#[trigger] order@[j]) < entries@.len(),
                sorted == picked(entry_views(entries@), order@),
                views(out@) == first + exited_lines(sorted.take(j as int)),
            decreases order.len() - j,
        {
            let entry = &entries[order[j]];
            let ghost before = out@;
            proof {
                assert(sorted[j as int] == entry@);
                assert(sorted.take(j + 1).last() == entry@);
                assert(sorted.take(j + 1).drop_last() =~= sorted.take(j as int));
            }
            match log_base(entry.name.as_str()) {
                Some(owner) => {
                    if !entry.has_socket {
                        let mut line = pad(owner, NAME_WIDTH);
                        line.append(" [exited]");
                        out.push(line);
                        assert(views(out@) =~= views(before).push(line@));
                        assert(views(out@) =~= first + exited_lines(sorted.take(j + 1)));
                    }
                },
                None => {},
            }
            j += 1;
        }
        assert(sorted.take(j as int) =~= sorted);
    } else {
        assert(views(out@) =~= listing(sorted, show_all));
    }
    let ghost lines = listing(sorted, show_all);
    if out.len() == 0 && !quiet {
        out.push("(no sessions)".to_owned());
        assert(views(out@) =~= seq!["(no sessions)"@]);
    }
    let r = Report { code: 0, out, err: Vec::new() };
    assert(r@ =~= or_none(lines, quiet));
    r
}

/// Why a session directory could not be read.
#[derive(Debug, Clone, PartialEq, Eq)]
pub enum DirFailure {
    /// There is none: no session was ever started.
    Missing,
    /// Anything else, in words.
    Other(String),
}

/// What is listed where the session directory could not be read.
pub fn list_unreadable(session_dir: &str, failure: DirFailure, quiet: bool) -> (r: Report)
    ensures
        r@ == (match failure {
            DirFailure::Missing => or_none(Seq::empty(), quiet),
            DirFailure::Other(text) => warning(1, problem(session_dir@, text@)),
        }),
{
    match failure {
        DirFailure::Missing => {
            let none: Vec<ListEntry> = Vec::new();
            assert(in_order(entry_views(none@)) =~= Seq::<EntryView>::empty());
            assert(listing(Seq::<EntryView>::empty(), false) =~= Seq::<Seq<char>>::empty());
            list(&none, false, quiet)
        },
        DirFailure::Other(text) => Report::warning(1, problem_line(session_dir, text.as_str())),
    }
}

proof fn lemma_le_total(a: Seq<u8>, b: Seq<u8>)
    ensures
        bytes_le(a, b) || bytes_le(b, a),
        bytes_le(a, b) && bytes_le(b, a) ==> a == b,
    decreases a.len(),
{
    if a.len() > 0 && b.len() > 0 && a[0] == b[0] {
        lemma_le_total(a.drop_first(), b.drop_first());
        if bytes_le(a, b) && bytes_le(b, a) {
            assert(a =~= seq![a[0]] + a.drop_first());
            assert(b =~= seq![b[0]] + b.drop_first());
        }
    } else if a.len() == 0 && b.len() == 0 {
        assert(a =~= b);
    }
}

proof fn lemma_le_transitive(a: Seq<u8>, b: Seq<u8>, c: Seq<u8>)
    requires
        bytes_le(a, b),
        bytes_le(b, c),
    ensures
        bytes_le(a, c),
    decreases a.len(),
{
    if a.len() > 0 && a[0] == b[0] && b[0] == c[0] {
        lemma_le_transitive(a.drop_first(), b.drop_first(), c.drop_first());
    }
}

/// The entries come in the order of their names.
pub open spec fn is_ordered(s: Seq<EntryView>) -> bool {
    forall|i: int, j: int|
        0 <= i < j < s.len() ==> bytes_le((#[trigger] s[i]).key, (#[trigger] s[j]).key)
}

proof fn lemma_inserted_is_ordered(s: Seq<EntryView>, x: EntryView)
    requires
        is_ordered(s),
    ensures
        is_ordered(inserted(s, x)),
        inserted(s, x).len() == s.len() + 1,
        forall|j: int|
            0 <= j < inserted(s, x).len() ==> (#[trigger] inserted(s, x)[j]) == x || s.contains(
                inserted(s, x)[j],
            ),
        inserted(s, x).to_multiset() == s.to_multiset().insert(x),
    decreases s.len(),
{
    s.to_multiset_ensures();
    let r = inserted(s, x);
    if s.len() == 0 || bytes_le(s.last().key, x.key) {
        assert forall|i: int, j: int| 0 <= i < j < r.len() implies bytes_le(
            (#[trigger] r[i]).key,
            (#[trigger] r[j]).key,
        ) by {
            if j == s.len() && i < s.len() - 1 {
                lemma_le_transitive(s[i].key, s.last().key, x.key);
            }
        }
        assert forall|j: int| 0 <= j < r.len() implies (#[trigger] r[j]) == x || s.contains(r[j]) by {
            if j < s.len() {
                assert(s[j] == r[j]);
            }
        }
    } else {
        let t = s.drop_last();
        lemma_inserted_is_ordered(t, x);
        let q = inserted(t, x);
        lemma_le_total(s.last().key, x.key);
        assert forall|i: int, j: int| 0 <= i < j < r.len() implies bytes_le(
            (#[trigger] r[i]).key,
            (#[trigger] r[j]).key,
        ) by {
            if j == q.len() {
                assert(r[i] == q[i]);
                if q[i] != x {
                    let k = choose|k: int| 0 <= k < t.len() && t[k] == q[i];
                    assert(s[k] == q[i]);
                }
            } else {
                assert(r[i] == q[i] && r[j] == q[j]);
            }
        }
        assert forall|j: int| 0 <= j < r.len() implies (#[trigger] r[j]) == x || s.contains(r[j]) by {
            if j < q.len() {
                assert(r[j] == q[j]);
                if q[j] != x {
                    let k = choose|k: int| 0 <= k < t.len() && t[k] == q[j];
                    assert(s[k] == r[j]);
                }
            } else {
                assert(r[j] == s[s.len() - 1]);
            }
        }
        t.to_multiset_ensures();
        q.to_multiset_ensures();
        assert(s =~= t.push(s.last()));
        assert(r.to_multiset() =~= s.to_multiset().insert(x));
    }
}

/// A listing shows every file of the directory once, in the order of the
/// names.
pub proof fn law_listing_is_ordered_and_complete(s: Seq<EntryView>)
    ensures
        is_ordered(in_order(s)),
        in_order(s).to_multiset() == s.to_multiset(),
    decreases s.len(),
{
    if s.len() > 0 {
        law_listing_is_ordered_and_complete(s.drop_last());
        lemma_inserted_is_ordered(in_order(s.drop_last()), s.last());
        s.drop_last().to_multiset_ensures();
        assert(s =~= s.drop_last().push(s.last()));
    }
}

/// No two entries have one name.
pub open spec fn has_distinct_names(s: Seq<EntryView>) -> bool {
    forall|i: int, j: int|
        0 <= i < s.len() && 0 <= j < s.len() && (#[trigger] s[i]).key == (#[trigger] s[j]).key
            ==> i == j
}

proof fn lemma_ordered_is_unique(a: Seq<EntryView>, b: Seq<EntryView>)
    requires
        is_ordered(a),
        is_ordered(b),
        has_distinct_names(a),
        a.to_multiset() == b.to_multiset(),
    ensures
        a == b,
    decreases a.len(),
{
    a.to_multiset_ensures();
    b.to_multiset_ensures();
    assert(a.len() == b.len());
    if a.len() == 0 {
        assert(a =~= b);
    } else {
        let x = a.last();
        let y = b.last();
        assert(a.contains(x)) by {
            assert(a[a.len() - 1] == x);
        }
        assert(b.contains(y)) by {
            assert(b[b.len() - 1] == y);
        }
        assert(a.to_multiset().count(x) > 0);
        assert(b.to_multiset().count(y) > 0);
        assert(b.contains(x) && a.contains(y));
        let i = choose|i: int| 0 <= i < b.len() && b[i] == x;
        let j = choose|j: int| 0 <= j < a.len() && a[j] == y;
        lemma_le_total(x.key, y.key);
        lemma_le_total(x.key, x.key);
        assert(bytes_le(x.key, y.key)) by {
            assert(b[b.len() - 1] == y);
        }
        assert(bytes_le(y.key, x.key)) by {
            assert(a[a.len() - 1] == x);
        }
        assert(a[j].key == a[a.len() - 1].key);
        assert(x == y);
        let p = a.drop_last();
        let q = b.drop_last();
        p.to_multiset_ensures();
        q.to_multiset_ensures();
        assert(a =~= p.push(x));
        assert(b =~= q.push(x));
        assert(p.to_multiset() =~= a.to_multiset().remove(x));
        assert(q.to_multiset() =~= b.to_multiset().remove(x));
        assert forall|i: int, j: int|
            0 <= i < p.len() && 0 <= j < p.len() && (#[trigger] p[i]).key == (
            #[trigger] p[j]).key implies i == j by {
            assert(a[i] == p[i] && a[j] == p[j]);
        }
        assert forall|i: int, j: int| 0 <= i < j < p.len() implies bytes_le(
            (#[trigger] p[i]).key,
            (#[trigger] p[j]).key,
        ) by {
            assert(a[i] == p[i] && a[j] == p[j]);
        }
        assert forall|i: int, j: int| 0 <= i < j < q.len() implies bytes_le(
            (#[trigger] q[i]).key,
            (#[trigger] q[j]).key,
        ) by {
            assert(b[i] == q[i] && b[j] == q[j]);
        }
        lemma_ordered_is_unique(p, q);
    }
}

proof fn lemma_in_order_has_distinct_names(s: Seq<EntryView>)
    requires
        has_distinct_names(s),
    ensures
        has_distinct_names(in_order(s)),
{
    let r = in_order(s);
    law_listing_is_ordered_and_complete(s);
    s.to_multiset_ensures();
    r.to_multiset_ensures();
    assert forall|i: int, j: int|
        0 <= i < r.len() && 0 <= j < r.len() && (#[trigger] r[i]).key == (
        #[trigger] r[j]).key implies i == j by {
        assert(r.contains(r[i]) && r.contains(r[j]));
        assert(r.to_multiset().count(r[i]) > 0 && r.to_multiset().count(r[j]) > 0);
        assert(s.contains(r[i]) && s.contains(r[j]));
        let k = choose|k: int| 0 <= k < s.len() && s[k] == r[i];
        let l = choose|l: int| 0 <= l < s.len() && s[l] == r[j];
        assert(s[k].key == s[l].key);
        assert(s.no_duplicates()) by {
            assert forall|m: int, n: int| 0 <= m < s.len() && 0 <= n < s.len() && m != n implies s[m]
                != s[n] by {
                if s[m] == s[n] {
                    assert(s[m].key == s[n].key);
                }
            }
        }
        s.lemma_multiset_has_no_duplicates();
        if i != j {
            r.lemma_multiset_has_no_duplicates_conv();
            assert(r[i] != r[j]);
        }
    }
}

/// A listing does not depend on the order in which the directory is read:
/// files have distinct names.
pub proof fn law_listing_ignores_directory_order(a: Seq<EntryView>, b: Seq<EntryView>)
    requires
        has_distinct_names(a),
        a.to_multiset() == b.to_multiset(),
    ensures
        in_order(a) == in_order(b),
{
    law_listing_is_ordered_and_complete(a);
    law_listing_is_ordered_and_complete(b);
    lemma_in_order_has_distinct_names(a);
    lemma_ordered_is_unique(in_order(a), in_order(b));
}

/// Every session has its line, and so has every log whose socket is gone where
/// those are asked for; no file has two.
pub proof fn law_every_session_has_its_line(s: Seq<EntryView>, i: int, show_all: bool)
    requires
        0 <= i < s.len(),
    ensures
        names_session(s[i].name) ==> listing(s, show_all).contains(session_line(s[i])),
        log_owner(s[i].name) matches Some(owner) ==> show_all && !s[i].has_socket ==> listing(
            s,
            show_all,
        ).contains(exited_line(owner)),
        listing(s, show_all).len() <= s.len(),
{
    lemma_lines(s, i);
    let a = session_lines(s);
    let b = exited_lines(s);
    let all = listing(s, show_all);
    if names_session(s[i].name) {
        let k = choose|k: int| 0 <= k < a.len() && a[k] == session_line(s[i]);
        assert(all[k] == session_line(s[i]));
    }
    if log_owner(s[i].name) is Some && show_all && !s[i].has_socket {
        let line = exited_line(log_owner(s[i].name)->0);
        let k = choose|k: int| 0 <= k < b.len() && b[k] == line;
        assert(all[a.len() + k] == line);
    }
}

proof fn lemma_lines(s: Seq<EntryView>, i: int)
    requires
        0 <= i < s.len(),
    ensures
        names_session(s[i].name) ==> session_lines(s).contains(session_line(s[i])),
        log_owner(s[i].name) matches Some(owner) ==> !s[i].has_socket ==> exited_lines(s).contains(
            exited_line(owner),
        ),
        session_lines(s).len() + exited_lines(s).len() <= s.len(),
    decreases s.len(),
{
    let t = s.drop_last();
    if t.len() > 0 {
        lemma_lines(t, if i < t.len() { i } else { 0 });
    } else {
        assert(session_lines(t).len() == 0 && exited_lines(t).len() == 0);
    }
    let a = session_lines(s);
    let b = exited_lines(s);
    if i < t.len() {
        assert(s[i] == t[i]);
        if names_session(s[i].name) {
            let c = session_lines(t);
            let k = choose|k: int| 0 <= k < c.len() && c[k] == session_line(s[i]);
            assert(a[k] == session_line(s[i]));
        }
        if log_owner(s[i].name) is Some && !s[i].has_socket {
            let line = exited_line(log_owner(s[i].name)->0);
            let c = exited_lines(t);
            let k = choose|k: int| 0 <= k < c.len() && c[k] == line;
            assert(b[k] == line);
        }
    } else {
        if names_session(s[i].name) {
            assert(a[a.len() - 1] == session_line(s[i]));
        }
        if log_owner(s[i].name) is Some && !s[i].has_socket {
            assert(b[b.len() - 1] == exited_line(log_owner(s[i].name)->0));
        }
    }
}

/// Names are ordered byte by byte: the first byte in which two differ decides,
/// and a name comes before those that it is the beginning of.
pub proof fn law_first_difference_decides(
    common: Seq<u8>,
    x: u8,
    y: u8,
    a: Seq<u8>,
    b: Seq<u8>,
)
    ensures
        bytes_le(common, common + a),
        a.len() > 0 ==> !bytes_le(common + a, common),
        x != y ==> (bytes_le(common + seq![x] + a, common + seq![y] + b) <==> x < y),
    decreases common.len(),
{
    if common.len() > 0 {
        let rest = common.drop_first();
        law_first_difference_decides(rest, x, y, a, b);
        assert((common + a).drop_first() =~= rest + a);
        assert((common + seq![x] + a).drop_first() =~= rest + seq![x] + a);
        assert((common + seq![y] + b).drop_first() =~= rest + seq![y] + b);
    }
}

/// A file is a log exactly where its name ends in `.log`, and it belongs to what
/// stands before that; any other file that does not begin with a `.` is a
/// session.
pub proof fn law_file_is_a_log_by_its_suffix(name: &str, owner: Option<&str>, session: bool)
    requires
        call_ensures(log_base, (name,), owner),
        call_ensures(is_session_name, (name,), session),
    ensures
        owner is Some <==> ".log"@.is_suffix_of(name@),
        owner is Some ==> name@ == owner->0@ + ".log"@,
        session <==> (name@.len() == 0 || name@[0] != '.') && !".log"@.is_suffix_of(name@),
{
    lemma_log_owner(name@);
}

proof fn lemma_log_owner(name: Seq<char>)
    ensures
        log_owner(name) is Some <==> ".log"@.is_suffix_of(name),
        log_owner(name) matches Some(owner) ==> name == owner + ".log"@,
{
    reveal_strlit(".log");
    if name.len() >= 4 {
        assert(name.skip(name.len() - 4) =~= name.subrange(name.len() - 4, name.len() as int));
        assert(name.take(name.len() - 4) + name.skip(name.len() - 4) =~= name);
    }
}

/// The log of a socket is a log, and belongs to that socket.
pub proof fn law_log_belongs_to_its_socket(socket_path: Seq<char>)
    ensures
        log_owner(log_path_of(socket_path)) == Some(socket_path),
{
    reveal_strlit(".log");
    let path = log_path_of(socket_path);
    assert(path.skip(path.len() - 4) =~= ".log"@);
    assert(path.take(path.len() - 4) =~= socket_path);
}

/// A name and a mark as they stand in a listing: the name, spaces up to the
/// width of the column, and the mark.
pub open spec fn marked(name: Seq<char>, mark: Seq<char>) -> Seq<char> {
    name + Seq::new(if name.len() < 24 { (24 - name.len()) as nat } else { 0 }, |i: int| ' ') + mark
}

/// The lines of a listing, by what becomes of each file: those that are neither
/// hidden nor logs are shown as running or stale, and where all are asked for,
/// the logs without a socket follow as exited.
pub open spec fn lines_by_file(s: Seq<EntryView>, show_all: bool) -> Seq<Seq<char>> {
    let sessions = s.filter(
        |e: EntryView|
            (e.name.len() == 0 || e.name[0] != '.') && !".log"@.is_suffix_of(e.name),
    ).map_values(
        |e: EntryView|
            marked(
                e.name,
                if e.running {
                    " [running]"@
                } else {
                    " [stale]"@
                },
            ),
    );
    let logs = s.filter(|e: EntryView| ".log"@.is_suffix_of(e.name) && !e.has_socket).map_values(
        |e: EntryView| marked(e.name.take(e.name.len() - 4), " [exited]"@),
    );
    if show_all {
        sessions + logs
    } else {
        sessions
    }
}

proof fn lemma_lines_by_file(s: Seq<EntryView>)
    ensures
        lines_by_file(s, false) == session_lines(s),
        lines_by_file(s, true) == session_lines(s) + exited_lines(s),
    decreases s.len(),
{
    let is_session = |e: EntryView|
        (e.name.len() == 0 || e.name[0] != '.') && !".log"@.is_suffix_of(e.name);
    let is_left = |e: EntryView| ".log"@.is_suffix_of(e.name) && !e.has_socket;
    let shown = |e: EntryView|
        marked(
            e.name,
            if e.running {
                " [running]"@
            } else {
                " [stale]"@
            },
        );
    let left = |e: EntryView| marked(e.name.take(e.name.len() - 4), " [exited]"@);
    reveal(Seq::filter);
    if s.len() > 0 {
        let t = s.drop_last();
        let e = s.last();
        lemma_lines_by_file(t);
        lemma_log_owner(e.name);
        assert(shown(e) =~= session_line(e));
        if is_session(e) {
            assert(t.filter(is_session).push(e).map_values(shown) =~= t.filter(
                is_session,
            ).map_values(shown).push(shown(e)));
        }
        if is_left(e) {
            let owner = log_owner(e.name)->0;
            assert(left(e) =~= exited_line(owner));
            assert(t.filter(is_left).push(e).map_values(left) =~= t.filter(is_left).map_values(
                left,
            ).push(left(e)));
        }
        assert(t.filter(is_session).map_values(shown) =~= session_lines(t));
        assert(t.filter(is_left).map_values(left) =~= exited_lines(t)) by {
            let a = session_lines(t);
            let b = t.filter(is_left).map_values(left);
            assert(lines_by_file(t, true) == a + b);
            assert((a + b).skip(a.len() as int) =~= b);
            assert((a + exited_lines(t)).skip(a.len() as int) =~= exited_lines(t));
        }
        assert(s.filter(is_session).map_values(shown) =~= session_lines(s));
        assert(s.filter(is_left).map_values(left) =~= exited_lines(s));
    } else {
        assert(s.filter(is_session).map_values(shown) =~= session_lines(s));
        assert(s.filter(is_left).map_values(left) =~= exited_lines(s));
        assert(lines_by_file(s, true) =~= session_lines(s) + exited_lines(s));
    }
}

/// A listing succeeds, and prints the lines of the files in the order of their
/// names; where there are none it says so, unless it is to be quiet.
pub proof fn law_list_shows_the_files_in_order(
    entries: &Vec<ListEntry>,
    show_all: bool,
    quiet: bool,
    r: Report,
)
    requires
        call_ensures(list, (entries, show_all, quiet), r),
    ensures
        r.code == 0,
        r.err@.len() == 0,
        exists|sorted: Seq<EntryView>| #[trigger]
            is_ordered(sorted) && sorted.to_multiset() == entry_views(entries@).to_multiset()
                && views(r.out@) == (if lines_by_file(sorted, show_all).len() == 0 && !quiet {
                seq!["(no sessions)"@]
            } else {
                lines_by_file(sorted, show_all)
            }),
{
    let sorted = in_order(entry_views(entries@));
    law_listing_is_ordered_and_complete(entry_views(entries@));
    lemma_lines_by_file(sorted);
    assert(listing(sorted, show_all) =~= lines_by_file(sorted, show_all));
    assert(r@.err.len() == r.err@.len());
    assert(is_ordered(sorted));
}

/// Where there is no session directory, there are no sessions, which is no
/// failure; where it cannot be read, that is a failure, and its reason is given.
pub proof fn law_missing_directory_lists_nothing(
    session_dir: &str,
    failure: DirFailure,
    quiet: bool,
    r: Report,
)
    requires
        call_ensures(list_unreadable, (session_dir, failure, quiet), r),
    ensures
        failure is Missing ==> r.code == 0 && r.err@.len() == 0,
        failure is Missing && quiet ==> r.out@.len() == 0,
        failure is Missing && !quiet ==> views(r.out@) == seq!["(no sessions)"@],
        failure matches DirFailure::Other(text) ==> r.code == 1 && r.out@.len() == 0 && views(
            r.err@,
        ) == seq!["hytch: "@ + session_dir@ + ": "@ + text@],
{
    assert(r@.err.len() == r.err@.len());
    assert(r@.out.len() == r.out@.len());
}

} // verus!
