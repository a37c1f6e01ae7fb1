//! File system paths and the search path, as strings.
use vstd::prelude::*;
use vstd::string::StrSliceExecFns;
use vstd::string::StringExecFns;
use crate::text::{push_str, starts_with, str_eq, str_starts_with, substring};

verus! {

/// `base` extended by `rel` as a path: an absolute `rel` replaces `base`;
/// otherwise a `/` goes between them unless `base` is empty or already ends
/// with one.
pub open spec fn join_path(base: Seq<char>, rel: Seq<char>) -> Seq<char> {
    if starts_with(rel, "/"@) {
        rel
    } else if base.len() == 0 || base.last() == '/' {
        base + rel
    } else {
        base + "/"@ + rel
    }
}

/// `base` extended by `rel`, as [`join_path`] says.
pub fn join(base: &str, rel: &str) -> (r: String)
    ensures
        r@ == join_path(base@, rel@),
{
    proof {
        reveal_strlit("/");
    }
    if str_starts_with(rel, "/") {
        return String::from_str(rel);
    }
    let n = base.unicode_len();
    let mut r = String::from_str(base);
    if n > 0 && base.get_char(n - 1) != '/' {
        r.append("/");
    }
    r.append(rel);
    r
}

/// The directory for user data: `$XDG_DATA_HOME` when set, else
/// `.local/share` under the home directory (`/` when that is unknown too).
pub open spec fn data_home_spec(xdg_data_home: Option<Seq<char>>, home: Option<Seq<char>>) -> Seq<
    char,
> {
    match xdg_data_home {
        Some(d) => d,
        None => join_path(
            match home {
                Some(h) => h,
                None => "/"@,
            },
            ".local/share"@,
        ),
    }
}

/// The directory for user data, as [`data_home_spec`] says.
pub fn data_home(xdg_data_home: Option<&str>, home: Option<&str>) -> (r: String)
    ensures
        r@ == data_home_spec(
            match xdg_data_home {
                Some(d) => Some(d@),
                None => None,
            },
            match home {
                Some(h) => Some(h@),
                None => None,
            },
        ),
{
    match xdg_data_home {
        Some(d) => String::from_str(d),
        None => match home {
            Some(h) => join(h, ".local/share"),
            None => join("/", ".local/share"),
        },
    }
}

/// The directory that holds the `ssh` and `sftp` links to this program.
pub open spec fn wrapper_dir_spec(data_home: Seq<char>) -> Seq<char> {
    join_path(data_home, "toolbx-zed-bin"@)
}

/// The directory that holds the `ssh` and `sftp` links to this program.
pub fn wrapper_dir(data_home: &str) -> (r: String)
    ensures
        r@ == wrapper_dir_spec(data_home@),
{
    join(data_home, "toolbx-zed-bin")
}

/// The debug log: `toolbx-zed.log` in `$XDG_RUNTIME_DIR`, or in
/// `/run/user/<user id>` when that is not set.
pub open spec fn log_file_spec(runtime_dir: Option<Seq<char>>, user_id: Seq<char>) -> Seq<char> {
    join_path(
        match runtime_dir {
            Some(d) => d,
            None => "/run/user/"@ + user_id,
        },
        "toolbx-zed.log"@,
    )
}

/// The debug log, as [`log_file_spec`] says.
pub fn log_file(runtime_dir: Option<&str>, user_id: &str) -> (r: String)
    ensures
        r@ == log_file_spec(
            match runtime_dir {
                Some(d) => Some(d@),
                None => None,
            },
            user_id@,
        ),
{
    match runtime_dir {
        Some(d) => join(d, "toolbx-zed.log"),
        None => {
            let mut dir = String::from_str("/run/user/");
            dir.append(user_id);
            join(dir.as_str(), "toolbx-zed.log")
        },
    }
}

/// The last component of a program path: what follows its last `/`.
pub open spec fn base_name(s: Seq<char>) -> Seq<char>
    decreases s.len(),
{
    if s.len() == 0 {
        s
    } else if s.last() == '/' {
        seq![]
    } else {
        base_name(s.drop_last()).push(s.last())
    }
}

/// The front end that a program name selects.
#[derive(Debug, PartialEq, Eq, Structural, Clone, Copy)]
pub enum Tool {
    Ssh,
    Sftp,
    Zed,
}

/// The front end for the program path `argv0`: `ssh` and `sftp` by their
/// names, Zed for any other name.
pub open spec fn tool_spec(argv0: Seq<char>) -> Tool {
    if base_name(argv0) == "ssh"@ {
        Tool::Ssh
    } else if base_name(argv0) == "sftp"@ {
        Tool::Sftp
    } else {
        Tool::Zed
    }
}

/// The last component of the program path `s`.
pub fn program_name(s: &str) -> (r: String)
    ensures
        r@ == base_name(s@),
{
    let n = s.unicode_len();
    let mut j = n;
    assert(s@.take(n as int) =~= s@);
    assert(s@.subrange(n as int, n as int) =~= Seq::<char>::empty());
    while j > 0 && s.get_char(j - 1) != '/'
        invariant
            n == s@.len(),
            j <= n,
            base_name(s@) == base_name(s@.take(j as int)) + s@.subrange(j as int, n as int),
        decreases j,
    {
        assert(s@.take(j as int).drop_last() =~= s@.take(j - 1));
        assert(s@.subrange(j - 1, n as int) =~= seq![s@[j - 1]] + s@.subrange(j as int, n as int));
        j = j - 1;
    }
    if j > 0 {
        assert(s@.take(j as int).last() == '/');
    }
    assert(base_name(s@.take(j as int)) =~= Seq::<char>::empty());
    substring(s, j, n)
}

/// Which front end the program path `argv0` selects.
pub fn tool_for(argv0: &str) -> (r: Tool)
    ensures
        r == tool_spec(argv0@),
{
    let name = program_name(argv0);
    if str_eq(name.as_str(), "ssh") {
        Tool::Ssh
    } else if str_eq(name.as_str(), "sftp") {
        Tool::Sftp
    } else {
        Tool::Zed
    }
}

/// The pieces of `s` between the occurrences of `c`; one more piece than
/// there are occurrences.
pub open spec fn split_on(s: Seq<char>, c: char) -> Seq<Seq<char>>
    decreases s.len(),
{
    if s.len() == 0 {
        seq![seq![]]
    } else {
        let prev = split_on(s.drop_last(), c);
        if s.last() == c {
            prev.push(seq![])
        } else {
            prev.update(prev.len() - 1, prev.last().push(s.last()))
        }
    }
}

/// `split_on` never gives an empty list.
pub proof fn lemma_split_on_len(s: Seq<char>, c: char)
    ensures
        split_on(s, c).len() >= 1,
    decreases s.len(),
{
    if s.len() > 0 {
        lemma_split_on_len(s.drop_last(), c);
    }
}

/// The pieces of `s` between the occurrences of `c`.
pub fn split_str(s: &str, c: char) -> (r: Vec<String>)
    ensures
        r.deep_view() == split_on(s@, c),
{
    let n = s.unicode_len();
    let mut out: Vec<String> = Vec::new();
    let mut start: usize = 0;
    let mut i: usize = 0;
    assert(s@.take(0) =~= Seq::<char>::empty());
    assert(out.deep_view() =~= Seq::<Seq<char>>::empty());
    assert(s@.subrange(0, 0) =~= Seq::<char>::empty());
    assert(split_on(s@.take(0), c) =~= out.deep_view().push(s@.subrange(0, 0)));
    while i < n
        invariant
            n == s@.len(),
            start <= i <= n,
            split_on(s@.take(i as int), c) == out.deep_view().push(
                s@.subrange(start as int, i as int),
            ),
        decreases n - i,
    {
        assert(s@.take(i + 1).drop_last() =~= s@.take(i as int));
        let ch = s.get_char(i);
        let ghost before = out.deep_view();
        if ch == c {
            let piece = substring(s, start, i);
            out.push(piece);
            assert(out.deep_view() =~= before.push(piece@));
            start = i + 1;
            assert(s@.subrange(start as int, i + 1) =~= Seq::<char>::empty());
        } else {
            assert(s@.subrange(start as int, i + 1) =~= s@.subrange(start as int, i as int).push(
                ch,
            ));
            assert(before.push(s@.subrange(start as int, i + 1)) =~= before.push(
                s@.subrange(start as int, i as int),
            ).update(before.len() as int, s@.subrange(start as int, i as int).push(ch)));
        }
        i = i + 1;
    }
    assert(s@.take(n as int) =~= s@);
    let last = substring(s, start, n);
    let ghost before = out.deep_view();
    out.push(last);
    assert(out.deep_view() =~= before.push(last@));
    out
}

/// The pieces of `parts` with `sep` between each two.
pub open spec fn join_with(parts: Seq<Seq<char>>, sep: Seq<char>) -> Seq<char>
    decreases parts.len(),
{
    if parts.len() == 0 {
        seq![]
    } else if parts.len() == 1 {
        parts[0]
    } else {
        join_with(parts.drop_last(), sep) + sep + parts.last()
    }
}

/// The pieces of `parts` with `sep` between each two.
pub fn join_str(parts: &Vec<String>, sep: &str) -> (r: String)
    ensures
        r@ == join_with(parts.deep_view(), sep@),
{
    let mut r = String::new();
    let mut k: usize = 0;
    while k < parts.len()
        invariant
            k <= parts.len(),
            r@ == join_with(parts.deep_view().take(k as int), sep@),
        decreases parts.len() - k,
    {
        let ghost pv = parts.deep_view();
        assert(pv.take(k + 1).drop_last() =~= pv.take(k as int));
        assert(pv.take(k + 1).last() == parts[k as int]@);
        if k > 0 {
            r.append(sep);
        } else {
            assert(pv.take(1)[0] == pv[0]);
        }
        r.append(parts[k].as_str());
        k = k + 1;
    }
    assert(parts.deep_view().take(parts.len() as int) =~= parts.deep_view());
    r
}

/// The pieces of `ps` that are neither empty nor `.`, in order.
pub open spec fn named_components(ps: Seq<Seq<char>>) -> Seq<Seq<char>>
    decreases ps.len(),
{
    if ps.len() == 0 {
        seq![]
    } else {
        let r = named_components(ps.drop_last());
        if ps.last().len() == 0 || ps.last() == "."@ {
            r
        } else {
            r.push(ps.last())
        }
    }
}

/// The components of a path, which decide when two paths are equal: the root
/// (written `/`) for an absolute path, a leading `.` of a relative path, and
/// every other piece between slashes that is neither empty nor `.`.  So
/// repeated slashes, a trailing slash and inner `.` pieces make no difference.
pub open spec fn path_components(p: Seq<char>) -> Seq<Seq<char>> {
    let pieces = split_on(p, '/');
    let first = pieces[0];
    (if starts_with(p, "/"@) {
        seq!["/"@]
    } else {
        seq![]
    }) + (if first == "."@ {
        seq!["."@]
    } else if first.len() > 0 {
        seq![first]
    } else {
        seq![]
    }) + named_components(pieces.drop_first())
}

/// Whether two lists of strings are equal.
fn same_strings(a: &Vec<String>, b: &Vec<String>) -> (r: bool)
    ensures
        r == (a.deep_view() == b.deep_view()),
{
    if a.len() != b.len() {
        assert(a.deep_view().len() != b.deep_view().len());
        return false;
    }
    let mut k: usize = 0;
    while k < a.len()
        invariant
            a.len() == b.len(),
            k <= a.len(),
            forall|j: int| 0 <= j < k ==> a.deep_view()[j] == b.deep_view()[j],
        decreases a.len() - k,
    {
        if !str_eq(a[k].as_str(), b[k].as_str()) {
            assert(a.deep_view()[k as int] != b.deep_view()[k as int]);
            return false;
        }
        k = k + 1;
    }
    assert(a.deep_view() =~= b.deep_view());
    true
}

/// The components of the path `p`, as [`path_components`] says.
pub fn components(p: &str) -> (r: Vec<String>)
    ensures
        r.deep_view() == path_components(p@),
{
    proof {
        reveal_strlit("/");
        reveal_strlit(".");
    }
    let pieces = split_str(p, '/');
    proof {
        lemma_split_on_len(p@, '/');
    }
    let ghost pv = pieces.deep_view();
    let mut out: Vec<String> = Vec::new();
    if str_starts_with(p, "/") {
        push_str(&mut out, "/");
    }
    let first = pieces[0].as_str();
    if str_eq(first, ".") {
        push_str(&mut out, ".");
    } else if first.unicode_len() > 0 {
        push_str(&mut out, first);
    }
    let ghost head = out.deep_view();
    assert(head =~= (if starts_with(p@, "/"@) {
        seq!["/"@]
    } else {
        seq![]
    }) + (if pv[0] == "."@ {
        seq!["."@]
    } else if pv[0].len() > 0 {
        seq![pv[0]]
    } else {
        seq![]
    }));
    let mut k: usize = 1;
    assert(pv.drop_first().take(0) =~= Seq::<Seq<char>>::empty());
    while k < pieces.len()
        invariant
            1 <= k <= pieces.len(),
            pv == pieces.deep_view(),
            out.deep_view() == head + named_components(pv.drop_first().take(k - 1)),
        decreases pieces.len() - k,
    {
        let piece = pieces[k].as_str();
        assert(pv.drop_first().take(k as int).drop_last() =~= pv.drop_first().take(k - 1));
        assert(pv.drop_first().take(k as int).last() == piece@);
        if piece.unicode_len() > 0 && !str_eq(piece, ".") {
            push_str(&mut out, piece);
            assert(out.deep_view() =~= head + named_components(pv.drop_first().take(k as int)));
        }
        k = k + 1;
    }
    assert(pv.drop_first().take(pieces.len() - 1) =~= pv.drop_first());
    out
}

/// The entries of `ps` whose components differ from `excluded`.
pub open spec fn kept_entries(ps: Seq<Seq<char>>, excluded: Seq<Seq<char>>) -> Seq<Seq<char>>
    decreases ps.len(),
{
    if ps.len() == 0 {
        seq![]
    } else {
        let r = kept_entries(ps.drop_last(), excluded);
        if path_components(ps.last()) == excluded {
            r
        } else {
            r.push(ps.last())
        }
    }
}

/// The search path `search` without the entries that name the directory
/// `excluded`.
pub open spec fn search_path_without(search: Seq<char>, excluded: Seq<char>) -> Seq<char> {
    join_with(kept_entries(split_on(search, ':'), path_components(excluded)), ":"@)
}

/// The search path `search` (entries separated by `:`) without the entries
/// that name the directory `excluded`.
pub fn remove_from_search_path(search: &str, excluded: &str) -> (r: String)
    ensures
        r@ == search_path_without(search@, excluded@),
{
    let entries = split_str(search, ':');
    let ex = components(excluded);
    let ghost ev = entries.deep_view();
    let mut kept: Vec<String> = Vec::new();
    let mut k: usize = 0;
    assert(ev.take(0) =~= Seq::<Seq<char>>::empty());
    assert(kept.deep_view() =~= Seq::<Seq<char>>::empty());
    while k < entries.len()
        invariant
            k <= entries.len(),
            ev == entries.deep_view(),
            kept.deep_view() == kept_entries(ev.take(k as int), ex.deep_view()),
        decreases entries.len() - k,
    {
        assert(ev.take(k + 1).drop_last() =~= ev.take(k as int));
        assert(ev.take(k + 1).last() == entries[k as int]@);
        let c = components(entries[k].as_str());
        if !same_strings(&c, &ex) {
            push_str(&mut kept, entries[k].as_str());
        }
        k = k + 1;
    }
    assert(ev.take(entries.len() as int) =~= ev);
    join_str(&kept, ":")
}

/// `p` holds no `c`.
pub open spec fn lacks(p: Seq<char>, c: char) -> bool {
    forall|k: int| 0 <= k < p.len() ==> p[k] != c
}

/// Reading text without `c` only extends the last piece.
proof fn lemma_split_on_append(x: Seq<char>, y: Seq<char>, c: char)
    requires
        lacks(y, c),
    ensures
        split_on(x + y, c) == split_on(x, c).update(
            split_on(x, c).len() - 1,
            split_on(x, c).last() + y,
        ),
    decreases y.len(),
{
    lemma_split_on_len(x, c);
    if y.len() == 0 {
        assert(x + y =~= x);
        assert(split_on(x, c).last() + y =~= split_on(x, c).last());
        assert(split_on(x, c).update(split_on(x, c).len() - 1, split_on(x, c).last())
            =~= split_on(x, c));
    } else {
        let y0 = y.drop_last();
        lemma_split_on_append(x, y0, c);
        assert((x + y).drop_last() =~= x + y0);
        assert((x + y).last() == y.last());
        assert(split_on(x, c).last() + y =~= (split_on(x, c).last() + y0).push(y.last()));
        let prev = split_on(x + y0, c);
        assert(prev.update(prev.len() - 1, prev.last().push(y.last())) =~= split_on(x, c).update(
            split_on(x, c).len() - 1,
            split_on(x, c).last() + y,
        ));
    }
}

/// Splitting the pieces joined again gives the pieces back, when there is at
/// least one and none holds the separator.
proof fn lemma_split_join(parts: Seq<Seq<char>>, c: char)
    requires
        parts.len() >= 1,
        forall|i: int| 0 <= i < parts.len() ==> lacks(#[trigger] parts[i], c),
    ensures
        split_on(join_with(parts, seq![c]), c) == parts,
    decreases parts.len(),
{
    if parts.len() == 1 {
        lemma_split_on_append(seq![], parts[0], c);
        assert(Seq::<char>::empty() + parts[0] =~= parts[0]);
        assert(seq![Seq::<char>::empty()].update(0, Seq::<char>::empty() + parts[0]) =~= parts);
    } else {
        let front = parts.drop_last();
        lemma_split_join(front, c);
        let j = join_with(front, seq![c]);
        assert((j + seq![c]).drop_last() =~= j);
        assert(split_on(j + seq![c], c) == front.push(seq![]));
        lemma_split_on_append(j + seq![c], parts.last(), c);
        assert(join_with(parts, seq![c]) =~= j + seq![c] + parts.last());
        assert(Seq::<char>::empty() + parts.last() =~= parts.last());
        assert(front.push(seq![]).update(front.len() as int, Seq::<char>::empty() + parts.last())
            =~= parts);
    }
}

/// No piece of `split_on(s, c)` holds `c`.
proof fn lemma_split_on_lacks(s: Seq<char>, c: char)
    ensures
        forall|i: int| 0 <= i < split_on(s, c).len() ==> lacks(#[trigger] split_on(s, c)[i], c),
    decreases s.len(),
{
    lemma_split_on_len(s, c);
    if s.len() > 0 {
        lemma_split_on_lacks(s.drop_last(), c);
        lemma_split_on_len(s.drop_last(), c);
        let prev = split_on(s.drop_last(), c);
        if s.last() != c {
            assert(lacks(prev.last().push(s.last()), c)) by {
                assert(lacks(prev[prev.len() - 1], c));
            }
        }
    }
}

/// Every kept entry differs from `excluded` and keeps a property `lacks(_, c)`
/// of all entries.
proof fn lemma_kept_entries(ps: Seq<Seq<char>>, excluded: Seq<Seq<char>>, c: char)
    requires
        forall|i: int| 0 <= i < ps.len() ==> lacks(#[trigger] ps[i], c),
    ensures
        forall|i: int|
            0 <= i < kept_entries(ps, excluded).len() ==> lacks(
                #[trigger] kept_entries(ps, excluded)[i],
                c,
            ) && path_components(kept_entries(ps, excluded)[i]) != excluded,
        kept_entries(kept_entries(ps, excluded), excluded) == kept_entries(ps, excluded),
    decreases ps.len(),
{
    if ps.len() > 0 {
        let front = ps.drop_last();
        assert forall|i: int| 0 <= i < front.len() implies lacks(#[trigger] front[i], c) by {
            assert(front[i] == ps[i]);
        }
        lemma_kept_entries(front, excluded, c);
        let k = kept_entries(front, excluded);
        if path_components(ps.last()) != excluded {
            assert(k.push(ps.last()).drop_last() =~= k);
            assert(lacks(ps[ps.len() - 1], c));
        }
    }
}

/// Removing a directory from the search path a second time changes nothing.
pub proof fn lemma_search_path_removal_idempotent(search: Seq<char>, excluded: Seq<char>)
    ensures
        search_path_without(search_path_without(search, excluded), excluded)
            == search_path_without(search, excluded),
{
    reveal_strlit(":");
    assert(":"@ =~= seq![':']);
    let ex = path_components(excluded);
    lemma_split_on_lacks(search, ':');
    let kept = kept_entries(split_on(search, ':'), ex);
    lemma_kept_entries(split_on(search, ':'), ex, ':');
    if kept.len() >= 1 {
        lemma_split_join(kept, ':');
    } else {
        let empty = Seq::<char>::empty();
        assert(join_with(kept, ":"@) == empty);
        assert(split_on(empty, ':') == seq![empty]);
        assert(seq![empty].drop_last() =~= Seq::<Seq<char>>::empty());
        assert(kept_entries(seq![empty], ex).len() <= 1);
        if kept_entries(seq![empty], ex).len() == 1 {
            assert(kept_entries(seq![empty], ex) =~= seq![empty]);
        } else {
            assert(kept_entries(seq![empty], ex) =~= Seq::<Seq<char>>::empty());
        }
    }
}

/// No entry of the new search path names the removed directory (unless that
/// directory is given with no components at all).
pub proof fn lemma_search_path_excludes(search: Seq<char>, excluded: Seq<char>)
    requires
        path_components(excluded).len() > 0,
    ensures
        forall|i: int|
            0 <= i < split_on(search_path_without(search, excluded), ':').len() ==> path_components(
                #[trigger] split_on(search_path_without(search, excluded), ':')[i],
            ) != path_components(excluded),
{
    reveal_strlit(":");
    assert(":"@ =~= seq![':']);
    let ex = path_components(excluded);
    lemma_split_on_lacks(search, ':');
    let kept = kept_entries(split_on(search, ':'), ex);
    lemma_kept_entries(split_on(search, ':'), ex, ':');
    if kept.len() >= 1 {
        lemma_split_join(kept, ':');
    } else {
        let empty = Seq::<char>::empty();
        assert(split_on(empty, ':') == seq![empty]);
        assert(split_on(empty, '/') == seq![empty]);
        reveal_strlit("/");
        reveal_strlit(".");
        assert(!starts_with(empty, "/"@));
        assert(empty != "."@);
        assert(named_components(seq![empty].drop_first()) =~= Seq::<Seq<char>>::empty());
        assert(path_components(empty) =~= Seq::<Seq<char>>::empty());
    }
}

/// A name without `/` is its own last component.
proof fn lemma_base_name_plain(name: Seq<char>)
    requires
        lacks(name, '/'),
    ensures
        base_name(name) == name,
    decreases name.len(),
{
    if name.len() > 0 {
        lemma_base_name_plain(name.drop_last());
        assert(name.drop_last().push(name.last()) =~= name);
    }
}

/// The last component of `<dir>/<name>` is `name` when `name` holds no `/`.
proof fn lemma_base_name_after_slash(dir: Seq<char>, name: Seq<char>)
    requires
        lacks(name, '/'),
    ensures
        base_name(dir + "/"@ + name) == name,
    decreases name.len(),
{
    reveal_strlit("/");
    if name.len() == 0 {
        assert(dir + "/"@ + name =~= dir.push('/'));
        assert((dir + "/"@ + name).last() == '/');
    } else {
        lemma_base_name_after_slash(dir, name.drop_last());
        assert((dir + "/"@ + name).drop_last() =~= dir + "/"@ + name.drop_last());
        assert((dir + "/"@ + name).last() == name.last());
        assert(name.drop_last().push(name.last()) =~= name);
    }
}

/// The front end depends only on the last component of the program path:
/// a program called `ssh` or `sftp` by a bare name serves `ssh` or `sftp`,
/// and so it does when called through any directory.
pub proof fn lemma_tool_by_program_name(dir: Seq<char>, name: Seq<char>)
    requires
        lacks(name, '/'),
    ensures
        tool_spec(dir + "/"@ + name) == tool_spec(name),
        name == "ssh"@ ==> tool_spec(name) == Tool::Ssh,
        name == "sftp"@ ==> tool_spec(name) == Tool::Sftp,
        name != "ssh"@ && name != "sftp"@ ==> tool_spec(name) == Tool::Zed,
{
    reveal_strlit("ssh");
    reveal_strlit("sftp");
    assert("ssh"@.len() == 3 && "sftp"@.len() == 4);
    lemma_base_name_after_slash(dir, name);
    lemma_base_name_plain(name);
}

/// Calling the program by a path or by its last component chooses the same
/// front end.
pub proof fn lemma_tool_by_last_component(argv0: Seq<char>)
    ensures
        tool_spec(argv0) == tool_spec(base_name(argv0)),
{
    lemma_base_name_lacks(argv0);
    lemma_base_name_plain(base_name(argv0));
}

/// The last component holds no `/`.
proof fn lemma_base_name_lacks(s: Seq<char>)
    ensures
        lacks(base_name(s), '/'),
    decreases s.len(),
{
    if s.len() > 0 && s.last() != '/' {
        lemma_base_name_lacks(s.drop_last());
    }
}

} // verus!
