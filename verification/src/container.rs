//! The container description that Podman writes to `/run/.containerenv`.
use vstd::prelude::*;
use vstd::string::StrSliceExecFns;
use crate::error::{CliError, CliErrorView};
use crate::text::{starts_with, substring, trim_char, trim_char_bounds};

verus! {

/// A line without the carriage return that ends it, if any.
pub open spec fn strip_cr(l: Seq<char>) -> Seq<char> {
    if l.len() > 0 && l.last() == '\r' {
        l.drop_last()
    } else {
        l
    }
}

/// After reading `s` from left to right: the lines completed so far (each
/// without its `\n` or `\r\n`), and the line under way.
pub open spec fn line_state(s: Seq<char>) -> (Seq<Seq<char>>, Seq<char>)
    decreases s.len(),
{
    if s.len() == 0 {
        (seq![], seq![])
    } else {
        let (done, cur) = line_state(s.drop_last());
        if s.last() == '\n' {
            (done.push(strip_cr(cur)), seq![])
        } else {
            (done, cur.push(s.last()))
        }
    }
}

/// The lines of `s`: split at `\n` or `\r\n`; the last line ending is optional.
pub open spec fn lines(s: Seq<char>) -> Seq<Seq<char>> {
    let (done, cur) = line_state(s);
    if cur.len() > 0 {
        done.push(cur)
    } else {
        done
    }
}

/// The value of the last `id=` line among `ls`, without surrounding double quotes.
pub open spec fn last_id(ls: Seq<Seq<char>>) -> Option<Seq<char>>
    decreases ls.len(),
{
    if ls.len() == 0 {
        None
    } else if starts_with(ls.last(), "id="@) {
        Some(trim_char(ls.last().skip(3), '"'))
    } else {
        last_id(ls.drop_last())
    }
}

/// The container id that a container description gives.
pub open spec fn container_id(content: Seq<char>) -> Result<Seq<char>, CliErrorView> {
    match last_id(lines(content)) {
        Some(id) => Ok(id),
        None => Err(CliErrorView::ContainerIdNotFound),
    }
}

/// Whether `s[a..b]` starts with `id=`; when it does, the value after it
/// without surrounding double quotes.
fn id_in_line(s: &str, a: usize, b: usize) -> (r: Option<String>)
    requires
        a <= b <= s@.len(),
    ensures
        starts_with(s@.subrange(a as int, b as int), "id="@) ==> (r matches Some(v) && v@
            == trim_char(s@.subrange(a as int, b as int).skip(3), '"')),
        !starts_with(s@.subrange(a as int, b as int), "id="@) ==> r is None,
{
    proof {
        reveal_strlit("id=");
    }
    let ghost line = s@.subrange(a as int, b as int);
    if b - a >= 3 && s.get_char(a) == 'i' && s.get_char(a + 1) == 'd' && s.get_char(a + 2) == '=' {
        assert(line.subrange(0, 3) =~= "id="@);
        let (i, j) = trim_char_bounds(s, a + 3, b, '"');
        assert(line.skip(3) =~= s@.subrange(a + 3, b as int));
        Some(substring(s, i, j))
    } else {
        proof {
            if starts_with(line, "id="@) {
                assert(line.subrange(0, 3)[0] == line[0]);
                assert(line.subrange(0, 3)[1] == line[1]);
                assert(line.subrange(0, 3)[2] == line[2]);
            }
        }
        None
    }
}

/// Reads the container id from the contents of a container description: the
/// value of its last `id=` line, without surrounding double quotes.
pub fn parse_container_id(content: &str) -> (r: Result<String, CliError>)
    ensures
        match r {
            Ok(id) => container_id(content@) == Ok::<Seq<char>, CliErrorView>(id@),
            Err(e) => container_id(content@) == Err::<Seq<char>, CliErrorView>(e@),
        },
{
    let n = content.unicode_len();
    let mut id: Option<String> = None;
    let mut start: usize = 0;
    let mut i: usize = 0;
    while i < n
        invariant
            n == content@.len(),
            start <= i <= n,
            line_state(content@.take(i as int)).1 == content@.subrange(start as int, i as int),
            last_id(line_state(content@.take(i as int)).0) == match id {
                Some(v) => Some(v@),
                None => None::<Seq<char>>,
            },
        decreases n - i,
    {
        assert(content@.take(i + 1).drop_last() =~= content@.take(i as int));
        let ch = content.get_char(i);
        if ch == '\n' {
            let ghost cur = content@.subrange(start as int, i as int);
            let end = if i > start && content.get_char(i - 1) == '\r' {
                i - 1
            } else {
                i
            };
            assert(content@.subrange(start as int, end as int) =~= strip_cr(cur));
            let ghost done = line_state(content@.take(i as int)).0;
            assert(done.push(strip_cr(cur)).drop_last() =~= done);
            let found = id_in_line(content, start, end);
            if found.is_some() {
                id = found;
            }
            start = i + 1;
            assert(content@.subrange(start as int, i + 1) =~= Seq::<char>::empty());
        } else {
            assert(content@.subrange(start as int, i + 1) =~= content@.subrange(
                start as int,
                i as int,
            ).push(ch));
        }
        i = i + 1;
    }
    assert(content@.take(n as int) =~= content@);
    let ghost done = line_state(content@).0;
    assert(done.push(content@.subrange(start as int, n as int)).drop_last() =~= done);
    if start < n {
        let found = id_in_line(content, start, n);
        if found.is_some() {
            id = found;
        }
    }
    match id {
        Some(v) => Ok(v),
        None => Err(CliError::ContainerIdNotFound),
    }
}

/// Reading `x` and then text without line breaks only extends the line under way.
proof fn lemma_line_state_append(x: Seq<char>, y: Seq<char>)
    requires
        forall|k: int| 0 <= k < y.len() ==> y[k] != '\n',
    ensures
        line_state(x + y) == (line_state(x).0, line_state(x).1 + y),
    decreases y.len(),
{
    if y.len() == 0 {
        assert(x + y =~= x);
        assert(line_state(x).1 + y =~= line_state(x).1);
    } else {
        let y0 = y.drop_last();
        lemma_line_state_append(x, y0);
        assert((x + y).drop_last() =~= x + y0);
        assert(line_state(x).1 + y =~= (line_state(x).1 + y0).push(y.last()));
    }
}

/// A later `id=` line overrides every earlier one: whatever comes before it,
/// a last line `id=<v>` makes the container id `v` without surrounding double
/// quotes.
pub proof fn lemma_last_id_line_wins(content: Seq<char>, v: Seq<char>)
    requires
        forall|k: int| 0 <= k < v.len() ==> v[k] != '\n',
    ensures
        container_id(content + "\n"@ + "id="@ + v) == Ok::<Seq<char>, CliErrorView>(
            trim_char(v, '"'),
        ),
{
    reveal_strlit("\n");
    reveal_strlit("id=");
    let x = content + "\n"@;
    let y = "id="@ + v;
    assert((content + "\n"@).drop_last() =~= content);
    assert(line_state(x).1 =~= Seq::<char>::empty());
    assert forall|k: int| 0 <= k < y.len() implies y[k] != '\n' by {
        if k >= 3 {
            assert(y[k] == v[k - 3]);
        }
    }
    lemma_line_state_append(x, y);
    assert(content + "\n"@ + "id="@ + v =~= x + y);
    assert(line_state(x).1 + y =~= y);
    assert(y.subrange(0, 3) =~= "id="@);
    assert(y.skip(3) =~= v);
}

/// One step of reading: the character `ch` read in the state `st`.
pub open spec fn line_step(st: (Seq<Seq<char>>, Seq<char>), ch: char) -> (Seq<Seq<char>>, Seq<char>) {
    if ch == '\n' {
        (st.0.push(strip_cr(st.1)), seq![])
    } else {
        (st.0, st.1.push(ch))
    }
}

/// Reading `d` from the state `st`.
pub open spec fn line_run(st: (Seq<Seq<char>>, Seq<char>), d: Seq<char>) -> (Seq<Seq<char>>, Seq<char>)
    decreases d.len(),
{
    if d.len() == 0 {
        st
    } else {
        line_step(line_run(st, d.drop_last()), d.last())
    }
}

/// Reading `y` then `d` is reading `d` from the state left by `y`.
proof fn lemma_line_state_concat(y: Seq<char>, d: Seq<char>)
    ensures
        line_state(y + d) == line_run(line_state(y), d),
    decreases d.len(),
{
    if d.len() == 0 {
        assert(y + d =~= y);
    } else {
        lemma_line_state_concat(y, d.drop_last());
        assert((y + d).drop_last() =~= y + d.drop_last());
        assert((y + d).last() == d.last());
    }
}

/// Lines completed before a reading stay in front of those it completes.
proof fn lemma_line_run_prefix(done: Seq<Seq<char>>, cur: Seq<char>, d: Seq<char>)
    ensures
        line_run((done, cur), d) == (
            done + line_run((seq![], cur), d).0,
            line_run((seq![], cur), d).1,
        ),
    decreases d.len(),
{
    if d.len() == 0 {
        assert(done + Seq::<Seq<char>>::empty() =~= done);
    } else {
        lemma_line_run_prefix(done, cur, d.drop_last());
        let r = line_run((seq![], cur), d.drop_last());
        if d.last() == '\n' {
            assert((done + r.0).push(strip_cr(r.1)) =~= done + r.0.push(strip_cr(r.1)));
        }
    }
}

/// The last `id=` line of two lists of lines in a row is the second list's,
/// if it has one.
proof fn lemma_last_id_concat(a: Seq<Seq<char>>, b: Seq<Seq<char>>)
    ensures
        last_id(a + b) == match last_id(b) {
            Some(v) => Some(v),
            None => last_id(a),
        },
    decreases b.len(),
{
    if b.len() == 0 {
        assert(a + b =~= a);
    } else {
        lemma_last_id_concat(a, b.drop_last());
        assert((a + b).drop_last() =~= a + b.drop_last());
        assert((a + b).last() == b.last());
    }
}

/// A line that does not start with `id=` does not start with it once its
/// carriage return is removed either.
proof fn lemma_strip_cr_not_id(l: Seq<char>)
    requires
        !starts_with(l, "id="@),
    ensures
        !starts_with(strip_cr(l), "id="@),
{
    reveal_strlit("id=");
    if starts_with(strip_cr(l), "id="@) {
        assert(l.subrange(0, 3) =~= strip_cr(l).subrange(0, 3));
    }
}

/// Lines that do not start with `id=` (such as `imageid=…` or `name=…`) have no
/// effect on the container id, wherever they stand: removing one leaves the
/// result as it was.
pub proof fn lemma_other_lines_ignored(c: Seq<char>, l: Seq<char>, d: Seq<char>)
    requires
        forall|k: int| 0 <= k < l.len() ==> l[k] != '\n',
        !starts_with(l, "id="@),
    ensures
        container_id(c + "\n"@ + l + "\n"@ + d) == container_id(c + "\n"@ + d),
{
    reveal_strlit("\n");
    let y = c + "\n"@;
    assert(y.drop_last() =~= c);
    assert(y.last() == '\n');
    let done = line_state(y).0;
    assert(line_state(y).1 =~= Seq::<char>::empty());
    lemma_line_state_append(y, l);
    let z = y + l + "\n"@;
    assert(z.drop_last() =~= y + l);
    assert(z.last() == '\n');
    assert(line_state(y + l).1 =~= l);
    let e = strip_cr(l);
    assert(line_state(z) == (done.push(e), Seq::<char>::empty()));
    lemma_line_state_concat(z, d);
    lemma_line_state_concat(y, d);
    assert(c + "\n"@ + l + "\n"@ + d =~= z + d);
    lemma_line_run_prefix(done.push(e), seq![], d);
    lemma_line_run_prefix(done, seq![], d);
    let r = line_run((seq![], seq![]), d);
    lemma_strip_cr_not_id(l);
    assert(last_id(done.push(e)) == last_id(done)) by {
        assert(done.push(e).drop_last() =~= done);
    }
    if r.1.len() > 0 {
        assert((done.push(e) + r.0).push(r.1) =~= done.push(e) + r.0.push(r.1));
        assert((done + r.0).push(r.1) =~= done + r.0.push(r.1));
        lemma_last_id_concat(done.push(e), r.0.push(r.1));
        lemma_last_id_concat(done, r.0.push(r.1));
    } else {
        lemma_last_id_concat(done.push(e), r.0);
        lemma_last_id_concat(done, r.0);
    }
}

/// A last line that does not start with `id=` has no effect on the container id.
pub proof fn lemma_other_last_line_ignored(c: Seq<char>, l: Seq<char>)
    requires
        forall|k: int| 0 <= k < l.len() ==> l[k] != '\n',
        !starts_with(l, "id="@),
    ensures
        container_id(c + "\n"@ + l) == container_id(c + "\n"@),
{
    reveal_strlit("\n");
    let y = c + "\n"@;
    assert(y.drop_last() =~= c);
    assert(line_state(y).1 =~= Seq::<char>::empty());
    lemma_line_state_append(y, l);
    assert(line_state(y).1 + l =~= l);
    let done = line_state(y).0;
    if l.len() > 0 {
        assert(done.push(l).drop_last() =~= done);
    }
}

} // verus!
