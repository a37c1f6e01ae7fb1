//! The SSH destination that stands for a Toolbx container:
//! `<user>@<container id>.toolbx`.
use vstd::prelude::*;
use vstd::string::StrSliceExecFns;
use crate::text::{contains, find, lemma_find, lemma_find_is, occurs_at, str_find, substring};

verus! {

/// The destination under which the container `container` is reached as `user`.
pub open spec fn toolbx_destination(user: Seq<char>, container: Seq<char>) -> Seq<char> {
    user + "@"@ + container + ".toolbx"@
}

/// The user and the container named by a destination: the user is what comes
/// before the first `@`, the container what lies between that `@` and the
/// first `.toolbx` after it.  `None` when either marker is missing.
pub open spec fn ssh_dest(d: Seq<char>) -> Option<(Seq<char>, Seq<char>)> {
    match find(d, "@"@) {
        None => None,
        Some(a) => {
            let after = d.skip(a + 1);
            match find(after, ".toolbx"@) {
                None => None,
                Some(k) => Some((d.take(a), after.take(k))),
            }
        },
    }
}

/// Splits a destination `user@container.toolbx` into the user and the container id.
pub fn parse_ssh_dest(dest: &str) -> (r: Option<(String, String)>)
    ensures
        match r {
            Some((u, c)) => ssh_dest(dest@) == Some((u@, c@)),
            None => ssh_dest(dest@) is None,
        },
{
    proof {
        reveal_strlit("@");
        lemma_find(dest@, "@"@);
    }
    match str_find(dest, "@") {
        None => None,
        Some(a) => {
            let n = dest.unicode_len();
            let after = dest.substring_char(a + 1, n);
            assert(after@ =~= dest@.skip(a + 1));
            proof {
                lemma_find(after@, ".toolbx"@);
            }
            match str_find(after, ".toolbx") {
                None => None,
                Some(k) => {
                    let user = substring(dest, 0, a);
                    let container = substring(after, 0, k);
                    assert(user@ =~= dest@.take(a as int));
                    assert(container@ =~= after@.take(k as int));
                    Some((user, container))
                },
            }
        },
    }
}

/// A destination made by [`toolbx_destination`] gives back its user and
/// container, whatever follows it, as long as the user holds no `@` and the
/// container id holds no `.toolbx`.
pub proof fn lemma_destination_round_trip(user: Seq<char>, container: Seq<char>, rest: Seq<char>)
    requires
        !contains(user, "@"@),
        !contains(container, ".toolbx"@),
    ensures
        ssh_dest(toolbx_destination(user, container) + rest) == Some((user, container)),
{
    reveal_strlit("@");
    reveal_strlit(".toolbx");
    let at = "@"@;
    let tb = ".toolbx"@;
    let d = toolbx_destination(user, container) + rest;
    let u = user.len() as int;
    assert(d.subrange(u, u + 1) =~= at);
    assert forall|j: int| 0 <= j < u implies !#[trigger] occurs_at(d, at, j) by {
        if occurs_at(d, at, j) {
            assert(user.subrange(j, j + 1) =~= d.subrange(j, j + 1));
            assert(occurs_at(user, at, j));
        }
    }
    lemma_find_is(d, at, u);
    let after = d.skip(u + 1);
    assert(after =~= container + tb + rest);
    let c = container.len() as int;
    assert(after.subrange(c, c + 7) =~= tb);
    assert forall|j: int| 0 <= j < c implies !#[trigger] occurs_at(after, tb, j) by {
        if occurs_at(after, tb, j) {
            if j + 7 <= c {
                assert(container.subrange(j, j + 7) =~= after.subrange(j, j + 7));
                assert(occurs_at(container, tb, j));
            } else {
                let t = c - j;
                assert(after[c] == '.');
                assert(after.subrange(j, j + 7)[t] == after[c]);
                assert(tb[t] != '.');
            }
        }
    }
    lemma_find_is(after, tb, c);
    assert(d.take(u) =~= user);
    assert(after.take(c) =~= container);
}

} // verus!
