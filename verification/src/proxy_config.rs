//! Settings of the NDP proxy daemon that are more than a file's syntax: the
//! default file paths and queue length, and the `su` setting, which names
//! the user (and group) the daemon runs as once it dropped its privileges.

use vstd::prelude::*;
use vstd::slice::{slice_subrange, slice_to_vec};

verus! {

/// Where the configuration is read from unless the command line says
/// otherwise.
pub const DEFAULT_CONFIG_PATH: &'static str = "/etc/rsndpproxy.conf";

/// Where the daemon writes its pid unless the command line says otherwise.
pub const DEFAULT_PID_PATH: &'static str = "/run/rsndpproxy.pid";

/// How many advertisements an interface may have queued for sending unless
/// its configuration says otherwise.
pub const DEFAULT_MAX_QUEUED: usize = 42;

/// The index of the first colon of `v` from `i` on; the length of `v` when
/// there is none.
pub open spec fn colon_from(v: Seq<char>, i: int) -> int
    decreases v.len() - i,
{
    if i < 0 || i >= v.len() {
        v.len() as int
    } else if v[i] == ':' {
        i
    } else {
        colon_from(v, i + 1)
    }
}

/// The user name and the group name of an `su` setting: `user` names the
/// user and its namesake group, `user:group` names both, `user:` is taken
/// as `user`; a second colon makes the setting invalid (`None`).
pub open spec fn su_names_spec(v: Seq<char>) -> Option<(Seq<char>, Seq<char>)> {
    let k = colon_from(v, 0);
    if k >= v.len() {
        Some((v, v))
    } else if colon_from(v, k + 1) < v.len() {
        None
    } else if k + 1 == v.len() {
        Some((v.take(k), v.take(k)))
    } else {
        Some((v.take(k), v.skip(k + 1)))
    }
}

/// The first colon from `i` on is not before `i`, and not past the end.
proof fn lemma_colon_from_bounds(v: Seq<char>, i: int)
    requires
        0 <= i <= v.len(),
    ensures
        i <= colon_from(v, i) <= v.len(),
        colon_from(v, i) < v.len() ==> v[colon_from(v, i)] == ':',
    decreases v.len() - i,
{
    if i < v.len() && v[i] != ':' {
        lemma_colon_from_bounds(v, i + 1);
    }
}

/// The index of the first colon of `value` from `i` on, or its length.
fn find_colon(value: &[char], i: usize) -> (res: usize)
    requires
        i <= value@.len(),
    ensures
        res == colon_from(value@, i as int),
{
    let mut k = i;
    while k < value.len() && value[k] != ':'
        invariant
            i <= k <= value@.len(),
            colon_from(value@, i as int) == colon_from(value@, k as int),
        decreases value@.len() - k,
    {
        k = k + 1;
    }
    k
}

/// Splits the `su` setting `value` into the user name and the group name
/// (see `su_names_spec`); `None` when it is no valid pair.
pub fn su_names(value: &[char]) -> (res: Option<(Vec<char>, Vec<char>)>)
    ensures
        res is None <==> su_names_spec(value@) is None,
        res matches Some(r) ==> su_names_spec(value@) == Some((r.0@, r.1@)),
{
    let n = value.len();
    let k = find_colon(value, 0);
    proof {
        lemma_colon_from_bounds(value@, 0);
    }
    if k == n {
        return Some((slice_to_vec(value), slice_to_vec(value)));
    }
    if find_colon(value, k + 1) < n {
        return None;
    }
    let user = slice_to_vec(slice_subrange(value, 0, k));
    let group = if k + 1 == n {
        slice_to_vec(slice_subrange(value, 0, k))
    } else {
        slice_to_vec(slice_subrange(value, k + 1, n))
    };
    proof {
        assert(user@ =~= value@.take(k as int));
        if k + 1 == n {
            assert(group@ =~= value@.take(k as int));
        } else {
            assert(group@ =~= value@.skip(k + 1));
        }
    }
    Some((user, group))
}

} // verus!
