//! Display helpers: truncation with an ellipsis, timestamp cleanup, and
//! the human-readable session status names.

use vstd::prelude::*;
use crate::strutil::{push_char, str_eq};
use vstd::string::StrSliceExecFns;
use vstd::string::StringExecFns;

verus! {

/// `s` unchanged when it fits in `max_len` characters, else its first
/// `max_len - 3` characters followed by an ellipsis.
pub open spec fn spec_truncate(s: Seq<char>, max_len: int) -> Seq<char> {
    if s.len() <= max_len {
        s
    } else {
        let cut = if max_len >= 3 { max_len - 3 } else { 0 };
        s.subrange(0, cut) + seq!['.', '.', '.']
    }
}

/// Truncate a string to at most `max_len` characters, marking the cut
/// with `...`.
pub fn truncate(s: &str, max_len: usize) -> (r: String)
    ensures
        r@ == spec_truncate(s@, max_len as int),
{
    let n = s.unicode_len();
    if n <= max_len {
        String::from_str(s)
    } else {
        let cut: usize = if max_len >= 3 { max_len - 3 } else { 0 };
        let mut r = String::from_str(s.substring_char(0, cut));
        r.append("...");
        proof {
            reveal_strlit("...");
            assert(r@ =~= spec_truncate(s@, max_len as int));
        }
        r
    }
}

/// Every 'T' replaced by a space.
pub open spec fn spec_space_for_t(s: Seq<char>) -> Seq<char> {
    Seq::new(s.len(), |i: int| if s[i] == 'T' { ' ' } else { s[i] })
}

/// `s` with every trailing 'Z' removed.
pub open spec fn spec_trim_z(s: Seq<char>) -> Seq<char>
    decreases s.len(),
{
    if s.len() > 0 && s.last() == 'Z' {
        spec_trim_z(s.drop_last())
    } else {
        s
    }
}

/// A backend timestamp made readable: the 'T' separator becomes a space
/// and a trailing 'Z' suffix is dropped.
pub fn format_timestamp(ts: &str) -> (r: String)
    ensures
        r@ == spec_trim_z(spec_space_for_t(ts@)),
{
    let n = ts.unicode_len();
    let mut end: usize = n;
    proof {
        assert(spec_space_for_t(ts@).subrange(0, n as int) =~= spec_space_for_t(ts@));
    }
    while end > 0 && ts.get_char(end - 1) == 'Z'
        invariant
            n == ts@.len(),
            end <= n,
            spec_trim_z(spec_space_for_t(ts@)) == spec_trim_z(spec_space_for_t(ts@).subrange(
                0,
                end as int,
            )),
        decreases end,
    {
        proof {
            let m = spec_space_for_t(ts@).subrange(0, end as int);
            assert(m.last() == 'Z');
            assert(m.drop_last() =~= spec_space_for_t(ts@).subrange(0, end - 1 as int));
        }
        end = end - 1;
    }
    let mut r = String::new();
    let mut i: usize = 0;
    while i < end
        invariant
            n == ts@.len(),
            end <= n,
            i <= end,
            r@ == spec_space_for_t(ts@).subrange(0, i as int),
        decreases end - i,
    {
        let c = ts.get_char(i);
        push_char(&mut r, if c == 'T' { ' ' } else { c });
        assert(r@ =~= spec_space_for_t(ts@).subrange(0, i + 1 as int));
        i = i + 1;
    }
    proof {
        let m = spec_space_for_t(ts@).subrange(0, end as int);
        assert(m.len() > 0 ==> m.last() != 'Z');
        assert(spec_trim_z(m) == m);
    }
    r
}

/// The human-readable name of a session status: only two raw statuses
/// have a different display form; all others pass through unchanged.
pub open spec fn spec_format_status(s: Seq<char>) -> Seq<char> {
    if s == "agent_not_running"@ {
        "no agent"@
    } else if s == "session_gone"@ {
        "gone"@
    } else {
        s
    }
}

/// Session status for display.
pub fn format_status(status: &str) -> (r: &str)
    ensures
        r@ == spec_format_status(status@),
{
    if str_eq(status, "agent_not_running") {
        "no agent"
    } else if str_eq(status, "session_gone") {
        "gone"
    } else {
        status
    }
}

/// The first eight characters of an identifier (all of it when shorter).
pub fn short_id(id: &str) -> (r: &str)
    ensures
        r@ == id@.subrange(0, if id@.len() < 8 { id@.len() as int } else { 8 }),
{
    let n = id.unicode_len();
    let cut: usize = if n < 8 { n } else { 8 };
    id.substring_char(0, cut)
}

} // verus!
