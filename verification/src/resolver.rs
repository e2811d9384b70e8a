//! Short-identifier resolution.
//!
//! A candidate at or above the canonical identifier length is already a
//! full id and resolves to itself with no look at the candidate list. A
//! shorter candidate is a prefix: exactly one id starting with it
//! resolves to that id, none fail as `NoMatch`, and two or more fail as
//! `Ambiguous` — a tie is never broken by taking the first.

use vstd::prelude::*;
use vstd::string::StrSliceExecFns;
use vstd::string::StringExecFns;

verus! {

/// The canonical identifier length: a full id has at least this many
/// characters, and such a candidate cannot be a proper prefix of
/// anything shorter to type.
pub const CANONICAL_ID_LEN: usize = 32;

/// A short candidate failed to resolve.
#[derive(Debug)]
pub enum ResolveError {
    /// No id starts with the candidate.
    NoMatch,
    /// Two or more ids start with the candidate.
    Ambiguous,
}

pub open spec fn is_prefix(p: Seq<char>, s: Seq<char>) -> bool {
    p.len() <= s.len() && s.subrange(0, p.len() as int) == p
}

/// The views of a list of ids.
pub open spec fn id_views(ids: Seq<String>) -> Seq<Seq<char>> {
    Seq::new(
        ids.len(),
        |i: int|
            if 0 <= i < ids.len() {
                ids[i]@
            } else {
                Seq::empty()
            },
    )
}

/// The ids a candidate matches: those it is a prefix of, in list order.
pub open spec fn prefix_matches(ids: Seq<Seq<char>>, candidate: Seq<char>) -> Seq<Seq<char>> {
    ids.filter(|s: Seq<char>| is_prefix(candidate, s))
}

/// Whether resolving this candidate needs the backend's id list at all:
/// only a candidate below the canonical length does.
pub fn needs_candidate_list(candidate: &str) -> (r: bool)
    ensures
        r == (candidate@.len() < CANONICAL_ID_LEN),
{
    candidate.unicode_len() < CANONICAL_ID_LEN
}

/// Whether `candidate` begins `id`.
fn is_prefix_exec(candidate: &str, id: &str) -> (r: bool)
    ensures
        r == is_prefix(candidate@, id@),
{
    let n = candidate.unicode_len();
    if n > id.unicode_len() {
        return false;
    }
    let mut i: usize = 0;
    while i < n
        invariant
            n == candidate@.len(),
            n <= id@.len(),
            i <= n,
            forall|j: int| 0 <= j < i ==> candidate@[j] == id@[j],
        decreases n - i,
    {
        if candidate.get_char(i) != id.get_char(i) {
            assert(id@.subrange(0, n as int)[i as int] != candidate@[i as int]);
            return false;
        }
        i = i + 1;
    }
    assert(id@.subrange(0, n as int) =~= candidate@);
    true
}

/// Resolve a candidate against the full id list.
///
/// A candidate of canonical length or more comes back unchanged, and
/// the list plays no part. A shorter one resolves to the single id it
/// begins; with none it is `NoMatch`, with several it is `Ambiguous`
/// and no value is ever returned.
pub fn resolve(candidate: &str, ids: &Vec<String>) -> (r: Result<String, ResolveError>)
    ensures
        candidate@.len() >= CANONICAL_ID_LEN ==> (r matches Ok(m) && m@ == candidate@),
        candidate@.len() < CANONICAL_ID_LEN ==> {
            let ms = prefix_matches(id_views(ids@), candidate@);
            &&& ms.len() == 0 ==> (r matches Err(e) && e is NoMatch)
            &&& ms.len() == 1 ==> (r matches Ok(m) && m@ == ms[0])
            &&& ms.len() >= 2 ==> (r matches Err(e) && e is Ambiguous)
        },
{
    if !needs_candidate_list(candidate) {
        return Ok(candidate.to_owned());
    }
    let ghost views = id_views(ids@);
    let mut found: Option<String> = None;
    let mut count: usize = 0;
    let mut i: usize = 0;
    proof {
        assert(views.subrange(0, 0) =~= Seq::empty());
        assert(prefix_matches(Seq::empty(), candidate@) =~= Seq::empty());
    }
    while i < ids.len()
        invariant
            i <= ids.len(),
            views == id_views(ids@),
            count == prefix_matches(views.subrange(0, i as int), candidate@).len(),
            count > 0 ==> (found matches Some(m) && m@ == prefix_matches(
                views.subrange(0, i as int),
                candidate@,
            )[0]),
            count == 0 ==> found is None,
            count <= i,
        decreases ids.len() - i,
    {
        proof {
            let pre = views.subrange(0, i as int);
            let cur = views.subrange(0, i + 1 as int);
            assert(cur.drop_last() =~= pre);
            assert(cur.last() == views[i as int]);
            assert(views[i as int] == ids@[i as int]@);
            reveal_with_fuel(Seq::filter, 2);
            if is_prefix(candidate@, views[i as int]) {
                assert(prefix_matches(cur, candidate@) =~= prefix_matches(pre, candidate@).push(
                    views[i as int],
                ));
            } else {
                assert(prefix_matches(cur, candidate@) =~= prefix_matches(pre, candidate@));
            }
        }
        if is_prefix_exec(candidate, ids[i].as_str()) {
            if count == 0 {
                found = Some(ids[i].clone());
            }
            count = count + 1;
        }
        i = i + 1;
    }
    proof {
        assert(views.subrange(0, ids@.len() as int) =~= views);
    }
    if count == 0 {
        Err(ResolveError::NoMatch)
    } else if count == 1 {
        match found {
            Some(m) => Ok(m),
            None => Err(ResolveError::NoMatch),
        }
    } else {
        Err(ResolveError::Ambiguous)
    }
}

} // verus!
