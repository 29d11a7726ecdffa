//! Mapping a session identifier to a canonical, safe storage location.

use vstd::prelude::*;
use crate::error::SessionError;

verus! {

/// A safe identifier: non-empty, free of path separators, and free of the
/// `..` traversal sequence, so it cannot escape the catalog root.
pub open spec fn valid_id(s: Seq<char>) -> bool {
    &&& s.len() > 0
    &&& forall|i: int| 0 <= i < s.len() ==> s[i] != '/' && s[i] != '\\'
    &&& forall|i: int| 0 <= i < s.len() - 1 ==> !(#[trigger] s[i] == '.' && s[i + 1] == '.')
}

/// A canonical storage location inside the catalog root.  Locations are in
/// one-to-one correspondence with valid identifiers.
#[derive(Debug)]
pub struct Location {
    pub name: String,
}

impl Location {
    pub open spec fn wf(self) -> bool {
        valid_id(self.name@)
    }
}

impl Clone for Location {
    fn clone(&self) -> (r: Self)
        ensures
            r == *self,
    {
        Location { name: self.name.clone() }
    }
}

/// What `resolve` returns for a given identifier.
pub open spec fn resolve_post(id: Seq<char>, r: Result<Location, SessionError>) -> bool {
    if valid_id(id) {
        r matches Ok(l) && l.name@ == id
    } else {
        r == Err::<Location, SessionError>(SessionError::InvalidIdentifier)
    }
}

/// Maps an identifier to its storage location; pure, deterministic and
/// injective over valid identifiers.  Rejects an empty identifier and one
/// holding a separator or a traversal sequence.
pub fn resolve(id: &str) -> (r: Result<Location, SessionError>)
    ensures
        resolve_post(id@, r),
        r matches Ok(l) ==> l.wf(),
{
    let n = id.unicode_len();
    if n == 0 {
        return Err(SessionError::InvalidIdentifier);
    }
    let mut i: usize = 0;
    while i < n
        invariant
            i <= n,
            n == id@.len(),
            forall|j: int| 0 <= j < i ==> id@[j] != '/' && id@[j] != '\\',
            forall|j: int| 0 <= j < i && j < n - 1 ==> !(#[trigger] id@[j] == '.' && id@[j + 1] == '.'),
        decreases n - i,
    {
        let c = id.get_char(i);
        if c == '/' || c == '\\' {
            return Err(SessionError::InvalidIdentifier);
        }
        if c == '.' && i + 1 < n {
            if id.get_char(i + 1) == '.' {
                return Err(SessionError::InvalidIdentifier);
            }
        }
        i = i + 1;
    }
    Ok(Location { name: String::from_str(id) })
}

/// Resolution is deterministic: two calls on the same identifier agree.
pub proof fn lemma_resolve_deterministic(
    id: Seq<char>,
    r1: Result<Location, SessionError>,
    r2: Result<Location, SessionError>,
)
    requires
        resolve_post(id, r1),
        resolve_post(id, r2),
    ensures
        match (r1, r2) {
            (Ok(l1), Ok(l2)) => l1.name@ == l2.name@,
            (Err(e1), Err(e2)) => e1 == e2,
            _ => false,
        },
{
}

/// Resolution is injective: distinct valid identifiers resolve to distinct
/// locations.
pub proof fn lemma_resolve_injective(
    id1: Seq<char>,
    id2: Seq<char>,
    r1: Result<Location, SessionError>,
    r2: Result<Location, SessionError>,
)
    requires
        valid_id(id1),
        valid_id(id2),
        id1 != id2,
        resolve_post(id1, r1),
        resolve_post(id2, r2),
    ensures
        r1 matches Ok(l1) && r2 matches Ok(l2) && l1.name@ != l2.name@,
{
}

} // verus!
