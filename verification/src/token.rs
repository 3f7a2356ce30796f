//! Random identifiers for sessions, rooms and invites.

use crate::registry::find_str;
use crate::text::strs;
use vstd::prelude::*;
use vstd::string::*;

verus! {

/// A lower-case hexadecimal digit.
pub open spec fn is_lower_hex(c: char) -> bool {
    '0' <= c <= '9' || 'a' <= c <= 'f'
}

/// Thirty-two lower-case hexadecimal digits.
pub open spec fn is_token(s: Seq<char>) -> bool {
    s.len() == 32 && forall|i: int| 0 <= i < s.len() ==> is_lower_hex(#[trigger] s[i])
}

/// Calls `uuid::Uuid::new_v4` and writes the result in the form of `Uuid::as_simple`.
/// Trusted, not proved: the result is 32 lower-case hexadecimal digits. It is random,
/// so nothing is said of which digits, and two calls need not agree. `new_v4` panics
/// where the operating system cannot deliver random bytes.
#[verifier::external_body]
pub(crate) fn fresh_token() -> (t: String)
    ensures
        is_token(t@),
{
    uuid::Uuid::new_v4().as_simple().to_string()
}

/// An id: lower-case hexadecimal digits, at least thirty-two of them.
pub open spec fn is_id(s: Seq<char>) -> bool {
    s.len() >= 32 && forall|i: int| 0 <= i < s.len() ==> is_lower_hex(#[trigger] s[i])
}

/// How many of `ids` have at least `n` characters.
pub open spec fn at_least(ids: Seq<Seq<char>>, n: nat) -> nat
    decreases ids.len(),
{
    if ids.len() == 0 {
        0
    } else if ids.last().len() >= n {
        at_least(ids.drop_last(), n) + 1
    } else {
        at_least(ids.drop_last(), n)
    }
}

proof fn lemma_at_least_falls(ids: Seq<Seq<char>>, n: nat)
    ensures
        at_least(ids, n + 1) <= at_least(ids, n),
    decreases ids.len(),
{
    if ids.len() > 0 {
        lemma_at_least_falls(ids.drop_last(), n);
    }
}

/// Fewer ids are longer than one of them than are at least as long as it.
pub proof fn lemma_at_least_drops(ids: Seq<Seq<char>>, x: Seq<char>)
    requires
        ids.contains(x),
    ensures
        at_least(ids, x.len() + 1) < at_least(ids, x.len()),
    decreases ids.len(),
{
    lemma_at_least_falls(ids.drop_last(), x.len());
    if ids.last() != x {
        let k = choose|k: int| 0 <= k < ids.len() && ids[k] == x;
        assert(ids.drop_last()[k] == x);
        lemma_at_least_drops(ids.drop_last(), x);
    }
}

/// An id that none of `taken` is: `t`, with as many zeros behind it as that takes.
pub fn unused_among(taken: &Vec<String>, t: String) -> (id: String)
    requires
        is_id(t@),
    ensures
        is_id(id@),
        !strs(taken@).contains(id@),
{
    let mut id = t;
    let mut held = find_str(taken, &id);
    while held.is_some()
        invariant
            is_id(id@),
            match held {
                Some(k) => k < taken.len() && taken[k as int]@ == id@,
                None => !strs(taken@).contains(id@),
            },
        decreases at_least(strs(taken@), id@.len()),
    {
        proof {
            assert(strs(taken@)[held.unwrap() as int] == id@);
            lemma_at_least_drops(strs(taken@), id@);
            reveal_strlit("0");
        }
        id.append("0");
        held = find_str(taken, &id);
    }
    id
}

} // verus!
