//! Character scanning over strings: first occurrence of a character
//! from a set, and verified string equality.

use vstd::prelude::*;

verus! {

/// Index of the first character of `s` that occurs in `cs`, if any.
pub open spec fn first_index_in(s: Seq<char>, cs: Seq<char>) -> Option<int>
    decreases s.len(),
{
    if s.len() == 0 {
        None
    } else if cs.contains(s[0]) {
        Some(0)
    } else {
        match first_index_in(s.drop_first(), cs) {
            Some(i) => Some(i + 1),
            None => None,
        }
    }
}

/// `first_index_in` returns the least index whose character occurs in
/// `cs`, or nothing when no character does.
pub proof fn lemma_first_index_in(s: Seq<char>, cs: Seq<char>)
    ensures
        match first_index_in(s, cs) {
            Some(i) => 0 <= i < s.len() && cs.contains(s[i]) && forall|j: int| 0 <= j < i
                ==> !cs.contains(#[trigger] s[j]),
            None => forall|j: int| 0 <= j < s.len() ==> !cs.contains(#[trigger] s[j]),
        },
    decreases s.len(),
{
    if s.len() != 0 && !cs.contains(s[0]) {
        let sd = s.drop_first();
        lemma_first_index_in(sd, cs);
        match first_index_in(sd, cs) {
            Some(i) => {
                assert(sd[i] == s[i + 1]);
                assert forall|j: int| 0 <= j < i + 1 implies !cs.contains(#[trigger] s[j]) by {
                    if j > 0 {
                        assert(sd[j - 1] == s[j]);
                        assert(!cs.contains(sd[j - 1]));
                    }
                }
            },
            None => {
                assert forall|j: int| 0 <= j < s.len() implies !cs.contains(#[trigger] s[j]) by {
                    if j > 0 {
                        assert(sd[j - 1] == s[j]);
                        assert(!cs.contains(sd[j - 1]));
                    }
                }
            },
        }
    }
}

/// A first occurrence is unmoved by anything appended after it.
pub proof fn lemma_first_index_in_append(s: Seq<char>, u: Seq<char>, cs: Seq<char>)
    requires
        first_index_in(s, cs) is Some,
    ensures
        first_index_in(s + u, cs) == first_index_in(s, cs),
    decreases s.len(),
{
    assert((s + u)[0] == s[0]);
    if !cs.contains(s[0]) {
        lemma_first_index_in_append(s.drop_first(), u, cs);
        assert((s + u).drop_first() =~= s.drop_first() + u);
    }
}

/// The token separators: space and tab.
pub open spec fn ws_chars() -> Seq<char> {
    seq![' ', '\t']
}

/// Index of the first space or tab of `s`, if any.
pub open spec fn first_ws(s: Seq<char>) -> Option<int> {
    first_index_in(s, ws_chars())
}

/// Index of the first `.` of `s`, if any.
pub open spec fn first_dot(s: Seq<char>) -> Option<int> {
    first_index_in(s, seq!['.'])
}

/// Finds the first space or tab of `s`.
pub fn find_ws(s: &str) -> (r: Option<usize>)
    ensures
        match r {
            Some(i) => first_ws(s@) == Some(i as int) && i < s@.len(),
            None => first_ws(s@) is None,
        },
{
    proof {
        lemma_first_index_in(s@, ws_chars());
    }
    let n = s.unicode_len();
    let mut i: usize = 0;
    while i < n
        invariant
            0 <= i <= n,
            n == s@.len(),
            forall|j: int| 0 <= j < i ==> !ws_chars().contains(#[trigger] s@[j]),
        decreases n - i,
    {
        let c = s.get_char(i);
        if c == ' ' || c == '\t' {
            proof {
                lemma_first_index_in(s@, ws_chars());
                assert(ws_chars()[0] == ' ' && ws_chars()[1] == '\t');
                assert(ws_chars().contains(s@[i as int]));
            }
            return Some(i);
        }
        proof {
            assert forall|k: int| 0 <= k < ws_chars().len() implies ws_chars()[k] != s@[i as int] by {
            }
            assert(!ws_chars().contains(s@[i as int]));
        }
        i = i + 1;
    }
    None
}

/// Finds the first occurrence of `c` in `s`.
pub fn find_char(s: &str, c: char) -> (r: Option<usize>)
    ensures
        match r {
            Some(i) => first_index_in(s@, seq![c]) == Some(i as int) && i < s@.len(),
            None => first_index_in(s@, seq![c]) is None,
        },
{
    proof {
        lemma_first_index_in(s@, seq![c]);
    }
    let n = s.unicode_len();
    let mut i: usize = 0;
    while i < n
        invariant
            0 <= i <= n,
            n == s@.len(),
            forall|j: int| 0 <= j < i ==> !seq![c].contains(#[trigger] s@[j]),
        decreases n - i,
    {
        let here = s.get_char(i);
        if here == c {
            proof {
                lemma_first_index_in(s@, seq![c]);
                assert(seq![c][0] == c);
                assert(seq![c].contains(s@[i as int]));
            }
            return Some(i);
        }
        proof {
            assert forall|k: int| 0 <= k < seq![c].len() implies seq![c][k] != s@[i as int] by {}
            assert(!seq![c].contains(s@[i as int]));
        }
        i = i + 1;
    }
    None
}

/// Finds the first `.` of `s`.
pub fn find_dot(s: &str) -> (r: Option<usize>)
    ensures
        match r {
            Some(i) => first_dot(s@) == Some(i as int) && i < s@.len(),
            None => first_dot(s@) is None,
        },
{
    find_char(s, '.')
}

/// Compares two strings character by character.
pub fn str_eq(a: &str, b: &str) -> (r: bool)
    ensures
        r == (a@ == b@),
{
    let na = a.unicode_len();
    let nb = b.unicode_len();
    if na != nb {
        return false;
    }
    let mut i: usize = 0;
    while i < na
        invariant
            0 <= i <= na,
            na == a@.len(),
            na == b@.len(),
            forall|j: int| 0 <= j < i ==> a@[j] == #[trigger] b@[j],
        decreases na - i,
    {
        if a.get_char(i) != b.get_char(i) {
            return false;
        }
        i = i + 1;
    }
    proof {
        assert(a@ =~= b@);
    }
    true
}

} // verus!
