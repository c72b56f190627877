//! Case-insensitive matching and ordering of entry names.

use vstd::prelude::*;

use crate::trusted::{lower_of, lowercase, str_contains};

verus! {

/// `sub` occurs as a contiguous substring of `s`.
pub open spec fn contains_seq(s: Seq<char>, sub: Seq<char>) -> bool {
    exists|i: int| 0 <= i && i + sub.len() <= s.len() && #[trigger] s.subrange(i, i + sub.len())
        == sub
}

/// The match predicate of a search: the lowercased entry name contains
/// the already-lowered query.
pub open spec fn match_ok(name: Seq<char>, lowered_query: Seq<char>) -> bool {
    contains_seq(lower_of(name), lowered_query)
}

/// Whether an entry named `name` satisfies the already-lowered query:
/// case-insensitive substring containment.
pub fn name_matches(name: &str, lowered_query: &str) -> (r: bool)
    ensures
        r == match_ok(name@, lowered_query@),
{
    let low = lowercase(name);
    str_contains(low.as_str(), lowered_query)
}

/// An empty query matches every name.
pub proof fn lemma_empty_query_matches(name: Seq<char>, lowered_query: Seq<char>)
    requires
        lowered_query.len() == 0,
    ensures
        match_ok(name, lowered_query),
{
    let s = lower_of(name);
    assert(s.subrange(0, 0) =~= lowered_query);
    assert(0 <= 0 && 0 + lowered_query.len() <= s.len() && s.subrange(0, 0 + lowered_query.len() as int) == lowered_query);
}

/// Lexicographic order on character sequences, by code point.
pub open spec fn lex_le(a: Seq<char>, b: Seq<char>) -> bool
    decreases a.len(),
{
    if a.len() == 0 {
        true
    } else if b.len() == 0 {
        false
    } else if (a[0] as u32) < (b[0] as u32) {
        true
    } else if (b[0] as u32) < (a[0] as u32) {
        false
    } else {
        lex_le(a.drop_first(), b.drop_first())
    }
}

/// `lex_le` is total: any two sequences compare one way or the other.
pub proof fn lemma_lex_le_total(a: Seq<char>, b: Seq<char>)
    ensures
        lex_le(a, b) || lex_le(b, a),
    decreases a.len(),
{
    if a.len() == 0 || b.len() == 0 {
    } else {
        lemma_lex_le_total(a.drop_first(), b.drop_first());
    }
}

/// `lex_le` is transitive.
pub proof fn lemma_lex_le_trans(a: Seq<char>, b: Seq<char>, c: Seq<char>)
    requires
        lex_le(a, b),
        lex_le(b, c),
    ensures
        lex_le(a, c),
    decreases a.len(),
{
    if a.len() == 0 {
    } else {
        // lex_le(a, b) with a nonempty forces b nonempty, and likewise c.
        assert(b.len() > 0);
        assert(c.len() > 0);
        if (a[0] as u32) == (b[0] as u32) && (b[0] as u32) == (c[0] as u32) {
            lemma_lex_le_trans(a.drop_first(), b.drop_first(), c.drop_first());
        }
    }
}

/// Lexicographic comparison of two strings, character by character.
pub fn lex_le_exec(a: &str, b: &str) -> (r: bool)
    ensures
        r == lex_le(a@, b@),
{
    let a_len = a.unicode_len();
    let b_len = b.unicode_len();
    let mut i: usize = 0;
    proof {
        assert(a@.skip(0) =~= a@);
        assert(b@.skip(0) =~= b@);
    }
    loop
        invariant
            i <= a_len,
            i <= b_len,
            a_len == a@.len(),
            b_len == b@.len(),
            lex_le(a@, b@) == lex_le(a@.skip(i as int), b@.skip(i as int)),
        ensures
            lex_le(a@, b@) == lex_le(a@.skip(i as int), b@.skip(i as int)),
            i == a_len || (i < a_len && i < b_len && (a@[i as int] as u32) != (b@[i as int] as u32))
                || (i == b_len && i < a_len),
        decreases a_len - i,
    {
        if i == a_len {
            break ;
        }
        if i == b_len {
            break ;
        }
        let ca = a.get_char(i);
        let cb = b.get_char(i);
        if (ca as u32) != (cb as u32) {
            break ;
        }
        proof {
            let sa = a@.skip(i as int);
            let sb = b@.skip(i as int);
            assert(sa[0] == a@[i as int]);
            assert(sb[0] == b@[i as int]);
            assert(sa.drop_first() =~= a@.skip(i + 1));
            assert(sb.drop_first() =~= b@.skip(i + 1));
        }
        i = i + 1;
    }
    proof {
        let sa = a@.skip(i as int);
        let sb = b@.skip(i as int);
        if i == a_len {
            assert(sa.len() == 0);
        } else if i == b_len {
            assert(sb.len() == 0);
            assert(sa.len() > 0);
        } else {
            assert(sa[0] == a@[i as int]);
            assert(sb[0] == b@[i as int]);
        }
    }
    if i == a_len {
        true
    } else if i == b_len {
        false
    } else {
        let ca = a.get_char(i);
        let cb = b.get_char(i);
        (ca as u32) < (cb as u32)
    }
}

} // verus!
