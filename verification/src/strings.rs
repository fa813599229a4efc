//! Verified string utilities: equality, lexicographic order and substring
//! search over character sequences.

use vstd::prelude::*;

verus! {

/// Lexicographic order on character sequences, by unicode code point.
pub open spec fn lex_le(a: Seq<char>, b: Seq<char>) -> bool
    decreases a.len(),
{
    if a.len() == 0 {
        true
    } else if b.len() == 0 {
        false
    } else if a[0] == b[0] {
        lex_le(a.skip(1), b.skip(1))
    } else {
        (a[0] as u32) < (b[0] as u32)
    }
}

/// `lex_le` is total: any two sequences are comparable.
pub proof fn lemma_lex_le_total(a: Seq<char>, b: Seq<char>)
    ensures
        lex_le(a, b) || lex_le(b, a),
    decreases a.len(),
{
    if a.len() == 0 {
    } else if b.len() == 0 {
    } else if a[0] == b[0] {
        lemma_lex_le_total(a.skip(1), b.skip(1));
    } else {
        assert((a[0] as u32) != (b[0] as u32)) by {
            vstd::utf8::char_u32_cast(a[0], a[0] as u32);
            vstd::utf8::char_u32_cast(b[0], b[0] as u32);
        }
    }
}

/// `lex_le` is transitive.
pub proof fn lemma_lex_le_trans(a: Seq<char>, b: Seq<char>, c: Seq<char>)
    requires
        lex_le(a, b),
        lex_le(b, c),
    ensures
        lex_le(a, c),
    decreases a.len(),
{
    if a.len() == 0 {
    } else if b.len() == 0 {
    } else if c.len() == 0 {
    } else if a[0] == b[0] && b[0] == c[0] {
        lemma_lex_le_trans(a.skip(1), b.skip(1), c.skip(1));
    }
}

/// Character equality on two strings decides view equality.
pub fn str_eq(a: &str, b: &str) -> (r: bool)
    ensures
        r == (a@ == b@),
{
    let alen = a.unicode_len();
    let blen = b.unicode_len();
    if alen != blen {
        return false;
    }
    let mut i: usize = 0;
    while i < alen
        invariant
            0 <= i <= alen,
            alen == a@.len(),
            alen == b@.len(),
            forall|j: int| 0 <= j < i ==> a@[j] == b@[j],
        decreases alen - i,
    {
        let ca = a.get_char(i);
        let cb = b.get_char(i);
        if ca != cb {
            return false;
        }
        i = i + 1;
    }
    proof {
        assert(a@ =~= b@);
    }
    true
}

/// Lexicographic comparison of two strings.
pub fn str_le(a: &str, b: &str) -> (r: bool)
    ensures
        r == lex_le(a@, b@),
{
    let alen = a.unicode_len();
    let blen = b.unicode_len();
    let mut i: usize = 0;
    proof {
        assert(a@.skip(0) =~= a@);
        assert(b@.skip(0) =~= b@);
    }
    while i < alen && i < blen
        invariant
            0 <= i <= alen,
            0 <= i <= blen,
            alen == a@.len(),
            blen == b@.len(),
            lex_le(a@, b@) == lex_le(a@.skip(i as int), b@.skip(i as int)),
        decreases alen - i,
    {
        let ca = a.get_char(i);
        let cb = b.get_char(i);
        proof {
            assert(a@.skip(i as int)[0] == a@[i as int]);
            assert(b@.skip(i as int)[0] == b@[i as int]);
            assert(a@.skip(i as int).skip(1) =~= a@.skip(i + 1));
            assert(b@.skip(i as int).skip(1) =~= b@.skip(i + 1));
        }
        if ca != cb {
            return (ca as u32) < (cb as u32);
        }
        i = i + 1;
    }
    proof {
        if i == alen {
            assert(a@.skip(i as int).len() == 0);
        } else {
            assert(b@.skip(i as int).len() == 0);
            assert(a@.skip(i as int).len() > 0);
        }
    }
    i == alen
}

/// `p` occurs as a contiguous subsequence of `t`.
pub open spec fn contains_seq(t: Seq<char>, p: Seq<char>) -> bool {
    exists|i: int| 0 <= i <= t.len() - p.len() && #[trigger] t.subrange(i, i + p.len()) == p
}

/// `p` occurs in `t` starting at position `i`.
pub open spec fn matches_at(t: Seq<char>, p: Seq<char>, i: int) -> bool {
    0 <= i <= t.len() - p.len() && t.subrange(i, i + p.len()) == p
}

/// Substring search: does `t` contain `p`?
pub fn str_contains(t: &str, p: &str) -> (r: bool)
    ensures
        r == contains_seq(t@, p@),
{
    let tlen = t.unicode_len();
    let plen = p.unicode_len();
    if plen > tlen {
        assert(!contains_seq(t@, p@));
        return false;
    }
    if plen == 0 {
        proof {
            assert(t@.subrange(0, 0 + p@.len() as int) =~= p@);
            assert(contains_seq(t@, p@));
        }
        return true;
    }
    let mut i: usize = 0;
    while i <= tlen - plen
        invariant
            0 <= i <= tlen - plen + 1,
            0 < plen <= tlen,
            tlen == t@.len(),
            plen == p@.len(),
            forall|k: int| 0 <= k < i ==> !matches_at(t@, p@, k),
        decreases tlen - i,
    {
        let mut j: usize = 0;
        let mut mismatch = false;
        while j < plen
            invariant
                0 <= j <= plen,
                i + plen <= tlen,
                tlen == t@.len(),
                plen == p@.len(),
                !mismatch ==> forall|k: int| 0 <= k < j ==> t@[i + k] == p@[k],
                mismatch ==> !matches_at(t@, p@, i as int),
            decreases plen - j,
        {
            let tc = t.get_char(i + j);
            let pc = p.get_char(j);
            if tc != pc {
                proof {
                    if matches_at(t@, p@, i as int) {
                        assert(t@.subrange(i as int, i + plen)[j as int] == p@[j as int]);
                    }
                }
                mismatch = true;
                j = plen;
            } else {
                j = j + 1;
            }
        }
        if !mismatch {
            proof {
                assert(t@.subrange(i as int, i + plen) =~= p@);
            }
            return true;
        }
        i = i + 1;
    }
    proof {
        assert(forall|k: int| 0 <= k <= t@.len() - p@.len() ==> !matches_at(t@, p@, k));
        assert(!contains_seq(t@, p@)) by {
            if contains_seq(t@, p@) {
                let k = choose|k: int|
                    0 <= k <= t@.len() - p@.len() && #[trigger] t@.subrange(k, k + p@.len())
                        == p@;
                assert(matches_at(t@, p@, k));
            }
        }
    }
    false
}

} // verus!
