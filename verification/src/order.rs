//! A total lexicographic order on candidate strings, used to rank the
//! match list deterministically: it orders the whole list when the
//! pattern is empty and breaks score ties otherwise.

use vstd::prelude::*;
use vstd::string::*;

verus! {

/// Three-way lexicographic comparison of character sequences by Unicode
/// scalar value: -1 when `a` orders strictly before `b`, 0 exactly on
/// equality, 1 when `a` orders strictly after `b`.
pub open spec fn lex_cmp(a: Seq<char>, b: Seq<char>) -> int
    decreases a.len(),
{
    if a.len() == 0 && b.len() == 0 {
        0
    } else if a.len() == 0 {
        -1
    } else if b.len() == 0 {
        1
    } else if (a[0] as int) < (b[0] as int) {
        -1
    } else if (b[0] as int) < (a[0] as int) {
        1
    } else {
        lex_cmp(a.drop_first(), b.drop_first())
    }
}

/// The (non-strict) total order induced by `lex_cmp`.
pub open spec fn lex_le(a: Seq<char>, b: Seq<char>) -> bool {
    lex_cmp(a, b) <= 0
}

/// `lex_cmp` recognises exactly the equal sequences.
pub proof fn lemma_lex_cmp_eq(a: Seq<char>, b: Seq<char>)
    ensures
        lex_cmp(a, b) == 0 <==> a == b,
    decreases a.len(),
{
    if a.len() == 0 && b.len() == 0 {
        assert(a =~= b);
    } else if a.len() == 0 || b.len() == 0 {
    } else if (a[0] as int) < (b[0] as int) || (b[0] as int) < (a[0] as int) {
    } else {
        lemma_lex_cmp_eq(a.drop_first(), b.drop_first());
        if lex_cmp(a, b) == 0 {
            assert(a =~= b) by {
                assert forall|i: int| 0 <= i < a.len() implies a[i] == b[i] by {
                    if i == 0 {
                        assert((a[0] as int) == (b[0] as int));
                        assert(a[0] == b[0]);
                    } else {
                        assert(a.drop_first()[i - 1] == b.drop_first()[i - 1]);
                    }
                }
            }
        }
        if a == b {
            assert(a.drop_first() =~= b.drop_first());
        }
    }
}

/// Comparing in the opposite direction flips the sign.
pub proof fn lemma_lex_cmp_sign(a: Seq<char>, b: Seq<char>)
    ensures
        lex_cmp(b, a) == -lex_cmp(a, b),
    decreases a.len(),
{
    if a.len() == 0 && b.len() == 0 {
    } else if a.len() == 0 || b.len() == 0 {
    } else if (a[0] as int) < (b[0] as int) || (b[0] as int) < (a[0] as int) {
    } else {
        lemma_lex_cmp_sign(a.drop_first(), b.drop_first());
    }
}

/// Strict lexicographic precedence is transitive.
pub proof fn lemma_lex_cmp_lt_trans(a: Seq<char>, b: Seq<char>, c: Seq<char>)
    requires
        lex_cmp(a, b) < 0,
        lex_cmp(b, c) < 0,
    ensures
        lex_cmp(a, c) < 0,
    decreases a.len(),
{
    if a.len() == 0 {
        assert(b.len() > 0);
        assert(c.len() > 0);
    } else {
        assert(b.len() > 0);
        assert(c.len() > 0);
        if (a[0] as int) == (b[0] as int) && (b[0] as int) == (c[0] as int) {
            lemma_lex_cmp_lt_trans(a.drop_first(), b.drop_first(), c.drop_first());
        } else {
            assert((a[0] as int) < (c[0] as int));
        }
    }
}

/// Executable three-way comparison of two strings, agreeing with
/// `lex_cmp` on their character sequences.
pub fn str_cmp(a: &str, b: &str) -> (r: i32)
    ensures
        r as int == lex_cmp(a@, b@),
{
    let alen = a.unicode_len();
    let blen = b.unicode_len();
    let n: usize = if alen < blen {
        alen
    } else {
        blen
    };
    let mut i: usize = 0;
    proof {
        assert(a@.skip(0) =~= a@);
        assert(b@.skip(0) =~= b@);
    }
    while i < n
        invariant
            alen == a@.len(),
            blen == b@.len(),
            n == if alen < blen {
                alen
            } else {
                blen
            },
            0 <= i <= n,
            lex_cmp(a@, b@) == lex_cmp(a@.skip(i as int), b@.skip(i as int)),
        decreases n - i,
    {
        let ca = a.get_char(i);
        let cb = b.get_char(i);
        proof {
            assert(a@.skip(i as int)[0] == a@[i as int]);
            assert(b@.skip(i as int)[0] == b@[i as int]);
        }
        if ca < cb {
            return -1;
        }
        if cb < ca {
            return 1;
        }
        proof {
            assert(a@.skip(i as int).drop_first() =~= a@.skip(i as int + 1));
            assert(b@.skip(i as int).drop_first() =~= b@.skip(i as int + 1));
        }
        i = i + 1;
    }
    proof {
        assert(a@.skip(i as int).len() == alen - n);
        assert(b@.skip(i as int).len() == blen - n);
    }
    if alen < blen {
        -1
    } else if blen < alen {
        1
    } else {
        0
    }
}

} // verus!

