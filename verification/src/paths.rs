//! Image paths and their ordering.
//!
//! Image paths are absolute, forward-slash strings. The pack plan keeps its
//! entries strictly sorted under the lexicographic order by code point, the
//! same order the standard library gives strings, so everything needed to
//! reason about sortedness and deterministic output lives here: the order,
//! its total-order laws, an executable comparison, and sorted insertion.

use vstd::prelude::*;

verus! {

/// Strict lexicographic order on character sequences, by code point.
pub open spec fn lex_lt(a: Seq<char>, b: Seq<char>) -> bool
    decreases a.len(),
{
    if b.len() == 0 {
        false
    } else if a.len() == 0 {
        true
    } else if a[0] != b[0] {
        (a[0] as u32) < (b[0] as u32)
    } else {
        lex_lt(a.skip(1), b.skip(1))
    }
}

/// The order is decided by the first differing position: equal prefixes
/// can be dropped.
pub proof fn lemma_lex_skip(a: Seq<char>, b: Seq<char>, i: int)
    requires
        0 <= i <= a.len(),
        i <= b.len(),
        a.subrange(0, i) =~= b.subrange(0, i),
    ensures
        lex_lt(a, b) == lex_lt(a.skip(i), b.skip(i)),
    decreases i,
{
    if i == 0 {
        assert(a.skip(0) =~= a);
        assert(b.skip(0) =~= b);
    } else {
        assert(a.subrange(0, i)[0] == a[0]);
        assert(b.subrange(0, i)[0] == b[0]);
        assert(lex_lt(a, b) == lex_lt(a.skip(1), b.skip(1)));
        assert(a.subrange(1, i) =~= b.subrange(1, i)) by {
            assert forall|j: int| 0 <= j < i - 1 implies #[trigger] a.subrange(1, i)[j]
                == b.subrange(1, i)[j] by {
                assert(a.subrange(0, i)[j + 1] == b.subrange(0, i)[j + 1]);
            }
        }
        assert(a.skip(1).subrange(0, i - 1) =~= a.subrange(1, i));
        assert(b.skip(1).subrange(0, i - 1) =~= b.subrange(1, i));
        lemma_lex_skip(a.skip(1), b.skip(1), i - 1);
        assert(a.skip(1).skip(i - 1) =~= a.skip(i));
        assert(b.skip(1).skip(i - 1) =~= b.skip(i));
    }
}

/// Totality: two sequences are ordered one way, the other, or equal.
pub proof fn lemma_lex_total(a: Seq<char>, b: Seq<char>)
    ensures
        lex_lt(a, b) || lex_lt(b, a) || a == b,
    decreases a.len(),
{
    if b.len() == 0 {
        if a.len() == 0 {
            assert(a =~= b);
        }
    } else if a.len() == 0 {
    } else if a[0] != b[0] {
        vstd::utf8::char_is_scalar(a[0]);
        vstd::utf8::char_is_scalar(b[0]);
        if (a[0] as u32) == (b[0] as u32) {
            vstd::utf8::char_u32_cast(a[0], a[0] as u32);
            vstd::utf8::char_u32_cast(b[0], b[0] as u32);
        }
        assert((a[0] as u32) != (b[0] as u32));
    } else {
        lemma_lex_total(a.skip(1), b.skip(1));
        if !lex_lt(a, b) && !lex_lt(b, a) {
            assert(a.skip(1) == b.skip(1));
            assert forall|j: int| 0 <= j < a.len() implies a[j] == b[j] by {
                if j > 0 {
                    assert(a.skip(1)[j - 1] == b.skip(1)[j - 1]);
                }
            }
            assert(a.len() == b.len());
            assert(a =~= b);
        }
    }
}

/// Asymmetry: the order never holds both ways.
pub proof fn lemma_lex_asym(a: Seq<char>, b: Seq<char>)
    requires
        lex_lt(a, b),
    ensures
        !lex_lt(b, a),
    decreases a.len(),
{
    if b.len() == 0 {
    } else if a.len() == 0 {
    } else if a[0] != b[0] {
    } else {
        lemma_lex_asym(a.skip(1), b.skip(1));
    }
}

/// Transitivity of the order.
pub proof fn lemma_lex_trans(a: Seq<char>, b: Seq<char>, c: Seq<char>)
    requires
        lex_lt(a, b),
        lex_lt(b, c),
    ensures
        lex_lt(a, c),
    decreases a.len(),
{
    if a.len() == 0 {
    } else {
        if b.len() == 0 {
        } else if a[0] != b[0] {
            if b[0] != c[0] {
            } else {
            }
        } else {
            if b[0] != c[0] {
            } else {
                lemma_lex_trans(a.skip(1), b.skip(1), c.skip(1));
            }
        }
    }
}

/// Decide the lexicographic order on two strings.
pub fn str_lex_lt(a: &str, b: &str) -> (r: bool)
    ensures
        r == lex_lt(a@, b@),
{
    let alen = a.unicode_len();
    let blen = b.unicode_len();
    let mut i: usize = 0;
    while i < alen && i < blen
        invariant
            alen == a@.len(),
            blen == b@.len(),
            i <= alen,
            i <= blen,
            forall|j: int| 0 <= j < i ==> a@[j] == b@[j],
        decreases alen - i,
    {
        let ca = a.get_char(i);
        let cb = b.get_char(i);
        if ca != cb {
            proof {
                assert(a@.subrange(0, i as int) =~= b@.subrange(0, i as int));
                lemma_lex_skip(a@, b@, i as int);
            }
            return (ca as u32) < (cb as u32);
        }
        i = i + 1;
    }
    proof {
        assert(a@.subrange(0, i as int) =~= b@.subrange(0, i as int));
        lemma_lex_skip(a@, b@, i as int);
    }
    alen < blen
}

/// Whether some string of the sequence reads `p`.
pub open spec fn str_seq_contains(s: Seq<String>, p: Seq<char>) -> bool {
    exists|i: int| 0 <= i < s.len() && s[i]@ == p
}

/// Strictly ascending under [`lex_lt`]; in particular, free of duplicates.
pub open spec fn strictly_sorted_strings(s: Seq<String>) -> bool {
    forall|i: int, j: int| 0 <= i < j < s.len() ==> lex_lt(s[i]@, s[j]@)
}

/// Insert a string into a strictly sorted vector, keeping it strictly
/// sorted; a string already present is left alone.
pub fn insert_sorted_string(v: &mut Vec<String>, s: String)
    requires
        strictly_sorted_strings(old(v)@),
    ensures
        strictly_sorted_strings(final(v)@),
        forall|p: Seq<char>|
            #[trigger] str_seq_contains(final(v)@, p) <==> (str_seq_contains(old(v)@, p) || p
                == s@),
{
    let ghost orig = v@;
    let mut i: usize = 0;
    while i < v.len() && str_lex_lt(v[i].as_str(), s.as_str())
        invariant
            v@ == orig,
            strictly_sorted_strings(orig),
            i <= v@.len(),
            forall|j: int| 0 <= j < i ==> lex_lt(orig[j]@, s@),
        decreases v@.len() - i,
    {
        i = i + 1;
    }
    if i < v.len() && v[i] == s {
        proof {
            assert(str_seq_contains(orig, s@));
        }
        return ;
    }
    proof {
        if i < orig.len() {
            lemma_lex_total(orig[i as int]@, s@);
        }
        assert(i < orig.len() ==> lex_lt(s@, orig[i as int]@));
        assert forall|k: int| i <= k < orig.len() implies lex_lt(s@, orig[k]@) by {
            if k > i {
                lemma_lex_trans(s@, orig[i as int]@, orig[k]@);
            }
        }
    }
    v.insert(i, s);
    proof {
        let new = v@;
        assert(new =~= orig.insert(i as int, s));
        assert forall|x: int, y: int| 0 <= x < y < new.len() implies lex_lt(new[x]@, new[y]@) by {
            if x < i && y < i {
            } else if x < i && y == i {
            } else if x < i && y > i {
                assert(new[y] == orig[y - 1]);
            } else if x == i {
                assert(new[y] == orig[y - 1]);
            } else {
                assert(new[x] == orig[x - 1]);
                assert(new[y] == orig[y - 1]);
            }
        }
        assert forall|p: Seq<char>| #[trigger]
            str_seq_contains(new, p) implies (str_seq_contains(orig, p) || p == s@) by {
            let w = choose|w: int| 0 <= w < new.len() && new[w]@ == p;
            if w < i {
                assert(orig[w]@ == p);
            } else if w > i {
                assert(orig[w - 1]@ == p);
            }
        }
        assert forall|p: Seq<char>|
            str_seq_contains(orig, p) || p == s@ implies #[trigger] str_seq_contains(
            new,
            p,
        ) by {
            if str_seq_contains(orig, p) {
                let w = choose|w: int| 0 <= w < orig.len() && orig[w]@ == p;
                if w < i {
                    assert(new[w]@ == p);
                } else {
                    assert(new[w + 1]@ == p);
                }
            } else {
                assert(new[i as int]@ == p);
            }
        }
    }
}

/// The number of times `c` occurs in `s`.
pub open spec fn count_char(s: Seq<char>, c: char) -> int
    decreases s.len(),
{
    if s.len() == 0 {
        0
    } else {
        count_char(s.drop_last(), c) + if s.last() == c {
            1int
        } else {
            0int
        }
    }
}

/// Count the occurrences of `c` in a string.
pub fn count_char_in(s: &str, c: char) -> (r: usize)
    ensures
        r == count_char(s@, c),
{
    let len = s.unicode_len();
    let mut i: usize = 0;
    let mut cnt: usize = 0;
    while i < len
        invariant
            len == s@.len(),
            i <= len,
            cnt <= i,
            cnt == count_char(s@.subrange(0, i as int), c),
        decreases len - i,
    {
        proof {
            assert(s@.subrange(0, i + 1).drop_last() =~= s@.subrange(0, i as int));
            assert(s@.subrange(0, i + 1).last() == s@[i as int]);
        }
        if s.get_char(i) == c {
            cnt = cnt + 1;
        }
        i = i + 1;
    }
    proof {
        assert(s@.subrange(0, len as int) =~= s@);
    }
    cnt
}

/// The position of the last `/` in `p`, or -1 when there is none.
pub open spec fn last_slash(p: Seq<char>) -> int
    decreases p.len(),
{
    if p.len() == 0 {
        -1
    } else if p.last() == '/' {
        p.len() - 1
    } else {
        last_slash(p.drop_last())
    }
}

/// What stands after the last `/` of `p`: the entry's bare name.
pub open spec fn spec_basename(p: Seq<char>) -> Seq<char> {
    p.skip(last_slash(p) + 1)
}

/// A position with a `/` and none after it is the last one.
proof fn lemma_last_slash_at(p: Seq<char>, k: int)
    requires
        0 <= k < p.len(),
        p[k] == '/',
        forall|j: int| k < j < p.len() ==> p[j] != '/',
    ensures
        last_slash(p) == k,
    decreases p.len(),
{
    if k == p.len() - 1 {
    } else {
        assert(p.last() != '/');
        assert(p.drop_last()[k] == '/');
        lemma_last_slash_at(p.drop_last(), k);
    }
}

/// With no `/` at all, there is no last one.
proof fn lemma_no_slash(p: Seq<char>)
    requires
        forall|j: int| 0 <= j < p.len() ==> p[j] != '/',
    ensures
        last_slash(p) == -1,
    decreases p.len(),
{
    if p.len() > 0 {
        lemma_no_slash(p.drop_last());
    }
}

/// The bare name of a path: everything after its last `/`, the whole
/// string when it has none.
pub fn basename(p: &str) -> (r: String)
    ensures
        r@ == spec_basename(p@),
{
    let len = p.unicode_len();
    let mut i: usize = len;
    while i > 0
        invariant
            len == p@.len(),
            i <= len,
            forall|j: int| i <= j < len ==> p@[j] != '/',
        decreases i,
    {
        if p.get_char(i - 1) == '/' {
            proof {
                lemma_last_slash_at(p@, i - 1);
            }
            return String::from_str(p.substring_char(i, len));
        }
        i = i - 1;
    }
    proof {
        lemma_no_slash(p@);
        assert(p@.skip(0) =~= p@);
    }
    String::from_str(p)
}

/// How a child's name is appended to a directory's image path: straight
/// after the root's single slash, after a fresh slash everywhere else.
pub open spec fn spec_lfs_join(dir: Seq<char>, name: Seq<char>) -> Seq<char> {
    if dir == seq!['/'] {
        seq!['/'] + name
    } else {
        dir + seq!['/'] + name
    }
}

/// Join a directory image path and a bare name into the child's image path.
pub fn lfs_join(dir: &str, name: &str) -> (r: String)
    ensures
        r@ == spec_lfs_join(dir@, name@),
{
    let dlen = dir.unicode_len();
    if dlen == 1 && dir.get_char(0) == '/' {
        proof {
            assert(dir@ =~= seq!['/']);
        }
        let mut out = String::from_str(dir);
        out.append(name);
        proof {
            assert(out@ =~= seq!['/'] + name@);
        }
        out
    } else {
        proof {
            assert(dir@ != seq!['/']);
        }
        let mut out = String::from_str(dir);
        out.append("/");
        proof {
            reveal_strlit("/");
            assert(out@ =~= dir@ + seq!['/']);
        }
        let mut out2 = out;
        out2.append(name);
        proof {
            assert(out2@ =~= dir@ + seq!['/'] + name@);
        }
        out2
    }
}

} // verus!
