//! Character-sequence operations used by the arithmetic engine's text
//! rules: concatenation, removal of occurrences, repetition,
//! interleaving, truncation and splitting.

use vstd::prelude::*;

verus! {

broadcast use vstd::seq::axiom_seq_index_decreases, vstd::seq::axiom_seq_subrange_decreases, vstd::std_specs::vec::axiom_vec_index_decreases;

/// `s` with every (non-overlapping, left-to-right) occurrence of `pat`
/// removed; `s` unchanged when `pat` is empty.
pub open spec fn remove_all(s: Seq<char>, pat: Seq<char>) -> Seq<char>
    decreases s.len(),
{
    if pat.len() == 0 || s.len() < pat.len() {
        s
    } else if s.subrange(0, pat.len() as int) == pat {
        remove_all(s.subrange(pat.len() as int, s.len() as int), pat)
    } else {
        seq![s[0]] + remove_all(s.subrange(1, s.len() as int), pat)
    }
}

/// Characters of `a` and `b` taken alternately; the longer one's
/// surplus follows at the end.
pub open spec fn interleave(a: Seq<char>, b: Seq<char>) -> Seq<char>
    decreases a.len(), b.len(),
{
    if a.len() == 0 {
        b
    } else if b.len() == 0 {
        a
    } else {
        seq![a[0], b[0]] + interleave(
            a.subrange(1, a.len() as int),
            b.subrange(1, b.len() as int),
        )
    }
}

/// The pieces of `s` delimited by the (non-empty) separator `sep`,
/// non-overlapping and left-to-right; `cur` is the piece read so far.
pub open spec fn split_acc(s: Seq<char>, sep: Seq<char>, cur: Seq<char>) -> Seq<Seq<char>>
    decreases s.len(),
{
    if sep.len() == 0 || s.len() < sep.len() {
        seq![cur + s]
    } else if s.subrange(0, sep.len() as int) == sep {
        seq![cur] + split_acc(s.subrange(sep.len() as int, s.len() as int), sep, Seq::empty())
    } else {
        split_acc(s.subrange(1, s.len() as int), sep, cur.push(s[0]))
    }
}

/// The views of a sequence of character vectors.
pub open spec fn views_of(s: Seq<Vec<char>>) -> Seq<Seq<char>>
    decreases s,
{
    if s.len() == 0 {
        Seq::empty()
    } else {
        views_of(s.subrange(0, s.len() - 1)).push(s[s.len() - 1]@)
    }
}

/// `views_of` maps the view over the sequence.
pub proof fn lemma_views_of(s: Seq<Vec<char>>)
    ensures
        views_of(s).len() == s.len(),
        forall|i: int| 0 <= i < s.len() ==> views_of(s)[i] == s[i]@,
    decreases s.len(),
{
    if s.len() > 0 {
        lemma_views_of(s.subrange(0, s.len() - 1));
    }
}

/// Relies on `String`'s `FromIterator<char>` implementation: collecting
/// an iterator of characters yields the string of exactly those
/// characters, in order.
#[verifier::external_body]
pub fn chars_to_string(v: &Vec<char>) -> (s: String)
    ensures
        s@ == v@,
{
    v.iter().collect()
}

/// The characters of a string slice, in order.
pub fn str_chars(s: &str) -> (r: Vec<char>)
    ensures
        r@ == s@,
{
    let n = s.unicode_len();
    let mut r: Vec<char> = Vec::new();
    let mut i: usize = 0;
    while i < n
        invariant
            i <= n,
            n == s@.len(),
            r@ == s@.subrange(0, i as int),
        decreases n - i,
    {
        r.push(s.get_char(i));
        proof {
            assert(r@ =~= s@.subrange(0, i + 1));
        }
        i += 1;
    }
    proof {
        assert(s@.subrange(0, n as int) =~= s@);
    }
    r
}

/// Whether two string slices hold the same characters.
pub fn str_eq(a: &str, b: &str) -> (r: bool)
    ensures
        r == (a@ == b@),
{
    let na = a.unicode_len();
    let nb = b.unicode_len();
    if na != nb {
        proof {
            assert(a@ !~= b@);
        }
        return false;
    }
    let mut i: usize = 0;
    while i < na
        invariant
            i <= na,
            na == a@.len() && na == b@.len(),
            forall|j: int| 0 <= j < i ==> a@[j] == b@[j],
        decreases na - i,
    {
        if a.get_char(i) != b.get_char(i) {
            return false;
        }
        i += 1;
    }
    proof {
        assert(a@ =~= b@);
    }
    true
}

/// The characters of `s` from `from` (inclusive) to `to` (exclusive).
pub fn copy_range(s: &Vec<char>, from: usize, to: usize) -> (r: Vec<char>)
    requires
        from <= to <= s@.len(),
    ensures
        r@ == s@.subrange(from as int, to as int),
{
    let mut r: Vec<char> = Vec::new();
    let mut i = from;
    while i < to
        invariant
            from <= i <= to <= s@.len(),
            r@ == s@.subrange(from as int, i as int),
        decreases to - i,
    {
        r.push(s[i]);
        proof {
            assert(r@ =~= s@.subrange(from as int, i + 1));
        }
        i += 1;
    }
    r
}

/// Whether `pat` occurs in `s` starting at `from`.
fn starts_with_at(s: &Vec<char>, from: usize, pat: &Vec<char>) -> (b: bool)
    requires
        from <= s@.len(),
    ensures
        b <==> (from + pat@.len() <= s@.len() && s@.subrange(from as int, from + pat@.len())
            == pat@),
{
    if s.len() - from < pat.len() {
        return false;
    }
    let mut i: usize = 0;
    while i < pat.len()
        invariant
            i <= pat@.len(),
            from + pat@.len() <= s@.len(),
            s@.len() <= usize::MAX,
            forall|j: int| 0 <= j < i ==> s@[from + j] == pat@[j],
        decreases pat@.len() - i,
    {
        if s[from + i] != pat[i] {
            proof {
                assert(s@.subrange(from as int, from + pat@.len())[i as int] != pat@[i as int]);
            }
            return false;
        }
        i += 1;
    }
    proof {
        assert(s@.subrange(from as int, from + pat@.len()) =~= pat@);
    }
    true
}

/// `remove_all` on the suffix of `s` starting at `from`.
pub fn remove_all_from(s: &Vec<char>, pat: &Vec<char>, from: usize) -> (r: Vec<char>)
    requires
        from <= s@.len(),
    ensures
        r@ == remove_all(s@.subrange(from as int, s@.len() as int), pat@),
    decreases s@.len() - from,
{
    let ghost suf = s@.subrange(from as int, s@.len() as int);
    if pat.len() == 0 || s.len() - from < pat.len() {
        return copy_range(s, from, s.len());
    }
    if starts_with_at(s, from, pat) {
        proof {
            assert(suf.subrange(0, pat@.len() as int) =~= s@.subrange(
                from as int,
                from + pat@.len(),
            ));
            assert(suf.subrange(pat@.len() as int, suf.len() as int) =~= s@.subrange(
                from + pat@.len(),
                s@.len() as int,
            ));
        }
        remove_all_from(s, pat, from + pat.len())
    } else {
        proof {
            assert(suf.subrange(0, pat@.len() as int) =~= s@.subrange(
                from as int,
                from + pat@.len(),
            ));
            assert(suf.subrange(1, suf.len() as int) =~= s@.subrange(
                from + 1,
                s@.len() as int,
            ));
        }
        let mut r: Vec<char> = Vec::new();
        r.push(s[from]);
        let mut rest = remove_all_from(s, pat, from + 1);
        r.append(&mut rest);
        proof {
            assert(r@ =~= seq![suf[0]] + remove_all(suf.subrange(1, suf.len() as int), pat@));
        }
        r
    }
}

/// `interleave` on the suffixes of `a` and `b` starting at `i`.
pub fn interleave_from(a: &Vec<char>, b: &Vec<char>, i: usize) -> (r: Vec<char>)
    requires
        i <= a@.len(),
        i <= b@.len(),
    ensures
        r@ == interleave(
            a@.subrange(i as int, a@.len() as int),
            b@.subrange(i as int, b@.len() as int),
        ),
    decreases a@.len() - i,
{
    let ghost sa = a@.subrange(i as int, a@.len() as int);
    let ghost sb = b@.subrange(i as int, b@.len() as int);
    if i == a.len() {
        let r = copy_range(b, i, b.len());
        proof {
            assert(sa.len() == 0);
        }
        r
    } else if i == b.len() {
        let r = copy_range(a, i, a.len());
        proof {
            assert(sb.len() == 0);
        }
        r
    } else {
        let mut r: Vec<char> = Vec::new();
        r.push(a[i]);
        r.push(b[i]);
        let mut rest = interleave_from(a, b, i + 1);
        r.append(&mut rest);
        proof {
            assert(sa.subrange(1, sa.len() as int) =~= a@.subrange(i + 1, a@.len() as int));
            assert(sb.subrange(1, sb.len() as int) =~= b@.subrange(i + 1, b@.len() as int));
            assert(r@ =~= seq![sa[0], sb[0]] + interleave(
                sa.subrange(1, sa.len() as int),
                sb.subrange(1, sb.len() as int),
            ));
        }
        r
    }
}

/// `split_acc` on the suffix of `s` starting at `from`.
pub fn split_from(s: &Vec<char>, sep: &Vec<char>, from: usize, cur: Vec<char>) -> (r: Vec<
    Vec<char>,
>)
    requires
        from <= s@.len(),
        sep@.len() >= 1,
    ensures
        views_of(r@) == split_acc(s@.subrange(from as int, s@.len() as int), sep@, cur@),
    decreases s@.len() - from,
{
    let ghost suf = s@.subrange(from as int, s@.len() as int);
    if s.len() - from < sep.len() {
        let mut piece = cur;
        let ghost gcur = piece@;
        let mut tail = copy_range(s, from, s.len());
        piece.append(&mut tail);
        let mut r: Vec<Vec<char>> = Vec::new();
        r.push(piece);
        proof {
            lemma_views_of(r@);
            assert(views_of(r@) =~= seq![gcur + suf]);
        }
        r
    } else if starts_with_at(s, from, sep) {
        proof {
            assert(suf.subrange(0, sep@.len() as int) =~= s@.subrange(
                from as int,
                from + sep@.len(),
            ));
            assert(suf.subrange(sep@.len() as int, suf.len() as int) =~= s@.subrange(
                from + sep@.len(),
                s@.len() as int,
            ));
        }
        let ghost gcur = cur@;
        let mut rest = split_from(s, sep, from + sep.len(), Vec::new());
        let ghost grest = rest@;
        let mut r: Vec<Vec<char>> = Vec::new();
        r.push(cur);
        r.append(&mut rest);
        proof {
            lemma_views_of(r@);
            lemma_views_of(grest);
            assert(views_of(r@) =~= seq![gcur] + views_of(grest));
        }
        r
    } else {
        proof {
            assert(suf.subrange(0, sep@.len() as int) =~= s@.subrange(
                from as int,
                from + sep@.len(),
            ));
            assert(suf.subrange(1, suf.len() as int) =~= s@.subrange(from + 1, s@.len() as int));
        }
        let mut cur2 = cur;
        cur2.push(s[from]);
        split_from(s, sep, from + 1, cur2)
    }
}

} // verus!
