//! Character-sequence helpers shared by the whole crate: three-way ordering
//! of strings, decimal rendering of counters, splitting on a delimiter,
//! suffix trimming, and case-insensitive matching against upper-case tokens.

use vstd::prelude::*;

verus! {

/// Three-way comparison of two character sequences by code point, the order
/// `String`'s derived ordering gives (UTF-8 byte order preserves code-point
/// order). Returns -1, 0 or 1.
pub open spec fn seq_char_cmp(a: Seq<char>, b: Seq<char>) -> int
    decreases a.len(),
{
    if a.len() == 0 && b.len() == 0 {
        0
    } else if a.len() == 0 {
        -1
    } else if b.len() == 0 {
        1
    } else if (a[0] as u32) < (b[0] as u32) {
        -1
    } else if (a[0] as u32) > (b[0] as u32) {
        1
    } else {
        seq_char_cmp(a.drop_first(), b.drop_first())
    }
}

pub proof fn lemma_seq_char_cmp_refl(a: Seq<char>)
    ensures
        seq_char_cmp(a, a) == 0,
    decreases a.len(),
{
    if a.len() > 0 {
        lemma_seq_char_cmp_refl(a.drop_first());
    }
}

pub proof fn lemma_seq_char_cmp_eq(a: Seq<char>, b: Seq<char>)
    requires
        seq_char_cmp(a, b) == 0,
    ensures
        a == b,
    decreases a.len(),
{
    if a.len() == 0 {
        assert(b.len() == 0);
        assert(a =~= b);
    } else {
        assert((a[0] as u32) == (b[0] as u32));
        assert(a[0] == b[0]) by {
            vstd::utf8::char_u32_cast(a[0], a[0] as u32);
            vstd::utf8::char_u32_cast(b[0], b[0] as u32);
        }
        lemma_seq_char_cmp_eq(a.drop_first(), b.drop_first());
        assert(a =~= seq![a[0]] + a.drop_first());
        assert(b =~= seq![b[0]] + b.drop_first());
        assert(a =~= b);
    }
}

pub proof fn lemma_seq_char_cmp_antisym(a: Seq<char>, b: Seq<char>)
    ensures
        seq_char_cmp(a, b) == -seq_char_cmp(b, a),
    decreases a.len(),
{
    if a.len() > 0 && b.len() > 0 {
        lemma_seq_char_cmp_antisym(a.drop_first(), b.drop_first());
    }
}

pub proof fn lemma_seq_char_cmp_trans(a: Seq<char>, b: Seq<char>, c: Seq<char>)
    requires
        seq_char_cmp(a, b) <= 0,
        seq_char_cmp(b, c) <= 0,
    ensures
        seq_char_cmp(a, c) <= 0,
        seq_char_cmp(a, b) < 0 || seq_char_cmp(b, c) < 0 ==> seq_char_cmp(a, c) < 0,
    decreases a.len(),
{
    if a.len() > 0 && b.len() > 0 && c.len() > 0 {
        if (a[0] as u32) == (b[0] as u32) && (b[0] as u32) == (c[0] as u32) {
            lemma_seq_char_cmp_trans(a.drop_first(), b.drop_first(), c.drop_first());
        }
    }
}

/// If the first `i` characters agree, the comparison is decided by the tails.
pub proof fn lemma_seq_char_cmp_skip(a: Seq<char>, b: Seq<char>, i: int)
    requires
        0 <= i <= a.len(),
        i <= b.len(),
        forall|j: int| 0 <= j < i ==> a[j] == b[j],
    ensures
        seq_char_cmp(a, b) == seq_char_cmp(a.skip(i), b.skip(i)),
    decreases i,
{
    if i == 0 {
        assert(a.skip(0) =~= a);
        assert(b.skip(0) =~= b);
    } else {
        assert(a.len() > 0 && b.len() > 0);
        assert(a[0] == b[0]);
        lemma_seq_char_cmp_skip(a.drop_first(), b.drop_first(), i - 1);
        assert(a.drop_first().skip(i - 1) =~= a.skip(i));
        assert(b.drop_first().skip(i - 1) =~= b.skip(i));
    }
}

/// Three-way comparison of two strings, by code point.
#[verifier::loop_isolation(false)]
pub fn str_cmp(a: &str, b: &str) -> (r: i8)
    ensures
        r as int == seq_char_cmp(a@, b@),
{
    let alen = a.unicode_len();
    let blen = b.unicode_len();
    let mut i: usize = 0;
    while i < alen && i < blen
        invariant
            i <= alen,
            i <= blen,
            forall|j: int| 0 <= j < i ==> a@[j] == b@[j],
        decreases alen - i,
    {
        let ca = a.get_char(i) as u32;
        let cb = b.get_char(i) as u32;
        if ca < cb {
            proof {
                lemma_seq_char_cmp_skip(a@, b@, i as int);
                assert(a@.skip(i as int)[0] == a@[i as int]);
                assert(b@.skip(i as int)[0] == b@[i as int]);
            }
            return -1;
        }
        if ca > cb {
            proof {
                lemma_seq_char_cmp_skip(a@, b@, i as int);
                assert(a@.skip(i as int)[0] == a@[i as int]);
                assert(b@.skip(i as int)[0] == b@[i as int]);
            }
            return 1;
        }
        proof {
            vstd::utf8::char_u32_cast(a@[i as int], ca);
            vstd::utf8::char_u32_cast(b@[i as int], cb);
        }
        assert(a@[i as int] == b@[i as int]);
        i = i + 1;
    }
    proof {
        lemma_seq_char_cmp_skip(a@, b@, i as int);
        if i == alen {
            assert(a@.skip(i as int).len() == 0);
        }
        if i == blen {
            assert(b@.skip(i as int).len() == 0);
        }
        if i < alen {
            assert(a@.skip(i as int).len() > 0);
        }
        if i < blen {
            assert(b@.skip(i as int).len() > 0);
        }
    }
    if alen == blen {
        0
    } else if alen < blen {
        -1
    } else {
        1
    }
}

/// Whether two strings hold the same characters.
pub fn str_eq(a: &str, b: &str) -> (r: bool)
    ensures
        r == (a@ == b@),
{
    let c = str_cmp(a, b);
    proof {
        if seq_char_cmp(a@, b@) == 0 {
            lemma_seq_char_cmp_eq(a@, b@);
        }
        if a@ == b@ {
            lemma_seq_char_cmp_refl(a@);
        }
    }
    c == 0
}

/// The decimal digit for a value in 0..10.
pub open spec fn digit_char(d: int) -> char {
    if d == 0 {
        '0'
    } else if d == 1 {
        '1'
    } else if d == 2 {
        '2'
    } else if d == 3 {
        '3'
    } else if d == 4 {
        '4'
    } else if d == 5 {
        '5'
    } else if d == 6 {
        '6'
    } else if d == 7 {
        '7'
    } else if d == 8 {
        '8'
    } else {
        '9'
    }
}

/// The usual decimal rendering of a natural number, most significant digit
/// first, no leading zeros (except for zero itself).
pub open spec fn dec_str(n: nat) -> Seq<char>
    decreases n,
{
    if n < 10 {
        seq![digit_char(n as int)]
    } else {
        dec_str(n / 10) + seq![digit_char((n % 10) as int)]
    }
}

fn digit_of(d: usize) -> (c: char)
    requires
        d < 10,
    ensures
        c == digit_char(d as int),
{
    if d == 0 {
        '0'
    } else if d == 1 {
        '1'
    } else if d == 2 {
        '2'
    } else if d == 3 {
        '3'
    } else if d == 4 {
        '4'
    } else if d == 5 {
        '5'
    } else if d == 6 {
        '6'
    } else if d == 7 {
        '7'
    } else if d == 8 {
        '8'
    } else {
        '9'
    }
}

/// Renders a number in decimal.
pub fn dec_of(n: usize) -> (s: String)
    ensures
        s@ == dec_str(n as nat),
    decreases n,
{
    if n < 10 {
        let c = digit_of(n);
        let mut s = String::new();
        push_char(&mut s, c);
        proof {
            assert(s@ =~= dec_str(n as nat));
        }
        s
    } else {
        let mut s = dec_of(n / 10);
        let c = digit_of(n % 10);
        push_char(&mut s, c);
        proof {
            assert(s@ =~= dec_str(n as nat));
        }
        s
    }
}

/// Relies on `String::push` from std: appends exactly one character.
#[verifier::external_body]
pub fn push_char(s: &mut String, c: char)
    ensures
        final(s)@ == old(s)@ + seq![c],
{
    s.push(c)
}

/// Splitting a character sequence at every occurrence of a delimiter; the
/// result always has one more element than there are delimiters.
pub open spec fn split_char(s: Seq<char>, c: char) -> Seq<Seq<char>>
    decreases s.len(),
{
    if s.len() == 0 {
        seq![Seq::<char>::empty()]
    } else if s[0] == c {
        seq![Seq::<char>::empty()] + split_char(s.drop_first(), c)
    } else {
        let rest = split_char(s.drop_first(), c);
        seq![seq![s[0]] + rest[0]] + rest.drop_first()
    }
}

pub proof fn lemma_split_char_len(s: Seq<char>, c: char)
    ensures
        split_char(s, c).len() >= 1,
    decreases s.len(),
{
    if s.len() > 0 {
        lemma_split_char_len(s.drop_first(), c);
    }
}

/// A sequence without the delimiter splits into just itself.
pub proof fn lemma_split_char_none(s: Seq<char>, c: char)
    requires
        forall|j: int| 0 <= j < s.len() ==> s[j] != c,
    ensures
        split_char(s, c) =~= seq![s],
    decreases s.len(),
{
    if s.len() == 0 {
        assert(s =~= Seq::<char>::empty());
        assert(split_char(s, c) == seq![Seq::<char>::empty()]);
        assert(split_char(s, c) =~= seq![s]);
    } else {
        lemma_split_char_none(s.drop_first(), c);
        lemma_split_char_len(s.drop_first(), c);
        let rest = split_char(s.drop_first(), c);
        assert(rest =~= seq![s.drop_first()]);
        assert(rest[0] == s.drop_first());
        assert(rest.drop_first() =~= Seq::<Seq<char>>::empty());
        assert(seq![s[0]] + s.drop_first() =~= s);
        assert(split_char(s, c) == seq![seq![s[0]] + rest[0]] + rest.drop_first());
        assert(split_char(s, c) =~= seq![s]);
    }
}

/// Splitting at the first delimiter: head segment, then the split of the rest.
pub proof fn lemma_split_char_first(s: Seq<char>, c: char, k: int)
    requires
        0 <= k < s.len(),
        s[k] == c,
        forall|j: int| 0 <= j < k ==> s[j] != c,
    ensures
        split_char(s, c) =~= seq![s.take(k)] + split_char(s.skip(k + 1), c),
    decreases k,
{
    if k == 0 {
        assert(s.take(0) =~= Seq::<char>::empty());
        assert(s.drop_first() =~= s.skip(1));
    } else {
        lemma_split_char_first(s.drop_first(), c, k - 1);
        lemma_split_char_len(s.drop_first().skip(k), c);
        assert(s.drop_first().take(k - 1) =~= s.take(k).drop_first());
        assert(s.drop_first().skip(k) =~= s.skip(k + 1));
        assert(seq![s[0]] + s.take(k).drop_first() =~= s.take(k));
    }
}

/// Splits a string at every occurrence of a delimiter.
#[verifier::loop_isolation(false)]
pub fn split_all(s: &str, c: char) -> (r: Vec<String>)
    ensures
        r@.map_values(|t: String| t@) == split_char(s@, c),
{
    let len = s.unicode_len();
    let mut segs: Vec<String> = Vec::new();
    let mut start: usize = 0;
    let mut i: usize = 0;
    proof {
        assert(s@.skip(0) =~= s@);
        assert(segs@.map_values(|t: String| t@) =~= Seq::<Seq<char>>::empty());
    }
    while i < len
        invariant
            start <= i <= len,
            forall|j: int| start <= j < i ==> s@[j] != c,
            split_char(s@, c) == segs@.map_values(|t: String| t@) + split_char(
                s@.skip(start as int),
                c,
            ),
        decreases len - i,
    {
        let ch = s.get_char(i);
        if ch == c {
            let seg = s.substring_char(start, i);
            let seg = seg.to_owned();
            proof {
                lemma_split_char_first(s@.skip(start as int), c, i - start);
                assert(s@.skip(start as int).take(i - start) =~= s@.subrange(
                    start as int,
                    i as int,
                ));
                assert(s@.skip(start as int).skip(i - start + 1) =~= s@.skip(i + 1));
                assert((segs@ + seq![seg]).map_values(|t: String| t@) =~= segs@.map_values(
                    |t: String| t@,
                ) + seq![seg@]);
            }
            segs.push(seg);
            start = i + 1;
        }
        i = i + 1;
    }
    let seg = s.substring_char(start, len);
    let seg = seg.to_owned();
    proof {
        lemma_split_char_none(s@.skip(start as int), c);
        assert(s@.skip(start as int) =~= s@.subrange(start as int, len as int));
        assert((segs@ + seq![seg]).map_values(|t: String| t@) =~= segs@.map_values(|t: String| t@)
            + seq![seg@]);
    }
    segs.push(seg);
    proof {
        assert(segs@.map_values(|t: String| t@) =~= split_char(s@, c));
    }
    segs
}

/// Repeatedly removes a trailing `".git"`, as trimming every repetition of
/// the suffix does.
pub open spec fn trim_git(s: Seq<char>) -> Seq<char>
    decreases s.len(),
{
    if s.len() >= 4 && s[s.len() - 4] == '.' && s[s.len() - 3] == 'g' && s[s.len() - 2] == 'i'
        && s[s.len() - 1] == 't' {
        trim_git(s.take(s.len() - 4))
    } else {
        s
    }
}

/// Whether the first `e` characters of `s` end in `".git"`.
fn ends_git(s: &str, e: usize) -> (r: bool)
    requires
        e <= s@.len(),
    ensures
        r == (e >= 4 && s@[e - 4] == '.' && s@[e - 3] == 'g' && s@[e - 2] == 'i' && s@[e - 1]
            == 't'),
{
    if e < 4 {
        return false;
    }
    let c1 = s.get_char(e - 4);
    let c2 = s.get_char(e - 3);
    let c3 = s.get_char(e - 2);
    let c4 = s.get_char(e - 1);
    c1 == '.' && c2 == 'g' && c3 == 'i' && c4 == 't'
}

/// Removes every trailing repetition of `".git"` from a string.
#[verifier::loop_isolation(false)]
pub fn trim_git_suffix(s: &str) -> (r: String)
    ensures
        r@ == trim_git(s@),
{
    let len = s.unicode_len();
    let mut e: usize = len;
    proof {
        assert(s@.take(len as int) =~= s@);
    }
    while ends_git(s, e)
        invariant
            e <= len,
            trim_git(s@) == trim_git(s@.take(e as int)),
        decreases e,
    {
        proof {
            assert(s@.take(e as int).take(e - 4) =~= s@.take(e - 4));
        }
        e = e - 4;
    }
    let r = s.substring_char(0, e);
    proof {
        assert(s@.subrange(0, e as int) =~= s@.take(e as int));
    }
    r.to_owned()
}

/// Whether uppercasing the ASCII letters of `s` yields exactly `t`. Meant for
/// a `t` that holds no lower-case letter, as every token matched against is
/// written in upper case.
pub open spec fn matches_uppercased(s: Seq<char>, t: Seq<char>) -> bool {
    s.len() == t.len() && forall|j: int|
        0 <= j < s.len() ==> #[trigger] char_uppercases_to(s[j], t[j])
}

/// Whether ASCII-uppercasing `c` yields `t`, for a `t` that is not a
/// lower-case ASCII letter.
pub open spec fn char_uppercases_to(c: char, t: char) -> bool {
    c == t || (97 <= (c as u32) <= 122 && (c as u32) - 32 == (t as u32))
}

/// Compares a string against an upper-case token, ignoring ASCII case.
#[verifier::loop_isolation(false)]
pub fn eq_uppercased(s: &str, t: &str) -> (r: bool)
    ensures
        r == matches_uppercased(s@, t@),
{
    let slen = s.unicode_len();
    let tlen = t.unicode_len();
    if slen != tlen {
        return false;
    }
    let mut i: usize = 0;
    while i < slen
        invariant
            i <= slen,
            slen == s@.len() && tlen == t@.len() && slen == tlen,
            forall|j: int| 0 <= j < i ==> #[trigger] char_uppercases_to(s@[j], t@[j]),
        decreases slen - i,
    {
        let cs = s.get_char(i) as u32;
        let ct = t.get_char(i) as u32;
        let up = if 97 <= cs && cs <= 122 {
            cs - 32
        } else {
            cs
        };
        if up != ct && cs != ct {
            assert(!char_uppercases_to(s@[i as int], t@[i as int]));
            return false;
        }
        assert(char_uppercases_to(s@[i as int], t@[i as int]));
        i = i + 1;
    }
    true
}

} // verus!
