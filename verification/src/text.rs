//! Character-level helpers for label derivation and label matching.

use vstd::prelude::*;

verus! {

/// Case-insensitive ASCII folding of one character, as a code point:
/// `A`..`Z` map onto `a`..`z`, every other character onto itself.
pub open spec fn fold_char(c: char) -> int {
    if 65 <= c as u32 && c as u32 <= 90 {
        c as u32 + 32
    } else {
        c as u32 as int
    }
}

/// Two character sequences are equal up to ASCII case.
pub open spec fn eq_fold(a: Seq<char>, b: Seq<char>) -> bool {
    a.len() == b.len() && forall|i: int| 0 <= i < a.len() ==> fold_char(a[i]) == fold_char(b[i])
}

fn fold_exec(c: char) -> (r: u32)
    ensures
        r == fold_char(c),
{
    let u: u32 = c as u32;
    if 65 <= u && u <= 90 {
        u + 32
    } else {
        u
    }
}

/// Whether two strings hold the same characters up to ASCII case.
pub fn eq_ignore_ascii_case(a: &str, b: &str) -> (r: bool)
    ensures
        r == eq_fold(a@, b@),
{
    let an: usize = a.unicode_len();
    let bn: usize = b.unicode_len();
    if an != bn {
        return false;
    }
    for i in 0..an
        invariant
            an == a@.len(),
            an == b@.len(),
            forall|j: int| 0 <= j < i ==> fold_char(a@[j]) == fold_char(b@[j]),
    {
        if fold_exec(a.get_char(i)) != fold_exec(b.get_char(i)) {
            return false;
        }
    }
    true
}

/// The code points with the Unicode `White_Space` property, which leading and
/// trailing trimming removes.
pub open spec fn is_space(c: char) -> bool {
    let u = c as u32;
    (9 <= u && u <= 13) || u == 32 || u == 0x85 || u == 0xA0 || u == 0x1680 || (0x2000 <= u
        && u <= 0x200A) || u == 0x2028 || u == 0x2029 || u == 0x202F || u == 0x205F || u == 0x3000
}

fn is_space_exec(c: char) -> (r: bool)
    ensures
        r == is_space(c),
{
    let u: u32 = c as u32;
    (9 <= u && u <= 13) || u == 32 || u == 0x85 || u == 0xA0 || u == 0x1680 || (0x2000 <= u
        && u <= 0x200A) || u == 0x2028 || u == 0x2029 || u == 0x202F || u == 0x205F || u == 0x3000
}

/// The sequence with its longest prefix of characters satisfying `p` removed.
pub open spec fn drop_while(s: Seq<char>, p: spec_fn(char) -> bool) -> Seq<char>
    decreases s.len(),
{
    if s.len() > 0 && p(s[0]) {
        drop_while(s.drop_first(), p)
    } else {
        s
    }
}

/// The sequence with its longest suffix of characters satisfying `p` removed.
pub open spec fn drop_while_end(s: Seq<char>, p: spec_fn(char) -> bool) -> Seq<char>
    decreases s.len(),
{
    if s.len() > 0 && p(s.last()) {
        drop_while_end(s.drop_last(), p)
    } else {
        s
    }
}

/// The sequence with leading and trailing white space removed, as `str::trim` leaves it.
pub open spec fn trimmed(s: Seq<char>) -> Seq<char> {
    drop_while_end(drop_while(s, |c: char| is_space(c)), |c: char| is_space(c))
}

proof fn lemma_drop_while(s: Seq<char>, p: spec_fn(char) -> bool, k: int)
    requires
        0 <= k <= s.len(),
        forall|i: int| 0 <= i < k ==> p(s[i]),
        k == s.len() || !p(s[k]),
    ensures
        drop_while(s, p) =~= s.subrange(k, s.len() as int),
    decreases k,
{
    if k == 0 {
    } else {
        lemma_drop_while(s.drop_first(), p, k - 1);
    }
}

proof fn lemma_drop_while_end(s: Seq<char>, p: spec_fn(char) -> bool, m: int)
    requires
        0 <= m <= s.len(),
        forall|i: int| m <= i < s.len() ==> p(s[i]),
        m == 0 || !p(s[m - 1]),
    ensures
        drop_while_end(s, p) =~= s.subrange(0, m),
    decreases s.len(),
{
    if m < s.len() {
        lemma_drop_while_end(s.drop_last(), p, m);
    }
}

/// How many characters `str::trim` would leave of `s`.
pub fn trimmed_len(s: &str) -> (r: usize)
    ensures
        r == trimmed(s@).len(),
{
    let n: usize = s.unicode_len();
    let mut lo: usize = 0;
    while lo < n && is_space_exec(s.get_char(lo))
        invariant
            0 <= lo <= n,
            n == s@.len(),
            forall|j: int| 0 <= j < lo ==> is_space(s@[j]),
        decreases n - lo,
    {
        lo = lo + 1;
    }
    let mut hi: usize = n;
    while hi > lo && is_space_exec(s.get_char(hi - 1))
        invariant
            lo <= hi <= n,
            n == s@.len(),
            forall|j: int| 0 <= j < lo ==> is_space(s@[j]),
            forall|j: int| hi <= j < n ==> is_space(s@[j]),
        decreases hi,
    {
        hi = hi - 1;
    }
    proof {
        let p = |c: char| is_space(c);
        lemma_drop_while(s@, p, lo as int);
        let t = s@.subrange(lo as int, n as int);
        lemma_drop_while_end(t, p, hi - lo);
    }
    hi - lo
}

/// The sequence with every leading `/` removed, as `str::trim_start_matches('/')` leaves it.
pub open spec fn strip_slashes(s: Seq<char>) -> Seq<char> {
    drop_while(s, |c: char| c == '/')
}

/// A copy of `s` with every leading `/` removed.
pub fn trim_leading_slashes(s: &str) -> (r: String)
    ensures
        r@ == strip_slashes(s@),
{
    let n: usize = s.unicode_len();
    let mut lo: usize = 0;
    while lo < n && s.get_char(lo) == '/'
        invariant
            0 <= lo <= n,
            n == s@.len(),
            forall|j: int| 0 <= j < lo ==> s@[j] == '/',
        decreases n - lo,
    {
        lo = lo + 1;
    }
    proof {
        lemma_drop_while(s@, |c: char| c == '/', lo as int);
    }
    s.substring_char(lo, n).to_owned()
}

/// The prefix `sha256:` as characters.
pub open spec fn sha256_prefix() -> Seq<char> {
    seq!['s', 'h', 'a', '2', '5', '6', ':']
}

/// The sequence with every leading `sha256:` removed, as
/// `str::trim_start_matches("sha256:")` leaves it.
pub open spec fn strip_sha256(s: Seq<char>) -> Seq<char>
    decreases s.len(),
{
    if s.len() >= 7 && s.subrange(0, 7) =~= sha256_prefix() {
        strip_sha256(s.subrange(7, s.len() as int))
    } else {
        s
    }
}

fn has_sha256_prefix(s: &str) -> (r: bool)
    ensures
        r == (s@.len() >= 7 && s@.subrange(0, 7) =~= sha256_prefix()),
{
    let n: usize = s.unicode_len();
    if n < 7 {
        return false;
    }
    let r = s.get_char(0) == 's' && s.get_char(1) == 'h' && s.get_char(2) == 'a' && s.get_char(3)
        == '2' && s.get_char(4) == '5' && s.get_char(5) == '6' && s.get_char(6) == ':';
    proof {
        if r {
            assert(s@.subrange(0, 7) =~= sha256_prefix());
        } else {
            assert(!(s@.subrange(0, 7) =~= sha256_prefix()));
        }
    }
    r
}

/// A copy of `s` with every leading `sha256:` removed.
pub fn trim_sha256_prefix(s: &str) -> (r: String)
    ensures
        r@ == strip_sha256(s@),
{
    let mut cur: &str = s;
    let mut n: usize = cur.unicode_len();
    while cur.unicode_len() >= 7 && has_sha256_prefix(cur)
        invariant
            strip_sha256(cur@) == strip_sha256(s@),
        decreases cur@.len(),
    {
        let n2: usize = cur.unicode_len();
        cur = cur.substring_char(7, n2);
    }
    cur.to_owned()
}

} // verus!
