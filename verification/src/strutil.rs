//! Character-level helpers for the license strings the crate works on:
//! trimming, case-insensitive search, prefix tests and lexicographic order,
//! each specified over the `Seq<char>` view of `&str`.

use vstd::prelude::*;

verus! {

/// The whitespace characters that `trim` strips from either end.
pub open spec fn is_ws(c: char) -> bool {
    c == ' ' || c == '\t' || c == '\n' || c == '\r'
}

/// ASCII lowercasing of a single character; other characters are unchanged.
pub open spec fn lower_char(c: char) -> char {
    if c == 'A' {
        'a'
    } else if c == 'B' {
        'b'
    } else if c == 'C' {
        'c'
    } else if c == 'D' {
        'd'
    } else if c == 'E' {
        'e'
    } else if c == 'F' {
        'f'
    } else if c == 'G' {
        'g'
    } else if c == 'H' {
        'h'
    } else if c == 'I' {
        'i'
    } else if c == 'J' {
        'j'
    } else if c == 'K' {
        'k'
    } else if c == 'L' {
        'l'
    } else if c == 'M' {
        'm'
    } else if c == 'N' {
        'n'
    } else if c == 'O' {
        'o'
    } else if c == 'P' {
        'p'
    } else if c == 'Q' {
        'q'
    } else if c == 'R' {
        'r'
    } else if c == 'S' {
        's'
    } else if c == 'T' {
        't'
    } else if c == 'U' {
        'u'
    } else if c == 'V' {
        'v'
    } else if c == 'W' {
        'w'
    } else if c == 'X' {
        'x'
    } else if c == 'Y' {
        'y'
    } else if c == 'Z' {
        'z'
    } else {
        c
    }
}

/// ASCII lowercasing of a whole string.
pub open spec fn lower_seq(s: Seq<char>) -> Seq<char> {
    s.map_values(|c: char| lower_char(c))
}

/// `pat` occurs as a contiguous run inside `hay`.
pub open spec fn contains_seq(hay: Seq<char>, pat: Seq<char>) -> bool {
    exists|i: int|
        0 <= i && i + pat.len() <= hay.len() && #[trigger] hay.subrange(i, i + pat.len() as int)
            == pat
}

/// `s` begins with `prefix`.
pub open spec fn starts_with_seq(s: Seq<char>, prefix: Seq<char>) -> bool {
    prefix.len() <= s.len() && s.subrange(0, prefix.len() as int) == prefix
}

/// Index of the first non-whitespace character at or after `i`
/// (`s.len()` when there is none).
pub open spec fn first_non_ws(s: Seq<char>, i: int) -> int
    recommends
        0 <= i <= s.len(),
    decreases s.len() - i,
{
    if i < 0 || i >= s.len() {
        s.len() as int
    } else if !is_ws(s[i]) {
        i
    } else {
        first_non_ws(s, i + 1)
    }
}

/// One past the last non-whitespace character strictly before `j`
/// (`0` when there is none).
pub open spec fn last_non_ws(s: Seq<char>, j: int) -> int
    recommends
        0 <= j <= s.len(),
    decreases j,
{
    if j <= 0 || j > s.len() {
        0
    } else if !is_ws(s[j - 1]) {
        j
    } else {
        last_non_ws(s, j - 1)
    }
}

/// `s` with leading and trailing whitespace removed.
pub open spec fn trim_seq(s: Seq<char>) -> Seq<char> {
    let a = first_non_ws(s, 0);
    let b = last_non_ws(s, s.len() as int);
    if a >= b {
        Seq::empty()
    } else {
        s.subrange(a, b)
    }
}

/// ASCII lowercasing of a single character, executable form.
pub fn to_lower_char(c: char) -> (r: char)
    ensures
        r == lower_char(c),
{
    match c {
        'A' => 'a',
        'B' => 'b',
        'C' => 'c',
        'D' => 'd',
        'E' => 'e',
        'F' => 'f',
        'G' => 'g',
        'H' => 'h',
        'I' => 'i',
        'J' => 'j',
        'K' => 'k',
        'L' => 'l',
        'M' => 'm',
        'N' => 'n',
        'O' => 'o',
        'P' => 'p',
        'Q' => 'q',
        'R' => 'r',
        'S' => 's',
        'T' => 't',
        'U' => 'u',
        'V' => 'v',
        'W' => 'w',
        'X' => 'x',
        'Y' => 'y',
        'Z' => 'z',
        _ => c,
    }
}

/// Equality test between a character and the lowercase form of another.
fn lower_eq(a: char, b: char) -> (r: bool)
    ensures
        r == (lower_char(a) == b),
{
    to_lower_char(a) == b
}

/// String equality over character views.
pub fn str_eq(a: &str, b: &str) -> (r: bool)
    ensures
        r == (a@ == b@),
{
    let alen = a.unicode_len();
    let blen = b.unicode_len();
    if alen != blen {
        assert(a@ != b@) by {
            assert(a@.len() != b@.len());
        }
        return false;
    }
    let mut i: usize = 0;
    while i < alen
        invariant
            0 <= i <= alen,
            alen == a@.len(),
            alen == b@.len(),
            forall|k: int| 0 <= k < i ==> a@[k] == b@[k],
        decreases alen - i,
    {
        if a.get_char(i) != b.get_char(i) {
            assert(a@ != b@);
            return false;
        }
        i = i + 1;
    }
    assert(a@ =~= b@);
    true
}

/// Case-insensitive equality: the ASCII-lowercased left side equals the
/// (already lowercase) right side.
pub fn str_eq_lower(a: &str, b: &str) -> (r: bool)
    ensures
        r == (lower_seq(a@) == b@),
{
    let alen = a.unicode_len();
    let blen = b.unicode_len();
    if alen != blen {
        assert(lower_seq(a@) != b@) by {
            assert(lower_seq(a@).len() != b@.len());
        }
        return false;
    }
    let mut i: usize = 0;
    while i < alen
        invariant
            0 <= i <= alen,
            alen == a@.len(),
            alen == b@.len(),
            forall|k: int| 0 <= k < i ==> lower_char(a@[k]) == b@[k],
        decreases alen - i,
    {
        if !lower_eq(a.get_char(i), b.get_char(i)) {
            assert(lower_seq(a@)[i as int] != b@[i as int]);
            return false;
        }
        i = i + 1;
    }
    assert(lower_seq(a@) =~= b@);
    true
}

/// Whitespace test for a single character.
fn ws_char(c: char) -> (r: bool)
    ensures
        r == is_ws(c),
{
    c == ' ' || c == '\t' || c == '\n' || c == '\r'
}

/// `s` with leading and trailing whitespace removed.
pub fn trim(s: &str) -> (r: &str)
    ensures
        r@ == trim_seq(s@),
{
    let n = s.unicode_len();
    let mut a: usize = 0;
    while a < n && ws_char(s.get_char(a))
        invariant
            0 <= a <= n,
            n == s@.len(),
            first_non_ws(s@, 0) == first_non_ws(s@, a as int),
        decreases n - a,
    {
        a = a + 1;
    }
    assert(first_non_ws(s@, 0) == a as int);
    if a == n {
        let r = s.substring_char(n, n);
        assert(r@ =~= trim_seq(s@)) by {
            lemma_last_non_ws_bounds(s@, s@.len() as int);
        }
        return r;
    }
    let mut b: usize = n;
    while b > a && ws_char(s.get_char(b - 1))
        invariant
            a < b <= n,
            a < n,
            n == s@.len(),
            !is_ws(s@[a as int]),
            last_non_ws(s@, n as int) == last_non_ws(s@, b as int),
        decreases b,
    {
        b = b - 1;
    }
    assert(last_non_ws(s@, n as int) == b as int);
    let r = s.substring_char(a, b);
    assert(r@ == trim_seq(s@));
    r
}

/// `s` begins with `prefix`.
pub fn str_starts_with(s: &str, prefix: &str) -> (r: bool)
    ensures
        r == starts_with_seq(s@, prefix@),
{
    let n = s.unicode_len();
    let m = prefix.unicode_len();
    if m > n {
        return false;
    }
    let mut i: usize = 0;
    while i < m
        invariant
            0 <= i <= m,
            m <= n,
            n == s@.len(),
            m == prefix@.len(),
            forall|k: int| 0 <= k < i ==> s@[k] == prefix@[k],
        decreases m - i,
    {
        if s.get_char(i) != prefix.get_char(i) {
            assert(!starts_with_seq(s@, prefix@)) by {
                assert(s@.subrange(0, prefix@.len() as int)[i as int] == s@[i as int]);
            }
            return false;
        }
        i = i + 1;
    }
    assert(s@.subrange(0, prefix@.len() as int) =~= prefix@);
    true
}

/// The ASCII-lowercased `hay` contains the (already lowercase) `pat`
/// as a contiguous run.
pub fn contains_lower(hay: &str, pat: &str) -> (r: bool)
    ensures
        r == contains_seq(lower_seq(hay@), pat@),
{
    let n = hay.unicode_len();
    let m = pat.unicode_len();
    if m > n {
        return false;
    }
    if m == 0 {
        assert(contains_seq(lower_seq(hay@), pat@)) by {
            assert(lower_seq(hay@).subrange(0, 0 + pat@.len() as int) =~= pat@);
        }
        return true;
    }
    let mut i: usize = 0;
    while i <= n - m
        invariant
            0 <= i <= n - m + 1,
            0 < m <= n,
            n == hay@.len(),
            m == pat@.len(),
            forall|q: int|
                0 <= q < i ==> #[trigger] lower_seq(hay@).subrange(q, q + pat@.len() as int)
                    != pat@,
        decreases n - m + 1 - i,
    {
        let mut j: usize = 0;
        let mut ok: bool = true;
        while j < m
            invariant
                0 <= j <= m,
                0 <= i <= n - m,
                m <= n,
                n == hay@.len(),
                m == pat@.len(),
                ok ==> forall|k: int| 0 <= k < j ==> lower_char(hay@[i + k]) == pat@[k],
                !ok ==> lower_seq(hay@).subrange(i as int, i + pat@.len() as int) != pat@,
            decreases m - j,
        {
            if !lower_eq(hay.get_char(i + j), pat.get_char(j)) {
                assert(lower_seq(hay@).subrange(i as int, i + pat@.len() as int) != pat@) by {
                    assert(lower_seq(hay@).subrange(i as int, i + pat@.len() as int)[j as int]
                        == lower_char(hay@[i + j]));
                }
                ok = false;
                j = m;
            } else {
                j = j + 1;
            }
        }
        if ok {
            assert(lower_seq(hay@).subrange(i as int, i + pat@.len() as int) =~= pat@);
            return true;
        }
        i = i + 1;
    }
    assert(forall|q: int|
        0 <= q && q + pat@.len() <= lower_seq(hay@).len()
            ==> #[trigger] lower_seq(hay@).subrange(q, q + pat@.len() as int) != pat@);
    false
}

/// `s` ends with `suffix`.
pub open spec fn ends_with_seq(s: Seq<char>, suffix: Seq<char>) -> bool {
    suffix.len() <= s.len() && s.subrange(s.len() - suffix.len(), s.len() as int) == suffix
}

/// `s` ends with `suffix`.
pub fn str_ends_with(s: &str, suffix: &str) -> (r: bool)
    ensures
        r == ends_with_seq(s@, suffix@),
{
    let n = s.unicode_len();
    let m = suffix.unicode_len();
    if m > n {
        return false;
    }
    let mut i: usize = 0;
    while i < m
        invariant
            0 <= i <= m,
            m <= n,
            n == s@.len(),
            m == suffix@.len(),
            forall|k: int| 0 <= k < i ==> s@[n - m + k] == suffix@[k],
        decreases m - i,
    {
        if s.get_char(n - m + i) != suffix.get_char(i) {
            assert(!ends_with_seq(s@, suffix@)) by {
                assert(s@.subrange(s@.len() - suffix@.len(), s@.len() as int)[i as int] == s@[n - m
                    + i]);
            }
            return false;
        }
        i = i + 1;
    }
    assert(s@.subrange(s@.len() - suffix@.len(), s@.len() as int) =~= suffix@);
    true
}

/// Index of the last occurrence of `c` strictly before `j`, if any.
pub open spec fn last_index_of_before(s: Seq<char>, c: char, j: int) -> Option<int>
    decreases j,
{
    if j <= 0 || j > s.len() {
        None
    } else if s[j - 1] == c {
        Some(j - 1)
    } else {
        last_index_of_before(s, c, j - 1)
    }
}

/// Find the index of the last occurrence of `c` in `s`, if any.
pub fn str_rfind(s: &str, c: char) -> (r: Option<usize>)
    ensures
        match r {
            Some(p) => last_index_of_before(s@, c, s@.len() as int) == Some(p as int) && p
                < s@.len(),
            None => last_index_of_before(s@, c, s@.len() as int) is None,
        },
{
    let n = s.unicode_len();
    let mut j: usize = n;
    while j > 0
        invariant
            0 <= j <= n,
            n == s@.len(),
            last_index_of_before(s@, c, n as int) == last_index_of_before(s@, c, j as int),
        decreases j,
    {
        if s.get_char(j - 1) == c {
            return Some(j - 1);
        }
        j = j - 1;
    }
    None
}

/// `hay` contains `pat` as a contiguous run, compared case-sensitively.
pub fn str_contains(hay: &str, pat: &str) -> (r: bool)
    ensures
        r == contains_seq(hay@, pat@),
{
    let n = hay.unicode_len();
    let m = pat.unicode_len();
    if m > n {
        return false;
    }
    if m == 0 {
        assert(contains_seq(hay@, pat@)) by {
            assert(hay@.subrange(0, 0 + pat@.len() as int) =~= pat@);
        }
        return true;
    }
    let mut i: usize = 0;
    while i <= n - m
        invariant
            0 <= i <= n - m + 1,
            0 < m <= n,
            n == hay@.len(),
            m == pat@.len(),
            forall|q: int|
                0 <= q < i ==> #[trigger] hay@.subrange(q, q + pat@.len() as int) != pat@,
        decreases n - m + 1 - i,
    {
        let mut j: usize = 0;
        let mut ok: bool = true;
        while j < m
            invariant
                0 <= j <= m,
                0 <= i <= n - m,
                m <= n,
                n == hay@.len(),
                m == pat@.len(),
                ok ==> forall|k: int| 0 <= k < j ==> hay@[i + k] == pat@[k],
                !ok ==> hay@.subrange(i as int, i + pat@.len() as int) != pat@,
            decreases m - j,
        {
            if hay.get_char(i + j) != pat.get_char(j) {
                assert(hay@.subrange(i as int, i + pat@.len() as int) != pat@) by {
                    assert(hay@.subrange(i as int, i + pat@.len() as int)[j as int] == hay@[i
                        + j]);
                }
                ok = false;
                j = m;
            } else {
                j = j + 1;
            }
        }
        if ok {
            assert(hay@.subrange(i as int, i + pat@.len() as int) =~= pat@);
            return true;
        }
        i = i + 1;
    }
    assert(forall|q: int|
        0 <= q && q + pat@.len() <= hay@.len() ==> #[trigger] hay@.subrange(
            q,
            q + pat@.len() as int,
        ) != pat@);
    false
}

/// Strict lexicographic order on character views, from position `i` on.
pub open spec fn seq_lt_from(a: Seq<char>, b: Seq<char>, i: int) -> bool
    recommends
        0 <= i,
    decreases b.len() - i,
{
    if i < 0 || i >= b.len() {
        false
    } else if i >= a.len() {
        true
    } else if a[i] != b[i] {
        a[i] < b[i]
    } else {
        seq_lt_from(a, b, i + 1)
    }
}

/// Strict lexicographic order on character views.
pub open spec fn seq_lt(a: Seq<char>, b: Seq<char>) -> bool {
    seq_lt_from(a, b, 0)
}

/// Lexicographic comparison of two strings.
pub fn str_lt(a: &str, b: &str) -> (r: bool)
    ensures
        r == seq_lt(a@, b@),
{
    let alen = a.unicode_len();
    let blen = b.unicode_len();
    let mut i: usize = 0;
    loop
        invariant
            0 <= i,
            i <= alen,
            i <= blen,
            alen == a@.len(),
            blen == b@.len(),
            seq_lt(a@, b@) == seq_lt_from(a@, b@, i as int),
        decreases blen - i,
    {
        if i >= blen {
            return false;
        }
        if i >= alen {
            return true;
        }
        let ca = a.get_char(i);
        let cb = b.get_char(i);
        if ca != cb {
            return ca < cb;
        }
        i = i + 1;
    }
}

/// Lexicographic order is trichotomous.
pub proof fn lemma_seq_lt_trichotomy(a: Seq<char>, b: Seq<char>)
    ensures
        seq_lt(a, b) || seq_lt(b, a) || a == b,
{
    lemma_seq_lt_from_trichotomy(a, b, 0);
}

proof fn lemma_seq_lt_from_trichotomy(a: Seq<char>, b: Seq<char>, i: int)
    requires
        0 <= i <= a.len(),
        0 <= i <= b.len(),
        forall|k: int| 0 <= k < i ==> a[k] == b[k],
    ensures
        seq_lt_from(a, b, i) || seq_lt_from(b, a, i) || a == b,
    decreases a.len() + b.len() - 2 * i,
{
    if i >= a.len() && i >= b.len() {
        assert(a =~= b);
    } else if i >= b.len() {
        assert(seq_lt_from(b, a, i));
    } else if i >= a.len() {
    } else if a[i] != b[i] {
    } else {
        lemma_seq_lt_from_trichotomy(a, b, i + 1);
    }
}

/// Lexicographic order is irreflexive.
pub proof fn lemma_seq_lt_irrefl(a: Seq<char>)
    ensures
        !seq_lt(a, a),
{
    lemma_seq_lt_from_irrefl(a, 0);
}

proof fn lemma_seq_lt_from_irrefl(a: Seq<char>, i: int)
    requires
        0 <= i,
    ensures
        !seq_lt_from(a, a, i),
    decreases a.len() - i,
{
    if i < a.len() {
        lemma_seq_lt_from_irrefl(a, i + 1);
    }
}

/// Lexicographic order is transitive.
pub proof fn lemma_seq_lt_trans(a: Seq<char>, b: Seq<char>, c: Seq<char>)
    requires
        seq_lt(a, b),
        seq_lt(b, c),
    ensures
        seq_lt(a, c),
{
    lemma_seq_lt_from_trans(a, b, c, 0);
}

proof fn lemma_seq_lt_from_trans(a: Seq<char>, b: Seq<char>, c: Seq<char>, i: int)
    requires
        0 <= i,
        seq_lt_from(a, b, i),
        seq_lt_from(b, c, i),
    ensures
        seq_lt_from(a, c, i),
    decreases c.len() - i,
{
    if i >= c.len() {
    } else if i >= a.len() {
    } else {
        if i >= b.len() {
            assert(false);
        } else if a[i] != b[i] {
            if b[i] != c[i] {
                assert(a[i] < c[i]);
            } else {
                assert(a[i] != c[i]);
            }
        } else if b[i] != c[i] {
            assert(a[i] != c[i]);
        } else {
            lemma_seq_lt_from_trans(a, b, c, i + 1);
        }
    }
}

/// Properties of `first_non_ws`: its result is in range, points at a
/// non-whitespace character when in bounds, and skips only whitespace.
pub proof fn lemma_first_non_ws(s: Seq<char>, i: int)
    requires
        0 <= i <= s.len(),
    ensures
        i <= first_non_ws(s, i) <= s.len(),
        first_non_ws(s, i) < s.len() ==> !is_ws(s[first_non_ws(s, i)]),
        forall|k: int| i <= k < first_non_ws(s, i) ==> is_ws(s[k]),
    decreases s.len() - i,
{
    if i < s.len() && is_ws(s[i]) {
        lemma_first_non_ws(s, i + 1);
    }
}

/// Properties of `last_non_ws`, mirror image of `lemma_first_non_ws`.
pub proof fn lemma_last_non_ws_bounds(s: Seq<char>, j: int)
    requires
        0 <= j <= s.len(),
    ensures
        0 <= last_non_ws(s, j) <= j,
        last_non_ws(s, j) > 0 ==> !is_ws(s[last_non_ws(s, j) - 1]),
        forall|k: int| last_non_ws(s, j) <= k < j ==> is_ws(s[k]),
    decreases j,
{
    if j > 0 && j <= s.len() && is_ws(s[j - 1]) {
        lemma_last_non_ws_bounds(s, j - 1);
    }
}

/// A string whose ends hold no whitespace is unchanged by trimming.
pub proof fn lemma_trim_fixed(s: Seq<char>)
    requires
        s.len() == 0 || (!is_ws(s[0]) && !is_ws(s[s.len() - 1])),
    ensures
        trim_seq(s) == s,
{
    if s.len() == 0 {
        assert(trim_seq(s) =~= s);
    } else {
        assert(first_non_ws(s, 0) == 0);
        assert(last_non_ws(s, s.len() as int) == s.len() as int);
        assert(trim_seq(s) =~= s);
    }
}

/// Trimming is idempotent.
pub proof fn lemma_trim_idempotent(s: Seq<char>)
    ensures
        trim_seq(trim_seq(s)) == trim_seq(s),
{
    let t = trim_seq(s);
    if t.len() == 0 {
        lemma_trim_fixed(t);
    } else {
        let a = first_non_ws(s, 0);
        let b = last_non_ws(s, s.len() as int);
        lemma_first_non_ws(s, 0);
        lemma_last_non_ws_bounds(s, s.len() as int);
        assert(t[0] == s[a]);
        assert(t[t.len() - 1] == s[b - 1]);
        lemma_trim_fixed(t);
    }
}

/// A contained run is no longer than its container.
pub proof fn lemma_contains_len(h: Seq<char>, p: Seq<char>)
    requires
        contains_seq(h, p),
    ensures
        p.len() <= h.len(),
{
}

/// Each character of a contained run occurs in the container.
pub proof fn lemma_contains_char(h: Seq<char>, p: Seq<char>, k: int)
    requires
        contains_seq(h, p),
        0 <= k < p.len(),
    ensures
        exists|j: int| 0 <= j < h.len() && h[j] == p[k],
{
    let i = choose|i: int|
        0 <= i && i + p.len() <= h.len() && #[trigger] h.subrange(i, i + p.len() as int) == p;
    assert(h.subrange(i, i + p.len() as int)[k] == h[i + k]);
    assert(h[i + k] == p[k]);
}

/// A run holding a character absent from the container is not contained.
pub proof fn lemma_not_contains_by_char(h: Seq<char>, p: Seq<char>, k: int)
    requires
        0 <= k < p.len(),
        forall|j: int| 0 <= j < h.len() ==> h[j] != p[k],
    ensures
        !contains_seq(h, p),
{
    if contains_seq(h, p) {
        lemma_contains_char(h, p, k);
    }
}

/// A run longer than the container is not contained.
pub proof fn lemma_not_contains_longer(h: Seq<char>, p: Seq<char>)
    requires
        p.len() > h.len(),
    ensures
        !contains_seq(h, p),
{
    if contains_seq(h, p) {
        lemma_contains_len(h, p);
    }
}

/// The character `c` appears nowhere in `s` at or after position `i`;
/// written as a recursion so that it evaluates step by step on concrete
/// strings.
pub open spec fn char_free_from(s: Seq<char>, c: char, i: int) -> bool
    decreases s.len() - i,
{
    if i < 0 || i >= s.len() {
        true
    } else {
        s[i] != c && char_free_from(s, c, i + 1)
    }
}

proof fn lemma_char_free_from(s: Seq<char>, c: char, i: int)
    requires
        0 <= i,
        char_free_from(s, c, i),
    ensures
        forall|j: int| i <= j < s.len() ==> s[j] != c,
    decreases s.len() - i,
{
    if 0 <= i < s.len() {
        lemma_char_free_from(s, c, i + 1);
    }
}

/// The strings agree at every position at or after `i`; written as a
/// recursion so that it evaluates step by step on concrete strings.
pub open spec fn seq_eq_from(a: Seq<char>, b: Seq<char>, i: int) -> bool
    decreases b.len() - i,
{
    if i < 0 || i >= b.len() {
        true
    } else {
        a[i] == b[i] && seq_eq_from(a, b, i + 1)
    }
}

/// Strings of the same length that agree at every position are equal.
pub proof fn lemma_seq_eq(a: Seq<char>, b: Seq<char>)
    requires
        a.len() == b.len(),
        seq_eq_from(a, b, 0),
    ensures
        a == b,
{
    lemma_seq_eq_from(a, b, 0);
    assert(a =~= b);
}

proof fn lemma_seq_eq_from(a: Seq<char>, b: Seq<char>, i: int)
    requires
        0 <= i,
        seq_eq_from(a, b, i),
    ensures
        forall|j: int| i <= j < b.len() ==> a[j] == b[j],
    decreases b.len() - i,
{
    if 0 <= i < b.len() {
        lemma_seq_eq_from(a, b, i + 1);
    }
}

/// A run whose character at `k` appears nowhere in the container is not
/// contained.
pub proof fn lemma_not_contains_absent(h: Seq<char>, p: Seq<char>, k: int)
    requires
        0 <= k < p.len(),
        char_free_from(h, p[k], 0),
    ensures
        !contains_seq(h, p),
{
    lemma_char_free_from(h, p[k], 0);
    lemma_not_contains_by_char(h, p, k);
}

} // verus!
