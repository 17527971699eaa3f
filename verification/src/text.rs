//! Verified string utilities: equality, substring search, decimal rendering
//! and whitespace trimming over the character view of `str`.

use vstd::prelude::*;
use vstd::string::StrSliceExecFns;
use vstd::string::StringExecFns;

verus! {

/// The needle `n` occurs in `h` starting at position `i`.
pub open spec fn contains_at(h: Seq<char>, n: Seq<char>, i: int) -> bool {
    0 <= i && i + n.len() <= h.len() && h.subrange(i, i + n.len()) == n
}

/// The needle `n` occurs somewhere in `h` (an empty needle always occurs).
pub open spec fn has_substring(h: Seq<char>, n: Seq<char>) -> bool {
    exists|i: int| contains_at(h, n, i)
}

/// Character-wise string equality, decided without trusting `str`'s `PartialEq`.
pub fn str_eq(a: &str, b: &str) -> (r: bool)
    ensures
        r == (a@ == b@),
{
    let alen = a.unicode_len();
    let blen = b.unicode_len();
    if alen != blen {
        return false;
    }
    let mut i: usize = 0;
    while i < alen
        invariant
            alen == a@.len(),
            alen == b@.len(),
            i <= alen,
            forall|j: int| 0 <= j < i ==> a@[j] == b@[j],
        decreases alen - i,
    {
        if a.get_char(i) != b.get_char(i) {
            return false;
        }
        i = i + 1;
    }
    proof {
        assert(a@ =~= b@);
    }
    true
}

/// Whether `n` occurs in `h` at exactly position `i`.
fn matches_at(h: &str, n: &str, i: usize) -> (r: bool)
    requires
        i + n@.len() <= h@.len(),
    ensures
        r == contains_at(h@, n@, i as int),
{
    let hl = h.unicode_len();
    let nl = n.unicode_len();
    let mut k: usize = 0;
    while k < nl
        invariant
            hl == h@.len(),
            nl == n@.len(),
            i + nl <= hl,
            k <= nl,
            forall|t: int| 0 <= t < k ==> h@[i + t] == n@[t],
        decreases nl - k,
    {
        if h.get_char(i + k) != n.get_char(k) {
            proof {
                assert(h@.subrange(i as int, i as int + n@.len())[k as int] == h@[i + k]);
            }
            return false;
        }
        k = k + 1;
    }
    proof {
        assert(h@.subrange(i as int, i as int + n@.len()) =~= n@);
    }
    true
}

/// Substring search: does `h` contain `n`?
pub fn str_contains(h: &str, n: &str) -> (r: bool)
    ensures
        r == has_substring(h@, n@),
{
    let hl = h.unicode_len();
    let nl = n.unicode_len();
    if nl > hl {
        proof {
            assert(forall|i: int| !contains_at(h@, n@, i));
        }
        return false;
    }
    let mut i: usize = 0;
    loop
        invariant
            hl == h@.len(),
            nl == n@.len(),
            nl <= hl,
            i <= hl - nl,
            forall|j: int| 0 <= j < i ==> !contains_at(h@, n@, j),
        decreases hl - nl - i,
    {
        if matches_at(h, n, i) {
            return true;
        }
        if i == hl - nl {
            proof {
                assert(forall|j: int| j > hl - nl ==> !contains_at(h@, n@, j));
            }
            return false;
        }
        i = i + 1;
    }
}

/// Content equality of two string lists.
pub fn string_vecs_eq(a: &Vec<String>, b: &Vec<String>) -> (r: bool)
    ensures
        r == (a.deep_view() == b.deep_view()),
{
    let n = a.len();
    if n != b.len() {
        proof {
            assert(a.deep_view().len() == a@.len());
            assert(b.deep_view().len() == b@.len());
        }
        return false;
    }
    let mut i: usize = 0;
    while i < n
        invariant
            n == a@.len(),
            n == b@.len(),
            i <= n,
            forall|j: int| 0 <= j < i ==> a.deep_view()[j] == b.deep_view()[j],
        decreases n - i,
    {
        if !str_eq(a[i].as_str(), b[i].as_str()) {
            proof {
                assert(a.deep_view()[i as int] == a@[i as int]@);
                assert(b.deep_view()[i as int] == b@[i as int]@);
            }
            return false;
        }
        proof {
            assert(a.deep_view()[i as int] == a@[i as int]@);
            assert(b.deep_view()[i as int] == b@[i as int]@);
        }
        i = i + 1;
    }
    proof {
        assert(a.deep_view() =~= b.deep_view());
    }
    true
}

/// The decimal digit character for `d` (0 through 9).
pub open spec fn digit_char(d: int) -> char {
    if d == 0 {
        '0'
    } else if d == 1 {
        '1'
    } else if d == 2 {
        '2'
    } else if d == 3 {
        '3'
    } else if d == 4 {
        '4'
    } else if d == 5 {
        '5'
    } else if d == 6 {
        '6'
    } else if d == 7 {
        '7'
    } else if d == 8 {
        '8'
    } else {
        '9'
    }
}

/// The decimal representation of a non-negative integer, most significant
/// digit first, with no leading zeroes (except for zero itself).
pub open spec fn dec_digits(n: int) -> Seq<char>
    decreases n,
{
    if n < 10 {
        seq![digit_char(n)]
    } else {
        dec_digits(n / 10).push(digit_char(n % 10))
    }
}

/// A one-character string holding the digit `d`.
fn digit_str(d: u64) -> (r: String)
    requires
        d < 10,
    ensures
        r@ =~= seq![digit_char(d as int)],
{
    proof {
        reveal_strlit("0");
        reveal_strlit("1");
        reveal_strlit("2");
        reveal_strlit("3");
        reveal_strlit("4");
        reveal_strlit("5");
        reveal_strlit("6");
        reveal_strlit("7");
        reveal_strlit("8");
        reveal_strlit("9");
    }
    if d == 0 {
        String::from_str("0")
    } else if d == 1 {
        String::from_str("1")
    } else if d == 2 {
        String::from_str("2")
    } else if d == 3 {
        String::from_str("3")
    } else if d == 4 {
        String::from_str("4")
    } else if d == 5 {
        String::from_str("5")
    } else if d == 6 {
        String::from_str("6")
    } else if d == 7 {
        String::from_str("7")
    } else if d == 8 {
        String::from_str("8")
    } else {
        String::from_str("9")
    }
}

/// The first position at which `n` occurs in `h`, if any.
pub open spec fn spec_find(h: Seq<char>, n: Seq<char>) -> Option<int>
    decreases h.len(),
{
    if n.len() > h.len() {
        Option::None
    } else if h.subrange(0, n.len() as int) == n {
        Option::Some(0)
    } else if h.len() == 0 {
        Option::None
    } else {
        match spec_find(h.drop_first(), n) {
            Option::Some(j) => Option::Some(j + 1),
            Option::None => Option::None,
        }
    }
}

/// If `n` occurs at `i` and nowhere earlier, the find lands on `i`.
proof fn lemma_find_first(h: Seq<char>, n: Seq<char>, i: int)
    requires
        contains_at(h, n, i),
        forall|j: int| 0 <= j < i ==> !contains_at(h, n, j),
    ensures
        spec_find(h, n) == Option::Some(i),
    decreases h.len(),
{
    if i == 0 {
        assert(h.subrange(0, n.len() as int) == n);
    } else {
        assert(!contains_at(h, n, 0));
        assert(h.subrange(0, n.len() as int) != n);
        assert(h.drop_first().subrange(i - 1, i - 1 + n.len()) =~= h.subrange(i, i + n.len()));
        assert(contains_at(h.drop_first(), n, i - 1));
        assert forall|j: int| 0 <= j < i - 1 implies !contains_at(h.drop_first(), n, j) by {
            assert(!contains_at(h, n, j + 1));
            if j + n.len() <= h.drop_first().len() {
                assert(h.drop_first().subrange(j, j + n.len()) =~= h.subrange(
                    j + 1,
                    j + 1 + n.len(),
                ));
            }
        }
        lemma_find_first(h.drop_first(), n, i - 1);
    }
}

/// If `n` occurs nowhere in `h`, the find comes back empty.
proof fn lemma_find_none(h: Seq<char>, n: Seq<char>)
    requires
        forall|j: int| !contains_at(h, n, j),
    ensures
        spec_find(h, n) is None,
    decreases h.len(),
{
    if n.len() > h.len() {
    } else {
        assert(!contains_at(h, n, 0));
        assert(h.subrange(0, n.len() as int) != n);
        if h.len() > 0 {
            assert forall|j: int| !contains_at(h.drop_first(), n, j) by {
                assert(!contains_at(h, n, j + 1));
                if 0 <= j && j + n.len() <= h.drop_first().len() {
                    assert(h.drop_first().subrange(j, j + n.len()) =~= h.subrange(
                        j + 1,
                        j + 1 + n.len(),
                    ));
                }
            }
            lemma_find_none(h.drop_first(), n);
        }
    }
}

/// The position of the first occurrence of `n` in `h`, if there is one.
pub fn find_sub(h: &str, n: &str) -> (r: Option<usize>)
    ensures
        match r {
            Option::None => spec_find(h@, n@) is None,
            Option::Some(i) => spec_find(h@, n@) == Option::Some(i as int) && contains_at(
                h@,
                n@,
                i as int,
            ),
        },
{
    let hl = h.unicode_len();
    let nl = n.unicode_len();
    if nl > hl {
        proof {
            assert(forall|j: int| !contains_at(h@, n@, j));
            lemma_find_none(h@, n@);
        }
        return None;
    }
    let mut i: usize = 0;
    loop
        invariant
            hl == h@.len(),
            nl == n@.len(),
            nl <= hl,
            i <= hl - nl,
            forall|j: int| 0 <= j < i ==> !contains_at(h@, n@, j),
        decreases hl - nl - i,
    {
        if matches_at(h, n, i) {
            proof {
                lemma_find_first(h@, n@, i as int);
            }
            return Some(i);
        }
        if i == hl - nl {
            proof {
                assert(forall|j: int| j > hl - nl ==> !contains_at(h@, n@, j));
                lemma_find_none(h@, n@);
            }
            return None;
        }
        i = i + 1;
    }
}

/// The first position of the character `c` in `h`, if any.
pub open spec fn spec_find_char(h: Seq<char>, c: char) -> Option<int>
    decreases h.len(),
{
    if h.len() == 0 {
        Option::None
    } else if h.first() == c {
        Option::Some(0)
    } else {
        match spec_find_char(h.drop_first(), c) {
            Option::Some(j) => Option::Some(j + 1),
            Option::None => Option::None,
        }
    }
}

/// If `c` sits at `i` and nowhere earlier, the find lands on `i`.
proof fn lemma_find_char_first(h: Seq<char>, c: char, i: int)
    requires
        0 <= i < h.len(),
        h[i] == c,
        forall|j: int| 0 <= j < i ==> h[j] != c,
    ensures
        spec_find_char(h, c) == Option::Some(i),
    decreases h.len(),
{
    if i > 0 {
        lemma_find_char_first(h.drop_first(), c, i - 1);
    }
}

/// If `c` is nowhere in `h`, the find comes back empty.
proof fn lemma_find_char_none(h: Seq<char>, c: char)
    requires
        forall|j: int| 0 <= j < h.len() ==> h[j] != c,
    ensures
        spec_find_char(h, c) is None,
    decreases h.len(),
{
    if h.len() > 0 {
        lemma_find_char_none(h.drop_first(), c);
    }
}

/// The position of the first occurrence of `c` in `h`, if there is one.
pub fn find_char(h: &str, c: char) -> (r: Option<usize>)
    ensures
        match r {
            Option::None => spec_find_char(h@, c) is None,
            Option::Some(i) => spec_find_char(h@, c) == Option::Some(i as int) && i < h@.len()
                && h@[i as int] == c,
        },
{
    let hl = h.unicode_len();
    let mut i: usize = 0;
    while i < hl
        invariant
            hl == h@.len(),
            i <= hl,
            forall|j: int| 0 <= j < i ==> h@[j] != c,
        decreases hl - i,
    {
        if h.get_char(i) == c {
            proof {
                lemma_find_char_first(h@, c, i as int);
            }
            return Some(i);
        }
        i = i + 1;
    }
    proof {
        lemma_find_char_none(h@, c);
    }
    None
}

/// A whitespace character, as Rust's trimming sees it.
pub open spec fn is_space_char(c: char) -> bool {
    c == ' ' || c == '\u{9}' || c == '\u{A}' || c == '\u{B}' || c == '\u{C}' || c == '\u{D}'
        || c == '\u{85}' || c == '\u{A0}' || c == '\u{1680}' || c == '\u{2000}' || c == '\u{2001}'
        || c == '\u{2002}' || c == '\u{2003}' || c == '\u{2004}' || c == '\u{2005}'
        || c == '\u{2006}' || c == '\u{2007}' || c == '\u{2008}' || c == '\u{2009}'
        || c == '\u{200A}' || c == '\u{2028}' || c == '\u{2029}' || c == '\u{202F}'
        || c == '\u{205F}' || c == '\u{3000}'
}

/// Decide [`is_space_char`].
pub fn is_space(c: char) -> (r: bool)
    ensures
        r == is_space_char(c),
{
    c == ' ' || c == '\u{9}' || c == '\u{A}' || c == '\u{B}' || c == '\u{C}' || c == '\u{D}'
        || c == '\u{85}' || c == '\u{A0}' || c == '\u{1680}' || c == '\u{2000}' || c == '\u{2001}'
        || c == '\u{2002}' || c == '\u{2003}' || c == '\u{2004}' || c == '\u{2005}'
        || c == '\u{2006}' || c == '\u{2007}' || c == '\u{2008}' || c == '\u{2009}'
        || c == '\u{200A}' || c == '\u{2028}' || c == '\u{2029}' || c == '\u{202F}'
        || c == '\u{205F}' || c == '\u{3000}'
}

/// The string with leading and trailing whitespace removed.
pub open spec fn spec_trimmed(s: Seq<char>) -> Seq<char>
    decreases s.len(),
{
    if s.len() == 0 {
        s
    } else if is_space_char(s.first()) {
        spec_trimmed(s.drop_first())
    } else if is_space_char(s.last()) {
        spec_trimmed(s.drop_last())
    } else {
        s
    }
}

/// Trimming keeps exactly the range between the first and last non-space
/// characters.
proof fn lemma_trimmed_subrange(s: Seq<char>, a: int, b: int)
    requires
        0 <= a <= b <= s.len(),
        forall|i: int| 0 <= i < a ==> is_space_char(#[trigger] s[i]),
        forall|i: int| b <= i < s.len() ==> is_space_char(#[trigger] s[i]),
        a < b ==> !is_space_char(s[a]) && !is_space_char(s[b - 1]),
    ensures
        spec_trimmed(s) == s.subrange(a, b),
    decreases s.len(),
{
    if s.len() == 0 {
        assert(s.subrange(0, 0) =~= s);
    } else if is_space_char(s.first()) {
        assert(a != b || a == b);
        if a == b {
            // everything is space
            assert(s.drop_first() =~= s.subrange(1, s.len() as int));
            lemma_trimmed_subrange(s.drop_first(), 0, 0);
            assert(s.drop_first().subrange(0, 0) =~= s.subrange(a, b));
        } else {
            assert(a >= 1);
            assert(s.drop_first() =~= s.subrange(1, s.len() as int));
            lemma_trimmed_subrange(s.drop_first(), a - 1, b - 1);
            assert(s.drop_first().subrange(a - 1, b - 1) =~= s.subrange(a, b));
        }
    } else if is_space_char(s.last()) {
        assert(a == 0);
        assert(b <= s.len() - 1);
        assert(s.drop_last() =~= s.subrange(0, s.len() - 1));
        lemma_trimmed_subrange(s.drop_last(), a, b);
        assert(s.drop_last().subrange(a, b) =~= s.subrange(a, b));
    } else {
        assert(a == 0);
        assert(b == s.len());
        assert(s.subrange(0, s.len() as int) =~= s);
    }
}

/// Remove leading and trailing whitespace.
#[verifier::loop_isolation(false)]
pub fn trim_spaces(s: &str) -> (r: String)
    ensures
        r@ == spec_trimmed(s@),
{
    let len = s.unicode_len();
    let mut a: usize = 0;
    while a < len && is_space(s.get_char(a))
        invariant
            a <= len,
            forall|i: int| 0 <= i < a ==> is_space_char(#[trigger] s@[i]),
        decreases len - a,
    {
        a = a + 1;
    }
    if a == len {
        proof {
            lemma_trimmed_subrange(s@, a as int, a as int);
        }
        let r = String::new();
        proof {
            assert(r@ =~= s@.subrange(a as int, a as int));
        }
        return r;
    }
    let mut b: usize = len;
    while b > a && is_space(s.get_char(b - 1))
        invariant
            a < b <= len,
            forall|i: int| b <= i < len ==> is_space_char(#[trigger] s@[i]),
        decreases b,
    {
        b = b - 1;
    }
    proof {
        assert(!is_space_char(s@[a as int]));
        assert(b > a);
        lemma_trimmed_subrange(s@, a as int, b as int);
    }
    let cut = s.substring_char(a, b);
    String::from_str(cut)
}

/// The last `count` characters of a string, or all of it when shorter.
pub open spec fn spec_tail(s: Seq<char>, count: int) -> Seq<char> {
    if s.len() <= count {
        s
    } else {
        s.subrange(s.len() - count, s.len() as int)
    }
}

/// Keep only the last `count` characters.
pub fn tail_chars(raw: &str, count: usize) -> (r: String)
    ensures
        r@ == spec_tail(raw@, count as int),
{
    let len = raw.unicode_len();
    if len <= count {
        return String::from_str(raw);
    }
    let cut = raw.substring_char(len - count, len);
    String::from_str(cut)
}

/// Renders `n` in decimal.
pub fn u64_to_dec(n: u64) -> (r: String)
    ensures
        r@ == dec_digits(n as int),
    decreases n,
{
    if n < 10 {
        digit_str(n)
    } else {
        let mut s = u64_to_dec(n / 10);
        let d = digit_str(n % 10);
        s.append(d.as_str());
        proof {
            assert(s@ =~= dec_digits(n as int));
        }
        s
    }
}

} // verus!
