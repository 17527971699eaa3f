//! Navigation rules: which paths name a meeting, and when a link leaving a
//! meeting page should open in the external browser.

use vstd::prelude::*;
use vstd::string::StringSliceAdditionalSpecFns;
use crate::text::str_eq;

verus! {

/// The path bytes with every trailing slash removed.
pub open spec fn strip_trailing_slashes(b: Seq<u8>) -> Seq<u8>
    decreases b.len(),
{
    if b.len() > 0 && b.last() == '/' as u8 {
        strip_trailing_slashes(b.drop_last())
    } else {
        b
    }
}

/// The path bytes with every leading slash removed.
pub open spec fn strip_leading_slashes(b: Seq<u8>) -> Seq<u8>
    decreases b.len(),
{
    if b.len() > 0 && b.first() == '/' as u8 {
        strip_leading_slashes(b.drop_first())
    } else {
        b
    }
}

/// An ASCII letter or digit.
pub open spec fn is_alnum_byte(x: u8) -> bool {
    ('0' as u8 <= x && x <= '9' as u8) || ('a' as u8 <= x && x <= 'z' as u8) || ('A' as u8 <= x
        && x <= 'Z' as u8)
}

/// A bare meeting code: twelve bytes, dashes at positions three and eight,
/// letters and digits everywhere else.
pub open spec fn is_meeting_code(b: Seq<u8>) -> bool {
    b.len() == 12 && forall|i: int|
        0 <= i < 12 ==> (if i == 3 || i == 8 {
            b[i] == '-' as u8
        } else {
            is_alnum_byte(#[trigger] b[i])
        })
}

/// The `/lookup/` prefix, as bytes.
pub open spec fn lookup_prefix() -> Seq<u8> {
    seq![
        '/' as u8,
        'l' as u8,
        'o' as u8,
        'o' as u8,
        'k' as u8,
        'u' as u8,
        'p' as u8,
        '/' as u8,
    ]
}

/// A path names a meeting: after dropping trailing slashes it either starts
/// with `/lookup/` or, once leading slashes go too, is a bare meeting code.
pub open spec fn spec_is_meeting_path(b: Seq<u8>) -> bool {
    let t = strip_trailing_slashes(b);
    let code = strip_leading_slashes(t);
    (t.len() >= 8 && t.subrange(0, 8) == lookup_prefix()) || is_meeting_code(code)
}

/// Stripping trailing slashes keeps exactly the prefix up to the last
/// non-slash byte.
proof fn lemma_strip_trailing(b: Seq<u8>, e: int)
    requires
        0 <= e <= b.len(),
        forall|i: int| e <= i < b.len() ==> b[i] == '/' as u8,
        e > 0 ==> b[e - 1] != '/' as u8,
    ensures
        strip_trailing_slashes(b) == b.subrange(0, e),
    decreases b.len(),
{
    if b.len() == 0 {
        assert(b.subrange(0, 0) =~= b);
    } else if e == b.len() {
        assert(b.last() != '/' as u8);
        assert(b.subrange(0, e) =~= b);
    } else {
        assert(b.last() == '/' as u8);
        assert(b.drop_last() =~= b.subrange(0, b.len() - 1));
        lemma_strip_trailing(b.drop_last(), e);
        assert(b.drop_last().subrange(0, e) =~= b.subrange(0, e));
    }
}

/// Stripping leading slashes keeps exactly the suffix from the first
/// non-slash byte.
proof fn lemma_strip_leading(b: Seq<u8>, a: int)
    requires
        0 <= a <= b.len(),
        forall|i: int| 0 <= i < a ==> b[i] == '/' as u8,
        a < b.len() ==> b[a] != '/' as u8,
    ensures
        strip_leading_slashes(b) == b.subrange(a, b.len() as int),
    decreases b.len(),
{
    if a == 0 {
        if b.len() == 0 {
            assert(b.subrange(0, 0) =~= b);
        } else {
            assert(b.first() != '/' as u8);
            assert(b.subrange(0, b.len() as int) =~= b);
        }
    } else {
        assert(b.first() == '/' as u8);
        assert(b.drop_first() =~= b.subrange(1, b.len() as int));
        lemma_strip_leading(b.drop_first(), a - 1);
        assert(b.drop_first().subrange(a - 1, b.drop_first().len() as int) =~= b.subrange(
            a,
            b.len() as int,
        ));
    }
}

/// Does this URL path name a meeting (a bare meeting code or a `/lookup/`
/// path, trailing slashes ignored)?
#[verifier::loop_isolation(false)]
pub fn is_meeting_path(path: &str) -> (r: bool)
    ensures
        r == spec_is_meeting_path(path.spec_bytes()),
{
    let bytes = path.as_bytes();
    let n = bytes.len();
    let mut e: usize = n;
    while e > 0 && bytes[e - 1] == '/' as u8
        invariant
            n == bytes@.len(),
            e <= n,
            forall|i: int| e <= i < n ==> bytes@[i] == '/' as u8,
        decreases e,
    {
        e = e - 1;
    }
    proof {
        lemma_strip_trailing(bytes@, e as int);
    }
    let ghost t = bytes@.subrange(0, e as int);
    // the `/lookup/` prefix
    if e >= 8 {
        let is_lookup = bytes[0] == '/' as u8 && bytes[1] == 'l' as u8 && bytes[2] == 'o' as u8
            && bytes[3] == 'o' as u8 && bytes[4] == 'k' as u8 && bytes[5] == 'u' as u8
            && bytes[6] == 'p' as u8 && bytes[7] == '/' as u8;
        proof {
            if is_lookup {
                assert(t.subrange(0, 8) =~= lookup_prefix());
            } else {
                if t.subrange(0, 8) == lookup_prefix() {
                    assert(forall|i: int|
                        0 <= i < 8 ==> t.subrange(0, 8)[i] == #[trigger] lookup_prefix()[i]);
                    assert(forall|i: int| 0 <= i < 8 ==> t.subrange(0, 8)[i] == bytes@[i]);
                    assert(bytes@[0] == '/' as u8);
                    assert(bytes@[1] == 'l' as u8);
                    assert(bytes@[2] == 'o' as u8);
                    assert(bytes@[3] == 'o' as u8);
                    assert(bytes@[4] == 'k' as u8);
                    assert(bytes@[5] == 'u' as u8);
                    assert(bytes@[6] == 'p' as u8);
                    assert(bytes@[7] == '/' as u8);
                }
            }
        }
        if is_lookup {
            return true;
        }
    }
    // leading slashes before the would-be meeting code
    let mut a: usize = 0;
    while a < e && bytes[a] == '/' as u8
        invariant
            n == bytes@.len(),
            a <= e <= n,
            forall|i: int| 0 <= i < a ==> bytes@[i] == '/' as u8,
        decreases e - a,
    {
        a = a + 1;
    }
    proof {
        assert(forall|i: int| 0 <= i < a ==> t[i] == '/' as u8);
        if a < e {
            assert(t[a as int] != '/' as u8);
        }
        lemma_strip_leading(t, a as int);
        assert(t.subrange(a as int, t.len() as int) =~= bytes@.subrange(a as int, e as int));
    }
    let ghost code = t.subrange(a as int, t.len() as int);
    if e - a != 12 {
        return false;
    }
    let mut i: usize = 0;
    while i < 12
        invariant
            n == bytes@.len(),
            a + 12 == e,
            e <= n,
            i <= 12,
            code == bytes@.subrange(a as int, e as int),
            code.len() == 12,
            forall|j: int|
                0 <= j < i ==> (if j == 3 || j == 8 {
                    code[j] == '-' as u8
                } else {
                    is_alnum_byte(#[trigger] code[j])
                }),
        decreases 12 - i,
    {
        let x = bytes[a + i];
        proof {
            assert(code[i as int] == bytes@[a + i]);
        }
        if i == 3 || i == 8 {
            if x != '-' as u8 {
                return false;
            }
        } else {
            let alnum = ('0' as u8 <= x && x <= '9' as u8) || ('a' as u8 <= x && x <= 'z' as u8)
                || ('A' as u8 <= x && x <= 'Z' as u8);
            if !alnum {
                return false;
            }
        }
        i = i + 1;
    }
    true
}

/// Is this URL a meeting page: hosted on `meet.google.com` with a path that
/// names a meeting?
pub fn is_meeting_url(host: Option<&str>, path: &str) -> (r: bool)
    ensures
        r == (host is Some && host.unwrap()@ == "meet.google.com"@ && spec_is_meeting_path(
            path.spec_bytes(),
        )),
{
    match host {
        Option::Some(h) => str_eq(h, "meet.google.com") && is_meeting_path(path),
        Option::None => false,
    }
}

/// A link clicked on a meeting page opens externally exactly when it leaves
/// `meet.google.com`; anywhere else it never does.
pub fn should_open_external(
    current_host: Option<&str>,
    current_path: &str,
    target_host: Option<&str>,
) -> (r: bool)
    ensures
        r == (current_host is Some && current_host.unwrap()@ == "meet.google.com"@
            && spec_is_meeting_path(current_path.spec_bytes()) && !(target_host is Some
            && target_host.unwrap()@ == "meet.google.com"@)),
{
    if is_meeting_url(current_host, current_path) {
        match target_host {
            Option::Some(h) => !str_eq(h, "meet.google.com"),
            Option::None => true,
        }
    } else {
        false
    }
}

} // verus!
