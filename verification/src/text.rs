//! Character-level helpers: whitespace trimming, ASCII case-insensitive
//! comparison, prefixes, and centring text in a field.
use vstd::prelude::*;
use vstd::string::*;

verus! {

/// Unicode `White_Space`, the property that `char::is_whitespace` tests.
pub open spec fn is_whitespace(c: char) -> bool {
    let u = c as u32;
    (9 <= u <= 13) || u == 32 || u == 0x85 || u == 0xA0 || u == 0x1680 || (0x2000 <= u <= 0x200A)
        || u == 0x2028 || u == 0x2029 || u == 0x202F || u == 0x205F || u == 0x3000
}

/// Index of the first non-whitespace character at or after `i`, or the length.
pub open spec fn first_kept(s: Seq<char>, i: int) -> int
    decreases s.len() - i,
{
    if i >= s.len() {
        s.len() as int
    } else if is_whitespace(s[i]) {
        first_kept(s, i + 1)
    } else {
        i
    }
}

/// One past the last non-whitespace character before `j`, or 0.
pub open spec fn last_kept_end(s: Seq<char>, j: int) -> int
    decreases j,
{
    if j <= 0 {
        0
    } else if is_whitespace(s[j - 1]) {
        last_kept_end(s, j - 1)
    } else {
        j
    }
}

/// `s` without its leading and trailing whitespace.
pub open spec fn trim(s: Seq<char>) -> Seq<char> {
    let a = first_kept(s, 0);
    let b = last_kept_end(s, s.len() as int);
    if a < b {
        s.subrange(a, b)
    } else {
        Seq::empty()
    }
}

/// The code of `c` with ASCII capitals mapped to small letters.
pub open spec fn ascii_lower(c: char) -> int {
    let u = c as u32;
    if 65 <= u <= 90 {
        u + 32
    } else {
        u as int
    }
}

/// Equality up to ASCII case, as `str::eq_ignore_ascii_case` decides it.
pub open spec fn eq_ignore_ascii_case(s: Seq<char>, t: Seq<char>) -> bool {
    &&& s.len() == t.len()
    &&& forall|i: int| 0 <= i < s.len() ==> ascii_lower(#[trigger] s[i]) == ascii_lower(t[i])
}

/// `p` is a prefix of `s`.
pub open spec fn starts_with(s: Seq<char>, p: Seq<char>) -> bool {
    p.len() <= s.len() && s.subrange(0, p.len() as int) == p
}

/// `n` spaces.
pub open spec fn spaces(n: nat) -> Seq<char> {
    Seq::new(n, |i: int| ' ')
}

/// `s` centred in a field of `width` characters, as `format!("{:^width$}", s)`
/// lays it out: the padding is split with the odd space on the right; text
/// that fills the field is left as it is.
pub open spec fn centered(s: Seq<char>, width: nat) -> Seq<char> {
    if s.len() >= width {
        s
    } else {
        let pad = (width - s.len()) as nat;
        spaces(pad / 2) + s + spaces((pad - pad / 2) as nat)
    }
}

pub fn char_is_whitespace(c: char) -> (r: bool)
    ensures
        r == is_whitespace(c),
{
    let u = c as u32;
    (9 <= u && u <= 13) || u == 32 || u == 0x85 || u == 0xA0 || u == 0x1680 || (0x2000 <= u && u
        <= 0x200A) || u == 0x2028 || u == 0x2029 || u == 0x202F || u == 0x205F || u == 0x3000
}

/// `s` without its leading and trailing whitespace.
pub fn trim_str(s: &str) -> (r: &str)
    ensures
        r@ == trim(s@),
{
    let n = s.unicode_len();
    let mut a: usize = 0;
    while a < n && char_is_whitespace(s.get_char(a))
        invariant
            n == s@.len(),
            a <= n,
            first_kept(s@, 0) == first_kept(s@, a as int),
        decreases n - a,
    {
        a = a + 1;
    }
    let mut b: usize = n;
    while b > 0 && char_is_whitespace(s.get_char(b - 1))
        invariant
            n == s@.len(),
            b <= n,
            last_kept_end(s@, n as int) == last_kept_end(s@, b as int),
        decreases b,
    {
        b = b - 1;
    }
    if a < b {
        s.substring_char(a, b)
    } else {
        let e = s.substring_char(0, 0);
        proof {
            assert(e@ =~= Seq::<char>::empty());
        }
        e
    }
}

fn lower_code(c: char) -> (r: u32)
    ensures
        r as int == ascii_lower(c),
{
    let u = c as u32;
    if 65 <= u && u <= 90 {
        u + 32
    } else {
        u
    }
}

/// Equality up to ASCII case.
pub fn str_eq_ignore_ascii_case(s: &str, t: &str) -> (r: bool)
    ensures
        r == eq_ignore_ascii_case(s@, t@),
{
    let n = s.unicode_len();
    if n != t.unicode_len() {
        return false;
    }
    let mut i: usize = 0;
    while i < n
        invariant
            n == s@.len(),
            n == t@.len(),
            i <= n,
            forall|j: int| 0 <= j < i ==> ascii_lower(#[trigger] s@[j]) == ascii_lower(t@[j]),
        decreases n - i,
    {
        if lower_code(s.get_char(i)) != lower_code(t.get_char(i)) {
            return false;
        }
        i = i + 1;
    }
    true
}

/// Whether `p` is a prefix of `s`.
pub fn str_starts_with(s: &str, p: &str) -> (r: bool)
    ensures
        r == starts_with(s@, p@),
{
    let n = s.unicode_len();
    let m = p.unicode_len();
    if m > n {
        return false;
    }
    let mut i: usize = 0;
    while i < m
        invariant
            n == s@.len(),
            m == p@.len(),
            m <= n,
            i <= m,
            forall|j: int| 0 <= j < i ==> s@[j] == p@[j],
        decreases m - i,
    {
        if s.get_char(i) != p.get_char(i) {
            proof {
                assert(s@.subrange(0, m as int)[i as int] != p@[i as int]);
            }
            return false;
        }
        i = i + 1;
    }
    proof {
        assert(s@.subrange(0, m as int) =~= p@);
    }
    true
}

/// Append `n` spaces to `out`.
fn push_spaces(out: &mut String, n: usize)
    ensures
        final(out)@ == old(out)@ + spaces(n as nat),
{
    let ghost start = out@;
    let mut i: usize = 0;
    while i < n
        invariant
            i <= n,
            out@ == start + spaces(i as nat),
        decreases n - i,
    {
        out.append(" ");
        proof {
            reveal_strlit(" ");
            assert(start + spaces((i + 1) as nat) =~= start + spaces(i as nat) + " "@);
        }
        i = i + 1;
    }
}

/// `s` centred in a field of `width` characters.
pub fn center(s: &str, width: usize) -> (r: String)
    ensures
        r@ == centered(s@, width as nat),
{
    let len = s.unicode_len();
    let mut out = String::new();
    if len >= width {
        out.append(s);
        proof {
            assert(out@ =~= s@);
        }
        return out;
    }
    let pad = width - len;
    push_spaces(&mut out, pad / 2);
    out.append(s);
    push_spaces(&mut out, pad - pad / 2);
    out
}

} // verus!
