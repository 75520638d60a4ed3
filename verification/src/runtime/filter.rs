//! The directive filters of `tracing_subscriber`, as the logging policy uses them.
use vstd::prelude::*;
use tracing_subscriber::EnvFilter;
use crate::text::{char_is_whitespace, first_kept, is_whitespace};

verus! {

/// `tracing_subscriber::EnvFilter`, carried as an opaque value.
#[verifier::external_type_specification]
#[verifier::external_body]
pub struct ExEnvFilter(EnvFilter);

/// How `EnvFilter::try_new` judges a directive string: `None` when it builds a
/// filter from it, otherwise the text that the `ParseError` it returns displays.
/// It depends on the string alone: `try_new` runs the builder's `parse`, which
/// splits the string at commas and parses each directive, reading nothing else.
pub uninterp spec fn env_filter_verdict(directives: Seq<char>) -> Option<Seq<char>>;

/// Position `i` starts a directive: it is the first position, or follows a comma.
pub open spec fn starts_directive(s: Seq<char>, i: int) -> bool {
    i == 0 || s[i - 1] == ','
}

/// No comma stands in `s` from position `i` up to, not including, `j`.
pub open spec fn no_comma_between(s: Seq<char>, i: int, j: int) -> bool {
    forall|m: int| i <= m < j ==> s[m] != ','
}

/// Bytes that `c` takes in UTF-8.
pub open spec fn utf8_len(c: char) -> int {
    let u = c as u32;
    if u < 0x80 {
        1
    } else if u < 0x800 {
        2
    } else if u < 0x10000 {
        3
    } else {
        4
    }
}

/// Byte offset, in the UTF-8 text of `s`, of the character at position `i`.
pub open spec fn byte_offset(s: Seq<char>, i: int) -> int
    decreases i,
{
    if i <= 0 {
        0
    } else {
        byte_offset(s, i - 1) + utf8_len(s[i - 1])
    }
}

/// The characters at which the directive parser cuts a directive, just before
/// or just after them.
pub open spec fn is_cut_mark(c: char) -> bool {
    c == '=' || c == '[' || c == ']' || c == '{' || c == '}'
}

/// Some character of `s` from position `lo` on (or the end) starts at byte `x`.
pub open spec fn char_starts_at(s: Seq<char>, lo: int, x: int) -> bool {
    exists|i: int| lo <= i <= s.len() && #[trigger] byte_offset(s, i) == x
}

/// How many bytes of white space begin the directive that starts at `ps`.
pub open spec fn lead_bytes(s: Seq<char>, ps: int) -> int {
    byte_offset(s, first_kept(s, ps)) - byte_offset(s, ps)
}

/// Directive strings on which `EnvFilter`'s parser cuts no character in two.
/// The parser walks each directive with its white space trimmed, but cuts the
/// untrimmed text at the byte offsets it found, always at offset 0 or just
/// before or after a `=`, `[`, `]`, `{` or `}`. So for each such mark of a
/// directive, both offsets, counted from the directive's first character that
/// is not white space, must start a character of the untrimmed directive. (The
/// parser cuts at a mark only in some of its states, so a few strings that fail
/// this would still be read without a panic.)
pub open spec fn parser_cuts_safely(s: Seq<char>) -> bool {
    forall|ps: int, j: int|
        #![trigger starts_directive(s, ps), s[j]]
        0 <= ps <= j < s.len() && starts_directive(s, ps) && no_comma_between(s, ps, j) && is_cut_mark(
            s[j],
        ) ==> char_starts_at(s, ps, byte_offset(s, j) - lead_bytes(s, ps)) && char_starts_at(
            s,
            ps,
            byte_offset(s, j) - lead_bytes(s, ps) + 1,
        )
}

pub proof fn lemma_byte_offset_grows(s: Seq<char>, i: int, k: int)
    requires
        0 <= i <= k,
    ensures
        byte_offset(s, k) - byte_offset(s, i) >= k - i,
        byte_offset(s, k) - byte_offset(s, i) <= 4 * (k - i),
    decreases k - i,
{
    if i < k {
        lemma_byte_offset_grows(s, i, k - 1);
    }
}

/// Where no directive begins with white space, every cut is safe.
pub proof fn lemma_no_lead_safe(s: Seq<char>)
    requires
        forall|ps: int| 0 <= ps < s.len() && #[trigger] starts_directive(s, ps) ==> !is_whitespace(s[ps]),
    ensures
        parser_cuts_safely(s),
{
    assert forall|ps: int, j: int|
        #![trigger starts_directive(s, ps), s[j]]
        0 <= ps <= j < s.len() && starts_directive(s, ps) && no_comma_between(s, ps, j) && is_cut_mark(
            s[j],
        ) implies char_starts_at(s, ps, byte_offset(s, j) - lead_bytes(s, ps)) && char_starts_at(
        s,
        ps,
        byte_offset(s, j) - lead_bytes(s, ps) + 1,
    ) by {
        assert(first_kept(s, ps) == ps);
        assert(byte_offset(s, j) - lead_bytes(s, ps) == byte_offset(s, j));
        assert(byte_offset(s, j + 1) == byte_offset(s, j) + 1);
    }
}

pub proof fn lemma_first_kept_bounds(s: Seq<char>, i: int)
    requires
        0 <= i <= s.len(),
    ensures
        i <= first_kept(s, i) <= s.len(),
    decreases s.len() - i,
{
    if i < s.len() {
        lemma_first_kept_bounds(s, i + 1);
    }
}

/// The white space run that begins at `ps` ends at `j`.
proof fn lemma_first_kept_at(s: Seq<char>, ps: int, j: int)
    requires
        0 <= ps <= j <= s.len(),
        forall|m: int| ps <= m < j ==> is_whitespace(#[trigger] s[m]),
        j == s.len() || !is_whitespace(s[j]),
    ensures
        first_kept(s, ps) == j,
    decreases j - ps,
{
    if ps < j {
        lemma_first_kept_at(s, ps + 1, j);
    }
}

fn char_utf8_len(c: char) -> (r: u128)
    ensures
        r == utf8_len(c),
{
    let u = c as u32;
    if u < 0x80 {
        1
    } else if u < 0x800 {
        2
    } else if u < 0x10000 {
        3
    } else {
        4
    }
}

/// Whether a character of `s` from position `lo` on starts at byte `target`;
/// `off_lo` is the byte offset of position `lo`.
fn char_starts_from(s: &str, lo: usize, off_lo: u128, target: u128) -> (r: bool)
    requires
        lo <= s@.len(),
        off_lo == byte_offset(s@, lo as int),
        s@.len() <= usize::MAX,
    ensures
        r == char_starts_at(s@, lo as int, target as int),
{
    let n = s.unicode_len();
    let mut i = lo;
    let mut off = off_lo;
    proof {
        lemma_byte_offset_grows(s@, 0, lo as int);
    }
    while i < n && off < target
        invariant
            n == s@.len(),
            lo <= i <= n,
            off == byte_offset(s@, i as int),
            off <= 4 * i,
            n <= usize::MAX,
            forall|m: int| lo <= m < i ==> #[trigger] byte_offset(s@, m) < target,
        decreases n - i,
    {
        let w = char_utf8_len(s.get_char(i));
        off = off + w;
        i = i + 1;
    }
    if off == target {
        return true;
    }
    proof {
        assert forall|m: int| lo <= m <= s@.len() implies #[trigger] byte_offset(s@, m) != target by {
            if m >= i {
                lemma_byte_offset_grows(s@, i as int, m);
            }
        }
    }
    false
}

/// Whether `EnvFilter`'s parser cuts no character of `s` in two.
pub fn check_parser_cuts_safely(s: &str) -> (r: bool)
    ensures
        r == parser_cuts_safely(s@),
{
    let n = s.unicode_len();
    let mut j: usize = 0;
    let mut ps: usize = 0;
    let mut off: u128 = 0;
    let mut off_ps: u128 = 0;
    let mut lead_done = false;
    let mut lead: u128 = 0;
    while j < n
        invariant
            n == s@.len(),
            n <= usize::MAX,
            ps <= j <= n,
            starts_directive(s@, ps as int),
            no_comma_between(s@, ps as int, j as int),
            off == byte_offset(s@, j as int),
            off_ps == byte_offset(s@, ps as int),
            off <= 4 * j,
            lead_done ==> first_kept(s@, ps as int) <= j && lead == lead_bytes(s@, ps as int),
            !lead_done ==> forall|m: int| ps <= m < j ==> is_whitespace(#[trigger] s@[m]),
            forall|p2: int, j2: int|
                #![trigger starts_directive(s@, p2), s@[j2]]
                0 <= p2 <= j2 < j && starts_directive(s@, p2) && no_comma_between(s@, p2, j2)
                    && is_cut_mark(s@[j2]) ==> char_starts_at(
                    s@,
                    p2,
                    byte_offset(s@, j2) - lead_bytes(s@, p2),
                ) && char_starts_at(s@, p2, byte_offset(s@, j2) - lead_bytes(s@, p2) + 1),
        decreases n - j,
    {
        let c = s.get_char(j);
        let ghost j0 = j as int;
        if !lead_done && !char_is_whitespace(c) {
            proof {
                lemma_first_kept_at(s@, ps as int, j as int);
                lemma_byte_offset_grows(s@, ps as int, j as int);
            }
            lead_done = true;
            lead = off - off_ps;
        }
        let mark = c == '=' || c == '[' || c == ']' || c == '{' || c == '}';
        if mark {
            proof {
                lemma_byte_offset_grows(s@, ps as int, j as int);
                lemma_first_kept_bounds(s@, ps as int);
                lemma_byte_offset_grows(s@, first_kept(s@, ps as int), j as int);
                lemma_byte_offset_grows(s@, ps as int, first_kept(s@, ps as int));
            }
            let at = off - lead;
            if !char_starts_from(s, ps, off_ps, at) || !char_starts_from(s, ps, off_ps, at + 1) {
                proof {
                    assert(starts_directive(s@, ps as int) && is_cut_mark(s@[j0]));
                }
                return false;
            }
        }
        proof {
            assert forall|p2: int, j2: int|
                #![trigger starts_directive(s@, p2), s@[j2]]
                0 <= p2 <= j2 < j + 1 && starts_directive(s@, p2) && no_comma_between(s@, p2, j2)
                    && is_cut_mark(s@[j2]) implies char_starts_at(
                s@,
                p2,
                byte_offset(s@, j2) - lead_bytes(s@, p2),
            ) && char_starts_at(s@, p2, byte_offset(s@, j2) - lead_bytes(s@, p2) + 1) by {
                if j2 == j0 {
                    if p2 < ps {
                        assert(s@[ps - 1] == ',');
                    } else if p2 > ps {
                        assert(s@[p2 - 1] == ',');
                    }
                }
            }
        }
        let w = char_utf8_len(c);
        if c == ',' {
            ps = j + 1;
            off_ps = off + w;
            lead_done = false;
        }
        off = off + w;
        j = j + 1;
    }
    true
}

/// A filter of `tracing_subscriber` together with the directives it was built
/// from. Only the wrappers below make one: the filter is the one
/// `EnvFilter::try_new` built from the directives, or a clone of such a filter.
pub struct LogFilter {
    directives: String,
    filter: EnvFilter,
}

impl View for LogFilter {
    type V = Seq<char>;

    /// The directives the filter was built from.
    closed spec fn view(&self) -> Seq<char> {
        self.directives@
    }
}

impl LogFilter {
    /// The filter this value holds.
    pub closed spec fn held(&self) -> EnvFilter {
        self.filter
    }

    /// The directives the filter was built from.
    pub fn directives(&self) -> (r: &str)
        ensures
            r@ == self@,
    {
        self.directives.as_str()
    }

    /// The filter itself.
    pub fn env_filter(&self) -> (r: &EnvFilter)
        ensures
            *r == self.held(),
    {
        &self.filter
    }

    /// The filter itself, by value.
    pub fn into_env_filter(self) -> (r: EnvFilter)
        ensures
            r == self.held(),
    {
        self.filter
    }

    /// A copy built from the same directives.
    pub fn duplicate(&self) -> (r: LogFilter)
        ensures
            r@ == self@,
    {
        log_filter_clone(self)
    }
}

/// Calls `tracing_subscriber::EnvFilter::try_new` on `directives` and keeps the
/// directives beside the filter it builds. Claimed: it returns a filter exactly
/// when `env_filter_verdict` is `None`, and otherwise the displayed text of its
/// error. Required: `parser_cuts_safely`, since on other strings the parser
/// may cut a character in two and panic. Nothing is said of how the filter
/// behaves; `env_filter_verdict` names only whether it is built.
#[verifier::external_body]
pub(crate) fn env_filter_try_new(directives: &str) -> (r: Result<LogFilter, String>)
    requires
        parser_cuts_safely(directives@),
    ensures
        match env_filter_verdict(directives@) {
            None => r matches Ok(f) && f@ == directives@,
            Some(message) => r matches Err(m) && m@ == message,
        },
{
    match EnvFilter::try_new(directives) {
        Ok(filter) => Ok(LogFilter { directives: directives.to_owned(), filter }),
        Err(err) => Err(err.to_string()),
    }
}

/// Calls `Clone::clone` of `EnvFilter` (and of the directive text), which
/// copies the filter's directives and none of the state a filter gathers once
/// attached. Claimed: the copy has the same directive text.
#[verifier::external_body]
pub(crate) fn log_filter_clone(f: &LogFilter) -> (r: LogFilter)
    ensures
        r@ == f@,
{
    LogFilter { directives: f.directives.clone(), filter: f.filter.clone() }
}

} // verus!
