//! Character-sequence utilities shared by the parsers: literal search,
//! slicing, line splitting, trimming and small scans. Every executable
//! function agrees exactly with a spec-level definition over `Seq<char>`.

use vstd::prelude::*;
use vstd::string::StrSliceExecFns;

verus! {

// ---------------------------------------------------------------------------
// Character classes
// ---------------------------------------------------------------------------

/// A Unicode `White_Space` character, the class `str::trim` removes.
pub open spec fn is_ws_char(c: char) -> bool {
    let u = c as u32;
    u == 0x09 || u == 0x0A || u == 0x0B || u == 0x0C || u == 0x0D || u == 0x20 || u == 0x85
        || u == 0xA0 || u == 0x1680 || (0x2000 <= u && u <= 0x200A) || u == 0x2028 || u == 0x2029
        || u == 0x202F || u == 0x205F || u == 0x3000
}

pub fn is_ws(c: char) -> (r: bool)
    ensures
        r == is_ws_char(c),
{
    let u = c as u32;
    u == 0x09 || u == 0x0A || u == 0x0B || u == 0x0C || u == 0x0D || u == 0x20 || u == 0x85
        || u == 0xA0 || u == 0x1680 || (0x2000 <= u && u <= 0x200A) || u == 0x2028 || u == 0x2029
        || u == 0x202F || u == 0x205F || u == 0x3000
}

/// A decimal digit.
pub open spec fn is_digit_char(c: char) -> bool {
    0x30 <= c as u32 && c as u32 <= 0x39
}

pub fn is_digit(c: char) -> (r: bool)
    ensures
        r == is_digit_char(c),
{
    let u = c as u32;
    0x30 <= u && u <= 0x39
}

// ---------------------------------------------------------------------------
// Literal matching and search
// ---------------------------------------------------------------------------

/// `pat` occurs in `s` starting at position `i`.
pub open spec fn match_at(s: Seq<char>, i: int, pat: Seq<char>) -> bool {
    0 <= i && i + pat.len() <= s.len() && s.subrange(i, i + pat.len() as int) == pat
}

/// The first position at or after `from` where the non-empty literal `pat`
/// occurs in `s`; an empty pattern is never found.
pub open spec fn find_from(s: Seq<char>, pat: Seq<char>, from: int) -> Option<int>
    decreases s.len() - from,
{
    if pat.len() == 0 || from + pat.len() > s.len() {
        None
    } else if match_at(s, from, pat) {
        Some(from)
    } else {
        find_from(s, pat, from + 1)
    }
}

/// Compares `s[i .. i + pat.len()]` with `pat`.
pub fn eq_range(s: &Vec<char>, i: usize, pat: &Vec<char>) -> (r: bool)
    requires
        i + pat@.len() <= s@.len(),
    ensures
        r == (s@.subrange(i as int, i as int + pat@.len() as int) == pat@),
{
    let ghost sub = s@.subrange(i as int, i as int + pat@.len() as int);
    let n = s.len();
    let mut j: usize = 0;
    while j < pat.len()
        invariant
            j <= pat@.len(),
            i + pat@.len() <= s@.len(),
            n == s@.len(),
            sub == s@.subrange(i as int, i as int + pat@.len() as int),
            forall|k: int| 0 <= k < j ==> s@[i + k] == pat@[k],
        decreases pat@.len() - j,
    {
        if s[i + j] != pat[j] {
            proof {
                assert(sub[j as int] == s@[i + j]);
                assert(sub != pat@);
            }
            return false;
        }
        j += 1;
    }
    proof {
        assert(sub =~= pat@);
    }
    true
}

/// Whether `pat` occurs in `s` at position `i`.
pub fn match_at_exec(s: &Vec<char>, i: usize, pat: &Vec<char>) -> (r: bool)
    ensures
        r == match_at(s@, i as int, pat@),
{
    if pat.len() <= s.len() && i <= s.len() - pat.len() {
        eq_range(s, i, pat)
    } else {
        false
    }
}

/// The first occurrence of `pat` in `s` at or after `from`.
pub fn find_at(s: &Vec<char>, pat: &Vec<char>, from: usize) -> (r: Option<usize>)
    ensures
        find_from(s@, pat@, from as int) == (match r {
            Some(i) => Some(i as int),
            None => None::<int>,
        }),
        r matches Some(i) ==> from <= i && match_at(s@, i as int, pat@),
{
    let n = s.len();
    if pat.len() == 0 || pat.len() > n {
        return None;
    }
    let last = n - pat.len();
    let mut i: usize = from;
    while i <= last
        invariant
            1 <= pat@.len() <= s@.len(),
            n == s@.len(),
            last == n - pat@.len(),
            from <= i,
            find_from(s@, pat@, from as int) == find_from(s@, pat@, i as int),
        decreases last + 1 - i,
    {
        if eq_range(s, i, pat) {
            return Some(i);
        }
        i += 1;
    }
    None
}

/// Whether `pat` occurs anywhere in `s`.
pub open spec fn contains_lit(s: Seq<char>, pat: Seq<char>) -> bool {
    find_from(s, pat, 0) is Some
}

pub fn contains_at(s: &Vec<char>, pat: &Vec<char>) -> (r: bool)
    ensures
        r == contains_lit(s@, pat@),
{
    find_at(s, pat, 0).is_some()
}

// ---------------------------------------------------------------------------
// Slicing
// ---------------------------------------------------------------------------

/// A copy of `s[a .. b]`.
pub fn slice_range(s: &Vec<char>, a: usize, b: usize) -> (r: Vec<char>)
    requires
        a <= b,
        b <= s@.len(),
    ensures
        r@ == s@.subrange(a as int, b as int),
{
    let mut r: Vec<char> = Vec::new();
    let mut i: usize = a;
    while i < b
        invariant
            a <= i <= b <= s@.len(),
            r@ =~= s@.subrange(a as int, i as int),
        decreases b - i,
    {
        r.push(s[i]);
        proof {
            assert(r@ =~= s@.subrange(a as int, i + 1 as int));
        }
        i += 1;
    }
    r
}

/// `s[a .. b]` with both bounds clamped to the length of `s`; empty when the
/// bounds are inverted.
pub open spec fn clamp_slice(s: Seq<char>, a: int, b: int) -> Seq<char> {
    if 0 <= a && a <= b {
        let lo = if a <= s.len() { a } else { s.len() as int };
        let hi = if b <= s.len() { b } else { s.len() as int };
        s.subrange(lo, hi)
    } else {
        Seq::empty()
    }
}

pub fn clamp_slice_exec(s: &Vec<char>, a: usize, b: usize) -> (r: Vec<char>)
    ensures
        r@ == clamp_slice(s@, a as int, b as int),
{
    if a > b {
        Vec::new()
    } else {
        let lo = if a <= s.len() { a } else { s.len() };
        let hi = if b <= s.len() { b } else { s.len() };
        slice_range(s, lo, hi)
    }
}

// ---------------------------------------------------------------------------
// Lines
// ---------------------------------------------------------------------------

/// Removes one carriage return at the end of a line, as `str::lines` does for
/// lines terminated by a newline.
pub open spec fn strip_cr(l: Seq<char>) -> Seq<char> {
    if l.len() > 0 && l[l.len() - 1] == '\r' {
        l.drop_last()
    } else {
        l
    }
}

/// The lines of `s[start ..]` whose first unscanned position is `i`:
/// pieces end at each newline (with one trailing carriage return removed),
/// and a final piece without a newline is kept as written; text ending in a
/// newline yields no extra empty line.
pub open spec fn lines_from(s: Seq<char>, i: int, start: int) -> Seq<Seq<char>>
    decreases s.len() - i,
{
    if !(0 <= start && start <= i && i <= s.len()) {
        Seq::empty()
    } else if i == s.len() {
        if start == i {
            Seq::empty()
        } else {
            seq![s.subrange(start, i)]
        }
    } else if s[i] == '\n' {
        seq![strip_cr(s.subrange(start, i))] + lines_from(s, i + 1, i + 1)
    } else {
        lines_from(s, i + 1, start)
    }
}

/// The lines of `s`, with the semantics of `str::lines`.
pub open spec fn spec_lines(s: Seq<char>) -> Seq<Seq<char>> {
    lines_from(s, 0, 0)
}

fn strip_cr_exec(l: &Vec<char>) -> (r: Vec<char>)
    ensures
        r@ == strip_cr(l@),
{
    if l.len() > 0 && l[l.len() - 1] == '\r' {
        let r = slice_range(l, 0, l.len() - 1);
        proof {
            assert(l@.subrange(0, l@.len() - 1) =~= l@.drop_last());
        }
        r
    } else {
        slice_range(l, 0, l.len())
        // a plain copy
    }
}

/// The lines of `s`.
pub fn lines_of(s: &Vec<char>) -> (r: Vec<Vec<char>>)
    ensures
        r.deep_view() == spec_lines(s@),
{
    let mut out: Vec<Vec<char>> = Vec::new();
    let mut start: usize = 0;
    let mut i: usize = 0;
    while i < s.len()
        invariant
            start <= i <= s@.len(),
            spec_lines(s@) == out.deep_view() + lines_from(s@, i as int, start as int),
        decreases s@.len() - i,
    {
        if s[i] == '\n' {
            let ghost prev = out.deep_view();
            let line = strip_cr_exec(&slice_range(s, start, i));
            out.push(line);
            proof {
                assert(out.deep_view() + lines_from(s@, i + 1 as int, i + 1 as int) =~~= prev + (
                seq![strip_cr(s@.subrange(start as int, i as int))] + lines_from(
                    s@,
                    i + 1 as int,
                    i + 1 as int,
                )));
            }
            i += 1;
            start = i;
        } else {
            i += 1;
        }
    }
    if start < s.len() {
        let ghost prev = out.deep_view();
        let line = slice_range(s, start, s.len());
        out.push(line);
        proof {
            assert(out.deep_view() =~~= prev + seq![s@.subrange(start as int, s@.len() as int)]);
        }
    }
    out
}

// ---------------------------------------------------------------------------
// Splitting on a literal delimiter
// ---------------------------------------------------------------------------

/// The pieces of `s[start ..]` split on the literal `pat`, scanning from `i`:
/// a piece ends before each non-overlapping, leftmost occurrence of `pat`,
/// and the delimiter itself is discarded. The piece after the last
/// occurrence is always kept, even when empty.
pub open spec fn split_from(s: Seq<char>, pat: Seq<char>, i: int, start: int) -> Seq<Seq<char>>
    decreases s.len() - i,
{
    if !(0 <= start && start <= i && i <= s.len()) || pat.len() == 0 {
        Seq::empty()
    } else if match_at(s, i, pat) {
        seq![s.subrange(start, i)] + split_from(s, pat, i + pat.len() as int, i + pat.len() as int)
    } else if i < s.len() {
        split_from(s, pat, i + 1, start)
    } else {
        seq![s.subrange(start, i)]
    }
}

/// The pieces of `s` split on the literal `pat`.
pub open spec fn spec_split(s: Seq<char>, pat: Seq<char>) -> Seq<Seq<char>> {
    split_from(s, pat, 0, 0)
}

/// Splits `s` on the literal `pat`.
pub fn split_by(s: &Vec<char>, pat: &Vec<char>) -> (r: Vec<Vec<char>>)
    requires
        pat@.len() >= 1,
    ensures
        r.deep_view() == spec_split(s@, pat@),
{
    let mut out: Vec<Vec<char>> = Vec::new();
    let mut start: usize = 0;
    let mut i: usize = 0;
    while i < s.len()
        invariant
            pat@.len() >= 1,
            start <= i <= s@.len(),
            spec_split(s@, pat@) == out.deep_view() + split_from(
                s@,
                pat@,
                i as int,
                start as int,
            ),
        decreases s@.len() - i,
    {
        if match_at_exec(s, i, pat) {
            let ghost prev = out.deep_view();
            let piece = slice_range(s, start, i);
            out.push(piece);
            proof {
                assert(out.deep_view() + split_from(
                    s@,
                    pat@,
                    i + pat@.len(),
                    i + pat@.len(),
                ) =~~= prev + (seq![s@.subrange(start as int, i as int)] + split_from(
                    s@,
                    pat@,
                    i + pat@.len(),
                    i + pat@.len(),
                )));
            }
            i += pat.len();
            start = i;
        } else {
            i += 1;
        }
    }
    let ghost prev = out.deep_view();
    let piece = slice_range(s, start, s.len());
    out.push(piece);
    proof {
        assert(!match_at(s@, s@.len() as int, pat@));
        assert(out.deep_view() =~~= prev + seq![s@.subrange(start as int, s@.len() as int)]);
    }
    out
}

// ---------------------------------------------------------------------------
// Trimming and stripping
// ---------------------------------------------------------------------------

/// `s[i ..]` with leading whitespace removed.
pub open spec fn trim_start_from(s: Seq<char>, i: int) -> Seq<char>
    decreases s.len() - i,
{
    if 0 <= i && i < s.len() && is_ws_char(s[i]) {
        trim_start_from(s, i + 1)
    } else if 0 <= i && i <= s.len() {
        s.subrange(i, s.len() as int)
    } else {
        s
    }
}

/// `s[.. j]` with trailing whitespace removed.
pub open spec fn trim_end_until(s: Seq<char>, j: int) -> Seq<char>
    decreases j,
{
    if 0 < j && j <= s.len() && is_ws_char(s[j - 1]) {
        trim_end_until(s, j - 1)
    } else if 0 <= j && j <= s.len() {
        s.subrange(0, j)
    } else {
        s
    }
}

/// `s` with leading and trailing whitespace removed, as `str::trim`.
pub open spec fn spec_trim(s: Seq<char>) -> Seq<char> {
    trim_end_until(trim_start_from(s, 0), trim_start_from(s, 0).len() as int)
}

/// Trims whitespace from both ends of `s`.
pub fn trim(s: &Vec<char>) -> (r: Vec<char>)
    ensures
        r@ == spec_trim(s@),
{
    let mut a: usize = 0;
    while a < s.len() && is_ws(s[a])
        invariant
            a <= s@.len(),
            trim_start_from(s@, 0) == trim_start_from(s@, a as int),
        decreases s@.len() - a,
    {
        a += 1;
    }
    let ghost t = trim_start_from(s@, 0);
    proof {
        assert(t == s@.subrange(a as int, s@.len() as int));
    }
    let mut b: usize = s.len();
    while b > a && is_ws(s[b - 1])
        invariant
            a <= b <= s@.len(),
            t == s@.subrange(a as int, s@.len() as int),
            trim_end_until(t, t.len() as int) == trim_end_until(t, b - a as int),
        decreases b,
    {
        proof {
            assert(t[b - 1 - a as int] == s@[b - 1]);
        }
        b -= 1;
    }
    let r = slice_range(s, a, b);
    proof {
        if b > a {
            assert(t[b - 1 - a as int] == s@[b - 1]);
        }
        assert(trim_end_until(t, b - a as int) =~= s@.subrange(a as int, b as int));
    }
    r
}

/// `s[i ..]` with leading double quotes removed.
pub open spec fn strip_quotes_start(s: Seq<char>, i: int) -> Seq<char>
    decreases s.len() - i,
{
    if 0 <= i && i < s.len() && s[i] == '"' {
        strip_quotes_start(s, i + 1)
    } else if 0 <= i && i <= s.len() {
        s.subrange(i, s.len() as int)
    } else {
        s
    }
}

/// `s[.. j]` with trailing double quotes removed.
pub open spec fn strip_quotes_end(s: Seq<char>, j: int) -> Seq<char>
    decreases j,
{
    if 0 < j && j <= s.len() && s[j - 1] == '"' {
        strip_quotes_end(s, j - 1)
    } else if 0 <= j && j <= s.len() {
        s.subrange(0, j)
    } else {
        s
    }
}

/// `s` with surrounding double quotes removed.
pub open spec fn spec_strip_quotes(s: Seq<char>) -> Seq<char> {
    strip_quotes_end(strip_quotes_start(s, 0), strip_quotes_start(s, 0).len() as int)
}

/// Removes surrounding double quotes from `s`.
pub fn strip_quotes(s: &Vec<char>) -> (r: Vec<char>)
    ensures
        r@ == spec_strip_quotes(s@),
{
    let mut a: usize = 0;
    while a < s.len() && s[a] == '"'
        invariant
            a <= s@.len(),
            strip_quotes_start(s@, 0) == strip_quotes_start(s@, a as int),
        decreases s@.len() - a,
    {
        a += 1;
    }
    let ghost t = strip_quotes_start(s@, 0);
    proof {
        assert(t == s@.subrange(a as int, s@.len() as int));
    }
    let mut b: usize = s.len();
    while b > a && s[b - 1] == '"'
        invariant
            a <= b <= s@.len(),
            t == s@.subrange(a as int, s@.len() as int),
            strip_quotes_end(t, t.len() as int) == strip_quotes_end(t, b - a as int),
        decreases b,
    {
        proof {
            assert(t[b - 1 - a as int] == s@[b - 1]);
        }
        b -= 1;
    }
    let r = slice_range(s, a, b);
    proof {
        if b > a {
            assert(t[b - 1 - a as int] == s@[b - 1]);
        }
        assert(strip_quotes_end(t, b - a as int) =~= s@.subrange(a as int, b as int));
    }
    r
}

/// `s` up to (excluding) the first occurrence of `pat`; all of `s` when `pat`
/// does not occur.
pub open spec fn take_to(s: Seq<char>, pat: Seq<char>) -> Seq<char> {
    match find_from(s, pat, 0) {
        Some(i) => s.subrange(0, i),
        None => s,
    }
}

pub fn take_to_exec(s: &Vec<char>, pat: &Vec<char>) -> (r: Vec<char>)
    ensures
        r@ == take_to(s@, pat@),
{
    match find_at(s, pat, 0) {
        Some(i) => slice_range(s, 0, i),
        None => slice_range(s, 0, s.len()),
    }
}

/// `s` after the first occurrence of `pat`; empty when `pat` does not occur.
pub open spec fn after_first(s: Seq<char>, pat: Seq<char>) -> Seq<char> {
    match find_from(s, pat, 0) {
        Some(i) => s.subrange(i + pat.len() as int, s.len() as int),
        None => Seq::empty(),
    }
}

pub fn after_first_exec(s: &Vec<char>, pat: &Vec<char>) -> (r: Vec<char>)
    ensures
        r@ == after_first(s@, pat@),
{
    let n = s.len();
    match find_at(s, pat, 0) {
        Some(i) => slice_range(s, i + pat.len(), n),
        None => {
            let r: Vec<char> = Vec::new();
            proof {
                assert(r@ =~= after_first(s@, pat@));
            }
            r
        },
    }
}

/// `s` without a final occurrence of `pat`; `s` itself when it does not end
/// with `pat`.
pub open spec fn strip_suffix_lit(s: Seq<char>, pat: Seq<char>) -> Seq<char> {
    if pat.len() <= s.len() && match_at(s, s.len() - pat.len(), pat) {
        s.subrange(0, s.len() - pat.len())
    } else {
        s
    }
}

pub fn strip_suffix_exec(s: &Vec<char>, pat: &Vec<char>) -> (r: Vec<char>)
    ensures
        r@ == strip_suffix_lit(s@, pat@),
{
    if pat.len() <= s.len() && match_at_exec(s, s.len() - pat.len(), pat) {
        slice_range(s, 0, s.len() - pat.len())
    } else {
        slice_range(s, 0, s.len())
    }
}

/// `s[i ..]` with every occurrence of the character `c` removed.
pub open spec fn remove_char_from(s: Seq<char>, c: char, i: int) -> Seq<char>
    decreases s.len() - i,
{
    if 0 <= i && i < s.len() {
        if s[i] == c {
            remove_char_from(s, c, i + 1)
        } else {
            seq![s[i]] + remove_char_from(s, c, i + 1)
        }
    } else {
        Seq::empty()
    }
}

/// Removes every occurrence of `c` from `s`.
pub fn remove_char(s: &Vec<char>, c: char) -> (r: Vec<char>)
    ensures
        r@ == remove_char_from(s@, c, 0),
{
    let mut out: Vec<char> = Vec::new();
    let mut i: usize = 0;
    while i < s.len()
        invariant
            i <= s@.len(),
            remove_char_from(s@, c, 0) == out@ + remove_char_from(s@, c, i as int),
        decreases s@.len() - i,
    {
        if s[i] != c {
            let ghost prev = out@;
            out.push(s[i]);
            proof {
                assert(out@ + remove_char_from(s@, c, i + 1 as int) =~= prev + (seq![s@[i as int]]
                    + remove_char_from(s@, c, i + 1 as int)));
            }
        }
        i += 1;
    }
    proof {
        assert(out@ + remove_char_from(s@, c, s@.len() as int) =~= out@);
    }
    out
}

// ---------------------------------------------------------------------------
// Digit runs
// ---------------------------------------------------------------------------

/// The length of the maximal run of decimal digits in `s` starting at `i`.
pub open spec fn digit_run_from(s: Seq<char>, i: int) -> nat
    decreases s.len() - i,
{
    if 0 <= i && i < s.len() && is_digit_char(s[i]) {
        (1 + digit_run_from(s, i + 1)) as nat
    } else {
        0
    }
}

/// Measures the run of digits in `s` starting at `i`.
pub fn digit_run(s: &Vec<char>, i: usize) -> (r: usize)
    requires
        i <= s@.len(),
    ensures
        r == digit_run_from(s@, i as int),
        i + r <= s@.len(),
{
    let mut j: usize = i;
    while j < s.len() && is_digit(s[j])
        invariant
            i <= j <= s@.len(),
            digit_run_from(s@, i as int) == j - i + digit_run_from(s@, j as int),
        decreases s@.len() - j,
    {
        j += 1;
    }
    j - i
}

// ---------------------------------------------------------------------------
// String conversion
// ---------------------------------------------------------------------------

/// The characters of `s`, in order.
pub fn to_chars(s: &str) -> (r: Vec<char>)
    ensures
        r@ == s@,
{
    let n = s.unicode_len();
    let mut r: Vec<char> = Vec::new();
    let mut i: usize = 0;
    while i < n
        invariant
            n == s@.len(),
            i <= n,
            r@ =~= s@.subrange(0, i as int),
        decreases n - i,
    {
        r.push(s.get_char(i));
        proof {
            assert(r@ =~= s@.subrange(0, i + 1 as int));
        }
        i += 1;
    }
    proof {
        assert(s@.subrange(0, n as int) =~= s@);
    }
    r
}

/// Relies on `core::iter::Iterator::collect` building a `String` from exactly
/// the characters the iterator yields, in order.
#[verifier::external_body]
pub fn chars_to_string(v: &Vec<char>) -> (r: String)
    ensures
        r@ == v@,
{
    v.iter().collect()
}

} // verus!
