//! Character classes, substring search and trimming over sequences of
//! characters: the shared vocabulary of the tokenizer, the transform engine
//! and the rewriter. Every executable helper is proved against the spec
//! function of the same name.
use vstd::prelude::*;
use vstd::slice::{slice_subrange, slice_to_vec};

verus! {

// ---------------------------------------------------------------------------
// Character classes
// ---------------------------------------------------------------------------

/// The Unicode `White_Space` code points, as `char::is_whitespace` lists them.
pub open spec fn is_white(c: char) -> bool {
    let u = c as u32;
    u == 0x09 || u == 0x0A || u == 0x0B || u == 0x0C || u == 0x0D || u == 0x20 || u == 0x85
        || u == 0xA0 || u == 0x1680 || (0x2000 <= u && u <= 0x200A) || u == 0x2028 || u == 0x2029
        || u == 0x202F || u == 0x205F || u == 0x3000
}

pub fn white(c: char) -> (b: bool)
    ensures
        b == is_white(c),
{
    let u = c as u32;
    u == 0x09 || u == 0x0A || u == 0x0B || u == 0x0C || u == 0x0D || u == 0x20 || u == 0x85
        || u == 0xA0 || u == 0x1680 || (0x2000 <= u && u <= 0x200A) || u == 0x2028 || u == 0x2029
        || u == 0x202F || u == 0x205F || u == 0x3000
}

/// A space or a tab.
pub open spec fn is_sp_tab(c: char) -> bool {
    c == ' ' || c == '\t'
}

/// ASCII whitespace as `u8::is_ascii_whitespace` defines it.
pub open spec fn is_ascii_ws(c: char) -> bool {
    c == ' ' || c == '\t' || c == '\n' || c == '\r' || c as u32 == 0x0C
}

pub open spec fn is_ascii_letter(c: char) -> bool {
    ('a' <= c && c <= 'z') || ('A' <= c && c <= 'Z')
}

pub open spec fn is_ascii_digit(c: char) -> bool {
    '0' <= c && c <= '9'
}

pub open spec fn is_ascii_alnum(c: char) -> bool {
    is_ascii_letter(c) || is_ascii_digit(c)
}

/// Characters that may continue a JSX tag name.
pub open spec fn is_tag_char(c: char) -> bool {
    is_ascii_alnum(c) || c == '_' || c == '.' || c == '-'
}

/// Characters that may continue a JSX attribute name.
pub open spec fn is_attr_char(c: char) -> bool {
    is_ascii_alnum(c) || c == '_' || c == '-'
}

pub fn ascii_letter(c: char) -> (b: bool)
    ensures
        b == is_ascii_letter(c),
{
    ('a' <= c && c <= 'z') || ('A' <= c && c <= 'Z')
}

pub fn tag_char(c: char) -> (b: bool)
    ensures
        b == is_tag_char(c),
{
    ('a' <= c && c <= 'z') || ('A' <= c && c <= 'Z') || ('0' <= c && c <= '9') || c == '_'
        || c == '.' || c == '-'
}

pub fn attr_char(c: char) -> (b: bool)
    ensures
        b == is_attr_char(c),
{
    ('a' <= c && c <= 'z') || ('A' <= c && c <= 'Z') || ('0' <= c && c <= '9') || c == '_'
        || c == '-'
}

pub fn ascii_ws(c: char) -> (b: bool)
    ensures
        b == is_ascii_ws(c),
{
    c == ' ' || c == '\t' || c == '\n' || c == '\r' || c as u32 == 0x0C
}

// ---------------------------------------------------------------------------
// Substring search
// ---------------------------------------------------------------------------

/// `pat` occurs in `s` starting at index `i`.
pub open spec fn starts_with_at(s: Seq<char>, i: int, pat: Seq<char>) -> bool {
    0 <= i && i + pat.len() <= s.len() && s.subrange(i, i + pat.len() as int) == pat
}

/// The first index `p >= i` where `pat` occurs in `s`, as `str::find` reports
/// it on the remainder of the text.
pub open spec fn find_sub(s: Seq<char>, i: int, pat: Seq<char>) -> Option<int>
    decreases s.len() - i + 1,
{
    if i < 0 || i + pat.len() > s.len() {
        None
    } else if starts_with_at(s, i, pat) {
        Some(i)
    } else {
        find_sub(s, i + 1, pat)
    }
}

pub proof fn lemma_find_sub_bounds(s: Seq<char>, i: int, pat: Seq<char>)
    ensures
        find_sub(s, i, pat) matches Some(p) ==> i <= p && p + pat.len() <= s.len()
            && starts_with_at(s, p, pat),
    decreases s.len() - i + 1,
{
    if !(i < 0 || i + pat.len() > s.len()) && !starts_with_at(s, i, pat) {
        lemma_find_sub_bounds(s, i + 1, pat);
    }
}

/// The first index `p >= i` with `s[p] == c`.
pub open spec fn find_char(s: Seq<char>, i: int, c: char) -> Option<int>
    decreases s.len() - i,
{
    if i < 0 || i >= s.len() {
        None
    } else if s[i] == c {
        Some(i)
    } else {
        find_char(s, i + 1, c)
    }
}

pub proof fn lemma_find_char_bounds(s: Seq<char>, i: int, c: char)
    ensures
        find_char(s, i, c) matches Some(p) ==> i <= p < s.len() && s[p] == c,
    decreases s.len() - i,
{
    if !(i < 0 || i >= s.len()) && s[i] != c {
        lemma_find_char_bounds(s, i + 1, c);
    }
}

pub proof fn lemma_find_char_none(s: Seq<char>, i: int, c: char)
    requires
        0 <= i,
    ensures
        find_char(s, i, c) is None ==> forall|k: int| i <= k < s.len() ==> s[k] != c,
    decreases s.len() - i,
{
    if i < s.len() && s[i] != c {
        lemma_find_char_none(s, i + 1, c);
    }
}

/// The last index `p < hi` with `s[p] == c`.
pub open spec fn rfind_char(s: Seq<char>, hi: int, c: char) -> Option<int>
    decreases hi,
{
    if hi <= 0 || hi > s.len() {
        None
    } else if s[hi - 1] == c {
        Some(hi - 1)
    } else {
        rfind_char(s, hi - 1, c)
    }
}

pub proof fn lemma_rfind_char_bounds(s: Seq<char>, hi: int, c: char)
    ensures
        rfind_char(s, hi, c) matches Some(p) ==> 0 <= p < hi && s[p] == c,
    decreases hi,
{
    if !(hi <= 0 || hi > s.len()) && s[hi - 1] != c {
        lemma_rfind_char_bounds(s, hi - 1, c);
    }
}

// ---------------------------------------------------------------------------
// Trimming
// ---------------------------------------------------------------------------

/// The end of `s.take(hi)` once trailing whitespace is dropped.
pub open spec fn trim_end_idx(s: Seq<char>, hi: int) -> int
    decreases hi,
{
    if hi <= 0 || hi > s.len() {
        0
    } else if is_white(s[hi - 1]) {
        trim_end_idx(s, hi - 1)
    } else {
        hi
    }
}

pub proof fn lemma_trim_end_idx_bounds(s: Seq<char>, hi: int)
    ensures
        0 <= trim_end_idx(s, hi) <= hi || hi < 0,
    decreases hi,
{
    if !(hi <= 0 || hi > s.len()) && is_white(s[hi - 1]) {
        lemma_trim_end_idx_bounds(s, hi - 1);
    }
}

/// `str::trim_end`: the text with trailing whitespace removed.
pub open spec fn trim_end_spec(s: Seq<char>) -> Seq<char> {
    s.take(trim_end_idx(s, s.len() as int))
}

/// The start of `s` once leading whitespace from index `lo` on is skipped.
pub open spec fn trim_start_idx(s: Seq<char>, lo: int) -> int
    decreases s.len() - lo,
{
    if lo < 0 || lo >= s.len() {
        s.len() as int
    } else if is_white(s[lo]) {
        trim_start_idx(s, lo + 1)
    } else {
        lo
    }
}

pub proof fn lemma_trim_start_idx_bounds(s: Seq<char>, lo: int)
    ensures
        lo <= trim_start_idx(s, lo) <= s.len() || lo > s.len(),
    decreases s.len() - lo,
{
    if !(lo < 0 || lo >= s.len()) && is_white(s[lo]) {
        lemma_trim_start_idx_bounds(s, lo + 1);
    }
}

/// `str::trim`: whitespace removed from both ends.
pub open spec fn trim_spec(s: Seq<char>) -> Seq<char> {
    let t = trim_end_spec(s);
    t.skip(trim_start_idx(t, 0))
}

// ---------------------------------------------------------------------------
// Whitespace runs
// ---------------------------------------------------------------------------

/// The first index at or after `i` whose character is not a space or tab.
pub open spec fn skip_sp_tab(s: Seq<char>, i: int) -> int
    decreases s.len() - i,
{
    if i < 0 || i >= s.len() {
        s.len() as int
    } else if is_sp_tab(s[i]) {
        skip_sp_tab(s, i + 1)
    } else {
        i
    }
}

pub proof fn lemma_skip_sp_tab_bounds(s: Seq<char>, i: int)
    ensures
        i <= skip_sp_tab(s, i) <= s.len() || i > s.len(),
    decreases s.len() - i,
{
    if !(i < 0 || i >= s.len()) && is_sp_tab(s[i]) {
        lemma_skip_sp_tab_bounds(s, i + 1);
    }
}

/// The first index at or after `i` whose character is not ASCII whitespace.
pub open spec fn skip_ascii_ws(s: Seq<char>, i: int) -> int
    decreases s.len() - i,
{
    if i < 0 || i >= s.len() {
        s.len() as int
    } else if is_ascii_ws(s[i]) {
        skip_ascii_ws(s, i + 1)
    } else {
        i
    }
}

pub proof fn lemma_skip_ascii_ws_bounds(s: Seq<char>, i: int)
    ensures
        i <= skip_ascii_ws(s, i) <= s.len() || i > s.len(),
    decreases s.len() - i,
{
    if !(i < 0 || i >= s.len()) && is_ascii_ws(s[i]) {
        lemma_skip_ascii_ws_bounds(s, i + 1);
    }
}

// ---------------------------------------------------------------------------
// Executable counterparts
// ---------------------------------------------------------------------------

/// Does `pat` occur in `s` at exactly index `i`?
pub fn match_at(s: &Vec<char>, i: usize, pat: &Vec<char>) -> (b: bool)
    ensures
        b == starts_with_at(s@, i as int, pat@),
{
    if i > s.len() || s.len() - i < pat.len() {
        return false;
    }
    let mut k: usize = 0;
    while k < pat.len()
        invariant
            0 <= k <= pat.len(),
            i + pat.len() <= s.len(),
            forall|m: int| 0 <= m < k ==> s@[i + m] == pat@[m],
        decreases pat.len() - k,
    {
        if s[i + k] != pat[k] {
            proof {
                assert(s@.subrange(i as int, i + pat@.len())[k as int] != pat@[k as int]);
            }
            return false;
        }
        k += 1;
    }
    proof {
        assert(s@.subrange(i as int, i + pat@.len()) =~= pat@);
    }
    true
}

/// Executable `find_sub`.
pub fn find_sub_exec(s: &Vec<char>, i: usize, pat: &Vec<char>) -> (r: Option<usize>)
    ensures
        match r {
            Some(p) => find_sub(s@, i as int, pat@) == Some(p as int),
            None => find_sub(s@, i as int, pat@) is None,
        },
{
    let mut j: usize = i;
    loop
        invariant
            i <= j,
            find_sub(s@, i as int, pat@) == find_sub(s@, j as int, pat@),
        decreases s@.len() + 1 - j,
    {
        if j > s.len() || s.len() - j < pat.len() {
            return None;
        }
        if match_at(s, j, pat) {
            return Some(j);
        }
        proof {
            if pat@.len() == 0 {
                assert(s@.subrange(j as int, j as int) =~= pat@);
            }
        }
        j += 1;
    }
}

/// Executable `find_char`.
pub fn find_char_exec(s: &Vec<char>, i: usize, c: char) -> (r: Option<usize>)
    ensures
        match r {
            Some(p) => find_char(s@, i as int, c) == Some(p as int),
            None => find_char(s@, i as int, c) is None,
        },
{
    let mut j: usize = i;
    while j < s.len()
        invariant
            i <= j,
            find_char(s@, i as int, c) == find_char(s@, j as int, c),
        decreases s@.len() - j,
    {
        if s[j] == c {
            return Some(j);
        }
        j += 1;
    }
    None
}

/// Executable `rfind_char`.
pub fn rfind_char_exec(s: &Vec<char>, hi: usize, c: char) -> (r: Option<usize>)
    requires
        hi <= s@.len(),
    ensures
        match r {
            Some(p) => rfind_char(s@, hi as int, c) == Some(p as int),
            None => rfind_char(s@, hi as int, c) is None,
        },
{
    let mut j: usize = hi;
    while j > 0
        invariant
            j <= hi <= s@.len(),
            rfind_char(s@, hi as int, c) == rfind_char(s@, j as int, c),
        decreases j,
    {
        if s[j - 1] == c {
            return Some(j - 1);
        }
        j -= 1;
    }
    None
}

/// Executable `trim_end_idx` over `s.take(hi)`.
pub fn trim_end_idx_exec(s: &Vec<char>, hi: usize) -> (r: usize)
    requires
        hi <= s@.len(),
    ensures
        r == trim_end_idx(s@, hi as int),
        r <= hi,
{
    let mut j: usize = hi;
    while j > 0
        invariant
            j <= hi <= s@.len(),
            trim_end_idx(s@, hi as int) == trim_end_idx(s@, j as int),
        decreases j,
    {
        if !white(s[j - 1]) {
            return j;
        }
        j -= 1;
    }
    j
}

/// Executable `trim_start_idx`.
pub fn trim_start_idx_exec(s: &Vec<char>, lo: usize) -> (r: usize)
    requires
        lo <= s@.len(),
    ensures
        r == trim_start_idx(s@, lo as int),
        lo <= r <= s@.len(),
{
    let mut j: usize = lo;
    while j < s.len()
        invariant
            lo <= j <= s@.len(),
            trim_start_idx(s@, lo as int) == trim_start_idx(s@, j as int),
        decreases s@.len() - j,
    {
        if !white(s[j]) {
            return j;
        }
        j += 1;
    }
    j
}

/// Executable `skip_sp_tab`.
pub fn skip_sp_tab_exec(s: &Vec<char>, i: usize) -> (r: usize)
    requires
        i <= s@.len(),
    ensures
        r == skip_sp_tab(s@, i as int),
        i <= r <= s@.len(),
{
    let mut j: usize = i;
    while j < s.len()
        invariant
            i <= j <= s@.len(),
            skip_sp_tab(s@, i as int) == skip_sp_tab(s@, j as int),
        decreases s@.len() - j,
    {
        if !(s[j] == ' ' || s[j] == '\t') {
            return j;
        }
        j += 1;
    }
    j
}

/// Executable `skip_ascii_ws`.
pub fn skip_ascii_ws_exec(s: &Vec<char>, i: usize) -> (r: usize)
    requires
        i <= s@.len(),
    ensures
        r == skip_ascii_ws(s@, i as int),
        i <= r <= s@.len(),
{
    let mut j: usize = i;
    while j < s.len()
        invariant
            i <= j <= s@.len(),
            skip_ascii_ws(s@, i as int) == skip_ascii_ws(s@, j as int),
        decreases s@.len() - j,
    {
        if !ascii_ws(s[j]) {
            return j;
        }
        j += 1;
    }
    j
}

// ---------------------------------------------------------------------------
// Trim lemmas and range-based executable trimming
// ---------------------------------------------------------------------------

/// The trimmed end is zero exactly when the whole prefix is whitespace.
pub proof fn lemma_trim_end_zero(s: Seq<char>, hi: int)
    requires
        0 <= hi <= s.len(),
    ensures
        (trim_end_idx(s, hi) == 0) <==> (forall|k: int| 0 <= k < hi ==> is_white(s[k])),
    decreases hi,
{
    if hi > 0 {
        if is_white(s[hi - 1]) {
            lemma_trim_end_zero(s, hi - 1);
        }
    }
}

/// A positive trimmed end sits just after a non-whitespace character.
pub proof fn lemma_trim_end_last(s: Seq<char>, hi: int)
    requires
        0 <= hi <= s.len(),
        trim_end_idx(s, hi) > 0,
    ensures
        !is_white(s[trim_end_idx(s, hi) - 1]),
    decreases hi,
{
    if hi > 0 && is_white(s[hi - 1]) {
        lemma_trim_end_last(s, hi - 1);
    }
}

/// Skipping leading whitespace stops at or before any non-whitespace index.
pub proof fn lemma_trim_start_stops(s: Seq<char>, lo: int, w: int)
    requires
        0 <= lo <= w < s.len(),
        !is_white(s[w]),
    ensures
        trim_start_idx(s, lo) <= w,
    decreases w - lo,
{
    if lo < w && is_white(s[lo]) {
        lemma_trim_start_stops(s, lo + 1, w);
    }
}

/// A trim leaves nothing exactly when the text is all whitespace.
pub proof fn lemma_trim_blank(s: Seq<char>)
    ensures
        (trim_spec(s).len() == 0) <==> (forall|k: int| 0 <= k < s.len() ==> is_white(s[k])),
{
    let n = s.len() as int;
    let e = trim_end_idx(s, n);
    lemma_trim_end_idx_bounds(s, n);
    lemma_trim_end_zero(s, n);
    let t = s.take(e);
    if e == 0 {
        assert(trim_spec(s).len() == 0);
    } else {
        lemma_trim_end_last(s, n);
        assert(!is_white(t[e - 1]));
        lemma_trim_start_stops(t, 0, e - 1);
        lemma_trim_start_idx_bounds(t, 0);
        assert(trim_spec(s).len() == t.len() - trim_start_idx(t, 0));
        assert(!is_white(s[e - 1]));
    }
}

/// Is every character of `s[lo..hi]` whitespace?
pub fn all_white_sub(s: &Vec<char>, lo: usize, hi: usize) -> (b: bool)
    requires
        lo <= hi <= s@.len(),
    ensures
        b == (forall|k: int| lo <= k < hi ==> is_white(s@[k])),
{
    let mut j: usize = lo;
    while j < hi
        invariant
            lo <= j <= hi <= s@.len(),
            forall|k: int| lo <= k < j ==> is_white(s@[k]),
        decreases hi - j,
    {
        if !white(s[j]) {
            return false;
        }
        j += 1;
    }
    true
}

/// The end of `s[lo..hi]` after trailing whitespace is dropped, as an
/// absolute index: `s[lo..r]` is `trim_end` of `s[lo..hi]`.
pub fn trim_end_sub(s: &Vec<char>, lo: usize, hi: usize) -> (r: usize)
    requires
        lo <= hi <= s@.len(),
    ensures
        lo <= r <= hi,
        s@.subrange(lo as int, r as int) == trim_end_spec(s@.subrange(lo as int, hi as int)),
{
    let ghost t = s@.subrange(lo as int, hi as int);
    let mut j: usize = hi;
    while j > lo
        invariant
            lo <= j <= hi <= s@.len(),
            t == s@.subrange(lo as int, hi as int),
            trim_end_idx(t, (hi - lo) as int) == trim_end_idx(t, (j - lo) as int),
        decreases j,
    {
        if !white(s[j - 1]) {
            proof {
                assert(t[j - lo - 1] == s@[j as int - 1]);
                assert(trim_end_idx(t, (j - lo) as int) == (j - lo) as int);
                assert(s@.subrange(lo as int, j as int) =~= t.take((j - lo) as int));
            }
            return j;
        }
        proof {
            assert(t[j - lo - 1] == s@[j as int - 1]);
        }
        j -= 1;
    }
    proof {
        assert(trim_end_idx(t, 0) == 0);
        assert(s@.subrange(lo as int, lo as int) =~= t.take(0));
    }
    j
}

/// `str::trim` of `s[lo..hi]`, as the pair of absolute bounds of the kept run.
pub fn trim_sub(s: &Vec<char>, lo: usize, hi: usize) -> (r: (usize, usize))
    requires
        lo <= hi <= s@.len(),
    ensures
        lo <= r.0 <= r.1 <= hi,
        s@.subrange(r.0 as int, r.1 as int) == trim_spec(s@.subrange(lo as int, hi as int)),
{
    let ghost t0 = s@.subrange(lo as int, hi as int);
    let e = trim_end_sub(s, lo, hi);
    let ghost t = trim_end_spec(t0);
    let mut j: usize = lo;
    while j < e
        invariant
            lo <= j <= e <= hi <= s@.len(),
            t == s@.subrange(lo as int, e as int),
            t == trim_end_spec(s@.subrange(lo as int, hi as int)),
            trim_start_idx(t, 0) == trim_start_idx(t, (j - lo) as int),
        decreases e - j,
    {
        if !white(s[j]) {
            proof {
                assert(t[j - lo] == s@[j as int]);
                assert(trim_start_idx(t, (j - lo) as int) == (j - lo) as int);
                assert(s@.subrange(j as int, e as int) =~= t.skip((j - lo) as int));
            }
            return (j, e);
        }
        proof {
            assert(t[j - lo] == s@[j as int]);
        }
        j += 1;
    }
    proof {
        assert(trim_start_idx(t, (e - lo) as int) == t.len());
        assert(s@.subrange(e as int, e as int) =~= t.skip(t.len() as int));
    }
    (e, e)
}

/// `str::trim` of a whole vector.
pub fn trim_vec(s: &Vec<char>) -> (r: Vec<char>)
    ensures
        r@ == trim_spec(s@),
{
    let (a, b) = trim_sub(s, 0, s.len());
    proof {
        assert(s@.subrange(0, s@.len() as int) =~= s@);
    }
    sub_vec(s, a, b)
}

// ---------------------------------------------------------------------------
// Conversions between text representations
// ---------------------------------------------------------------------------

/// Relies on `str::chars`: iterating a string slice yields exactly its
/// sequence of characters, in order.
#[verifier::external_body]
pub fn chars_vec(s: &str) -> (r: Vec<char>)
    ensures
        r@ == s@,
{
    s.chars().collect()
}

/// Relies on `String`'s `FromIterator<char>` implementation: collecting
/// characters builds the string made of exactly those characters, in order.
#[verifier::external_body]
pub fn string_from_chars(v: &[char]) -> (r: String)
    ensures
        r@ == v@,
{
    v.iter().collect()
}

/// The characters `s[a..b]` as a `String`.
pub fn sub_string(s: &Vec<char>, a: usize, b: usize) -> (r: String)
    requires
        a <= b <= s@.len(),
    ensures
        r@ == s@.subrange(a as int, b as int),
{
    string_from_chars(slice_subrange(s.as_slice(), a, b))
}

/// The characters `s[a..b]` as a fresh vector.
pub fn sub_vec(s: &Vec<char>, a: usize, b: usize) -> (r: Vec<char>)
    requires
        a <= b <= s@.len(),
    ensures
        r@ == s@.subrange(a as int, b as int),
{
    slice_to_vec(slice_subrange(s.as_slice(), a, b))
}

/// Append the characters `s[a..b]` to `out`.
pub fn push_sub(out: &mut Vec<char>, s: &Vec<char>, a: usize, b: usize)
    requires
        a <= b <= s@.len(),
    ensures
        final(out)@ == old(out)@ + s@.subrange(a as int, b as int),
{
    out.extend_from_slice(slice_subrange(s.as_slice(), a, b));
}

/// Append every character of `s` to `out`.
pub fn push_all(out: &mut Vec<char>, s: &Vec<char>)
    ensures
        final(out)@ == old(out)@ + s@,
{
    proof {
        assert(s@.subrange(0, s@.len() as int) =~= s@);
    }
    out.extend_from_slice(slice_subrange(s.as_slice(), 0, s.len()));
}

} // verus!
