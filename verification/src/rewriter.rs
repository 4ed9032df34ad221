//! The markdown rewriter: byte-for-byte text surgery on the rendered
//! markdown. Three independent passes in fixed order — comment stripping,
//! link/image rewriting, table-to-list conversion — each a no-op when not
//! configured. Tables are located with a conformant markdown parser used
//! strictly as a span locator; everything else is scanned by hand. The
//! passes are not code-span aware: link-like text inside backtick spans is
//! rewritten too, a deliberate approximation kept for output stability.
use crate::config::{Config, TableFormat};
use crate::util::{
    ascii_letter, chars_vec, find_char, find_char_exec, find_sub, find_sub_exec, is_ascii_letter,
    lemma_find_char_bounds, lemma_find_sub_bounds, lemma_rfind_char_bounds, match_at, push_all,
    push_sub, rfind_char, rfind_char_exec, starts_with_at, string_from_chars, sub_string, sub_vec,
    trim_spec, trim_sub,
};
use pulldown_cmark::{Event, Options as MdOptions, Parser as MdParser, Tag, TagEnd};
use vstd::prelude::*;
use vstd::slice::slice_index_get;

verus! {

broadcast use vstd::std_specs::vec::group_vec_axioms, vstd::seq::group_seq_axioms;

// ---------------------------------------------------------------------------
// Comment stripping
// ---------------------------------------------------------------------------

pub open spec fn open_comment() -> Seq<char> {
    seq!['<', '!', '-', '-']
}

pub open spec fn close_comment() -> Seq<char> {
    seq!['-', '-', '>']
}

/// The text from `i` on with every `<!-- ... -->` span removed; a newline
/// right after a removed comment goes too, and an unterminated comment
/// removes everything to the end.
pub open spec fn shc_from(s: Seq<char>, i: int) -> Seq<char>
    decreases s.len() - i,
    via shc_from_dec
{
    if i < 0 || i > s.len() {
        Seq::empty()
    } else {
        match find_sub(s, i, open_comment()) {
            None => s.subrange(i, s.len() as int),
            Some(st) => match find_sub(s, st, close_comment()) {
                Some(e) => {
                    let after = e + 3;
                    let after2 = if after < s.len() && s[after] == '\n' {
                        after + 1
                    } else {
                        after
                    };
                    s.subrange(i, st) + shc_from(s, after2)
                },
                None => s.subrange(i, st),
            },
        }
    }
}

#[via_fn]
proof fn shc_from_dec(s: Seq<char>, i: int) {
    if 0 <= i && i <= s.len() {
        lemma_find_sub_bounds(s, i, open_comment());
        match find_sub(s, i, open_comment()) {
            Some(st) => {
                lemma_find_sub_bounds(s, st, close_comment());
            },
            None => (),
        }
    }
}

/// The comment pass: a no-op unless configured.
pub open spec fn spec_strip_html_comments(s: Seq<char>, cfg: &Config) -> Seq<char> {
    if cfg.markdown.strip_html_comments {
        shc_from(s, 0)
    } else {
        s
    }
}

// ---------------------------------------------------------------------------
// Link and image scanning
// ---------------------------------------------------------------------------

/// The matching `]` for the `[` at `start`, bracket depth tracked and
/// backslash escapes stepped over.
pub open spec fn fmb_scan(s: Seq<char>, j: int, depth: int) -> Option<int>
    decreases s.len() - j,
{
    if j < 0 || j >= s.len() {
        None
    } else if s[j] == '\\' {
        if j + 2 <= s.len() {
            fmb_scan(s, j + 2, depth)
        } else {
            None
        }
    } else if s[j] == '[' {
        fmb_scan(s, j + 1, depth + 1)
    } else if s[j] == ']' {
        if depth == 1 {
            Some(j)
        } else {
            fmb_scan(s, j + 1, depth - 1)
        }
    } else {
        fmb_scan(s, j + 1, depth)
    }
}

pub open spec fn find_matching_bracket_spec(s: Seq<char>, start: int) -> Option<int> {
    if 0 <= start < s.len() && s[start] == '[' {
        fmb_scan(s, start, 0)
    } else {
        None
    }
}

pub proof fn lemma_fmb_scan_bounds(s: Seq<char>, j: int, depth: int)
    ensures
        fmb_scan(s, j, depth) matches Some(p) ==> j <= p < s.len(),
    decreases s.len() - j,
{
    if 0 <= j && j < s.len() {
        if s[j] == '\\' {
            if j + 2 <= s.len() {
                lemma_fmb_scan_bounds(s, j + 2, depth);
            }
        } else {
            lemma_fmb_scan_bounds(s, j + 1, depth + 1);
            lemma_fmb_scan_bounds(s, j + 1, depth - 1);
            lemma_fmb_scan_bounds(s, j + 1, depth);
        }
    }
}

/// The matching `)` for the `(` at `start`, aware of nested parens,
/// angle-bracket runs and double-quoted runs.
pub open spec fn fcp_scan(s: Seq<char>, j: int, depth: int, in_angle: bool, in_quotes: bool) -> Option<int>
    decreases s.len() - j,
{
    if j < 0 || j >= s.len() {
        None
    } else {
        let c = s[j];
        if c == '\\' {
            if j + 2 <= s.len() {
                fcp_scan(s, j + 2, depth, in_angle, in_quotes)
            } else {
                None
            }
        } else if c == '<' && !in_quotes {
            fcp_scan(s, j + 1, depth, true, in_quotes)
        } else if c == '>' && in_angle {
            fcp_scan(s, j + 1, depth, false, in_quotes)
        } else if c == '"' && !in_angle {
            fcp_scan(s, j + 1, depth, in_angle, !in_quotes)
        } else if c == '(' && !in_quotes && !in_angle {
            fcp_scan(s, j + 1, depth + 1, in_angle, in_quotes)
        } else if c == ')' && !in_quotes && !in_angle {
            if depth == 1 {
                Some(j)
            } else {
                fcp_scan(s, j + 1, depth - 1, in_angle, in_quotes)
            }
        } else {
            fcp_scan(s, j + 1, depth, in_angle, in_quotes)
        }
    }
}

pub open spec fn find_closing_paren_spec(s: Seq<char>, start: int) -> Option<int> {
    if 0 <= start < s.len() && s[start] == '(' {
        fcp_scan(s, start, 0, false, false)
    } else {
        None
    }
}

pub proof fn lemma_fcp_scan_bounds(s: Seq<char>, j: int, depth: int, in_angle: bool, in_quotes: bool)
    ensures
        fcp_scan(s, j, depth, in_angle, in_quotes) matches Some(p) ==> j <= p < s.len(),
    decreases s.len() - j,
{
    if 0 <= j && j < s.len() {
        if s[j] == '\\' {
            if j + 2 <= s.len() {
                lemma_fcp_scan_bounds(s, j + 2, depth, in_angle, in_quotes);
            }
        } else {
            lemma_fcp_scan_bounds(s, j + 1, depth, true, in_quotes);
            lemma_fcp_scan_bounds(s, j + 1, depth, false, in_quotes);
            lemma_fcp_scan_bounds(s, j + 1, depth, in_angle, !in_quotes);
            lemma_fcp_scan_bounds(s, j + 1, depth + 1, in_angle, in_quotes);
            lemma_fcp_scan_bounds(s, j + 1, depth - 1, in_angle, in_quotes);
            lemma_fcp_scan_bounds(s, j + 1, depth, in_angle, in_quotes);
        }
    }
}

/// Split a link destination into the URL and an optional quoted title: the
/// title sits between the last two double quotes.
pub open spec fn pld_spec(inner: Seq<char>) -> (Seq<char>, Option<Seq<char>>) {
    let t = trim_spec(inner);
    match rfind_char(t, t.len() as int, '"') {
        Some(lq) => if lq > 0 {
            match rfind_char(t, lq, '"') {
                Some(oq) => (trim_spec(t.take(oq)), Some(t.subrange(oq + 1, lq))),
                None => (t, None),
            }
        } else {
            (t, None)
        },
        None => (t, None),
    }
}

/// A URL that absolutizing applies to: relative, with no scheme, protocol
/// prefix or fragment start.
pub open spec fn needs_abs(url: Seq<char>) -> bool {
    !starts_with_at(url, 0, seq!['h', 't', 't', 'p', ':', '/', '/']) && !starts_with_at(
        url,
        0,
        seq!['h', 't', 't', 'p', 's', ':', '/', '/'],
    ) && !starts_with_at(url, 0, seq!['/', '/']) && !(url.len() > 0 && url[0] == '#')
}

/// The base with every trailing slash removed.
pub open spec fn trim_end_slashes(b: Seq<char>) -> Seq<char>
    decreases b.len(),
{
    if b.len() > 0 && b.last() == '/' {
        trim_end_slashes(b.drop_last())
    } else {
        b
    }
}

/// A relative URL joined onto the base.
pub open spec fn make_absolute_spec(base: Seq<char>, url: Seq<char>) -> Seq<char> {
    let b = trim_end_slashes(base);
    if url.len() > 0 && url[0] == '/' {
        b + url
    } else {
        b + seq!['/'] + url
    }
}

/// What `str::to_lowercase` returns: a function of the characters alone.
pub uninterp spec fn lower_of(s: Seq<char>) -> Seq<char>;

/// Relies on `str::to_lowercase`: the Unicode lowercase mapping of the
/// text, depending on nothing but the characters; an empty text stays
/// empty.
#[verifier::external_body]
fn to_lowercase(s: &str) -> (r: String)
    ensures
        r@ == lower_of(s@),
        s@.len() == 0 ==> r@.len() == 0,
{
    s.to_lowercase()
}

/// The host portion of a URL, before lowercasing: scheme and userinfo
/// dropped, then cut at the first `/` and at the first `:` before it.
pub open spec fn host_raw(url: Seq<char>) -> Seq<char> {
    let ws = match find_sub(url, 0, seq![':', '/', '/']) {
        Some(p) => p + 3,
        None => if starts_with_at(url, 0, seq!['/', '/']) {
            2
        } else {
            0
        },
    };
    let wa = match find_char(url, ws, '@') {
        Some(p) => p + 1,
        None => ws,
    };
    let slash = match find_char(url, wa, '/') {
        Some(p) => p,
        None => url.len() as int,
    };
    let cut = match find_char(url, wa, ':') {
        Some(p) => if p < slash {
            p
        } else {
            slash
        },
        None => slash,
    };
    url.subrange(wa, cut)
}

/// The lowercased host of a URL.
pub open spec fn host_of(url: Seq<char>) -> Seq<char> {
    lower_of(host_raw(url))
}

/// `s` ends with `suffix`.
pub open spec fn ends_with(s: Seq<char>, suffix: Seq<char>) -> bool {
    s.len() >= suffix.len() && s.subrange(s.len() - suffix.len(), s.len() as int) == suffix
}

/// Whether the allowlist admits a URL: relative URLs always pass, URLs with
/// a host pass when the host is a listed domain or a subdomain of one, and
/// alphabetic non-http schemes never pass.
pub open spec fn domain_allowed_spec(url: Seq<char>, allowed: Seq<Seq<char>>) -> bool {
    if starts_with_at(url, 0, seq!['/', '/']) || find_sub(url, 0, seq![':', '/', '/']) is Some {
        exists|k: int|
            0 <= k < allowed.len() && (host_of(url) == allowed[k] || ends_with(
                host_of(url),
                seq!['.'] + allowed[k],
            ))
    } else {
        match find_char(url, 0, ':') {
            Some(cp) => !(forall|k: int|
                0 <= k < cp ==> crate::util::is_ascii_letter(#[trigger] url[k])),
            None => true,
        }
    }
}

/// `str::replacen(pat, to, 1)`: the first occurrence replaced.
pub open spec fn replace_first(s: Seq<char>, pat: Seq<char>, to: Seq<char>) -> Seq<char> {
    match find_sub(s, 0, pat) {
        Some(p) => s.take(p) + to + s.skip(p + pat.len()),
        None => s,
    }
}

/// What the whole span `[i, pe+1)` of a matched link or image becomes.
pub open spec fn rl_piece(s: Seq<char>, i: int, is_image: bool, bs: int, cb: int, ps: int, pe: int, cfg: &Config) -> Seq<char> {
    let link_text = s.subrange(bs + 1, cb);
    let inner = s.subrange(ps + 1, pe);
    let url = pld_spec(inner).0;
    let whole = s.subrange(i, pe + 1);
    if is_image {
        match cfg.markdown.images {
            Some(icfg) => if icfg.strip {
                Seq::empty()
            } else if icfg.make_absolute && needs_abs(url) {
                s.subrange(i, ps + 1) + replace_first(
                    inner,
                    url,
                    make_absolute_spec(icfg.base_url@, url),
                ) + seq![')']
            } else {
                whole
            },
            None => whole,
        }
    } else {
        match cfg.markdown.links {
            Some(lcfg) => if lcfg.strip {
                link_text
            } else if lcfg.allowed_domains@.len() > 0 && !domain_allowed_spec(
                url,
                lcfg.allowed_domains@.map_values(|d: String| d@),
            ) {
                link_text
            } else if lcfg.make_absolute && needs_abs(url) {
                s.subrange(i, ps + 1) + replace_first(
                    inner,
                    url,
                    make_absolute_spec(lcfg.base_url@, url),
                ) + seq![')']
            } else {
                whole
            },
            None => whole,
        }
    }
}

/// One scan over the text rewriting every `[text](dest)` / `![alt](dest)`
/// span according to the link and image settings.
pub open spec fn rl_from(s: Seq<char>, i: int, cfg: &Config) -> Seq<char>
    decreases s.len() - i,
    via rl_from_dec
{
    if i < 0 || i >= s.len() {
        Seq::empty()
    } else {
        let is_image = s[i] == '!';
        let bs = if is_image {
            i + 1
        } else {
            i
        };
        if bs < s.len() && s[bs] == '[' {
            match find_matching_bracket_spec(s, bs) {
                Some(cb) => {
                    let ps = cb + 1;
                    if ps < s.len() && s[ps] == '(' {
                        match find_closing_paren_spec(s, ps) {
                            Some(pe) => rl_piece(s, i, is_image, bs, cb, ps, pe, cfg) + rl_from(
                                s,
                                pe + 1,
                                cfg,
                            ),
                            None => seq![s[i]] + rl_from(s, i + 1, cfg),
                        }
                    } else {
                        seq![s[i]] + rl_from(s, i + 1, cfg)
                    }
                },
                None => seq![s[i]] + rl_from(s, i + 1, cfg),
            }
        } else {
            seq![s[i]] + rl_from(s, i + 1, cfg)
        }
    }
}

#[via_fn]
proof fn rl_from_dec(s: Seq<char>, i: int, cfg: &Config) {
    if 0 <= i && i < s.len() {
        let is_image = s[i] == '!';
        let bs = if is_image {
            i + 1
        } else {
            i
        };
        if bs < s.len() && s[bs] == '[' {
            lemma_fmb_scan_bounds(s, bs, 0);
            match find_matching_bracket_spec(s, bs) {
                Some(cb) => {
                    lemma_fcp_scan_bounds(s, cb + 1, 0, false, false);
                },
                None => (),
            }
        }
    }
}

/// The link/image pass: a no-op unless links or images are configured.
pub open spec fn spec_rewrite_links_and_images(s: Seq<char>, cfg: &Config) -> Seq<char> {
    if cfg.markdown.links is None && cfg.markdown.images is None {
        s
    } else {
        rl_from(s, 0, cfg)
    }
}

// ---------------------------------------------------------------------------
// Tables
// ---------------------------------------------------------------------------

/// The source spans of the top-level tables of a text, as the markdown
/// parser reports them: a fixed function of the text alone.
pub uninterp spec fn table_spans_of(s: Seq<char>) -> Seq<(int, int)>;

/// Spans that are in bounds, ordered and disjoint.
pub open spec fn spans_wf(spans: Seq<(int, int)>, n: int) -> bool {
    (forall|k: int| 0 <= k < spans.len() ==> 0 <= (#[trigger] spans[k]).0 <= spans[k].1 <= n)
        && (forall|k: int|
        0 <= k < spans.len() - 1 ==> (#[trigger] spans[k]).1 <= spans[k + 1].0)
}

/// Relies on pulldown_cmark: `Parser::new_ext` with `ENABLE_TABLES` and
/// `into_offset_iter` report the source range of every event, so pairing
/// each table-start with its table-end yields the source spans of the
/// top-level tables — block-level elements, hence ordered and disjoint and
/// within the text. The byte offsets are converted to character positions;
/// what they are on a given text is named `table_spans_of`.
#[verifier::external_body]
fn find_table_spans(text: &str) -> (r: Vec<(usize, usize)>)
    ensures
        r@.map_values(|p: (usize, usize)| (p.0 as int, p.1 as int)) == table_spans_of(text@),
        spans_wf(
            r@.map_values(|p: (usize, usize)| (p.0 as int, p.1 as int)),
            text@.len() as int,
        ),
{
    let mut spans: Vec<(usize, usize)> = Vec::new();
    let mut open = None;
    for (ev, r) in MdParser::new_ext(text, MdOptions::ENABLE_TABLES).into_offset_iter() {
        match ev {
            Event::Start(Tag::Table(_)) => open = Some(r.start),
            Event::End(TagEnd::Table) => spans.extend(open.take().map(|a| (a, r.end))),
            _ => {},
        }
    }
    let ix: Vec<usize> = text.char_indices().map(|(b, _)| b).collect();
    spans.iter().map(
        |&(a, b)| (ix.partition_point(|&x| x < a), ix.partition_point(|&x| x < b)),
    ).collect()
}

/// The index of the `\n` ending the line that starts at `lo` (or the end).
pub open spec fn line_end_at(s: Seq<char>, lo: int) -> int {
    match find_char(s, lo, '\n') {
        Some(p) => p,
        None => s.len() as int,
    }
}

/// A line without its trailing carriage return.
pub open spec fn strip_cr_end(s: Seq<char>, lo: int, e: int) -> int {
    if lo < e <= s.len() && s[e - 1] == '\r' {
        e - 1
    } else {
        e
    }
}

/// How many lines start at or after `lo`.
pub open spec fn line_cnt(s: Seq<char>, lo: int) -> int
    decreases s.len() - lo,
    via line_cnt_dec
{
    if lo < 0 || lo >= s.len() {
        0
    } else {
        let e = line_end_at(s, lo);
        1 + if e + 1 < s.len() {
            line_cnt(s, e + 1)
        } else {
            0
        }
    }
}

#[via_fn]
proof fn line_cnt_dec(s: Seq<char>, lo: int) {
    if 0 <= lo && lo < s.len() {
        lemma_find_char_bounds(s, lo, '\n');
    }
}

/// The cells from position `p` of a row's interior: split on `|`, each cell
/// trimmed.
pub open spec fn cells_from(t: Seq<char>, p: int) -> Seq<Seq<char>>
    decreases t.len() - p + 1,
    via cells_from_dec
{
    if p < 0 || p > t.len() {
        Seq::empty()
    } else {
        match find_char(t, p, '|') {
            Some(q) => seq![trim_spec(t.subrange(p, q))] + cells_from(t, q + 1),
            None => seq![trim_spec(t.subrange(p, t.len() as int))],
        }
    }
}

#[via_fn]
proof fn cells_from_dec(t: Seq<char>, p: int) {
    if 0 <= p && p <= t.len() {
        lemma_find_char_bounds(t, p, '|');
    }
}

/// One table row: outer pipes stripped, split on `|`, cells trimmed.
pub open spec fn parse_table_row_spec(line: Seq<char>) -> Seq<Seq<char>> {
    let t = trim_spec(line);
    let t1 = if t.len() > 0 && t[0] == '|' {
        t.drop_first()
    } else {
        t
    };
    let t2 = if t1.len() > 0 && t1.last() == '|' {
        t1.drop_last()
    } else {
        t1
    };
    cells_from(t2, 0)
}

/// The `**header**: cell` parts of one bullet, from cell `j` on, joined
/// with `, `; a missing header becomes `?`.
pub open spec fn row_parts(headers: Seq<Seq<char>>, cells: Seq<Seq<char>>, j: int) -> Seq<char>
    decreases cells.len() - j,
{
    if j < 0 || j >= cells.len() {
        Seq::empty()
    } else {
        let h = if j < headers.len() {
            headers[j]
        } else {
            "?"@
        };
        let part = "**"@ + h + "**: "@ + cells[j];
        if j + 1 < cells.len() {
            part + ", "@ + row_parts(headers, cells, j + 1)
        } else {
            part
        }
    }
}

/// The bullet lines for the data rows from `lo` on, joined with newlines.
pub open spec fn rows_from(s: Seq<char>, lo: int, headers: Seq<Seq<char>>) -> Seq<char>
    decreases s.len() - lo,
    via rows_from_dec
{
    if lo < 0 || lo >= s.len() {
        Seq::empty()
    } else {
        let e = line_end_at(s, lo);
        let es = strip_cr_end(s, lo, e);
        let row = "- "@ + row_parts(headers, parse_table_row_spec(s.subrange(lo, es)), 0);
        if e + 1 < s.len() {
            row + seq!['\n'] + rows_from(s, e + 1, headers)
        } else {
            row
        }
    }
}

#[via_fn]
proof fn rows_from_dec(s: Seq<char>, lo: int, headers: Seq<Seq<char>>) {
    if 0 <= lo && lo < s.len() {
        lemma_find_char_bounds(s, lo, '\n');
    }
}

/// One raw table turned into a bullet list: row one gives the headers, row
/// two (the alignment separator) is dropped, each later row becomes one
/// bullet.
pub open spec fn cttl_spec(table: Seq<char>) -> Seq<char> {
    if line_cnt(table, 0) < 2 {
        table
    } else {
        let e0 = line_end_at(table, 0);
        let headers = parse_table_row_spec(table.subrange(0, strip_cr_end(table, 0, e0)));
        let e1 = line_end_at(table, e0 + 1);
        let ds = if e1 + 1 < table.len() {
            e1 + 1
        } else {
            table.len() as int
        };
        rows_from(table, ds, headers) + seq!['\n']
    }
}

/// The table spans replaced back to front, gaps copied untouched: the text
/// from `i` on, with the spans from number `k` on converted.
pub open spec fn tables_out(s: Seq<char>, spans: Seq<(int, int)>, k: int, i: int) -> Seq<char>
    decreases spans.len() - k,
{
    if k < 0 || k >= spans.len() {
        s.subrange(i, s.len() as int)
    } else {
        s.subrange(i, spans[k].0) + cttl_spec(s.subrange(spans[k].0, spans[k].1)) + tables_out(
            s,
            spans,
            k + 1,
            spans[k].1,
        )
    }
}

/// The table pass: a no-op unless list format is configured.
pub open spec fn spec_rewrite_tables(s: Seq<char>, cfg: &Config) -> Seq<char> {
    if cfg.markdown.tables matches Some(tc) && tc.format == TableFormat::List {
        tables_out(s, table_spans_of(s), 0, 0)
    } else {
        s
    }
}

// ---------------------------------------------------------------------------
// The whole rewrite
// ---------------------------------------------------------------------------

/// The three passes in order: comments, links and images, tables.
pub open spec fn spec_rewrite_markdown(s: Seq<char>, cfg: &Config) -> Seq<char> {
    spec_rewrite_tables(
        spec_rewrite_links_and_images(spec_strip_html_comments(s, cfg), cfg),
        cfg,
    )
}

// ---------------------------------------------------------------------------
// Executable passes
// ---------------------------------------------------------------------------

/// A plain copy of the characters.
fn copy_chars(s: &Vec<char>) -> (r: Vec<char>)
    ensures
        r@ == s@,
{
    proof {
        assert(s@.subrange(0, s@.len() as int) =~= s@);
    }
    sub_vec(s, 0, s.len())
}

/// The comment pass.
fn strip_html_comments(input: &Vec<char>, config: &Config) -> (r: Vec<char>)
    ensures
        r@ == spec_strip_html_comments(input@, config),
{
    if !config.markdown.strip_html_comments {
        return copy_chars(input);
    }
    let oc: Vec<char> = vec!['<', '!', '-', '-'];
    let cc: Vec<char> = vec!['-', '-', '>'];
    proof {
        assert(oc@ =~= open_comment());
        assert(cc@ =~= close_comment());
    }
    let n = input.len();
    let mut out: Vec<char> = Vec::new();
    let mut i: usize = 0;
    loop
        invariant
            i <= n == input@.len(),
            oc@ == open_comment(),
            cc@ == close_comment(),
            config.markdown.strip_html_comments,
            shc_from(input@, 0) == out@ + shc_from(input@, i as int),
        decreases n - i,
    {
        proof {
            lemma_find_sub_bounds(input@, i as int, open_comment());
        }
        match find_sub_exec(input, i, &oc) {
            None => {
                push_sub(&mut out, input, i, n);
                return out;
            },
            Some(st) => {
                proof {
                    lemma_find_sub_bounds(input@, st as int, close_comment());
                }
                match find_sub_exec(input, st, &cc) {
                    Some(e) => {
                        let after = e + 3;
                        let after2 = if after < n && input[after] == '\n' {
                            after + 1
                        } else {
                            after
                        };
                        push_sub(&mut out, input, i, st);
                        i = after2;
                    },
                    None => {
                        push_sub(&mut out, input, i, st);
                        return out;
                    },
                }
            },
        }
    }
}

/// Executable `find_matching_bracket_spec`.
fn find_matching_bracket(s: &Vec<char>, start: usize) -> (r: Option<usize>)
    requires
        start < s@.len(),
    ensures
        match r {
            Some(p) => find_matching_bracket_spec(s@, start as int) == Some(p as int) && start < p
                < s@.len(),
            None => find_matching_bracket_spec(s@, start as int) is None,
        },
{
    if s[start] != '[' {
        return None;
    }
    proof {
        assert(fmb_scan(s@, start as int, 0) == fmb_scan(s@, start as int + 1, 1));
        lemma_fmb_scan_bounds(s@, start as int + 1, 1);
    }
    let n = s.len();
    let mut j: usize = start;
    let mut depth: i128 = 0;
    loop
        invariant
            start <= j <= n == s@.len(),
            s@[start as int] == '[',
            -(j as int) <= depth as int <= j as int,
            fmb_scan(s@, start as int, 0) == fmb_scan(s@, j as int, depth as int),
            fmb_scan(s@, start as int, 0) matches Some(p) ==> start < p < s@.len(),
        decreases n - j,
    {
        if j >= n {
            return None;
        }
        let c = s[j];
        if c == '\\' {
            if n - j >= 2 {
                j += 2;
            } else {
                return None;
            }
        } else if c == '[' {
            depth = depth + 1;
            j += 1;
        } else if c == ']' {
            if depth == 1 {
                return Some(j);
            }
            depth = depth - 1;
            j += 1;
        } else {
            j += 1;
        }
    }
}

/// Executable `find_closing_paren_spec`.
fn find_closing_paren(s: &Vec<char>, start: usize) -> (r: Option<usize>)
    requires
        start < s@.len(),
    ensures
        match r {
            Some(p) => find_closing_paren_spec(s@, start as int) == Some(p as int) && start < p
                < s@.len(),
            None => find_closing_paren_spec(s@, start as int) is None,
        },
{
    if s[start] != '(' {
        return None;
    }
    proof {
        assert(fcp_scan(s@, start as int, 0, false, false) == fcp_scan(
            s@,
            start as int + 1,
            1,
            false,
            false,
        ));
        lemma_fcp_scan_bounds(s@, start as int + 1, 1, false, false);
    }
    let n = s.len();
    let mut j: usize = start;
    let mut depth: i128 = 0;
    let mut in_angle = false;
    let mut in_quotes = false;
    loop
        invariant
            start <= j <= n == s@.len(),
            s@[start as int] == '(',
            -(j as int) <= depth as int <= j as int,
            fcp_scan(s@, start as int, 0, false, false) == fcp_scan(
                s@,
                j as int,
                depth as int,
                in_angle,
                in_quotes,
            ),
            fcp_scan(s@, start as int, 0, false, false) matches Some(p) ==> start < p < s@.len(),
        decreases n - j,
    {
        if j >= n {
            return None;
        }
        let c = s[j];
        if c == '\\' {
            if n - j >= 2 {
                j += 2;
            } else {
                return None;
            }
        } else if c == '<' && !in_quotes {
            in_angle = true;
            j += 1;
        } else if c == '>' && in_angle {
            in_angle = false;
            j += 1;
        } else if c == '"' && !in_angle {
            in_quotes = !in_quotes;
            j += 1;
        } else if c == '(' && !in_quotes && !in_angle {
            depth = depth + 1;
            j += 1;
        } else if c == ')' && !in_quotes && !in_angle {
            if depth == 1 {
                return Some(j);
            }
            depth = depth - 1;
            j += 1;
        } else {
            j += 1;
        }
    }
}

/// Executable `pld_spec`.
fn parse_link_destination(inner: &Vec<char>) -> (r: (Vec<char>, Option<Vec<char>>))
    ensures
        r.0@ == pld_spec(inner@).0,
        (match r.1 {
            Some(t) => pld_spec(inner@).1 == Some(t@),
            None => pld_spec(inner@).1 is None,
        }),
{
    proof {
        assert(inner@.subrange(0, inner@.len() as int) =~= inner@);
    }
    let (a, b) = trim_sub(inner, 0, inner.len());
    let t = sub_vec(inner, a, b);
    let tl = t.len();
    proof {
        lemma_rfind_char_bounds(t@, tl as int, '"');
    }
    match rfind_char_exec(&t, tl, '"') {
        Some(lq) => {
            if lq > 0 {
                proof {
                    lemma_rfind_char_bounds(t@, lq as int, '"');
                }
                match rfind_char_exec(&t, lq, '"') {
                    Some(oq) => {
                        proof {
                            assert(t@.subrange(0, oq as int) =~= t@.take(oq as int));
                        }
                        let (ua, ub) = trim_sub(&t, 0, oq);
                        let url = sub_vec(&t, ua, ub);
                        let title = sub_vec(&t, oq + 1, lq);
                        (url, Some(title))
                    },
                    None => (t, None),
                }
            } else {
                (t, None)
            }
        },
        None => (t, None),
    }
}

/// Executable `needs_abs`.
fn needs_absolutize(url: &Vec<char>) -> (b: bool)
    ensures
        b == needs_abs(url@),
{
    let p1: Vec<char> = vec!['h', 't', 't', 'p', ':', '/', '/'];
    let p2: Vec<char> = vec!['h', 't', 't', 'p', 's', ':', '/', '/'];
    let p3: Vec<char> = vec!['/', '/'];
    proof {
        assert(p1@ =~= seq!['h', 't', 't', 'p', ':', '/', '/']);
        assert(p2@ =~= seq!['h', 't', 't', 'p', 's', ':', '/', '/']);
        assert(p3@ =~= seq!['/', '/']);
    }
    !(match_at(url, 0, &p1) || match_at(url, 0, &p2) || match_at(url, 0, &p3) || (url.len() > 0
        && url[0] == '#'))
}

/// Executable `make_absolute_spec`.
fn make_absolute(base_url: &String, url: &Vec<char>) -> (r: Vec<char>)
    ensures
        r@ == make_absolute_spec(base_url@, url@),
{
    let bv = chars_vec(base_url.as_str());
    proof {
        assert(bv@.take(bv@.len() as int) =~= bv@);
    }
    let mut e = bv.len();
    while e > 0 && bv[e - 1] == '/'
        invariant
            e <= bv@.len(),
            trim_end_slashes(bv@) == trim_end_slashes(bv@.take(e as int)),
        decreases e,
    {
        proof {
            assert(bv@.take(e as int).drop_last() =~= bv@.take(e as int - 1));
        }
        e -= 1;
    }
    proof {
        assert(trim_end_slashes(bv@.take(e as int)) == bv@.take(e as int));
        assert(bv@.subrange(0, e as int) =~= bv@.take(e as int));
    }
    let mut out = sub_vec(&bv, 0, e);
    if url.len() > 0 && url[0] == '/' {
        push_all(&mut out, url);
    } else {
        out.push('/');
        push_all(&mut out, url);
        proof {
            assert(out@ =~= trim_end_slashes(base_url@) + seq!['/'] + url@);
        }
    }
    out
}

/// The lowercased host portion of a URL (no scheme, userinfo, port or
/// path).
pub fn extract_host(url: &str) -> (r: String)
    ensures
        r@ == host_of(url@),
{
    let uv = chars_vec(url);
    let n = uv.len();
    let pat: Vec<char> = vec![':', '/', '/'];
    let p2: Vec<char> = vec!['/', '/'];
    proof {
        assert(pat@ =~= seq![':', '/', '/']);
        assert(p2@ =~= seq!['/', '/']);
        lemma_find_sub_bounds(uv@, 0, seq![':', '/', '/']);
    }
    let ws = match find_sub_exec(&uv, 0, &pat) {
        Some(p) => p + 3,
        None => if match_at(&uv, 0, &p2) {
            2
        } else {
            0
        },
    };
    proof {
        lemma_find_char_bounds(uv@, ws as int, '@');
    }
    let wa = match find_char_exec(&uv, ws, '@') {
        Some(p) => p + 1,
        None => ws,
    };
    proof {
        lemma_find_char_bounds(uv@, wa as int, '/');
        lemma_find_char_bounds(uv@, wa as int, ':');
    }
    let slash = match find_char_exec(&uv, wa, '/') {
        Some(p) => p,
        None => n,
    };
    let cut = match find_char_exec(&uv, wa, ':') {
        Some(p) => if p < slash {
            p
        } else {
            slash
        },
        None => slash,
    };
    let raw = sub_string(&uv, wa, cut);
    to_lowercase(raw.as_str())
}

/// Whether the allowlist admits a URL.
pub fn domain_allowed(url: &str, allowed: &[String]) -> (b: bool)
    ensures
        b == domain_allowed_spec(url@, allowed@.map_values(|d: String| d@)),
{
    let uv = chars_vec(url);
    let pat: Vec<char> = vec![':', '/', '/'];
    let p2: Vec<char> = vec!['/', '/'];
    proof {
        assert(pat@ =~= seq![':', '/', '/']);
        assert(p2@ =~= seq!['/', '/']);
    }
    let with_scheme = match_at(&uv, 0, &p2) || match find_sub_exec(&uv, 0, &pat) {
        Some(_) => true,
        None => false,
    };
    let ghost av = allowed@.map_values(|d: String| d@);
    if with_scheme {
        let host = extract_host(url);
        let hv = chars_vec(host.as_str());
        let hn = hv.len();
        let mut k: usize = 0;
        while k < allowed.len()
            invariant
                k <= allowed@.len(),
                av == allowed@.map_values(|d: String| d@),
                av.len() == allowed@.len(),
                hv@ == host_of(url@),
                hn == hv@.len(),
                host@ == host_of(url@),
                starts_with_at(url@, 0, seq!['/', '/']) || find_sub(
                    url@,
                    0,
                    seq![':', '/', '/'],
                ) is Some,
                forall|m: int|
                    0 <= m < k ==> !(host_of(url@) == #[trigger] av[m] || ends_with(
                        host_of(url@),
                        seq!['.'] + av[m],
                    )),
            decreases allowed@.len() - k,
        {
            let d = slice_index_get(allowed, k);
            if host.eq(d) {
                proof {
                    assert(host_of(url@) == av[k as int]);
                    assert(domain_allowed_spec(url@, av));
                }
                return true;
            }
            let mut suf: Vec<char> = Vec::new();
            suf.push('.');
            push_all(&mut suf, &chars_vec(d.as_str()));
            proof {
                assert(suf@ =~= seq!['.'] + av[k as int]);
            }
            if hv.len() >= suf.len() && match_at(&hv, hn - suf.len(), &suf) {
                proof {
                    assert(hv@.subrange(hn - suf@.len(), hn as int) == suf@);
                    assert(ends_with(host_of(url@), seq!['.'] + av[k as int]));
                    assert(domain_allowed_spec(url@, av));
                }
                return true;
            }
            proof {
                assert(!(host_of(url@) == av[k as int]));
                if ends_with(host_of(url@), seq!['.'] + av[k as int]) {
                    assert(hv@.len() >= suf@.len());
                    assert(hv@.subrange(hn - suf@.len(), hn as int) == suf@);
                    assert(starts_with_at(hv@, hn - suf@.len(), suf@));
                }
            }
            k += 1;
        }
        proof {
            assert(!domain_allowed_spec(url@, av)) by {
                if domain_allowed_spec(url@, av) {
                    let m = choose|m: int|
                        0 <= m < av.len() && (host_of(url@) == av[m] || ends_with(
                            host_of(url@),
                            seq!['.'] + av[m],
                        ));
                    assert(!(host_of(url@) == av[m] || ends_with(
                        host_of(url@),
                        seq!['.'] + av[m],
                    )));
                }
            }
        }
        return false;
    }
    proof {
        lemma_find_char_bounds(uv@, 0, ':');
    }
    match find_char_exec(&uv, 0, ':') {
        Some(cp) => {
            let mut j: usize = 0;
            while j < cp
                invariant
                    j <= cp < uv@.len(),
                    uv@ == url@,
                    !(starts_with_at(url@, 0, seq!['/', '/']) || find_sub(
                        url@,
                        0,
                        seq![':', '/', '/'],
                    ) is Some),
                    find_char(url@, 0, ':') == Some(cp as int),
                    forall|m: int| 0 <= m < j ==> is_ascii_letter(#[trigger] url@[m]),
                decreases cp - j,
            {
                if !ascii_letter(uv[j]) {
                    return true;
                }
                j += 1;
            }
            false
        },
        None => true,
    }
}

/// Executable `replace_first`.
fn replace_first_exec(s: &Vec<char>, pat: &Vec<char>, to: &Vec<char>) -> (r: Vec<char>)
    ensures
        r@ == replace_first(s@, pat@, to@),
{
    proof {
        lemma_find_sub_bounds(s@, 0, pat@);
    }
    let n = s.len();
    match find_sub_exec(s, 0, pat) {
        Some(p) => {
            let mut out = sub_vec(s, 0, p);
            proof {
                assert(s@.subrange(0, p as int) =~= s@.take(p as int));
            }
            push_all(&mut out, to);
            push_sub(&mut out, s, p + pat.len(), n);
            proof {
                assert(s@.subrange(p + pat@.len(), s@.len() as int) =~= s@.skip(p + pat@.len()));
            }
            out
        },
        None => copy_chars(s),
    }
}

/// Emit the rewritten form of the matched span `s[i..pe+1]`.
fn emit_piece(
    out: &mut Vec<char>,
    s: &Vec<char>,
    i: usize,
    is_image: bool,
    bs: usize,
    cb: usize,
    ps: usize,
    pe: usize,
    config: &Config,
)
    requires
        i <= bs < cb,
        cb + 1 == ps,
        ps < pe < s@.len(),
    ensures
        final(out)@ == old(out)@ + rl_piece(
            s@,
            i as int,
            is_image,
            bs as int,
            cb as int,
            ps as int,
            pe as int,
            config,
        ),
{
    let _n = s.len();
    let ghost piece = rl_piece(s@, i as int, is_image, bs as int, cb as int, ps as int, pe as int, config);
    let inner = sub_vec(s, ps + 1, pe);
    let (url, _title) = parse_link_destination(&inner);
    if is_image {
        match &config.markdown.images {
            Some(icfg) => {
                if icfg.strip {
                    proof {
                        assert(out@ =~= old(out)@ + piece);
                    }
                } else if icfg.make_absolute && needs_absolutize(&url) {
                    let nu = make_absolute(&icfg.base_url, &url);
                    let ni = replace_first_exec(&inner, &url, &nu);
                    push_sub(out, s, i, ps + 1);
                    push_all(out, &ni);
                    out.push(')');
                    proof {
                        assert(out@ =~= old(out)@ + piece);
                    }
                } else {
                    push_sub(out, s, i, pe + 1);
                }
            },
            None => {
                push_sub(out, s, i, pe + 1);
            },
        }
    } else {
        match &config.markdown.links {
            Some(lcfg) => {
                if lcfg.strip {
                    push_sub(out, s, bs + 1, cb);
                } else {
                    let url_s = string_from_chars(url.as_slice());
                    let blocked = lcfg.allowed_domains.len() > 0 && !domain_allowed(
                        url_s.as_str(),
                        lcfg.allowed_domains.as_slice(),
                    );
                    if blocked {
                        push_sub(out, s, bs + 1, cb);
                    } else if lcfg.make_absolute && needs_absolutize(&url) {
                        let nu = make_absolute(&lcfg.base_url, &url);
                        let ni = replace_first_exec(&inner, &url, &nu);
                        push_sub(out, s, i, ps + 1);
                        push_all(out, &ni);
                        out.push(')');
                        proof {
                            assert(out@ =~= old(out)@ + piece);
                        }
                    } else {
                        push_sub(out, s, i, pe + 1);
                    }
                }
            },
            None => {
                push_sub(out, s, i, pe + 1);
            },
        }
    }
}

/// The link/image pass.
fn rewrite_links_and_images(input: &Vec<char>, config: &Config) -> (r: Vec<char>)
    ensures
        r@ == spec_rewrite_links_and_images(input@, config),
{
    let links_none = config.markdown.links.is_none();
    let images_none = config.markdown.images.is_none();
    if links_none && images_none {
        return copy_chars(input);
    }
    let n = input.len();
    let mut out: Vec<char> = Vec::new();
    let mut i: usize = 0;
    loop
        invariant
            i <= n == input@.len(),
            !(config.markdown.links is None && config.markdown.images is None),
            rl_from(input@, 0, config) == out@ + rl_from(input@, i as int, config),
        decreases n - i,
    {
        if i >= n {
            return out;
        }
        let is_image = input[i] == '!';
        let bs = if is_image {
            i + 1
        } else {
            i
        };
        if bs < n && input[bs] == '[' {
            match find_matching_bracket(input, bs) {
                Some(cb) => {
                    let ps = cb + 1;
                    if ps < n && input[ps] == '(' {
                        match find_closing_paren(input, ps) {
                            Some(pe) => {
                                emit_piece(&mut out, input, i, is_image, bs, cb, ps, pe, config);
                                i = pe + 1;
                            },
                            None => {
                                out.push(input[i]);
                                i += 1;
                            },
                        }
                    } else {
                        out.push(input[i]);
                        i += 1;
                    }
                },
                None => {
                    out.push(input[i]);
                    i += 1;
                },
            }
        } else {
            out.push(input[i]);
            i += 1;
        }
    }
}

/// Executable `line_end_at`.
fn line_end_exec(s: &Vec<char>, lo: usize) -> (r: usize)
    requires
        lo <= s@.len(),
    ensures
        r as int == line_end_at(s@, lo as int),
        lo <= r <= s@.len(),
{
    proof {
        lemma_find_char_bounds(s@, lo as int, '\n');
    }
    let n = s.len();
    match find_char_exec(s, lo, '\n') {
        Some(p) => p,
        None => n,
    }
}

/// A line count never goes negative.
proof fn lemma_line_cnt_nonneg(s: Seq<char>, lo: int)
    ensures
        line_cnt(s, lo) >= 0,
        0 <= lo < s.len() ==> line_cnt(s, lo) >= 1,
    decreases s.len() - lo,
{
    if 0 <= lo && lo < s.len() {
        lemma_find_char_bounds(s, lo, '\n');
        let e = line_end_at(s, lo);
        if e + 1 < s.len() {
            lemma_line_cnt_nonneg(s, e + 1);
        }
    }
}

/// Executable `parse_table_row_spec` over `s[lo..hi]`.
fn parse_table_row(s: &Vec<char>, lo: usize, hi: usize) -> (r: Vec<Vec<char>>)
    requires
        lo <= hi <= s@.len(),
    ensures
        r@.map_values(|c: Vec<char>| c@) == parse_table_row_spec(
            s@.subrange(lo as int, hi as int),
        ),
{
    let (a, b) = trim_sub(s, lo, hi);
    let mut a2 = a;
    let mut b2 = b;
    if a2 < b2 && s[a2] == '|' {
        a2 += 1;
    }
    if a2 < b2 && s[b2 - 1] == '|' {
        b2 -= 1;
    }
    let t2 = sub_vec(s, a2, b2);
    proof {
        let line = s@.subrange(lo as int, hi as int);
        let t = trim_spec(line);
        assert(t == s@.subrange(a as int, b as int));
        if t.len() > 0 && t[0] == '|' {
            assert(t.drop_first() =~= s@.subrange(a as int + 1, b as int));
        }
        let t1 = if t.len() > 0 && t[0] == '|' {
            t.drop_first()
        } else {
            t
        };
        assert(t1 == s@.subrange(a2 as int, b as int));
        if t1.len() > 0 && t1.last() == '|' {
            assert(t1.drop_last() =~= s@.subrange(a2 as int, b as int - 1));
        }
        assert(t2@ == (if t1.len() > 0 && t1.last() == '|' {
            t1.drop_last()
        } else {
            t1
        }));
        assert(cells_from(t2@, 0) == parse_table_row_spec(line));
    }
    let m = t2.len();
    let mut cells: Vec<Vec<char>> = Vec::new();
    let mut p: usize = 0;
    loop
        invariant
            p <= m == t2@.len(),
            cells_from(t2@, 0) == cells@.map_values(|c: Vec<char>| c@) + cells_from(
                t2@,
                p as int,
            ),
            cells_from(t2@, 0) == parse_table_row_spec(s@.subrange(lo as int, hi as int)),
        decreases m - p,
    {
        proof {
            lemma_find_char_bounds(t2@, p as int, '|');
        }
        match find_char_exec(&t2, p, '|') {
            Some(q) => {
                let (ca, cb2) = trim_sub(&t2, p, q);
                let cell = sub_vec(&t2, ca, cb2);
                proof {
                    assert(cells@.push(cell).map_values(|c: Vec<char>| c@) =~= cells@.map_values(
                        |c: Vec<char>| c@,
                    ).push(cell@));
                }
                cells.push(cell);
                p = q + 1;
            },
            None => {
                let (ca, cb2) = trim_sub(&t2, p, m);
                let cell = sub_vec(&t2, ca, cb2);
                proof {
                    assert(cells@.push(cell).map_values(|c: Vec<char>| c@) =~= cells@.map_values(
                        |c: Vec<char>| c@,
                    ).push(cell@));
                    assert(t2@.subrange(p as int, m as int) =~= t2@.subrange(
                        p as int,
                        t2@.len() as int,
                    ));
                }
                cells.push(cell);
                proof {
                    assert(cells_from(t2@, 0) =~= cells@.map_values(|c: Vec<char>| c@));
                }
                return cells;
            },
        }
    }
}

/// Append the `**header**: cell` parts of one bullet to `out`.
fn build_row_parts(out: &mut Vec<char>, headers: &Vec<Vec<char>>, cells: &Vec<Vec<char>>)
    ensures
        final(out)@ == old(out)@ + row_parts(
            headers@.map_values(|c: Vec<char>| c@),
            cells@.map_values(|c: Vec<char>| c@),
            0,
        ),
{
    let ghost hv = headers@.map_values(|c: Vec<char>| c@);
    let ghost cv = cells@.map_values(|c: Vec<char>| c@);
    let m = cells.len();
    let mut j: usize = 0;
    while j < m
        invariant
            j <= m == cells@.len(),
            hv == headers@.map_values(|c: Vec<char>| c@),
            cv == cells@.map_values(|c: Vec<char>| c@),
            old(out)@ + row_parts(hv, cv, 0) == out@ + row_parts(hv, cv, j as int),
        decreases m - j,
    {
        push_all(out, &chars_vec("**"));
        if j < headers.len() {
            push_all(out, &headers[j]);
        } else {
            push_all(out, &chars_vec("?"));
        }
        push_all(out, &chars_vec("**: "));
        push_all(out, &cells[j]);
        if j + 1 < m {
            push_all(out, &chars_vec(", "));
        }
        j += 1;
    }
}

/// Executable `cttl_spec`.
fn convert_table_text_to_list(table: &Vec<char>) -> (r: Vec<char>)
    ensures
        r@ == cttl_spec(table@),
{
    let n = table.len();
    if n == 0 {
        return copy_chars(table);
    }
    let e0 = line_end_exec(table, 0);
    if n - e0 <= 1 {
        proof {
            assert(line_cnt(table@, 0) == 1);
        }
        return copy_chars(table);
    }
    proof {
        lemma_line_cnt_nonneg(table@, e0 as int + 1);
    }
    let e0s = if e0 > 0 && table[e0 - 1] == '\r' {
        e0 - 1
    } else {
        e0
    };
    let headers = parse_table_row(table, 0, e0s);
    let ghost hv = headers@.map_values(|c: Vec<char>| c@);
    let e1 = line_end_exec(table, e0 + 1);
    let ds = if n - e1 > 1 {
        e1 + 1
    } else {
        n
    };
    let mut out: Vec<char> = Vec::new();
    let mut lo = ds;
    loop
        invariant
            ds <= lo <= n == table@.len(),
            hv == headers@.map_values(|c: Vec<char>| c@),
            hv == parse_table_row_spec(
                table@.subrange(0, strip_cr_end(table@, 0, line_end_at(table@, 0))),
            ),
            cttl_spec(table@) == rows_from(table@, ds as int, hv) + seq!['\n'],
            rows_from(table@, ds as int, hv) == out@ + rows_from(table@, lo as int, hv),
        decreases n - lo,
    {
        if lo >= n {
            out.push('\n');
            return out;
        }
        let e = line_end_exec(table, lo);
        let es = if e > lo && table[e - 1] == '\r' {
            e - 1
        } else {
            e
        };
        let cells = parse_table_row(table, lo, es);
        push_all(&mut out, &chars_vec("- "));
        build_row_parts(&mut out, &headers, &cells);
        if n - e > 1 {
            out.push('\n');
            lo = e + 1;
        } else {
            out.push('\n');
            return out;
        }
    }
}

/// The table pass.
fn rewrite_tables(input: &Vec<char>, config: &Config) -> (r: Vec<char>)
    ensures
        r@ == spec_rewrite_tables(input@, config),
{
    let enabled = match &config.markdown.tables {
        Some(tc) => tc.format == TableFormat::List,
        None => false,
    };
    if !enabled {
        return copy_chars(input);
    }
    let n = input.len();
    let text = string_from_chars(input.as_slice());
    let spans = find_table_spans(text.as_str());
    let ghost sv = table_spans_of(input@);
    let mut out: Vec<char> = Vec::new();
    let mut i: usize = 0;
    let mut k: usize = 0;
    while k < spans.len()
        invariant
            k <= spans@.len(),
            n == input@.len(),
            i <= n,
            sv == spans@.map_values(|p: (usize, usize)| (p.0 as int, p.1 as int)),
            sv == table_spans_of(input@),
            spans_wf(sv, n as int),
            k < sv.len() ==> i as int <= sv[k as int].0,
            tables_out(input@, sv, 0, 0) == out@ + tables_out(input@, sv, k as int, i as int),
        decreases spans@.len() - k,
    {
        let (a, b) = spans[k];
        proof {
            assert(sv[k as int] == (a as int, b as int));
        }
        push_sub(&mut out, input, i, a);
        let tt = sub_vec(input, a, b);
        let lst = convert_table_text_to_list(&tt);
        push_all(&mut out, &lst);
        i = b;
        k += 1;
    }
    push_sub(&mut out, input, i, n);
    out
}

/// The markdown rewriter: strip comments, rewrite links and images, then
/// convert tables — each pass a no-op when not configured, everything else
/// copied untouched.
pub fn rewrite_markdown(input: &str, config: &Config) -> (r: String)
    ensures
        r@ == spec_rewrite_markdown(input@, config),
{
    let s0 = chars_vec(input);
    let s1 = strip_html_comments(&s0, config);
    let s2 = rewrite_links_and_images(&s1, config);
    let s3 = rewrite_tables(&s2, config);
    string_from_chars(s3.as_slice())
}

} // verus!
