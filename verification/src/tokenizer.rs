//! Lexical analysis: one left-to-right scan over the input characters that
//! produces the flat token sequence (front matter, import/export statements,
//! JSX tags, brace expressions, markdown runs). Anything ambiguous or
//! unterminated falls back to literal markdown text, so tokenizing never
//! fails. The spec functions below define the scan; `tokenize` is proved to
//! return exactly `spec_tokenize` of its input.
use crate::util::{
    all_white_sub, ascii_letter, attr_char, chars_vec, find_char, find_char_exec, is_ascii_letter,
    is_attr_char, is_tag_char, is_white, lemma_find_char_bounds, lemma_skip_ascii_ws_bounds,
    lemma_skip_sp_tab_bounds, lemma_trim_blank, match_at, skip_ascii_ws, skip_ascii_ws_exec,
    skip_sp_tab, skip_sp_tab_exec, starts_with_at, sub_string, tag_char, trim_end_spec,
    trim_end_sub, trim_spec,
};
use vstd::prelude::*;

verus! {

// ---------------------------------------------------------------------------
// Tokens and their mathematical views
// ---------------------------------------------------------------------------

/// One lexical unit of the input document.
#[derive(Debug, Clone, PartialEq)]
pub enum Token {
    Frontmatter(String),
    Import(String),
    Export(String),
    JsxOpenTag { tag: String, attributes: Vec<RawAttribute>, self_closing: bool },
    JsxCloseTag { tag: String },
    Expression(String),
    Markdown(String),
}

/// An attribute as scanned from a JSX open tag.
#[derive(Debug, Clone, PartialEq)]
pub struct RawAttribute {
    pub name: String,
    pub value: Option<RawAttrValue>,
}

/// An attribute value: a quoted literal or a brace-delimited expression.
#[derive(Debug, Clone, PartialEq)]
pub enum RawAttrValue {
    String(String),
    Expression(String),
}

/// Kept for API completeness: the tokenizer prefers literal-text fallback
/// over failing, so `tokenize` never actually returns this.
#[derive(Debug, Clone, PartialEq)]
pub struct TokenizeError {
    pub message: String,
}

/// The view of an attribute value.
pub enum AttrValueView {
    Lit(Seq<char>),
    Expr(Seq<char>),
}

/// The view of an attribute.
pub struct AttrView {
    pub name: Seq<char>,
    pub value: Option<AttrValueView>,
}

/// The view of a token.
pub enum TokenView {
    Frontmatter(Seq<char>),
    Import(Seq<char>),
    Export(Seq<char>),
    JsxOpen { tag: Seq<char>, attributes: Seq<AttrView>, self_closing: bool },
    JsxClose { tag: Seq<char> },
    Expression(Seq<char>),
    Markdown(Seq<char>),
}

impl View for RawAttrValue {
    type V = AttrValueView;

    open spec fn view(&self) -> AttrValueView {
        match self {
            RawAttrValue::String(s) => AttrValueView::Lit(s@),
            RawAttrValue::Expression(e) => AttrValueView::Expr(e@),
        }
    }
}

impl View for RawAttribute {
    type V = AttrView;

    open spec fn view(&self) -> AttrView {
        AttrView {
            name: self.name@,
            value: match self.value {
                Some(v) => Some(v@),
                None => None,
            },
        }
    }
}

impl View for Token {
    type V = TokenView;

    open spec fn view(&self) -> TokenView {
        match self {
            Token::Frontmatter(t) => TokenView::Frontmatter(t@),
            Token::Import(t) => TokenView::Import(t@),
            Token::Export(t) => TokenView::Export(t@),
            Token::JsxOpenTag { tag, attributes, self_closing } => TokenView::JsxOpen {
                tag: tag@,
                attributes: attributes@.map_values(|a: RawAttribute| a@),
                self_closing: *self_closing,
            },
            Token::JsxCloseTag { tag } => TokenView::JsxClose { tag: tag@ },
            Token::Expression(t) => TokenView::Expression(t@),
            Token::Markdown(t) => TokenView::Markdown(t@),
        }
    }
}

/// The view of a token vector.
pub open spec fn tokens_view(ts: Seq<Token>) -> Seq<TokenView> {
    ts.map_values(|t: Token| t@)
}

// ---------------------------------------------------------------------------
// The `import ` / `export ` keywords
// ---------------------------------------------------------------------------

pub open spec fn kw_import() -> Seq<char> {
    seq!['i', 'm', 'p', 'o', 'r', 't', ' ']
}

pub open spec fn kw_export() -> Seq<char> {
    seq!['e', 'x', 'p', 'o', 'r', 't', ' ']
}

fn kw_import_vec() -> (v: Vec<char>)
    ensures
        v@ == kw_import(),
{
    let v: Vec<char> = vec!['i', 'm', 'p', 'o', 'r', 't', ' '];
    proof {
        assert(v@ =~= kw_import());
    }
    v
}

fn kw_export_vec() -> (v: Vec<char>)
    ensures
        v@ == kw_export(),
{
    let v: Vec<char> = vec!['e', 'x', 'p', 'o', 'r', 't', ' '];
    proof {
        assert(v@ =~= kw_export());
    }
    v
}

/// Relies on `char::is_alphabetic`: a pure predicate of the character.
/// Within ASCII exactly the letters `a`..=`z` and `A`..=`Z` have the
/// Unicode `Alphabetic` property that it tests.
#[verifier::external_body]
pub fn char_is_alphabetic(c: char) -> (b: bool)
    ensures
        b == is_alphabetic_of(c),
        (c as u32) < 128 ==> b == is_ascii_letter(c),
{
    c.is_alphabetic()
}

/// Whether a character has the Unicode `Alphabetic` property.
pub uninterp spec fn is_alphabetic_of(c: char) -> bool;

// ---------------------------------------------------------------------------
// Front matter
// ---------------------------------------------------------------------------

/// `---` occurs at index `i`.
pub open spec fn is_fence_at(s: Seq<char>, i: int) -> bool {
    0 <= i && i + 3 <= s.len() && s[i] == '-' && s[i + 1] == '-' && s[i + 2] == '-'
}

/// The input opens with a `---` front-matter fence line.
pub open spec fn is_fm_open(s: Seq<char>) -> bool {
    is_fence_at(s, 0) && (3 < s.len() && (s[3] == '\n' || (4 < s.len() && s[3] == '\r' && s[4]
        == '\n')))
}

/// The index just past the first newline at or after `offset` (or the end).
pub open spec fn skip_past_nl(s: Seq<char>, offset: int) -> int {
    match find_char(s, offset, '\n') {
        Some(p) => p + 1,
        None => s.len() as int,
    }
}

/// The closing `---` fence: the first `---` at or after `j` that stands at
/// the start of a line (taking `base` as a line start); an occurrence in the
/// middle of a line is stepped over whole.
pub open spec fn fm_close(s: Seq<char>, base: int, j: int) -> Option<int>
    decreases s.len() - j,
{
    if j < base || j + 3 > s.len() {
        None
    } else if is_fence_at(s, j) {
        if j == base || s[j - 1] == '\n' {
            Some(j)
        } else {
            fm_close(s, base, j + 3)
        }
    } else {
        fm_close(s, base, j + 1)
    }
}

// ---------------------------------------------------------------------------
// Import / export statements
// ---------------------------------------------------------------------------

/// Step over one newline (`\r\n` or `\n`) at index `e`, if present.
pub open spec fn consume_nl(s: Seq<char>, e: int) -> int {
    if 0 <= e && e + 1 < s.len() && s[e] == '\r' && s[e + 1] == '\n' {
        e + 2
    } else if 0 <= e && e < s.len() && s[e] == '\n' {
        e + 1
    } else {
        e
    }
}

/// Scan a JS-like statement from `base`, tracking string literals and brace
/// depth. Returns the end of the statement text and the start of the rest.
pub open spec fn scan_stmt(
    s: Seq<char>,
    base: int,
    j: int,
    depth: int,
    in_str: Option<char>,
) -> Option<(int, int)>
    decreases s.len() - j,
{
    if j < 0 {
        None
    } else if j >= s.len() {
        if depth == 0 {
            Some((s.len() as int, s.len() as int))
        } else {
            None
        }
    } else {
        let c = s[j];
        match in_str {
            Some(q) => if c == q && (j == base || s[j - 1] != '\\') {
                scan_stmt(s, base, j + 1, depth, None)
            } else {
                scan_stmt(s, base, j + 1, depth, in_str)
            },
            None => if c == '"' || c == '\'' || c == '`' {
                scan_stmt(s, base, j + 1, depth, Some(c))
            } else if c == '{' {
                scan_stmt(s, base, j + 1, depth + 1, None)
            } else if c == '}' {
                if depth == 1 {
                    let k = skip_sp_tab(s, j + 1);
                    if k >= s.len() || s[k] == '\n' || s[k] == '\r' || s[k] == ';' {
                        let end = if k < s.len() && s[k] == ';' {
                            k + 1
                        } else {
                            j + 1
                        };
                        Some((end, consume_nl(s, end)))
                    } else {
                        scan_stmt(s, base, j + 1, 0, None)
                    }
                } else {
                    scan_stmt(s, base, j + 1, depth - 1, None)
                }
            } else if c == '\n' && depth == 0 {
                Some((j, j + 1))
            } else if c == ';' && depth == 0 {
                Some((j + 1, consume_nl(s, j + 1)))
            } else {
                scan_stmt(s, base, j + 1, depth, None)
            },
        }
    }
}

pub proof fn lemma_scan_stmt_bounds(s: Seq<char>, base: int, j: int, depth: int, in_str: Option<
    char,
>)
    requires
        0 <= base <= j <= s.len(),
    ensures
        scan_stmt(s, base, j, depth, in_str) matches Some(er) ==> base <= er.0 <= er.1 <= s.len()
            && (j < er.1 || er.1 == s.len()),
    decreases s.len() - j,
{
    if j < s.len() {
        let c = s[j];
        lemma_skip_sp_tab_bounds(s, j + 1);
        lemma_scan_stmt_bounds(s, base, j + 1, depth, None);
        lemma_scan_stmt_bounds(s, base, j + 1, depth, in_str);
        lemma_scan_stmt_bounds(s, base, j + 1, depth + 1, None);
        lemma_scan_stmt_bounds(s, base, j + 1, depth - 1, None);
        lemma_scan_stmt_bounds(s, base, j + 1, 0, None);
        if in_str is None {
            lemma_scan_stmt_bounds(s, base, j + 1, depth, Some(c));
        }
    }
}

/// The statement token scanned at a line start, if the text there looks like
/// a JS `import`/`export` statement.
pub open spec fn try_import_export_spec(s: Seq<char>, i: int) -> Option<(TokenView, int)> {
    let imp = starts_with_at(s, i, kw_import());
    let exp = starts_with_at(s, i, kw_export());
    if !imp && !exp {
        None
    } else if i + 7 >= s.len() {
        None
    } else {
        let c = s[i + 7];
        let ok = if imp {
            is_alphabetic_of(c) || c == '{' || c == '*' || c == '"' || c == '\''
        } else {
            is_alphabetic_of(c) || c == '{' || c == '*'
        };
        if !ok {
            None
        } else {
            match scan_stmt(s, i, i, 0, None) {
                Some(er) => {
                    let text = trim_end_spec(s.subrange(i, er.0));
                    Some(
                        (
                            if imp {
                                TokenView::Import(text)
                            } else {
                                TokenView::Export(text)
                            },
                            er.1,
                        ),
                    )
                },
                None => None,
            }
        }
    }
}

pub proof fn lemma_try_ie_bounds(s: Seq<char>, i: int)
    ensures
        try_import_export_spec(s, i) matches Some(tr) ==> i < tr.1 <= s.len(),
{
    if starts_with_at(s, i, kw_import()) || starts_with_at(s, i, kw_export()) {
        if i + 7 < s.len() {
            lemma_scan_stmt_bounds(s, i, i, 0, None);
        }
    }
}

// ---------------------------------------------------------------------------
// JSX tags
// ---------------------------------------------------------------------------

/// The first index at or after `i` that cannot continue a tag name.
pub open spec fn tag_name_end(s: Seq<char>, i: int) -> int
    decreases s.len() - i,
{
    if i < 0 || i >= s.len() {
        s.len() as int
    } else if is_tag_char(s[i]) {
        tag_name_end(s, i + 1)
    } else {
        i
    }
}

pub proof fn lemma_tag_name_end_bounds(s: Seq<char>, i: int)
    requires
        0 <= i <= s.len(),
    ensures
        i <= tag_name_end(s, i) <= s.len(),
    decreases s.len() - i,
{
    if i < s.len() && is_tag_char(s[i]) {
        lemma_tag_name_end_bounds(s, i + 1);
    }
}

/// The first index at or after `i` that cannot continue an attribute name.
pub open spec fn attr_name_end(s: Seq<char>, i: int) -> int
    decreases s.len() - i,
{
    if i < 0 || i >= s.len() {
        s.len() as int
    } else if is_attr_char(s[i]) {
        attr_name_end(s, i + 1)
    } else {
        i
    }
}

pub proof fn lemma_attr_name_end_bounds(s: Seq<char>, i: int)
    requires
        0 <= i <= s.len(),
    ensures
        i <= attr_name_end(s, i) <= s.len(),
    decreases s.len() - i,
{
    if i < s.len() && is_attr_char(s[i]) {
        lemma_attr_name_end_bounds(s, i + 1);
    }
}

/// The closing quote of a quoted attribute value: scan from `j`, stepping
/// over backslash-escaped characters.
pub open spec fn scan_quoted(s: Seq<char>, j: int, q: char) -> Option<int>
    decreases s.len() - j,
{
    if j < 0 || j >= s.len() {
        None
    } else if s[j] == q {
        Some(j)
    } else if s[j] == '\\' {
        if j + 2 <= s.len() {
            scan_quoted(s, j + 2, q)
        } else {
            None
        }
    } else {
        scan_quoted(s, j + 1, q)
    }
}

pub proof fn lemma_scan_quoted_bounds(s: Seq<char>, j: int, q: char)
    ensures
        scan_quoted(s, j, q) matches Some(p) ==> j <= p < s.len(),
    decreases s.len() - j,
{
    if !(j < 0 || j >= s.len()) && s[j] != q {
        if s[j] == '\\' {
            if j + 2 <= s.len() {
                lemma_scan_quoted_bounds(s, j + 2, q);
            }
        } else {
            lemma_scan_quoted_bounds(s, j + 1, q);
        }
    }
}

/// The closing `}` of a brace-delimited run starting at `base` (whose first
/// character is `{`), tracking nested braces and string literals.
pub open spec fn scan_braces(
    s: Seq<char>,
    base: int,
    j: int,
    depth: int,
    in_str: Option<char>,
) -> Option<int>
    decreases s.len() - j,
{
    if j < 0 || j >= s.len() {
        None
    } else {
        let c = s[j];
        match in_str {
            Some(q) => if c == q && (j == base || s[j - 1] != '\\') {
                scan_braces(s, base, j + 1, depth, None)
            } else {
                scan_braces(s, base, j + 1, depth, in_str)
            },
            None => if c == '"' || c == '\'' || c == '`' {
                scan_braces(s, base, j + 1, depth, Some(c))
            } else if c == '{' {
                scan_braces(s, base, j + 1, depth + 1, None)
            } else if c == '}' {
                if depth == 1 {
                    Some(j)
                } else {
                    scan_braces(s, base, j + 1, depth - 1, None)
                }
            } else {
                scan_braces(s, base, j + 1, depth, None)
            },
        }
    }
}

pub proof fn lemma_scan_braces_bounds(s: Seq<char>, base: int, j: int, depth: int, in_str: Option<
    char,
>)
    ensures
        scan_braces(s, base, j, depth, in_str) matches Some(p) ==> j <= p < s.len(),
    decreases s.len() - j,
{
    if !(j < 0 || j >= s.len()) {
        let c = s[j];
        lemma_scan_braces_bounds(s, base, j + 1, depth, None);
        lemma_scan_braces_bounds(s, base, j + 1, depth, in_str);
        lemma_scan_braces_bounds(s, base, j + 1, depth + 1, None);
        lemma_scan_braces_bounds(s, base, j + 1, depth - 1, None);
        if in_str is None {
            lemma_scan_braces_bounds(s, base, j + 1, depth, Some(c));
        }
    }
}

/// Scan the attribute list of an open tag from `j`, accumulating `attrs`.
pub open spec fn scan_attrs(s: Seq<char>, j: int, tag: Seq<char>, attrs: Seq<AttrView>) -> Option<
    (TokenView, int),
>
    decreases s.len() - j,
    via scan_attrs_dec
{
    if j < 0 || j >= s.len() {
        None
    } else {
        let c = s[j];
        if c == ' ' || c == '\t' || c == '\n' || c == '\r' {
            scan_attrs(s, j + 1, tag, attrs)
        } else if c == '/' && j + 1 < s.len() && s[j + 1] == '>' {
            Some((TokenView::JsxOpen { tag, attributes: attrs, self_closing: true }, j + 2))
        } else if c == '>' {
            Some((TokenView::JsxOpen { tag, attributes: attrs, self_closing: false }, j + 1))
        } else if !(is_ascii_letter(c) || c == '_') {
            None
        } else {
            let ne = attr_name_end(s, j);
            let aname = s.subrange(j, ne);
            if ne < s.len() && s[ne] == '=' {
                let v = ne + 1;
                if v >= s.len() {
                    None
                } else if s[v] == '"' || s[v] == '\'' {
                    match scan_quoted(s, v + 1, s[v]) {
                        Some(q) => scan_attrs(
                            s,
                            q + 1,
                            tag,
                            attrs.push(
                                AttrView {
                                    name: aname,
                                    value: Some(AttrValueView::Lit(s.subrange(v + 1, q))),
                                },
                            ),
                        ),
                        None => None,
                    }
                } else if s[v] == '{' {
                    match scan_braces(s, v, v, 0, None) {
                        Some(cb) => scan_attrs(
                            s,
                            cb + 1,
                            tag,
                            attrs.push(
                                AttrView {
                                    name: aname,
                                    value: Some(AttrValueView::Expr(s.subrange(v + 1, cb))),
                                },
                            ),
                        ),
                        None => None,
                    }
                } else {
                    None
                }
            } else {
                scan_attrs(s, ne, tag, attrs.push(AttrView { name: aname, value: None }))
            }
        }
    }
}

#[via_fn]
proof fn scan_attrs_dec(s: Seq<char>, j: int, tag: Seq<char>, attrs: Seq<AttrView>) {
    if 0 <= j && j < s.len() {
        let c = s[j];
        if is_ascii_letter(c) || c == '_' {
            lemma_attr_name_end_bounds(s, j + 1);
            assert(attr_name_end(s, j) == attr_name_end(s, j + 1));
            let ne = attr_name_end(s, j);
            if ne < s.len() && s[ne] == '=' {
                let v = ne + 1;
                if v < s.len() {
                    if s[v] == '"' || s[v] == '\'' {
                        lemma_scan_quoted_bounds(s, v + 1, s[v]);
                    } else if s[v] == '{' {
                        lemma_scan_braces_bounds(s, v, v, 0, None);
                    }
                }
            }
        }
    }
}

pub proof fn lemma_scan_attrs_bounds(s: Seq<char>, j: int, tag: Seq<char>, attrs: Seq<AttrView>)
    ensures
        scan_attrs(s, j, tag, attrs) matches Some(tr) ==> j < tr.1 <= s.len(),
    decreases s.len() - j,
{
    if 0 <= j && j < s.len() {
        let c = s[j];
        if c == ' ' || c == '\t' || c == '\n' || c == '\r' {
            lemma_scan_attrs_bounds(s, j + 1, tag, attrs);
        } else if !(c == '/' && j + 1 < s.len() && s[j + 1] == '>') && c != '>' && (is_ascii_letter(
            c,
        ) || c == '_') {
            lemma_attr_name_end_bounds(s, j + 1);
            assert(attr_name_end(s, j) == attr_name_end(s, j + 1));
            let ne = attr_name_end(s, j);
            let aname = s.subrange(j, ne);
            if ne < s.len() && s[ne] == '=' {
                let v = ne + 1;
                if v < s.len() {
                    if s[v] == '"' || s[v] == '\'' {
                        lemma_scan_quoted_bounds(s, v + 1, s[v]);
                        match scan_quoted(s, v + 1, s[v]) {
                            Some(q) => lemma_scan_attrs_bounds(
                                s,
                                q + 1,
                                tag,
                                attrs.push(
                                    AttrView {
                                        name: aname,
                                        value: Some(AttrValueView::Lit(s.subrange(v + 1, q))),
                                    },
                                ),
                            ),
                            None => (),
                        }
                    } else if s[v] == '{' {
                        lemma_scan_braces_bounds(s, v, v, 0, None);
                        match scan_braces(s, v, v, 0, None) {
                            Some(cb) => lemma_scan_attrs_bounds(
                                s,
                                cb + 1,
                                tag,
                                attrs.push(
                                    AttrView {
                                        name: aname,
                                        value: Some(AttrValueView::Expr(s.subrange(v + 1, cb))),
                                    },
                                ),
                            ),
                            None => (),
                        }
                    }
                }
            } else {
                lemma_scan_attrs_bounds(s, ne, tag, attrs.push(AttrView { name: aname, value: None }));
            }
        }
    }
}

/// The JSX open or close tag scanned at `i` (which holds `<`), if the text
/// there fits the tag grammar; otherwise `None` and the `<` is literal text.
pub open spec fn try_jsx_spec(s: Seq<char>, i: int) -> Option<(TokenView, int)> {
    if i < 0 || i + 2 > s.len() {
        None
    } else {
        let closing = s[i + 1] == '/';
        let p0 = if closing {
            i + 2
        } else {
            i + 1
        };
        if p0 >= s.len() {
            None
        } else if !is_ascii_letter(s[p0]) {
            None
        } else {
            let ne = tag_name_end(s, p0);
            let name = s.subrange(p0, ne);
            if closing {
                let k = skip_ascii_ws(s, ne);
                if k < s.len() && s[k] == '>' {
                    Some((TokenView::JsxClose { tag: name }, k + 1))
                } else {
                    None
                }
            } else {
                scan_attrs(s, ne, name, Seq::empty())
            }
        }
    }
}

pub proof fn lemma_try_jsx_bounds(s: Seq<char>, i: int)
    ensures
        try_jsx_spec(s, i) matches Some(tr) ==> i < tr.1 <= s.len(),
{
    if !(i < 0 || i + 2 > s.len()) {
        let closing = s[i + 1] == '/';
        let p0 = if closing {
            i + 2
        } else {
            i + 1
        };
        if p0 < s.len() && is_ascii_letter(s[p0]) {
            lemma_tag_name_end_bounds(s, p0);
            let ne = tag_name_end(s, p0);
            if closing {
                lemma_skip_ascii_ws_bounds(s, ne);
            } else {
                lemma_scan_attrs_bounds(s, ne, s.subrange(p0, ne), Seq::empty());
            }
        }
    }
}

// ---------------------------------------------------------------------------
// Brace expressions
// ---------------------------------------------------------------------------

/// The expression token scanned at `i` (which holds `{`): a balanced brace
/// run whose interior is not all whitespace.
pub open spec fn try_expression_spec(s: Seq<char>, i: int) -> Option<(TokenView, int)> {
    if i < 0 || i >= s.len() || s[i] != '{' {
        None
    } else {
        match scan_braces(s, i, i, 0, None) {
            Some(cb) => {
                let content = s.subrange(i + 1, cb);
                if trim_spec(content).len() == 0 {
                    None
                } else {
                    Some((TokenView::Expression(content), cb + 1))
                }
            },
            None => None,
        }
    }
}

pub proof fn lemma_try_expr_bounds(s: Seq<char>, i: int)
    ensures
        try_expression_spec(s, i) matches Some(tr) ==> i < tr.1 <= s.len(),
{
    if !(i < 0 || i >= s.len() || s[i] != '{') {
        lemma_scan_braces_bounds(s, i, i, 0, None);
    }
}

// ---------------------------------------------------------------------------
// The main scan
// ---------------------------------------------------------------------------

/// The pending markdown buffer sits at a line start.
pub open spec fn is_at_line_start(buf: Seq<char>) -> bool {
    buf.len() == 0 || buf[buf.len() - 1] == '\n'
}

/// Flush the pending markdown buffer into a token, if it is non-empty.
pub open spec fn flush_md(buf: Seq<char>) -> Seq<TokenView> {
    if buf.len() > 0 {
        seq![TokenView::Markdown(buf)]
    } else {
        Seq::empty()
    }
}

/// The tokens produced from position `i` on, with `buf` pending as markdown.
/// At each position the rules fire in priority order: statement at a line
/// start, then JSX tag, then expression; otherwise one character joins the
/// markdown run.
pub open spec fn tok_loop(s: Seq<char>, i: int, buf: Seq<char>) -> Seq<TokenView>
    decreases s.len() - i,
    via tok_loop_dec
{
    if i < 0 || i >= s.len() {
        flush_md(buf)
    } else if is_at_line_start(buf) && try_import_export_spec(s, i) is Some {
        match try_import_export_spec(s, i) {
            Some(tr) => flush_md(buf) + seq![tr.0] + tok_loop(s, tr.1, Seq::empty()),
            None => Seq::empty(),
        }
    } else if s[i] == '<' && try_jsx_spec(s, i) is Some {
        match try_jsx_spec(s, i) {
            Some(tr) => flush_md(buf) + seq![tr.0] + tok_loop(s, tr.1, Seq::empty()),
            None => Seq::empty(),
        }
    } else if s[i] == '{' && try_expression_spec(s, i) is Some {
        match try_expression_spec(s, i) {
            Some(tr) => flush_md(buf) + seq![tr.0] + tok_loop(s, tr.1, Seq::empty()),
            None => Seq::empty(),
        }
    } else {
        tok_loop(s, i + 1, buf.push(s[i]))
    }
}

#[via_fn]
proof fn tok_loop_dec(s: Seq<char>, i: int, buf: Seq<char>) {
    if 0 <= i && i < s.len() {
        lemma_try_ie_bounds(s, i);
        lemma_try_jsx_bounds(s, i);
        lemma_try_expr_bounds(s, i);
    }
}

/// The token sequence of a whole document: an optional front-matter block at
/// the very start, then the main scan.
pub open spec fn spec_tokenize(s: Seq<char>) -> Seq<TokenView> {
    if is_fm_open(s) {
        let base = skip_past_nl(s, 3);
        match fm_close(s, base, base) {
            Some(end) => seq![TokenView::Frontmatter(trim_end_spec(s.subrange(base, end)))]
                + tok_loop(s, skip_past_nl(s, end + 3), Seq::empty()),
            None => tok_loop(s, 0, Seq::empty()),
        }
    } else {
        tok_loop(s, 0, Seq::empty())
    }
}

// ---------------------------------------------------------------------------
// Executable scanners
// ---------------------------------------------------------------------------

/// Step over one newline at `e`, if present.
fn consume_newline(s: &Vec<char>, e: usize) -> (r: usize)
    requires
        e <= s@.len(),
    ensures
        r as int == consume_nl(s@, e as int),
        e <= r <= s@.len(),
{
    if e < s.len() && s[e] == '\r' && e + 1 < s.len() && s[e + 1] == '\n' {
        e + 2
    } else if e < s.len() && s[e] == '\n' {
        e + 1
    } else {
        e
    }
}

/// The index just past the next newline at or after `offset`.
fn skip_past_newline(s: &Vec<char>, offset: usize) -> (r: usize)
    requires
        offset <= s@.len(),
    ensures
        r as int == skip_past_nl(s@, offset as int),
        offset <= r <= s@.len(),
{
    let n = s.len();
    proof {
        lemma_find_char_bounds(s@, offset as int, '\n');
    }
    match find_char_exec(s, offset, '\n') {
        Some(p) => p + 1,
        None => n,
    }
}

/// Find the closing `---` fence line from `base` on.
fn find_frontmatter_close(s: &Vec<char>, base: usize) -> (r: Option<usize>)
    requires
        base <= s@.len(),
    ensures
        match r {
            Some(e) => fm_close(s@, base as int, base as int) == Some(e as int) && base <= e && e
                + 3 <= s@.len(),
            None => fm_close(s@, base as int, base as int) is None,
        },
{
    let mut j: usize = base;
    loop
        invariant
            base <= j <= s@.len(),
            fm_close(s@, base as int, base as int) == fm_close(s@, base as int, j as int),
        decreases s@.len() - j,
    {
        if s.len() - j < 3 {
            return None;
        }
        if s[j] == '-' && s[j + 1] == '-' && s[j + 2] == '-' {
            if j == base || s[j - 1] == '\n' {
                return Some(j);
            }
            j += 3;
        } else {
            j += 1;
        }
    }
}

/// Scan a JS-like statement starting at `i`.
fn scan_statement(s: &Vec<char>, i: usize) -> (r: Option<(usize, usize)>)
    requires
        i <= s@.len(),
    ensures
        match r {
            Some(er) => scan_stmt(s@, i as int, i as int, 0, None) == Some(
                (er.0 as int, er.1 as int),
            ) && er.0 <= er.1 <= s@.len(),
            None => scan_stmt(s@, i as int, i as int, 0, None) is None,
        },
{
    proof {
        lemma_scan_stmt_bounds(s@, i as int, i as int, 0, None);
    }
    let mut j: usize = i;
    let mut depth: i128 = 0;
    let mut in_str: Option<char> = None;
    loop
        invariant
            i <= j <= s@.len(),
            -(j as int) <= depth as int <= j as int,
            scan_stmt(s@, i as int, i as int, 0, None) == scan_stmt(
                s@,
                i as int,
                j as int,
                depth as int,
                in_str,
            ),
            scan_stmt(s@, i as int, i as int, 0, None) matches Some(er) ==> er.0 <= er.1
                <= s@.len(),
        decreases s@.len() - j,
    {
        if j == s.len() {
            if depth == 0 {
                return Some((s.len(), s.len()));
            } else {
                return None;
            }
        }
        let c = s[j];
        match in_str {
            Some(q) => {
                if c == q && (j == i || s[j - 1] != '\\') {
                    in_str = None;
                }
                j += 1;
            },
            None => {
                if c == '"' || c == '\'' || c == '`' {
                    in_str = Some(c);
                    j += 1;
                } else if c == '{' {
                    depth = depth + 1;
                    j += 1;
                } else if c == '}' {
                    if depth == 1 {
                        let k = skip_sp_tab_exec(s, j + 1);
                        if k == s.len() || s[k] == '\n' || s[k] == '\r' || s[k] == ';' {
                            let end = if k < s.len() && s[k] == ';' {
                                k + 1
                            } else {
                                j + 1
                            };
                            let rest = consume_newline(s, end);
                            return Some((end, rest));
                        } else {
                            depth = 0;
                            j += 1;
                        }
                    } else {
                        depth = depth - 1;
                        j += 1;
                    }
                } else if c == '\n' && depth == 0 {
                    return Some((j, j + 1));
                } else if c == ';' && depth == 0 {
                    let rest = consume_newline(s, j + 1);
                    return Some((j + 1, rest));
                } else {
                    j += 1;
                }
            },
        }
    }
}

/// Scan an `import`/`export` statement at a line start.
fn try_parse_import_export(s: &Vec<char>, i: usize) -> (r: Option<(Token, usize)>)
    requires
        i < s@.len(),
    ensures
        match r {
            Some(tr) => try_import_export_spec(s@, i as int) == Some((tr.0@, tr.1 as int)) && i
                < tr.1 <= s@.len(),
            None => try_import_export_spec(s@, i as int) is None,
        },
{
    let n = s.len();
    let ki = kw_import_vec();
    let ke = kw_export_vec();
    let imp = match_at(s, i, &ki);
    let exp = match_at(s, i, &ke);
    if !imp && !exp {
        return None;
    }
    if i + 7 >= n {
        return None;
    }
    let c = s[i + 7];
    let ok = if imp {
        char_is_alphabetic(c) || c == '{' || c == '*' || c == '"' || c == '\''
    } else {
        char_is_alphabetic(c) || c == '{' || c == '*'
    };
    if !ok {
        return None;
    }
    proof {
        lemma_scan_stmt_bounds(s@, i as int, i as int, 0, None);
    }
    match scan_statement(s, i) {
        Some((e, rest)) => {
            let te = trim_end_sub(s, i, e);
            let text = sub_string(s, i, te);
            let t = if imp {
                Token::Import(text)
            } else {
                Token::Export(text)
            };
            Some((t, rest))
        },
        None => None,
    }
}

/// The first index at or after `i` that cannot continue a tag name.
fn tag_name_end_exec(s: &Vec<char>, i: usize) -> (r: usize)
    requires
        i <= s@.len(),
    ensures
        r as int == tag_name_end(s@, i as int),
        i <= r <= s@.len(),
{
    let mut j: usize = i;
    while j < s.len()
        invariant
            i <= j <= s@.len(),
            tag_name_end(s@, i as int) == tag_name_end(s@, j as int),
        decreases s@.len() - j,
    {
        if !tag_char(s[j]) {
            return j;
        }
        j += 1;
    }
    j
}

/// The first index at or after `i` that cannot continue an attribute name.
fn attr_name_end_exec(s: &Vec<char>, i: usize) -> (r: usize)
    requires
        i <= s@.len(),
    ensures
        r as int == attr_name_end(s@, i as int),
        i <= r <= s@.len(),
        i < s@.len() && is_attr_char(s@[i as int]) ==> r > i,
{
    proof {
        if i < s@.len() && is_attr_char(s@[i as int]) {
            lemma_attr_name_end_bounds(s@, i as int + 1);
            assert(attr_name_end(s@, i as int) == attr_name_end(s@, i as int + 1));
        }
    }
    let mut j: usize = i;
    while j < s.len()
        invariant
            i <= j <= s@.len(),
            attr_name_end(s@, i as int) == attr_name_end(s@, j as int),
        decreases s@.len() - j,
    {
        if !attr_char(s[j]) {
            return j;
        }
        j += 1;
    }
    j
}

/// Find the closing quote of a quoted attribute value.
fn scan_quoted_exec(s: &Vec<char>, j0: usize, q: char) -> (r: Option<usize>)
    requires
        j0 <= s@.len(),
    ensures
        match r {
            Some(p) => scan_quoted(s@, j0 as int, q) == Some(p as int) && j0 <= p < s@.len(),
            None => scan_quoted(s@, j0 as int, q) is None,
        },
{
    let mut j: usize = j0;
    loop
        invariant
            j0 <= j,
            scan_quoted(s@, j0 as int, q) == scan_quoted(s@, j as int, q),
        decreases s@.len() + 2 - j,
    {
        if j >= s.len() {
            return None;
        }
        if s[j] == q {
            return Some(j);
        }
        if s[j] == '\\' {
            if s.len() - j >= 2 {
                j += 2;
            } else {
                return None;
            }
        } else {
            j += 1;
        }
    }
}

/// Find the closing brace of a `{...}` run whose `{` stands at `i`.
fn parse_braced_expression(s: &Vec<char>, i: usize) -> (r: Option<usize>)
    requires
        i < s@.len(),
        s@[i as int] == '{',
    ensures
        match r {
            Some(cb) => scan_braces(s@, i as int, i as int, 0, None) == Some(cb as int) && i < cb
                < s@.len(),
            None => scan_braces(s@, i as int, i as int, 0, None) is None,
        },
{
    proof {
        assert(scan_braces(s@, i as int, i as int, 0, None) == scan_braces(
            s@,
            i as int,
            i as int + 1,
            1,
            None,
        ));
        lemma_scan_braces_bounds(s@, i as int, i as int + 1, 1, None);
    }
    let mut j: usize = i;
    let mut depth: i128 = 0;
    let mut in_str: Option<char> = None;
    loop
        invariant
            i <= j <= s@.len(),
            s@[i as int] == '{',
            -(j as int) <= depth as int <= j as int,
            scan_braces(s@, i as int, i as int, 0, None) == scan_braces(
                s@,
                i as int,
                j as int,
                depth as int,
                in_str,
            ),
        decreases s@.len() - j,
    {
        if j >= s.len() {
            return None;
        }
        let c = s[j];
        match in_str {
            Some(q) => {
                if c == q && (j == i || s[j - 1] != '\\') {
                    in_str = None;
                }
                j += 1;
            },
            None => {
                if c == '"' || c == '\'' || c == '`' {
                    in_str = Some(c);
                    j += 1;
                } else if c == '{' {
                    depth = depth + 1;
                    j += 1;
                } else if c == '}' {
                    if depth == 1 {
                        return Some(j);
                    }
                    depth = depth - 1;
                    j += 1;
                } else {
                    j += 1;
                }
            },
        }
    }
}

/// Scan a JSX open or close tag whose `<` stands at `i`.
fn try_parse_jsx_tag(s: &Vec<char>, i: usize) -> (r: Option<(Token, usize)>)
    requires
        i < s@.len(),
    ensures
        match r {
            Some(tr) => try_jsx_spec(s@, i as int) == Some((tr.0@, tr.1 as int)) && i < tr.1
                <= s@.len(),
            None => try_jsx_spec(s@, i as int) is None,
        },
{
    if s.len() - i < 2 {
        return None;
    }
    let closing = s[i + 1] == '/';
    let p0 = if closing {
        i + 2
    } else {
        i + 1
    };
    if p0 >= s.len() {
        return None;
    }
    if !ascii_letter(s[p0]) {
        return None;
    }
    let ne = tag_name_end_exec(s, p0);
    if closing {
        let k = skip_ascii_ws_exec(s, ne);
        if k < s.len() && s[k] == '>' {
            let tag = sub_string(s, p0, ne);
            return Some((Token::JsxCloseTag { tag }, k + 1));
        }
        return None;
    }
    let ghost name = s@.subrange(p0 as int, ne as int);
    let mut j: usize = ne;
    let mut attrs: Vec<RawAttribute> = Vec::new();
    proof {
        assert(attrs@.map_values(|a: RawAttribute| a@) =~= Seq::<AttrView>::empty());
    }
    loop
        invariant
            i < p0 <= ne <= j <= s@.len(),
            p0 < s@.len(),
            name == s@.subrange(p0 as int, ne as int),
            try_jsx_spec(s@, i as int) == scan_attrs(s@, ne as int, name, Seq::empty()),
            scan_attrs(s@, ne as int, name, Seq::empty()) == scan_attrs(
                s@,
                j as int,
                name,
                attrs@.map_values(|a: RawAttribute| a@),
            ),
        decreases s@.len() - j,
    {
        if j >= s.len() {
            return None;
        }
        let c = s[j];
        if c == ' ' || c == '\t' || c == '\n' || c == '\r' {
            j += 1;
            continue;
        }
        if c == '/' && j + 1 < s.len() && s[j + 1] == '>' {
            let tag = sub_string(s, p0, ne);
            return Some((Token::JsxOpenTag { tag, attributes: attrs, self_closing: true }, j + 2));
        }
        if c == '>' {
            let tag = sub_string(s, p0, ne);
            return Some(
                (Token::JsxOpenTag { tag, attributes: attrs, self_closing: false }, j + 1),
            );
        }
        if !(ascii_letter(c) || c == '_') {
            return None;
        }
        let ane = attr_name_end_exec(s, j);
        let aname = sub_string(s, j, ane);
        if ane < s.len() && s[ane] == '=' {
            let v = ane + 1;
            if v >= s.len() {
                return None;
            }
            let vc = s[v];
            if vc == '"' || vc == '\'' {
                match scan_quoted_exec(s, v + 1, vc) {
                    Some(q) => {
                        let val = sub_string(s, v + 1, q);
                        let a = RawAttribute { name: aname, value: Some(RawAttrValue::String(val)) };
                        proof {
                            assert(attrs@.push(a).map_values(|x: RawAttribute| x@) =~= attrs@
                                .map_values(|x: RawAttribute| x@).push(a@));
                        }
                        attrs.push(a);
                        j = q + 1;
                    },
                    None => {
                        return None;
                    },
                }
            } else if vc == '{' {
                match parse_braced_expression(s, v) {
                    Some(cb) => {
                        let val = sub_string(s, v + 1, cb);
                        let a = RawAttribute {
                            name: aname,
                            value: Some(RawAttrValue::Expression(val)),
                        };
                        proof {
                            assert(attrs@.push(a).map_values(|x: RawAttribute| x@) =~= attrs@
                                .map_values(|x: RawAttribute| x@).push(a@));
                        }
                        attrs.push(a);
                        j = cb + 1;
                    },
                    None => {
                        return None;
                    },
                }
            } else {
                return None;
            }
        } else {
            let a = RawAttribute { name: aname, value: None };
            proof {
                assert(attrs@.push(a).map_values(|x: RawAttribute| x@) =~= attrs@.map_values(
                    |x: RawAttribute| x@,
                ).push(a@));
            }
            attrs.push(a);
            j = ane;
        }
    }
}

/// Scan a brace expression whose `{` stands at `i`; whitespace-only braces
/// are not expressions.
fn try_parse_expression(s: &Vec<char>, i: usize) -> (r: Option<(Token, usize)>)
    requires
        i < s@.len(),
    ensures
        match r {
            Some(tr) => try_expression_spec(s@, i as int) == Some((tr.0@, tr.1 as int)) && i < tr.1
                <= s@.len(),
            None => try_expression_spec(s@, i as int) is None,
        },
{
    let _n = s.len();
    if s[i] != '{' {
        return None;
    }
    match parse_braced_expression(s, i) {
        Some(cb) => {
            let ghost content = s@.subrange(i as int + 1, cb as int);
            proof {
                lemma_trim_blank(content);
            }
            if all_white_sub(s, i + 1, cb) {
                proof {
                    assert forall|m: int| 0 <= m < content.len() implies is_white(
                        content[m],
                    ) by {
                        assert(content[m] == s@[i as int + 1 + m]);
                    }
                }
                None
            } else {
                proof {
                    assert(exists|k: int| i + 1 <= k < cb && !is_white(s@[k]));
                    let k0 = choose|k: int| i + 1 <= k < cb && !is_white(s@[k]);
                    assert(content[k0 - i - 1] == s@[k0]);
                }
                let text = sub_string(s, i + 1, cb);
                Some((Token::Expression(text), cb + 1))
            }
        },
        None => None,
    }
}

/// Append the pending markdown run `s[bstart..i]` to `toks`, if non-empty.
fn flush_buffer(toks: &mut Vec<Token>, s: &Vec<char>, bstart: usize, i: usize)
    requires
        bstart <= i <= s@.len(),
    ensures
        tokens_view(final(toks)@) == tokens_view(old(toks)@) + flush_md(
            s@.subrange(bstart as int, i as int),
        ),
{
    if bstart < i {
        let m = Token::Markdown(sub_string(s, bstart, i));
        proof {
            assert(toks@.push(m).map_values(|x: Token| x@) =~= tokens_view(toks@) + flush_md(
                s@.subrange(bstart as int, i as int),
            ));
        }
        toks.push(m);
    } else {
        proof {
            assert(tokens_view(toks@) + flush_md(s@.subrange(bstart as int, i as int))
                =~= tokens_view(toks@));
        }
    }
}

/// Append one token to `toks`.
fn push_token(toks: &mut Vec<Token>, t: Token)
    ensures
        tokens_view(final(toks)@) == tokens_view(old(toks)@).push(t@),
{
    proof {
        assert(toks@.push(t).map_values(|x: Token| x@) =~= tokens_view(toks@).push(t@));
    }
    toks.push(t);
}

/// Split the input into its token sequence. The scan prefers literal-text
/// fallback over failing, so the result is always `Ok` and carries exactly
/// the tokens that `spec_tokenize` assigns to the input.
pub fn tokenize(input: &str) -> (r: Result<Vec<Token>, TokenizeError>)
    ensures
        r matches Ok(ts) && tokens_view(ts@) == spec_tokenize(input@),
{
    let s = chars_vec(input);
    let mut toks: Vec<Token> = Vec::new();
    let mut i: usize = 0;
    let mut bstart: usize = 0;

    let fm_open = s.len() >= 4 && s[0] == '-' && s[1] == '-' && s[2] == '-' && (s[3] == '\n' || (
    s.len() >= 5 && s[3] == '\r' && s[4] == '\n'));
    proof {
        assert(fm_open == is_fm_open(s@));
    }
    if fm_open {
        let base = skip_past_newline(&s, 3);
        match find_frontmatter_close(&s, base) {
            Some(end) => {
                let te = trim_end_sub(&s, base, end);
                let fm = sub_string(&s, base, te);
                push_token(&mut toks, Token::Frontmatter(fm));
                let rest = skip_past_newline(&s, end + 3);
                i = rest;
                bstart = rest;
                proof {
                    assert(tokens_view(toks@) =~= seq![
                        TokenView::Frontmatter(
                            trim_end_spec(s@.subrange(base as int, end as int)),
                        ),
                    ]);
                }
            },
            None => {},
        }
    }
    proof {
        assert(s@.subrange(i as int, i as int) =~= Seq::<char>::empty());
        assert(spec_tokenize(input@) =~= tokens_view(toks@) + tok_loop(
            s@,
            i as int,
            s@.subrange(bstart as int, i as int),
        ));
    }

    while i < s.len()
        invariant
            bstart <= i <= s@.len(),
            s@ == input@,
            spec_tokenize(input@) == tokens_view(toks@) + tok_loop(
                s@,
                i as int,
                s@.subrange(bstart as int, i as int),
            ),
        decreases s@.len() - i,
    {
        let ghost buf = s@.subrange(bstart as int, i as int);
        let line_start = bstart == i || s[i - 1] == '\n';
        proof {
            if bstart < i {
                assert(buf[buf.len() - 1] == s@[i as int - 1]);
            }
            assert(line_start == is_at_line_start(buf));
        }
        if line_start {
            if let Some((t, rest)) = try_parse_import_export(&s, i) {
                flush_buffer(&mut toks, &s, bstart, i);
                proof {
                    assert(tok_loop(s@, i as int, buf) == flush_md(buf) + seq![t@] + tok_loop(
                        s@,
                        rest as int,
                        Seq::empty(),
                    ));
                }
                push_token(&mut toks, t);
                i = rest;
                bstart = rest;
                proof {
                    assert(s@.subrange(i as int, i as int) =~= Seq::<char>::empty());
                    assert(tokens_view(toks@) + tok_loop(s@, i as int, Seq::empty())
                        =~= spec_tokenize(input@));
                }
                continue;
            }
        }
        if s[i] == '<' {
            if let Some((t, rest)) = try_parse_jsx_tag(&s, i) {
                flush_buffer(&mut toks, &s, bstart, i);
                proof {
                    assert(tok_loop(s@, i as int, buf) == flush_md(buf) + seq![t@] + tok_loop(
                        s@,
                        rest as int,
                        Seq::empty(),
                    ));
                }
                push_token(&mut toks, t);
                i = rest;
                bstart = rest;
                proof {
                    assert(s@.subrange(i as int, i as int) =~= Seq::<char>::empty());
                    assert(tokens_view(toks@) + tok_loop(s@, i as int, Seq::empty())
                        =~= spec_tokenize(input@));
                }
                continue;
            }
        }
        if s[i] == '{' {
            if let Some((t, rest)) = try_parse_expression(&s, i) {
                flush_buffer(&mut toks, &s, bstart, i);
                proof {
                    assert(tok_loop(s@, i as int, buf) == flush_md(buf) + seq![t@] + tok_loop(
                        s@,
                        rest as int,
                        Seq::empty(),
                    ));
                }
                push_token(&mut toks, t);
                i = rest;
                bstart = rest;
                proof {
                    assert(s@.subrange(i as int, i as int) =~= Seq::<char>::empty());
                    assert(tokens_view(toks@) + tok_loop(s@, i as int, Seq::empty())
                        =~= spec_tokenize(input@));
                }
                continue;
            }
        }
        proof {
            assert(s@.subrange(bstart as int, (i + 1) as int) =~= buf.push(s@[i as int]));
            assert(tok_loop(s@, i as int, buf) == tok_loop(
                s@,
                (i + 1) as int,
                buf.push(s@[i as int]),
            ));
        }
        i += 1;
    }
    flush_buffer(&mut toks, &s, bstart, i);
    Ok(toks)
}

} // verus!
