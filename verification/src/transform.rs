//! The transform engine: a depth-first pre-order walk over the document
//! tree that renders markdown text. Components are resolved first through an
//! optional caller-supplied resolver, then through the configured templates;
//! an unmatched element is silently unwrapped to its children.
use crate::ast::{node_view, nodes_view, Attribute, AttrValue, MdxDocument, MdxNode, NodeView};
use crate::config::{components_view, lookup_spec, lookup_component, Config, ExpressionHandling};
use crate::tokenizer::{AttrValueView, AttrView};
use crate::util::{
    chars_vec, find_char, find_char_exec, find_sub, find_sub_exec, lemma_find_char_bounds,
    lemma_find_sub_bounds, lemma_rfind_char_bounds, match_at, push_all, push_sub, rfind_char,
    rfind_char_exec, starts_with_at, string_from_chars, sub_vec, trim_end_spec, trim_end_sub,
    trim_spec, trim_vec,
};
use vstd::prelude::*;
use vstd::string::StringExecFns;

verus! {

broadcast use vstd::std_specs::vec::group_vec_axioms, vstd::seq::group_seq_axioms;

// ---------------------------------------------------------------------------
// The component resolver capability
// ---------------------------------------------------------------------------

/// A caller-supplied capability that may render a JSX element itself. Given
/// the tag name, the stringified attribute map in document order, and the
/// already-rendered children text, it returns the full replacement text, or
/// `None` to defer to the configured templates.
pub trait ComponentResolver {
    /// What `resolve` returns, as a function of the element's data. The
    /// default says the resolver always defers; a resolver that renders
    /// overrides this with what it renders.
    open spec fn resolve_spec(
        &self,
        tag: Seq<char>,
        props: Seq<(Seq<char>, Seq<char>)>,
        children: Seq<char>,
    ) -> Option<Seq<char>> {
        None
    }

    /// Render one element, or defer with `None`.
    fn resolve(&self, tag: &str, props: &Vec<(String, String)>, children: &str) -> (r: Option<
        String,
    >)
        ensures
            match r {
                Some(s) => self.resolve_spec(
                    tag@,
                    props@.map_values(|p: (String, String)| (p.0@, p.1@)),
                    children@,
                ) == Some(s@),
                None => self.resolve_spec(
                    tag@,
                    props@.map_values(|p: (String, String)| (p.0@, p.1@)),
                    children@,
                ) is None,
            },
    ;
}

/// The resolver that always defers to the configured templates.
pub struct NoResolver;

impl ComponentResolver for NoResolver {
    fn resolve(&self, tag: &str, props: &Vec<(String, String)>, children: &str) -> (r: Option<
        String,
    >) {
        None
    }
}

// ---------------------------------------------------------------------------
// Text helpers: replacement, line trimming, blank-line cleanup
// ---------------------------------------------------------------------------

/// Replace every occurrence of `pat` from position `i` on, left to right and
/// without overlap, as `str::replace` does.
pub open spec fn replace_from(s: Seq<char>, i: int, pat: Seq<char>, to: Seq<char>) -> Seq<char>
    decreases s.len() - i,
{
    if i < 0 || i >= s.len() {
        Seq::empty()
    } else if pat.len() > 0 && starts_with_at(s, i, pat) {
        to + replace_from(s, i + pat.len(), pat, to)
    } else {
        seq![s[i]] + replace_from(s, i + 1, pat, to)
    }
}

/// `str::replace` over the whole text (for a non-empty pattern).
pub open spec fn replace_all(s: Seq<char>, pat: Seq<char>, to: Seq<char>) -> Seq<char> {
    replace_from(s, 0, pat, to)
}

/// Executable `replace_all`.
fn replace_all_exec(s: &Vec<char>, pat: &Vec<char>, to: &Vec<char>) -> (r: Vec<char>)
    ensures
        r@ == replace_all(s@, pat@, to@),
{
    let n = s.len();
    let mut out: Vec<char> = Vec::new();
    let mut i: usize = 0;
    while i < n
        invariant
            i <= n == s@.len(),
            replace_all(s@, pat@, to@) == out@ + replace_from(s@, i as int, pat@, to@),
        decreases n - i,
    {
        if pat.len() > 0 && match_at(s, i, pat) {
            push_all(&mut out, to);
            i = i + pat.len();
        } else {
            out.push(s[i]);
            i = i + 1;
        }
    }
    out
}

/// `trim_trailing_line_spaces` from position `lo` on: each line with its
/// trailing spaces and tabs removed, newlines kept.
pub open spec fn ttls_from(s: Seq<char>, lo: int) -> Seq<char>
    decreases s.len() - lo,
    via ttls_from_dec
{
    if lo < 0 || lo >= s.len() {
        Seq::empty()
    } else {
        match find_char(s, lo, '\n') {
            Some(p) => if p + 1 < s.len() {
                trim_end_spec(s.subrange(lo, p)) + seq!['\n'] + ttls_from(s, p + 1)
            } else {
                trim_end_spec(s.subrange(lo, p))
            },
            None => trim_end_spec(s.subrange(lo, s.len() as int)),
        }
    }
}

#[via_fn]
proof fn ttls_from_dec(s: Seq<char>, lo: int) {
    if 0 <= lo && lo < s.len() {
        lemma_find_char_bounds(s, lo, '\n');
    }
}

/// Trailing spaces and tabs removed from every line; a final newline kept.
pub open spec fn ttls_spec(s: Seq<char>) -> Seq<char> {
    if s.len() == 0 {
        Seq::empty()
    } else {
        ttls_from(s, 0) + if s.last() == '\n' {
            seq!['\n']
        } else {
            Seq::empty()
        }
    }
}

/// Executable `ttls_spec`.
pub fn trim_trailing_line_spaces(s: &Vec<char>) -> (r: Vec<char>)
    ensures
        r@ == ttls_spec(s@),
{
    let n = s.len();
    let mut out: Vec<char> = Vec::new();
    if n == 0 {
        return out;
    }
    let mut lo: usize = 0;
    loop
        invariant
            lo < n == s@.len(),
            ttls_spec(s@) == out@ + ttls_from(s@, lo as int) + if s@.last() == '\n' {
                seq!['\n']
            } else {
                Seq::<char>::empty()
            },
        decreases n - lo,
    {
        proof {
            lemma_find_char_bounds(s@, lo as int, '\n');
        }
        match find_char_exec(s, lo, '\n') {
            Some(p) => {
                let te = trim_end_sub(s, lo, p);
                push_sub(&mut out, s, lo, te);
                if p + 1 < n {
                    out.push('\n');
                    lo = p + 1;
                } else {
                    if s[n - 1] == '\n' {
                        out.push('\n');
                    }
                    proof {
                        assert(out@ =~= ttls_spec(s@));
                    }
                    return out;
                }
            },
            None => {
                proof {
                    crate::util::lemma_find_char_none(s@, lo as int, '\n');
                }
                let te = trim_end_sub(s, lo, n);
                push_sub(&mut out, s, lo, te);
                proof {
                    assert(out@ =~= ttls_spec(s@));
                }
                return out;
            },
        }
    }
}

/// Collapse runs of three or more newlines to two and drop every carriage
/// return, scanning from `i` with `consec` newlines just seen.
pub open spec fn cbl_from(s: Seq<char>, i: int, consec: int) -> Seq<char>
    decreases s.len() - i,
{
    if i < 0 || i >= s.len() {
        Seq::empty()
    } else {
        let c = s[i];
        if c == '\n' {
            if consec + 1 <= 2 {
                seq!['\n'] + cbl_from(s, i + 1, consec + 1)
            } else {
                cbl_from(s, i + 1, consec + 1)
            }
        } else if c == '\r' {
            cbl_from(s, i + 1, consec)
        } else {
            seq![c] + cbl_from(s, i + 1, 0)
        }
    }
}

/// The final normalization: blank-line runs collapsed, carriage returns
/// dropped, exactly one trailing newline.
pub open spec fn cbl_spec(s: Seq<char>) -> Seq<char> {
    trim_end_spec(cbl_from(s, 0, 0)) + seq!['\n']
}

/// Executable `cbl_spec`.
fn clean_blank_lines(s: &Vec<char>) -> (r: Vec<char>)
    ensures
        r@ == cbl_spec(s@),
{
    let n = s.len();
    let mut out: Vec<char> = Vec::new();
    let mut i: usize = 0;
    let mut consec: usize = 0;
    while i < n
        invariant
            i <= n == s@.len(),
            consec <= i,
            cbl_from(s@, 0, 0) == out@ + cbl_from(s@, i as int, consec as int),
        decreases n - i,
    {
        let c = s[i];
        if c == '\n' {
            consec += 1;
            if consec <= 2 {
                out.push('\n');
            }
        } else if c == '\r' {
        } else {
            consec = 0;
            out.push(c);
        }
        i += 1;
    }
    let m = out.len();
    let te = trim_end_sub(&out, 0, m);
    proof {
        assert(out@.subrange(0, m as int) =~= out@);
    }
    let mut r = sub_vec(&out, 0, te);
    r.push('\n');
    proof {
        assert(r@ =~= trim_end_spec(out@) + seq!['\n']);
    }
    r
}

// ---------------------------------------------------------------------------
// Template substitution
// ---------------------------------------------------------------------------

/// The stringified value of an attribute: the literal text, the raw
/// expression source, or `true` for a bare attribute.
pub open spec fn attr_value_str(a: AttrView) -> Seq<char> {
    match a.value {
        Some(AttrValueView::Lit(s)) => s,
        Some(AttrValueView::Expr(e)) => e,
        None => "true"@,
    }
}

/// The attribute map handed to a resolver, in document order.
pub open spec fn attr_props(attrs: Seq<AttrView>) -> Seq<(Seq<char>, Seq<char>)> {
    attrs.map_values(|a: AttrView| (a.name, attr_value_str(a)))
}

/// Replace each `{name}` placeholder by its attribute's value, in attribute
/// order.
pub open spec fn subst_attrs(t: Seq<char>, attrs: Seq<AttrView>) -> Seq<char>
    decreases attrs.len(),
{
    if attrs.len() == 0 {
        t
    } else {
        subst_attrs(
            replace_all(t, seq!['{'] + attrs[0].name + seq!['}'], attr_value_str(attrs[0])),
            attrs.drop_first(),
        )
    }
}

/// The end of the run of `>`, space and tab characters in `s` from `i` on,
/// stopping at `lim`: the repeatable block prefix of a template line.
pub open spec fn block_prefix_end(s: Seq<char>, i: int, lim: int) -> int
    decreases lim - i,
{
    if i < 0 || i >= lim || i >= s.len() {
        i
    } else if s[i] == '>' || s[i] == ' ' || s[i] == '\t' {
        block_prefix_end(s, i + 1, lim)
    } else {
        i
    }
}

pub proof fn lemma_block_prefix_end_bounds(s: Seq<char>, i: int, lim: int)
    requires
        0 <= i <= lim,
    ensures
        i <= block_prefix_end(s, i, lim) <= lim,
    decreases lim - i,
{
    if !(i < 0 || i >= lim || i >= s.len()) && (s[i] == '>' || s[i] == ' ' || s[i] == '\t') {
        lemma_block_prefix_end_bounds(s, i + 1, lim);
    }
}

/// A line without its trailing carriage return, as `str::lines` yields it.
pub open spec fn strip_cr(l: Seq<char>) -> Seq<char> {
    if l.len() > 0 && l.last() == '\r' {
        l.drop_last()
    } else {
        l
    }
}

/// Expand the children lines after the first: each gets a newline and the
/// block prefix (a blank line only the prefix without its trailing spaces).
pub open spec fn expand_rest(c: Seq<char>, lo: int, prefix: Seq<char>) -> Seq<char>
    decreases c.len() - lo,
    via expand_rest_dec
{
    if lo < 0 || lo >= c.len() {
        Seq::empty()
    } else {
        let e = match find_char(c, lo, '\n') {
            Some(p) => p,
            None => c.len() as int,
        };
        let line = strip_cr(c.subrange(lo, e));
        let piece = seq!['\n'] + if line.len() == 0 {
            trim_end_spec(prefix)
        } else {
            prefix + line
        };
        piece + if e < c.len() {
            expand_rest(c, e + 1, prefix)
        } else {
            Seq::empty()
        }
    }
}

#[via_fn]
proof fn expand_rest_dec(c: Seq<char>, lo: int, prefix: Seq<char>) {
    if 0 <= lo && lo < c.len() {
        lemma_find_char_bounds(c, lo, '\n');
    }
}

/// Multi-line children under a block prefix: the first line as-is, every
/// following line re-indented with the prefix, a trailing newline kept.
pub open spec fn expand_children(c: Seq<char>, prefix: Seq<char>) -> Seq<char> {
    let e0 = match find_char(c, 0, '\n') {
        Some(p) => p,
        None => c.len() as int,
    };
    strip_cr(c.subrange(0, e0)) + (if e0 < c.len() {
        expand_rest(c, e0 + 1, prefix)
    } else {
        Seq::empty()
    }) + if c.len() > 0 && c.last() == '\n' {
        seq!['\n']
    } else {
        Seq::empty()
    }
}

/// The `{children}` placeholder.
pub open spec fn children_pat() -> Seq<char> {
    seq!['{', 'c', 'h', 'i', 'l', 'd', 'r', 'e', 'n', '}']
}

/// Template substitution: literal `\n` pairs become real newlines, each
/// `{name}` placeholder becomes its attribute's value, and `{children}`
/// becomes the children text, re-indented under the line's block prefix when
/// it spans several lines.
pub open spec fn apply_template_spec(
    template: Seq<char>,
    attrs: Seq<AttrView>,
    children: Seq<char>,
) -> Seq<char> {
    let t1 = replace_all(template, seq!['\\', 'n'], seq!['\n']);
    let t2 = subst_attrs(t1, attrs);
    match find_sub(t2, 0, children_pat()) {
        Some(pp) => {
            let line_start = match rfind_char(t2, pp, '\n') {
                Some(q) => q + 1,
                None => 0,
            };
            let pe = block_prefix_end(t2, line_start, pp);
            let prefix = t2.subrange(line_start, pe);
            let before = t2.subrange(0, pp);
            let after = t2.subrange(pp + children_pat().len() as int, t2.len() as int);
            if prefix.len() > 0 && find_char(children, 0, '\n') is Some {
                before + expand_children(children, prefix) + after
            } else {
                before + children + after
            }
        },
        None => t2,
    }
}

/// The stringified value of one attribute.
fn attr_value_vec(a: &Attribute) -> (r: Vec<char>)
    ensures
        r@ == attr_value_str(a@),
{
    match &a.value {
        Some(AttrValue::String(s)) => chars_vec(s.as_str()),
        Some(AttrValue::Expression(e)) => chars_vec(e.as_str()),
        None => chars_vec("true"),
    }
}

/// Executable template substitution.
fn apply_template(template: &String, attributes: &Vec<Attribute>, children: &Vec<char>) -> (r:
    Vec<char>)
    ensures
        r@ == apply_template_spec(
            template@,
            attributes@.map_values(|a: Attribute| a@),
            children@,
        ),
{
    let ghost attrsv = attributes@.map_values(|a: Attribute| a@);
    let t0 = chars_vec(template.as_str());
    let pat_nl: Vec<char> = vec!['\\', 'n'];
    let to_nl: Vec<char> = vec!['\n'];
    proof {
        assert(pat_nl@ =~= seq!['\\', 'n']);
        assert(to_nl@ =~= seq!['\n']);
    }
    let mut cur = replace_all_exec(&t0, &pat_nl, &to_nl);
    let ghost t1 = cur@;
    proof {
        assert(attrsv.skip(0) =~= attrsv);
    }
    let mut k: usize = 0;
    while k < attributes.len()
        invariant
            k <= attributes@.len(),
            attrsv == attributes@.map_values(|a: Attribute| a@),
            attrsv.len() == attributes@.len(),
            subst_attrs(t1, attrsv) == subst_attrs(cur@, attrsv.skip(k as int)),
        decreases attributes@.len() - k,
    {
        let a = &attributes[k];
        let mut pat: Vec<char> = Vec::new();
        pat.push('{');
        let name_chars = chars_vec(a.name.as_str());
        push_all(&mut pat, &name_chars);
        pat.push('}');
        let val = attr_value_vec(a);
        proof {
            assert(pat@ =~= seq!['{'] + attrsv[k as int].name + seq!['}']);
            assert(attrsv.skip(k as int)[0] == attrsv[k as int]);
            assert(attrsv.skip(k as int).drop_first() =~= attrsv.skip(k as int + 1));
        }
        cur = replace_all_exec(&cur, &pat, &val);
        k += 1;
    }
    proof {
        assert(attrsv.skip(attrsv.len() as int) =~= Seq::<AttrView>::empty());
    }
    let ghost t2 = cur@;
    let cpat: Vec<char> = vec!['{', 'c', 'h', 'i', 'l', 'd', 'r', 'e', 'n', '}'];
    proof {
        assert(cpat@ =~= children_pat());
    }
    match find_sub_exec(&cur, 0, &cpat) {
        Some(pp) => {
            proof {
                lemma_find_sub_bounds(t2, 0, children_pat());
                lemma_rfind_char_bounds(t2, pp as int, '\n');
            }
            let line_start = match rfind_char_exec(&cur, pp, '\n') {
                Some(q) => q + 1,
                None => 0,
            };
            proof {
                lemma_block_prefix_end_bounds(t2, line_start as int, pp as int);
            }
            let pe = block_prefix_end_exec(&cur, line_start, pp);
            let has_nl = match find_char_exec(children, 0, '\n') {
                Some(_) => true,
                None => false,
            };
            let cl = cur.len();
            let mut out: Vec<char> = Vec::new();
            push_sub(&mut out, &cur, 0, pp);
            if pe > line_start && has_nl {
                expand_children_exec(&mut out, children, &cur, line_start, pe);
            } else {
                push_all(&mut out, children);
            }
            push_sub(&mut out, &cur, pp + cpat.len(), cl);
            out
        },
        None => cur,
    }
}

/// Executable `block_prefix_end`.
fn block_prefix_end_exec(s: &Vec<char>, i: usize, lim: usize) -> (r: usize)
    requires
        i <= lim <= s@.len(),
    ensures
        r as int == block_prefix_end(s@, i as int, lim as int),
        i <= r <= lim,
{
    let mut j: usize = i;
    while j < lim
        invariant
            i <= j <= lim <= s@.len(),
            block_prefix_end(s@, i as int, lim as int) == block_prefix_end(
                s@,
                j as int,
                lim as int,
            ),
        decreases lim - j,
    {
        if !(s[j] == '>' || s[j] == ' ' || s[j] == '\t') {
            return j;
        }
        j += 1;
    }
    j
}

/// Append `expand_children(children, prefix)` to `out`, the prefix being
/// `tpl[ls..pe]`.
#[verifier::rlimit(100)]
fn expand_children_exec(
    out: &mut Vec<char>,
    children: &Vec<char>,
    tpl: &Vec<char>,
    ls: usize,
    pe: usize,
)
    requires
        ls <= pe <= tpl@.len(),
    ensures
        final(out)@ == old(out)@ + expand_children(
            children@,
            tpl@.subrange(ls as int, pe as int),
        ),
{
    let ghost prefix = tpl@.subrange(ls as int, pe as int);
    let n = children.len();
    proof {
        lemma_find_char_bounds(children@, 0, '\n');
    }
    let e0 = match find_char_exec(children, 0, '\n') {
        Some(p) => p,
        None => n,
    };
    let e0s = if e0 > 0 && children[e0 - 1] == '\r' {
        e0 - 1
    } else {
        e0
    };
    proof {
        assert(strip_cr(children@.subrange(0, e0 as int)) =~= children@.subrange(0, e0s as int));
    }
    push_sub(out, children, 0, e0s);
    let ghost target = old(out)@ + expand_children(children@, prefix);
    if e0 < n {
        let mut lo: usize = e0 + 1;
        loop
            invariant
                lo <= n == children@.len(),
                prefix == tpl@.subrange(ls as int, pe as int),
                ls <= pe <= tpl@.len(),
                target == old(out)@ + expand_children(children@, prefix),
                target == out@ + expand_rest(children@, lo as int, prefix) + (if children@.len()
                    > 0 && children@.last() == '\n' {
                    seq!['\n']
                } else {
                    Seq::<char>::empty()
                }),
            decreases n - lo,
        {
            if lo >= n {
                if n > 0 && children[n - 1] == '\n' {
                    out.push('\n');
                }
                return ;
            }
            proof {
                lemma_find_char_bounds(children@, lo as int, '\n');
            }
            let e = match find_char_exec(children, lo, '\n') {
                Some(p) => p,
                None => n,
            };
            let es = if e > lo && children[e - 1] == '\r' {
                e - 1
            } else {
                e
            };
            proof {
                assert(strip_cr(children@.subrange(lo as int, e as int)) =~= children@.subrange(
                    lo as int,
                    es as int,
                ));
            }
            out.push('\n');
            if lo == es {
                let te = trim_end_sub(tpl, ls, pe);
                proof {
                    assert(tpl@.subrange(ls as int, te as int) == trim_end_spec(prefix));
                }
                push_sub(out, tpl, ls, te);
            } else {
                push_sub(out, tpl, ls, pe);
                push_sub(out, children, lo, es);
            }
            if e < n {
                lo = e + 1;
            } else {
                lo = n;
            }
        }
    } else {
        proof {
            assert(expand_rest(children@, e0 as int + 1, prefix) == Seq::<char>::empty()) by {
                assert(e0 as int + 1 > children@.len() || e0 as int >= children@.len());
            }
        }
        if n > 0 && children[n - 1] == '\n' {
            out.push('\n');
        }
    }
}

// ---------------------------------------------------------------------------
// The walk
// ---------------------------------------------------------------------------

/// The rendering of one node.
pub open spec fn xform_node<R: ComponentResolver>(n: NodeView, cfg: &Config, r: &R) -> Seq<char>
    decreases n,
{
    match n {
        NodeView::Frontmatter(c) => if cfg.options.preserve_frontmatter {
            "---\n"@ + c + "\n---\n"@
        } else {
            Seq::empty()
        },
        NodeView::Import(c) => if !cfg.options.strip_imports {
            c + seq!['\n']
        } else {
            Seq::empty()
        },
        NodeView::Export(c) => if !cfg.options.strip_exports {
            c + seq!['\n']
        } else {
            Seq::empty()
        },
        NodeView::Markdown(c) => c,
        NodeView::Expression(c) => match cfg.options.expression_handling {
            ExpressionHandling::Strip => Seq::empty(),
            ExpressionHandling::PreserveRaw => seq!['{'] + c + seq!['}'],
            ExpressionHandling::Placeholder => "[expression]"@,
        },
        NodeView::Element { tag, attributes, children, self_closing } => {
            let children_str = join_parts(xform_parts(children, cfg, r));
            match r.resolve_spec(tag, attr_props(attributes), children_str) {
                Some(rendered) => rendered,
                None => {
                    let cv = components_view(cfg.components@);
                    match lookup_spec(cv, tag) {
                        Some(tpl) => apply_template_spec(tpl, attributes, children_str),
                        None => match lookup_spec(cv, "_default"@) {
                            Some(tpl) => apply_template_spec(tpl, attributes, children_str),
                            None => children_str,
                        },
                    }
                },
            }
        },
    }
}

/// The renderings of a sequence of children, one part each.
pub open spec fn xform_parts<R: ComponentResolver>(
    ns: Seq<NodeView>,
    cfg: &Config,
    r: &R,
) -> Seq<Seq<char>>
    decreases ns,
{
    if ns.len() == 0 {
        Seq::empty()
    } else {
        seq![xform_node(ns[0], cfg, r)] + xform_parts(ns.drop_first(), cfg, r)
    }
}

pub proof fn lemma_xform_parts<R: ComponentResolver>(ns: Seq<NodeView>, cfg: &Config, r: &R)
    ensures
        xform_parts(ns, cfg, r).len() == ns.len(),
        forall|i: int|
            0 <= i < ns.len() ==> xform_parts(ns, cfg, r)[i] == xform_node(ns[i], cfg, r),
    decreases ns.len(),
{
    if ns.len() > 0 {
        lemma_xform_parts(ns.drop_first(), cfg, r);
    }
}

/// The children join: every part but the last loses its trailing line
/// spaces, the concatenation is trimmed as a whole.
pub open spec fn concat_parts(parts: Seq<Seq<char>>) -> Seq<char>
    decreases parts.len(),
{
    if parts.len() == 0 {
        Seq::empty()
    } else if parts.len() == 1 {
        parts[0]
    } else {
        ttls_spec(parts[0]) + concat_parts(parts.drop_first())
    }
}

pub open spec fn join_parts(parts: Seq<Seq<char>>) -> Seq<char> {
    trim_spec(concat_parts(parts))
}

/// The renderings of the top-level nodes, concatenated.
pub open spec fn xform_tops<R: ComponentResolver>(ns: Seq<NodeView>, cfg: &Config, r: &R) -> Seq<
    char,
>
    decreases ns,
{
    if ns.len() == 0 {
        Seq::empty()
    } else {
        xform_node(ns[0], cfg, r) + xform_tops(ns.drop_first(), cfg, r)
    }
}

/// The whole transform: render every top-level node, then normalize blank
/// lines and the trailing newline.
pub open spec fn spec_transform<R: ComponentResolver>(
    doc: Seq<NodeView>,
    cfg: &Config,
    r: &R,
) -> Seq<char> {
    cbl_spec(xform_tops(doc, cfg, r))
}

/// Render one node into `out`.
fn transform_node<R: ComponentResolver>(
    node: &MdxNode,
    config: &Config,
    resolver: &R,
    out: &mut Vec<char>,
)
    ensures
        final(out)@ == old(out)@ + xform_node(node_view(*node), config, resolver),
    decreases *node,
{
    match node {
        MdxNode::Frontmatter(c) => {
            if config.options.preserve_frontmatter {
                push_all(out, &chars_vec("---\n"));
                push_all(out, &chars_vec(c.as_str()));
                push_all(out, &chars_vec("\n---\n"));
            }
        },
        MdxNode::Import(c) => {
            if !config.options.strip_imports {
                push_all(out, &chars_vec(c.as_str()));
                out.push('\n');
            }
        },
        MdxNode::Export(c) => {
            if !config.options.strip_exports {
                push_all(out, &chars_vec(c.as_str()));
                out.push('\n');
            }
        },
        MdxNode::Markdown(c) => {
            push_all(out, &chars_vec(c.as_str()));
        },
        MdxNode::Expression(c) => {
            match config.options.expression_handling {
                ExpressionHandling::Strip => {},
                ExpressionHandling::PreserveRaw => {
                    out.push('{');
                    push_all(out, &chars_vec(c.as_str()));
                    out.push('}');
                },
                ExpressionHandling::Placeholder => {
                    push_all(out, &chars_vec("[expression]"));
                },
            }
        },
        MdxNode::JsxElement { tag, attributes, children, self_closing } => {
            proof {
                assert(decreases_to!(*node => *children));
            }
            let children_vec = transform_children(children, config, resolver);
            let ghost attrsv = attributes@.map_values(|a: Attribute| a@);
            let mut props: Vec<(String, String)> = Vec::new();
            let mut k: usize = 0;
            while k < attributes.len()
                invariant
                    k <= attributes@.len(),
                    attrsv == attributes@.map_values(|a: Attribute| a@),
                    props@.len() == k,
                    forall|m: int|
                        0 <= m < k ==> (#[trigger] props@[m]).0@ == attrsv[m].name && props@[m].1@
                            == attr_value_str(attrsv[m]),
                decreases attributes@.len() - k,
            {
                let a = &attributes[k];
                let val = attr_value_vec(a);
                props.push((a.name.clone(), string_from_chars(val.as_slice())));
                k += 1;
            }
            proof {
                assert(props@.map_values(|p: (String, String)| (p.0@, p.1@)) =~= attr_props(
                    attrsv,
                ));
            }
            let children_str = string_from_chars(children_vec.as_slice());
            match resolver.resolve(tag.as_str(), &props, children_str.as_str()) {
                Some(rendered) => {
                    push_all(out, &chars_vec(rendered.as_str()));
                },
                None => {
                    match lookup_component(&config.components, tag) {
                        Some(ct) => {
                            let rendered = apply_template(&ct.template, attributes, &children_vec);
                            push_all(out, &rendered);
                        },
                        None => {
                            let dk = String::from_str("_default");
                            match lookup_component(&config.components, &dk) {
                                Some(ct) => {
                                    let rendered = apply_template(
                                        &ct.template,
                                        attributes,
                                        &children_vec,
                                    );
                                    push_all(out, &rendered);
                                },
                                None => {
                                    push_all(out, &children_vec);
                                },
                            }
                        },
                    }
                },
            }
        },
    }
}

/// Render the children of an element and join them.
fn transform_children<R: ComponentResolver>(
    children: &Vec<MdxNode>,
    config: &Config,
    resolver: &R,
) -> (r: Vec<char>)
    ensures
        r@ == join_parts(xform_parts(nodes_view(children@), config, resolver)),
    decreases *children,
{
    let ghost nsv = nodes_view(children@);
    let ghost pv = xform_parts(nsv, config, resolver);
    proof {
        crate::ast::lemma_nodes_view(children@);
        lemma_xform_parts(nsv, config, resolver);
        assert(pv.skip(0) =~= pv);
    }
    let n = children.len();
    let mut acc: Vec<char> = Vec::new();
    let mut k: usize = 0;
    while k < n
        invariant
            k <= n == children@.len(),
            nsv == nodes_view(children@),
            pv == xform_parts(nsv, config, resolver),
            pv.len() == n,
            forall|i: int| 0 <= i < n ==> pv[i] == xform_node(nsv[i], config, resolver),
            forall|i: int| 0 <= i < n ==> nsv[i] == node_view(children@[i]),
            concat_parts(pv) == acc@ + concat_parts(pv.skip(k as int)),
        decreases n - k,
    {
        let mut buf: Vec<char> = Vec::new();
        proof {
            assert(decreases_to!(*children => children@));
            assert(decreases_to!(children@ => children@[k as int]));
        }
        transform_node(&children[k], config, resolver, &mut buf);
        proof {
            assert(pv.skip(k as int)[0] == pv[k as int]);
            assert(pv.skip(k as int).drop_first() =~= pv.skip(k as int + 1));
        }
        if k + 1 < n {
            let t = trim_trailing_line_spaces(&buf);
            push_all(&mut acc, &t);
        } else {
            push_all(&mut acc, &buf);
        }
        k += 1;
    }
    proof {
        if n == 0 {
            assert(concat_parts(pv.skip(0)) == Seq::<char>::empty());
        }
    }
    trim_vec(&acc)
}

/// Layer 1 with a caller-supplied component resolver.
#[verifier::rlimit(50)]
pub fn transform_with_resolver<R: ComponentResolver>(
    doc: &MdxDocument,
    config: &Config,
    resolver: &R,
) -> (r: String)
    ensures
        r@ == spec_transform(doc@, config, resolver),
{
    let ghost dv = doc@;
    proof {
        crate::ast::lemma_nodes_view(doc.nodes@);
        assert(dv.skip(0) =~= dv);
    }
    let mut out: Vec<char> = Vec::new();
    let n = doc.nodes.len();
    let mut k: usize = 0;
    while k < n
        invariant
            k <= n == doc.nodes@.len(),
            dv == doc@,
            dv.len() == n,
            forall|i: int| 0 <= i < n ==> dv[i] == node_view(doc.nodes@[i]),
            xform_tops(dv, config, resolver) == out@ + xform_tops(
                dv.skip(k as int),
                config,
                resolver,
            ),
        decreases n - k,
    {
        proof {
            assert(dv.skip(k as int)[0] == dv[k as int]);
            assert(dv.skip(k as int).drop_first() =~= dv.skip(k as int + 1));
        }
        transform_node(&doc.nodes[k], config, resolver, &mut out);
        k += 1;
    }
    let cleaned = clean_blank_lines(&out);
    string_from_chars(cleaned.as_slice())
}

/// Layer 1: render the document tree into raw markdown text, resolving
/// components through the configured templates alone.
pub fn transform(doc: &MdxDocument, config: &Config) -> (r: String)
    ensures
        r@ == spec_transform(doc@, config, &NoResolver),
{
    transform_with_resolver(doc, config, &NoResolver)
}

} // verus!
