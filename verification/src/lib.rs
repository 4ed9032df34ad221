//! Conversion of an extended markdown dialect — JSX-like component tags,
//! front-matter blocks, import/export statements and `{expression}`
//! placeholders — into plain, optionally sanitized markdown. The pipeline
//! has four stages: tokenizer, parser, transform engine and markdown
//! rewriter; `convert` drives them and collapses the internal error kinds
//! into one conversion error.
pub mod ast;
pub mod config;
pub mod parser;
pub mod rewriter;
pub mod tokenizer;
pub mod transform;
pub mod util;

use crate::config::Config;
use crate::parser::spec_parse;
use crate::rewriter::spec_rewrite_markdown;
use crate::tokenizer::{
    is_at_line_start, is_fm_open, kw_export, kw_import, spec_tokenize, tok_loop,
    try_import_export_spec, TokenView,
};
use crate::transform::{cbl_spec, spec_transform, ComponentResolver, NoResolver};
use crate::util::starts_with_at;
use vstd::prelude::*;

verus! {

/// One conversion error for the whole pipeline; carries the diagnostic
/// message of the stage that failed.
#[derive(Debug, Clone)]
pub struct ConvertError(pub String);

impl ConvertError {
    /// The diagnostic text of this error.
    pub fn message(&self) -> (r: &str)
        ensures
            r@ == self.0@,
    {
        self.0.as_str()
    }
}

/// The whole conversion with a resolver: tokenize, parse, transform,
/// rewrite; the parse error's message on failure.
pub open spec fn spec_convert_with<R: ComponentResolver>(
    s: Seq<char>,
    cfg: &Config,
    r: &R,
) -> Result<Seq<char>, Seq<char>> {
    match spec_parse(spec_tokenize(s)) {
        Ok(doc) => Ok(spec_rewrite_markdown(spec_transform(doc, cfg, r), cfg)),
        Err(m) => Err(m),
    }
}

/// The whole conversion with templates alone.
pub open spec fn spec_convert(s: Seq<char>, cfg: &Config) -> Result<Seq<char>, Seq<char>> {
    spec_convert_with(s, cfg, &NoResolver)
}

/// The full conversion pipeline.
pub fn convert(mdx: &str, config: &Config) -> (r: Result<String, ConvertError>)
    ensures
        match r {
            Ok(out) => spec_convert(mdx@, config) == Ok::<Seq<char>, Seq<char>>(out@),
            Err(e) => spec_convert(mdx@, config) == Err::<Seq<char>, Seq<char>>(e.0@),
        },
{
    match tokenizer::tokenize(mdx) {
        Ok(tokens) => match parser::parse(tokens) {
            Ok(doc) => {
                let raw = transform::transform(&doc, config);
                let fin = rewriter::rewrite_markdown(raw.as_str(), config);
                Ok(fin)
            },
            Err(e) => Err(ConvertError(e.message)),
        },
        Err(e) => Err(ConvertError(e.message)),
    }
}

/// The full conversion pipeline, consulting `resolver` for each JSX element
/// before the configured templates.
pub fn convert_with_resolver<R: ComponentResolver>(
    mdx: &str,
    config: &Config,
    resolver: &R,
) -> (r: Result<String, ConvertError>)
    ensures
        match r {
            Ok(out) => spec_convert_with(mdx@, config, resolver) == Ok::<Seq<char>, Seq<char>>(
                out@,
            ),
            Err(e) => spec_convert_with(mdx@, config, resolver) == Err::<Seq<char>, Seq<char>>(
                e.0@,
            ),
        },
{
    match tokenizer::tokenize(mdx) {
        Ok(tokens) => match parser::parse(tokens) {
            Ok(doc) => {
                let raw = transform::transform_with_resolver(&doc, config, resolver);
                let fin = rewriter::rewrite_markdown(raw.as_str(), config);
                Ok(fin)
            },
            Err(e) => Err(ConvertError(e.message)),
        },
        Err(e) => Err(ConvertError(e.message)),
    }
}

/// Plain text scans to one markdown token: with no `<` or `{` anywhere, no
/// import/export keyword at a line start, and no recognized front-matter
/// block, the whole input stays one literal run.
proof fn lemma_tok_plain(s: Seq<char>, i: int)
    requires
        0 <= i <= s.len(),
        forall|k: int| 0 <= k < s.len() ==> s[k] != '<' && s[k] != '{',
        forall|p: int|
            0 <= p < s.len() && (p == 0 || s[p - 1] == '\n') ==> !starts_with_at(
                s,
                p,
                kw_import(),
            ) && !starts_with_at(s, p, kw_export()),
    ensures
        tok_loop(s, i, s.take(i)) == if s.len() > 0 {
            seq![TokenView::Markdown(s)]
        } else {
            Seq::<TokenView>::empty()
        },
    decreases s.len() - i,
{
    if i >= s.len() {
        assert(s.take(i) =~= s);
    } else {
        if is_at_line_start(s.take(i)) {
            assert(i == 0 || s[i - 1] == '\n');
            assert(try_import_export_spec(s, i) is None);
        }
        assert(s.take(i).push(s[i]) =~= s.take(i + 1));
        lemma_tok_plain(s, i + 1);
    }
}

/// On plain markdown text — no `<` or `{` anywhere, no line opening an
/// import/export statement, no recognized front-matter block — conversion
/// under a configuration with no markdown rewrites (as the default
/// configuration has) returns the text unchanged up to blank-line collapse,
/// carriage-return removal and trailing-newline normalization.
pub proof fn lemma_plain_text_passthrough(s: Seq<char>, cfg: &Config)
    requires
        cfg.markdown.strip_html_comments == false,
        cfg.markdown.tables is None,
        cfg.markdown.links is None,
        cfg.markdown.images is None,
        forall|k: int| 0 <= k < s.len() ==> s[k] != '<' && s[k] != '{',
        forall|p: int|
            0 <= p < s.len() && (p == 0 || s[p - 1] == '\n') ==> !starts_with_at(
                s,
                p,
                kw_import(),
            ) && !starts_with_at(s, p, kw_export()),
        is_fm_open(s) ==> tokenizer::fm_close(
            s,
            tokenizer::skip_past_nl(s, 3),
            tokenizer::skip_past_nl(s, 3),
        ) is None,
    ensures
        spec_convert(s, cfg) == Ok::<Seq<char>, Seq<char>>(cbl_spec(s)),
{
    assert(s.take(0) =~= Seq::<char>::empty());
    lemma_tok_plain(s, 0);
    let toks = spec_tokenize(s);
    if s.len() > 0 {
        assert(toks == seq![TokenView::Markdown(s)]);
        let doc = seq![crate::ast::NodeView::Markdown(s)];
        assert(spec_parse(toks) == Ok::<Seq<crate::ast::NodeView>, Seq<char>>(doc)) by {
            assert(toks[0] == TokenView::Markdown(s));
            assert(parser::spec_parse_node(toks, 0) == Ok::<
                (crate::ast::NodeView, int),
                Seq<char>,
            >((crate::ast::NodeView::Markdown(s), 1)));
            assert(parser::resume_at(0, 1, toks.len() as int) == 1);
            assert(parser::spec_parse_nodes(toks, 1, None) == Ok::<
                (Seq<crate::ast::NodeView>, int),
                Seq<char>,
            >((Seq::empty(), 1)));
            assert(parser::spec_parse_nodes(toks, 0, None) == Ok::<
                (Seq<crate::ast::NodeView>, int),
                Seq<char>,
            >((seq![crate::ast::NodeView::Markdown(s)] + Seq::<crate::ast::NodeView>::empty(), 1)));
            assert(seq![crate::ast::NodeView::Markdown(s)] + Seq::<crate::ast::NodeView>::empty()
                =~= doc);
        }
        assert(crate::transform::xform_tops(doc, cfg, &NoResolver) =~= s) by {
            assert(doc[0] == crate::ast::NodeView::Markdown(s));
            assert(crate::transform::xform_node(doc[0], cfg, &NoResolver) == s);
            assert(doc.drop_first() =~= Seq::<crate::ast::NodeView>::empty());
            assert(crate::transform::xform_tops(
                Seq::<crate::ast::NodeView>::empty(),
                cfg,
                &NoResolver,
            ) == Seq::<char>::empty());
            assert(crate::transform::xform_tops(doc, cfg, &NoResolver) == s + Seq::<char>::empty());
            assert(s + Seq::<char>::empty() =~= s);
        }
        assert(spec_rewrite_markdown(cbl_spec(s), cfg) == cbl_spec(s));
    } else {
        assert(toks =~= Seq::<TokenView>::empty());
        assert(spec_parse(toks) == Ok::<Seq<crate::ast::NodeView>, Seq<char>>(Seq::empty()));
        assert(spec_transform(Seq::empty(), cfg, &NoResolver) == cbl_spec(s)) by {
            assert(crate::transform::xform_tops(Seq::<crate::ast::NodeView>::empty(), cfg, &NoResolver)
                =~= Seq::<char>::empty());
            assert(crate::transform::cbl_from(Seq::<char>::empty(), 0, 0) =~= Seq::<char>::empty());
            assert(crate::transform::cbl_from(s, 0, 0) =~= Seq::<char>::empty());
        }
        assert(spec_rewrite_markdown(cbl_spec(s), cfg) == cbl_spec(s));
    }
}

} // verus!
