//! The conversion configuration: global options, the tag-to-template table,
//! and the markdown rewrite settings. A configuration is built once and only
//! read during a conversion.
use vstd::prelude::*;

verus! {

/// Everything a conversion needs to know.
#[derive(Debug, Clone)]
pub struct Config {
    pub options: Options,
    /// Tag name to component transform, in insertion order; the first entry
    /// with a given name wins. The name `_default` is the fallback.
    pub components: Vec<(String, ComponentTransform)>,
    pub markdown: MarkdownRewrites,
}

/// Global options for the transform stage.
#[derive(Debug, Clone)]
pub struct Options {
    pub strip_imports: bool,
    pub strip_exports: bool,
    pub expression_handling: ExpressionHandling,
    pub preserve_frontmatter: bool,
}

/// What becomes of `{expression}` placeholders.
#[derive(Debug, Clone, Copy, PartialEq, Eq, Structural)]
pub enum ExpressionHandling {
    Strip,
    PreserveRaw,
    Placeholder,
}

/// How one component tag is rendered.
#[derive(Debug, Clone)]
pub struct ComponentTransform {
    pub template: String,
}

/// The rewriter's settings.
#[derive(Debug, Clone)]
pub struct MarkdownRewrites {
    pub tables: Option<TableRewrite>,
    pub links: Option<LinkRewrite>,
    pub images: Option<ImageRewrite>,
    pub strip_html_comments: bool,
    pub strip_doctype: bool,
}

/// Table handling.
#[derive(Debug, Clone, Copy, PartialEq, Eq, Structural)]
pub struct TableRewrite {
    pub format: TableFormat,
}

#[derive(Debug, Clone, Copy, PartialEq, Eq, Structural)]
pub enum TableFormat {
    Preserve,
    List,
}

/// Link rewriting: strip, domain allowlist, or absolutize.
#[derive(Debug, Clone)]
pub struct LinkRewrite {
    pub make_absolute: bool,
    pub base_url: String,
    pub strip: bool,
    pub allowed_domains: Vec<String>,
}

/// Image rewriting: strip or absolutize.
#[derive(Debug, Clone)]
pub struct ImageRewrite {
    pub make_absolute: bool,
    pub base_url: String,
    pub strip: bool,
}

impl Default for Options {
    /// Strip imports and exports, strip expressions, keep front matter.
    fn default() -> (r: Self)
        ensures
            r.strip_imports == true,
            r.strip_exports == true,
            r.expression_handling == ExpressionHandling::Strip,
            r.preserve_frontmatter == true,
    {
        Options {
            strip_imports: true,
            strip_exports: true,
            expression_handling: ExpressionHandling::Strip,
            preserve_frontmatter: true,
        }
    }
}

impl Default for MarkdownRewrites {
    /// No table, link or image rewriting; comments kept.
    fn default() -> (r: Self)
        ensures
            r.tables is None,
            r.links is None,
            r.images is None,
            r.strip_html_comments == false,
            r.strip_doctype == true,
    {
        MarkdownRewrites {
            tables: None,
            links: None,
            images: None,
            strip_html_comments: false,
            strip_doctype: true,
        }
    }
}

impl Default for Config {
    /// Default options, no component templates, no markdown rewrites.
    fn default() -> (r: Self)
        ensures
            r.options.strip_imports == true,
            r.options.strip_exports == true,
            r.options.expression_handling == ExpressionHandling::Strip,
            r.options.preserve_frontmatter == true,
            r.components@.len() == 0,
            r.markdown.tables is None,
            r.markdown.links is None,
            r.markdown.images is None,
            r.markdown.strip_html_comments == false,
            r.markdown.strip_doctype == true,
    {
        Config {
            options: Options::default(),
            components: Vec::new(),
            markdown: MarkdownRewrites::default(),
        }
    }
}

// ---------------------------------------------------------------------------
// Component lookup
// ---------------------------------------------------------------------------

/// The component table as pairs of name and template text.
pub open spec fn components_view(cs: Seq<(String, ComponentTransform)>) -> Seq<
    (Seq<char>, Seq<char>),
> {
    cs.map_values(|p: (String, ComponentTransform)| (p.0@, p.1.template@))
}

/// The template of the first entry named `name`, if any.
pub open spec fn lookup_spec(cs: Seq<(Seq<char>, Seq<char>)>, name: Seq<char>) -> Option<Seq<char>>
    decreases cs.len(),
{
    if cs.len() == 0 {
        None
    } else if cs[0].0 == name {
        Some(cs[0].1)
    } else {
        lookup_spec(cs.drop_first(), name)
    }
}

/// Find the first component entry named `name`.
pub fn lookup_component<'a>(cs: &'a Vec<(String, ComponentTransform)>, name: &String) -> (r:
    Option<&'a ComponentTransform>)
    ensures
        match r {
            Some(ct) => lookup_spec(components_view(cs@), name@) == Some(ct.template@),
            None => lookup_spec(components_view(cs@), name@) is None,
        },
{
    let ghost cv = components_view(cs@);
    proof {
        assert(cv.skip(0) =~= cv);
    }
    let mut k: usize = 0;
    while k < cs.len()
        invariant
            k <= cs@.len(),
            cv == components_view(cs@),
            cv.len() == cs@.len(),
            lookup_spec(cv, name@) == lookup_spec(cv.skip(k as int), name@),
        decreases cs@.len() - k,
    {
        proof {
            assert(cv.skip(k as int)[0] == cv[k as int]);
            assert(cv.skip(k as int).drop_first() =~= cv.skip(k as int + 1));
        }
        if cs[k].0.eq(name) {
            return Some(&cs[k].1);
        }
        k += 1;
    }
    None
}

} // verus!
