//! Structural analysis: recursive descent over the token sequence, matching
//! each JSX open tag with its close tag at the same nesting depth. Any
//! mismatch aborts the whole parse with a diagnostic message whose exact
//! text is part of the contract.
use crate::ast::{
    lemma_nodes_view_push, node_view, nodes_view, Attribute, AttrValue, MdxDocument, MdxNode,
    NodeView,
};
use crate::tokenizer::{tokens_view, RawAttrValue, RawAttribute, Token, TokenView};
use vstd::prelude::*;
use vstd::string::StringExecFns;

verus! {

/// A structural error: the token sequence does not form a well-nested
/// document.
#[derive(Debug, Clone, PartialEq)]
pub struct ParseError {
    pub message: String,
}

// ---------------------------------------------------------------------------
// Diagnostic messages
// ---------------------------------------------------------------------------

pub open spec fn msg_close_expected(tag: Seq<char>, expected: Seq<char>) -> Seq<char> {
    "Unexpected closing tag </"@ + tag + ">, expected </"@ + expected + ">"@
}

pub open spec fn msg_close_no_open(tag: Seq<char>) -> Seq<char> {
    "Unexpected closing tag </"@ + tag + "> with no matching open tag"@
}

pub open spec fn msg_close_bare(tag: Seq<char>) -> Seq<char> {
    "Unexpected closing tag </"@ + tag + ">"@
}

pub open spec fn msg_unclosed(expected: Seq<char>) -> Seq<char> {
    "Unclosed JSX element <"@ + expected + ">: reached end of input"@
}

pub open spec fn msg_eof() -> Seq<char> {
    "Unexpected end of input"@
}

// ---------------------------------------------------------------------------
// The parse, as a specification
// ---------------------------------------------------------------------------

/// The position to resume from after a node that ended at `q`: `q` itself
/// whenever it lies properly between `pos` and `n`, as a parsed node's end
/// always does (`lemma_spec_parse_node_bounds`). The fallback arm only
/// makes the recursion visibly bounded.
pub open spec fn resume_at(pos: int, q: int, n: int) -> int {
    if pos < q && q <= n {
        q
    } else {
        pos + 1
    }
}

/// Parse nodes from `pos` until a close tag matching `until` (or the end of
/// the tokens, if `until` is `None`). Returns the nodes and the position
/// just past what was consumed, or the diagnostic message.
pub open spec fn spec_parse_nodes(
    toks: Seq<TokenView>,
    pos: int,
    until: Option<Seq<char>>,
) -> Result<(Seq<NodeView>, int), Seq<char>>
    decreases toks.len() - pos, 1int,
{
    if pos < 0 || pos >= toks.len() {
        match until {
            Some(expected) => Err(msg_unclosed(expected)),
            None => Ok((Seq::empty(), toks.len() as int)),
        }
    } else {
        match toks[pos] {
            TokenView::JsxClose { tag } => match until {
                Some(expected) => if tag == expected {
                    Ok((Seq::empty(), pos + 1))
                } else {
                    Err(msg_close_expected(tag, expected))
                },
                None => Err(msg_close_no_open(tag)),
            },
            _ => match spec_parse_node(toks, pos) {
                Ok(np) => match spec_parse_nodes(
                    toks,
                    resume_at(pos, np.1, toks.len() as int),
                    until,
                ) {
                    Ok(nsp) => Ok((seq![np.0] + nsp.0, nsp.1)),
                    Err(m) => Err(m),
                },
                Err(m) => Err(m),
            },
        }
    }
}

/// Parse the single node that starts at `pos`; an open tag recurses into
/// its children until the matching close tag.
pub open spec fn spec_parse_node(toks: Seq<TokenView>, pos: int) -> Result<
    (NodeView, int),
    Seq<char>,
>
    decreases toks.len() - pos, 0int,
{
    if pos < 0 || pos >= toks.len() {
        Err(msg_eof())
    } else {
        match toks[pos] {
            TokenView::Frontmatter(c) => Ok((NodeView::Frontmatter(c), pos + 1)),
            TokenView::Import(c) => Ok((NodeView::Import(c), pos + 1)),
            TokenView::Export(c) => Ok((NodeView::Export(c), pos + 1)),
            TokenView::Markdown(c) => Ok((NodeView::Markdown(c), pos + 1)),
            TokenView::Expression(c) => Ok((NodeView::Expression(c), pos + 1)),
            TokenView::JsxOpen { tag, attributes, self_closing } => if self_closing {
                Ok(
                    (
                        NodeView::Element {
                            tag,
                            attributes,
                            children: Seq::empty(),
                            self_closing: true,
                        },
                        pos + 1,
                    ),
                )
            } else {
                match spec_parse_nodes(toks, pos + 1, Some(tag)) {
                    Ok(cp) => Ok(
                        (
                            NodeView::Element {
                                tag,
                                attributes,
                                children: cp.0,
                                self_closing: false,
                            },
                            cp.1,
                        ),
                    ),
                    Err(m) => Err(m),
                }
            },
            TokenView::JsxClose { tag } => Err(msg_close_bare(tag)),
        }
    }
}

/// A parsed node ends strictly after it starts, within the tokens.
pub proof fn lemma_spec_parse_node_bounds(toks: Seq<TokenView>, pos: int)
    requires
        0 <= pos <= toks.len(),
    ensures
        spec_parse_node(toks, pos) matches Ok(np) ==> pos < np.1 <= toks.len(),
    decreases toks.len() - pos, 0int,
{
    if pos < toks.len() {
        match toks[pos] {
            TokenView::JsxOpen { tag, attributes, self_closing } => {
                if !self_closing {
                    lemma_spec_parse_nodes_bounds(toks, pos + 1, Some(tag));
                }
            },
            _ => (),
        }
    }
}

/// A parsed node run never moves backwards and stays within the tokens.
pub proof fn lemma_spec_parse_nodes_bounds(toks: Seq<TokenView>, pos: int, until: Option<
    Seq<char>,
>)
    requires
        0 <= pos <= toks.len(),
    ensures
        spec_parse_nodes(toks, pos, until) matches Ok(nsp) ==> pos <= nsp.1 <= toks.len(),
    decreases toks.len() - pos, 1int,
{
    if pos < toks.len() {
        match toks[pos] {
            TokenView::JsxClose { tag } => (),
            _ => {
                lemma_spec_parse_node_bounds(toks, pos);
                match spec_parse_node(toks, pos) {
                    Ok(np) => {
                        lemma_spec_parse_nodes_bounds(
                            toks,
                            resume_at(pos, np.1, toks.len() as int),
                            until,
                        );
                    },
                    Err(m) => (),
                }
            },
        }
    }
}

/// The whole document: top-level nodes, no enclosing tag.
pub open spec fn spec_parse(toks: Seq<TokenView>) -> Result<Seq<NodeView>, Seq<char>> {
    match spec_parse_nodes(toks, 0, None) {
        Ok(np) => Ok(np.0),
        Err(m) => Err(m),
    }
}

// ---------------------------------------------------------------------------
// The executable parser
// ---------------------------------------------------------------------------

/// The view of an optional borrowed tag name.
pub open spec fn opt_name(u: Option<&String>) -> Option<Seq<char>> {
    match u {
        Some(s) => Some(s@),
        None => None,
    }
}

/// Copy a raw attribute vector, preserving its view.
fn clone_raw_attrs(attrs: &Vec<RawAttribute>) -> (r: Vec<RawAttribute>)
    ensures
        r@.map_values(|a: RawAttribute| a@) == attrs@.map_values(|a: RawAttribute| a@),
{
    let mut out: Vec<RawAttribute> = Vec::new();
    let mut k: usize = 0;
    while k < attrs.len()
        invariant
            k <= attrs@.len(),
            out@.len() == k,
            forall|m: int| 0 <= m < k ==> #[trigger] out@[m]@ == attrs@[m]@,
        decreases attrs@.len() - k,
    {
        let a = &attrs[k];
        let v = match &a.value {
            Some(RawAttrValue::String(s)) => Some(RawAttrValue::String(s.clone())),
            Some(RawAttrValue::Expression(e)) => Some(RawAttrValue::Expression(e.clone())),
            None => None,
        };
        out.push(RawAttribute { name: a.name.clone(), value: v });
        k += 1;
    }
    proof {
        assert(out@.map_values(|a: RawAttribute| a@) =~= attrs@.map_values(
            |a: RawAttribute| a@,
        ));
    }
    out
}

/// Copy a token, preserving its view.
fn clone_token(t: &Token) -> (r: Token)
    ensures
        r@ == t@,
{
    match t {
        Token::Frontmatter(c) => Token::Frontmatter(c.clone()),
        Token::Import(c) => Token::Import(c.clone()),
        Token::Export(c) => Token::Export(c.clone()),
        Token::Markdown(c) => Token::Markdown(c.clone()),
        Token::Expression(c) => Token::Expression(c.clone()),
        Token::JsxOpenTag { tag, attributes, self_closing } => Token::JsxOpenTag {
            tag: tag.clone(),
            attributes: clone_raw_attrs(attributes),
            self_closing: *self_closing,
        },
        Token::JsxCloseTag { tag } => Token::JsxCloseTag { tag: tag.clone() },
    }
}

/// Turn scanned attributes into document attributes, preserving their view.
fn convert_attrs(attrs: &Vec<RawAttribute>) -> (r: Vec<Attribute>)
    ensures
        r@.map_values(|a: Attribute| a@) == attrs@.map_values(|a: RawAttribute| a@),
{
    let mut out: Vec<Attribute> = Vec::new();
    let mut k: usize = 0;
    while k < attrs.len()
        invariant
            k <= attrs@.len(),
            out@.len() == k,
            forall|m: int| 0 <= m < k ==> #[trigger] out@[m]@ == attrs@[m]@,
        decreases attrs@.len() - k,
    {
        let a = &attrs[k];
        let v = match &a.value {
            Some(RawAttrValue::String(s)) => Some(AttrValue::String(s.clone())),
            Some(RawAttrValue::Expression(e)) => Some(AttrValue::Expression(e.clone())),
            None => None,
        };
        out.push(Attribute { name: a.name.clone(), value: v });
        k += 1;
    }
    proof {
        assert(out@.map_values(|a: Attribute| a@) =~= attrs@.map_values(|a: RawAttribute| a@));
    }
    out
}

/// One cursor over the token sequence.
struct Parser {
    tokens: Vec<Token>,
    pos: usize,
}

impl Parser {
    fn new(tokens: Vec<Token>) -> (p: Self)
        ensures
            p.tokens == tokens,
            p.pos == 0,
    {
        Parser { tokens, pos: 0 }
    }

    /// Parse nodes until a close tag matching `until` or the end of input.
    fn parse_nodes(&mut self, until: Option<&String>) -> (r: Result<Vec<MdxNode>, ParseError>)
        requires
            old(self).pos <= old(self).tokens@.len(),
        ensures
            final(self).tokens == old(self).tokens,
            old(self).pos <= final(self).pos <= final(self).tokens@.len(),
            (match r {
                Ok(ns) => spec_parse_nodes(
                    tokens_view(old(self).tokens@),
                    old(self).pos as int,
                    opt_name(until),
                ) == Ok::<_, Seq<char>>((nodes_view(ns@), final(self).pos as int)),
                Err(e) => spec_parse_nodes(
                    tokens_view(old(self).tokens@),
                    old(self).pos as int,
                    opt_name(until),
                ) == Err::<(Seq<NodeView>, int), _>(e.message@),
            }),
        decreases self.tokens@.len() - self.pos, 1int,
    {
        let ghost t0 = tokens_view(self.tokens@);
        let ghost p0 = self.pos;
        let ghost uv = opt_name(until);
        let mut nodes: Vec<MdxNode> = Vec::new();
        proof {
            assert(nodes_view(nodes@) =~= Seq::<NodeView>::empty());
        }
        loop
            invariant
                self.tokens == old(self).tokens,
                t0 == tokens_view(self.tokens@),
                p0 == old(self).pos,
                uv == opt_name(until),
                p0 <= self.pos <= self.tokens@.len(),
                spec_parse_nodes(t0, p0 as int, uv) == (match spec_parse_nodes(
                    t0,
                    self.pos as int,
                    uv,
                ) {
                    Ok(np) => Ok::<_, Seq<char>>((nodes_view(nodes@) + np.0, np.1)),
                    Err(m) => Err::<(Seq<NodeView>, int), _>(m),
                }),
            decreases self.tokens@.len() - self.pos,
        {
            if self.pos >= self.tokens.len() {
                match until {
                    Some(expected) => {
                        let mut m = String::new();
                        m.append("Unclosed JSX element <");
                        m.append(expected.as_str());
                        m.append(">: reached end of input");
                        proof {
                            assert(m@ =~= msg_unclosed(expected@));
                        }
                        return Err(ParseError { message: m });
                    },
                    None => {
                        proof {
                            assert(nodes_view(nodes@) + Seq::<NodeView>::empty() =~= nodes_view(
                                nodes@,
                            ));
                        }
                        return Ok(nodes);
                    },
                }
            }
            match &self.tokens[self.pos] {
                Token::JsxCloseTag { tag } => {
                    match until {
                        Some(expected) => {
                            if tag.eq(expected) {
                                self.pos += 1;
                                proof {
                                    assert(nodes_view(nodes@) + Seq::<NodeView>::empty()
                                        =~= nodes_view(nodes@));
                                }
                                return Ok(nodes);
                            }
                            let mut m = String::new();
                            m.append("Unexpected closing tag </");
                            m.append(tag.as_str());
                            m.append(">, expected </");
                            m.append(expected.as_str());
                            m.append(">");
                            proof {
                                assert(m@ =~= msg_close_expected(tag@, expected@));
                            }
                            return Err(ParseError { message: m });
                        },
                        None => {
                            let mut m = String::new();
                            m.append("Unexpected closing tag </");
                            m.append(tag.as_str());
                            m.append("> with no matching open tag");
                            proof {
                                assert(m@ =~= msg_close_no_open(tag@));
                            }
                            return Err(ParseError { message: m });
                        },
                    }
                },
                _ => {},
            }
            let ghost nodes_before = nodes@;
            match self.parse_node() {
                Ok(nd) => {
                    proof {
                        lemma_nodes_view_push(nodes_before, nd);
                    }
                    nodes.push(nd);
                    proof {
                        match spec_parse_nodes(t0, self.pos as int, uv) {
                            Ok(nsp) => {
                                assert(nodes_view(nodes@) + nsp.0 =~= nodes_view(nodes_before) + (
                                seq![node_view(nd)] + nsp.0));
                            },
                            Err(m) => (),
                        }
                    }
                },
                Err(e) => {
                    return Err(e);
                },
            }
        }
    }

    /// Parse the single node that starts at the cursor.
    fn parse_node(&mut self) -> (r: Result<MdxNode, ParseError>)
        requires
            old(self).pos < old(self).tokens@.len(),
        ensures
            final(self).tokens == old(self).tokens,
            old(self).pos < final(self).pos <= final(self).tokens@.len(),
            (match r {
                Ok(nd) => spec_parse_node(tokens_view(old(self).tokens@), old(self).pos as int)
                    == Ok::<_, Seq<char>>((node_view(nd), final(self).pos as int)),
                Err(e) => spec_parse_node(tokens_view(old(self).tokens@), old(self).pos as int)
                    == Err::<(NodeView, int), _>(e.message@),
            }),
        decreases self.tokens@.len() - self.pos, 0int,
    {
        let ghost t0 = tokens_view(self.tokens@);
        let ghost p0 = self.pos;
        let _n = self.tokens.len();
        let t = clone_token(&self.tokens[self.pos]);
        self.pos += 1;
        match t {
            Token::Frontmatter(c) => Ok(MdxNode::Frontmatter(c)),
            Token::Import(c) => Ok(MdxNode::Import(c)),
            Token::Export(c) => Ok(MdxNode::Export(c)),
            Token::Markdown(c) => Ok(MdxNode::Markdown(c)),
            Token::Expression(c) => Ok(MdxNode::Expression(c)),
            Token::JsxOpenTag { tag, attributes, self_closing } => {
                let attrs = convert_attrs(&attributes);
                if self_closing {
                    let nd = MdxNode::JsxElement {
                        tag,
                        attributes: attrs,
                        children: Vec::new(),
                        self_closing: true,
                    };
                    proof {
                        assert(node_view(nd) matches NodeView::Element { children, .. }
                            && children =~= Seq::<NodeView>::empty());
                    }
                    Ok(nd)
                } else {
                    match self.parse_nodes(Some(&tag)) {
                        Ok(children) => Ok(
                            MdxNode::JsxElement {
                                tag,
                                attributes: attrs,
                                children,
                                self_closing: false,
                            },
                        ),
                        Err(e) => Err(e),
                    }
                }
            },
            Token::JsxCloseTag { tag } => {
                let mut m = String::new();
                m.append("Unexpected closing tag </");
                m.append(tag.as_str());
                m.append(">");
                proof {
                    assert(m@ =~= msg_close_bare(tag@));
                }
                Err(ParseError { message: m })
            },
        }
    }
}

/// Build the document tree from a token sequence. Returns exactly the nodes
/// that `spec_parse` assigns, or the error whose message `spec_parse` gives.
pub fn parse(tokens: Vec<Token>) -> (r: Result<MdxDocument, ParseError>)
    ensures
        match r {
            Ok(doc) => spec_parse(tokens_view(tokens@)) == Ok::<_, Seq<char>>(doc@),
            Err(e) => spec_parse(tokens_view(tokens@)) == Err::<Seq<NodeView>, _>(e.message@),
        },
{
    let mut parser = Parser::new(tokens);
    match parser.parse_nodes(None) {
        Ok(nodes) => Ok(MdxDocument { nodes }),
        Err(e) => Err(e),
    }
}

} // verus!
