//! The tree builder: pulls tokens from the scanner and assembles an ordered
//! forest of elements and text leaves.

use vstd::prelude::*;
use crate::text::{trim, trimmed};
use crate::tokenizer::{
    lemma_step, measure, start_state, step, valid_state, Lexeme, ScanState, Token, TokenClass,
    TokenKind, Tokenizer,
};

verus! {

/// A node of the tree in the model: a text lexeme, or an element with its
/// tag name, its (name, value) attribute pairs and its children.
pub enum NodeModel {
    Text(Lexeme),
    Element(Lexeme, Seq<(Lexeme, Lexeme)>, Seq<NodeModel>),
}

/// The attributes of an opening tag, read from state `st`: each attribute
/// name paired with the token after it, up to `>` or the end of the tokens.
pub open spec fn attribute_list(s: Seq<char>, st: ScanState) -> (Seq<(Lexeme, Lexeme)>, ScanState)
    decreases measure(s, st),
    when valid_state(s, st)
    via attribute_list_decreases
{
    let (t, st1) = step(s, st);
    match t {
        None => (Seq::empty(), st1),
        Some(lx) => match lx.class {
            TokenClass::OpeningTagEnd => (Seq::empty(), st1),
            TokenClass::AttributeName => {
                let (v, st2) = step(s, st1);
                match v {
                    None => (Seq::empty(), st2),
                    Some(vx) => {
                        let (rest, st3) = attribute_list(s, st2);
                        (seq![(lx, vx)] + rest, st3)
                    },
                }
            },
            _ => attribute_list(s, st1),
        },
    }
}

#[via_fn]
proof fn attribute_list_decreases(s: Seq<char>, st: ScanState) {
    lemma_step(s, st);
    if step(s, st).0 is Some {
        lemma_step(s, step(s, st).1);
    }
}

pub proof fn lemma_attribute_list(s: Seq<char>, st: ScanState)
    requires
        valid_state(s, st),
    ensures
        valid_state(s, attribute_list(s, st).1),
        measure(s, attribute_list(s, st).1) <= measure(s, st),
    decreases measure(s, st),
{
    lemma_step(s, st);
    let st1 = step(s, st).1;
    if step(s, st).0 is Some {
        lemma_step(s, st1);
        let st2 = step(s, st1).1;
        let lx = step(s, st).0->0;
        if lx.class is AttributeName {
            if step(s, st1).0 is Some {
                lemma_attribute_list(s, st2);
            }
        } else if !(lx.class is OpeningTagEnd) {
            lemma_attribute_list(s, st1);
        }
    }
}

/// The nodes read from state `st` until the scanner yields nothing. An
/// opening tag takes its attributes, then every node read after them as its
/// children; closing tags and stray tokens are dropped.
pub open spec fn forest(s: Seq<char>, st: ScanState) -> (Seq<NodeModel>, ScanState)
    decreases measure(s, st),
    when valid_state(s, st)
    via forest_decreases
{
    let (t, st1) = step(s, st);
    match t {
        None => (Seq::empty(), st1),
        Some(lx) => match lx.class {
            TokenClass::TagName => {
                let (attrs, st2) = attribute_list(s, st1);
                let (children, st3) = forest(s, st2);
                let element = NodeModel::Element(lx, attrs, children);
                if valid_state(s, st3) && measure(s, st3) < measure(s, st) {
                    let (rest, st4) = forest(s, st3);
                    (seq![element] + rest, st4)
                } else {
                    (seq![element], st3)
                }
            },
            TokenClass::Text => {
                let (rest, st2) = forest(s, st1);
                (seq![NodeModel::Text(lx)] + rest, st2)
            },
            _ => forest(s, st1),
        },
    }
}

#[via_fn]
proof fn forest_decreases(s: Seq<char>, st: ScanState) {
    lemma_step(s, st);
    if step(s, st).0 is Some {
        lemma_attribute_list(s, step(s, st).1);
    }
}

pub proof fn lemma_forest(s: Seq<char>, st: ScanState)
    requires
        valid_state(s, st),
    ensures
        valid_state(s, forest(s, st).1),
        measure(s, forest(s, st).1) <= measure(s, st),
    decreases measure(s, st),
{
    lemma_step(s, st);
    let st1 = step(s, st).1;
    if step(s, st).0 is Some {
        let lx = step(s, st).0->0;
        if lx.class is TagName {
            lemma_attribute_list(s, st1);
            let st2 = attribute_list(s, st1).1;
            lemma_forest(s, st2);
            let st3 = forest(s, st2).1;
            lemma_forest(s, st3);
        } else {
            lemma_forest(s, st1);
        }
    }
}

/// A node of the tree: a text leaf or an element.
#[derive(Debug)]
pub struct Node<'a> {
    pub kind: NodeKind<'a>,
}

#[derive(Debug)]
pub enum NodeKind<'a> {
    Text(Token<'a>),
    Element(Element<'a>),
}

/// An element: its tag name token, its attributes and its children, in
/// document order.
#[derive(Debug)]
pub struct Element<'a> {
    pub attributes: Vec<Attribute<'a>>,
    pub children: Vec<Node<'a>>,
    pub tag_name: Token<'a>,
}

/// An attribute: its name token and the token read as its value.
#[derive(Debug)]
pub struct Attribute<'a> {
    pub name: Token<'a>,
    pub value: Token<'a>,
}

/// The attributes `v` are the (name, value) lexemes `m` read from `s`.
pub open spec fn attributes_model(v: Seq<Attribute>, s: Seq<char>, m: Seq<(Lexeme, Lexeme)>) -> bool {
    &&& v.len() == m.len()
    &&& forall|i: int|
        0 <= i < v.len() ==> (#[trigger] v[i]).name.stands_for(s, m[i].0) && v[i].value.stands_for(
            s,
            m[i].1,
        )
}

/// The node `n` is the model node `m` read from `s`.
pub open spec fn node_models(n: Node, s: Seq<char>, m: NodeModel) -> bool
    decreases n,
{
    match n.kind {
        NodeKind::Text(t) => match m {
            NodeModel::Text(lx) => t.stands_for(s, lx),
            _ => false,
        },
        NodeKind::Element(e) => match m {
            NodeModel::Element(lx, attrs, kids) => {
                &&& e.tag_name.stands_for(s, lx)
                &&& attributes_model(e.attributes@, s, attrs)
                &&& e.children@.len() == kids.len()
                &&& forall|i: int|
                    0 <= i < kids.len() ==> node_models(#[trigger] e.children@[i], s, kids[i])
            },
            _ => false,
        },
    }
}

/// The nodes `v` are the model nodes `m` read from `s`, in order.
pub open spec fn forest_models(v: Seq<Node>, s: Seq<char>, m: Seq<NodeModel>) -> bool {
    &&& v.len() == m.len()
    &&& forall|i: int| 0 <= i < v.len() ==> node_models(#[trigger] v[i], s, m[i])
}

/// The tree builder over one input.
pub struct Parser<'a> {
    tokenizer: Tokenizer<'a>,
}

impl<'a> Parser<'a> {
    pub closed spec fn wf(self) -> bool {
        self.tokenizer.wf()
    }

    /// The (trimmed) text being read.
    pub closed spec fn input(self) -> Seq<char> {
        self.tokenizer.input()
    }

    pub closed spec fn state(self) -> ScanState {
        self.tokenizer.state()
    }

    /// A builder over `source` without its leading and trailing white space.
    pub fn new(source: &'a str) -> (r: Self)
        ensures
            r.wf(),
            r.input() == trimmed(source@),
            r.state() == start_state(),
    {
        let tokenizer = Tokenizer::new(trim(source));
        Self { tokenizer }
    }

    /// Reads nodes until the scanner yields nothing; an element's children
    /// are read by a nested call on the same scanner.
    pub fn parse(&mut self) -> (r: Vec<Node<'a>>)
        requires
            old(self).wf(),
        ensures
            final(self).wf(),
            final(self).input() == old(self).input(),
            forest_models(r@, old(self).input(), forest(old(self).input(), old(self).state()).0),
            final(self).state() == forest(old(self).input(), old(self).state()).1,
        decreases measure(old(self).input(), old(self).state()),
    {
        let ghost s = self.input();
        let ghost st0 = self.state();
        let ghost mut acc: Seq<NodeModel> = Seq::empty();
        proof {
            self.tokenizer.lemma_wf();
        }
        let mut nodes: Vec<Node<'a>> = Vec::new();
        loop
            invariant
                self.wf(),
                self.input() == s,
                s == old(self).input(),
                st0 == old(self).state(),
                valid_state(s, st0),
                valid_state(s, self.state()),
                measure(s, self.state()) <= measure(s, st0),
                forest_models(nodes@, s, acc),
                forest(s, st0).0 == acc + forest(s, self.state()).0,
                forest(s, st0).1 == forest(s, self.state()).1,
            decreases measure(s, self.state()),
        {
            let ghost st = self.state();
            proof {
                lemma_step(s, st);
            }
            match self.tokenizer.next() {
                None => {
                    assert(acc + Seq::<NodeModel>::empty() =~= acc);
                    return nodes;
                },
                Some(token) => {
                    let ghost lx = step(s, st).0->0;
                    let ghost st1 = step(s, st).1;
                    let class: u8 = match &token.kind {
                        TokenKind::TagName { .. } => 0,
                        TokenKind::Text { .. } => 1,
                        _ => 2,
                    };
                    if class == 0 {
                        proof {
                            lemma_attribute_list(s, st1);
                        }
                        let attributes = self.parse_attributes();
                        let ghost st2 = self.state();
                        proof {
                            self.tokenizer.lemma_wf();
                        }
                        let children = self.parse();
                        let ghost st3 = self.state();
                        proof {
                            lemma_forest(s, st2);
                        }
                        let ghost m = NodeModel::Element(lx, attribute_list(s, st1).0, forest(s, st2).0);
                        let element = Element { attributes, children, tag_name: token };
                        let node = Node { kind: NodeKind::Element(element) };
                        nodes.push(node);
                        proof {
                            assert(node_models(nodes@.last(), s, m));
                            assert(forest(s, st).0 == seq![m] + forest(s, st3).0);
                            acc = acc.push(m);
                            assert(forest_models(nodes@, s, acc));
                        }
                    } else if class == 1 {
                        let ghost m = NodeModel::Text(lx);
                        let node = Node { kind: NodeKind::Text(token) };
                        nodes.push(node);
                        proof {
                            assert(node_models(nodes@.last(), s, m));
                            acc = acc.push(m);
                            assert(forest_models(nodes@, s, acc));
                        }
                    }
                },
            }
        }
    }

    /// Reads the attributes of an opening tag, up to its `>`.
    fn parse_attributes(&mut self) -> (r: Vec<Attribute<'a>>)
        requires
            old(self).wf(),
        ensures
            final(self).wf(),
            final(self).input() == old(self).input(),
            attributes_model(r@, old(self).input(), attribute_list(old(self).input(), old(self).state()).0),
            final(self).state() == attribute_list(old(self).input(), old(self).state()).1,
    {
        let ghost s = self.input();
        let ghost st0 = self.state();
        let ghost mut acc: Seq<(Lexeme, Lexeme)> = Seq::empty();
        proof {
            self.tokenizer.lemma_wf();
        }
        let mut attributes: Vec<Attribute<'a>> = Vec::new();
        loop
            invariant
                self.wf(),
                self.input() == s,
                s == old(self).input(),
                st0 == old(self).state(),
                valid_state(s, st0),
                valid_state(s, self.state()),
                attributes_model(attributes@, s, acc),
                attribute_list(s, st0).0 == acc + attribute_list(s, self.state()).0,
                attribute_list(s, st0).1 == attribute_list(s, self.state()).1,
            decreases measure(s, self.state()),
        {
            let ghost st = self.state();
            proof {
                lemma_step(s, st);
            }
            match self.tokenizer.next() {
                None => {
                    assert(acc + Seq::<(Lexeme, Lexeme)>::empty() =~= acc);
                    return attributes;
                },
                Some(token) => {
                    let ghost lx = step(s, st).0->0;
                    let ghost st1 = step(s, st).1;
                    let class: u8 = match &token.kind {
                        TokenKind::AttributeName { .. } => 0,
                        TokenKind::OpeningTagEnd => 1,
                        _ => 2,
                    };
                    if class == 0 {
                        proof {
                            lemma_step(s, st1);
                        }
                        match self.tokenizer.next() {
                            None => {
                                assert(acc + Seq::<(Lexeme, Lexeme)>::empty() =~= acc);
                                return attributes;
                            },
                            Some(value_token) => {
                                let ghost vx = step(s, st1).0->0;
                                let attribute = Attribute { name: token, value: value_token };
                                attributes.push(attribute);
                                proof {
                                    let st2 = step(s, st1).1;
                                    assert(attribute_list(s, st).0 == seq![(lx, vx)] + attribute_list(s, st2).0);
                                    acc = acc.push((lx, vx));
                                    assert(acc + attribute_list(s, st2).0 =~= (acc.drop_last() + seq![(lx, vx)]) + attribute_list(s, st2).0);
                                }
                            },
                        }
                    } else if class == 1 {
                        assert(acc + Seq::<(Lexeme, Lexeme)>::empty() =~= acc);
                        return attributes;
                    }
                },
            }
        }
    }
}

impl<'a> Attribute<'a> {
    /// The value's text, without one layer of matching surrounding quotes.
    pub fn value_text(&self) -> (r: &'a str)
        ensures
            r@ == unquoted(self.value.span.source@),
    {
        let source = self.value.span.source;
        let n = source.unicode_len();
        if n >= 2 {
            let first = source.get_char(0);
            let last = source.get_char(n - 1);
            if (first == '"' || first == '\'') && last == first {
                return source.substring_char(1, n - 1);
            }
        }
        source
    }

    pub fn name_text(&self) -> (r: &'a str)
        ensures
            r == self.name.span.source,
    {
        self.name.span.source
    }
}

/// `t` without one layer of matching surrounding quote characters, if it
/// has one.
pub open spec fn unquoted(t: Seq<char>) -> Seq<char> {
    if t.len() >= 2 && (t[0] == '"' || t[0] == '\'') && t[t.len() - 1] == t[0] {
        t.subrange(1, t.len() - 1)
    } else {
        t
    }
}

} // verus!
