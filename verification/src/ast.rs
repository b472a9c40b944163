//! Syntax nodes produced by the line parser, one per logical unit: a block
//! construct collapses several physical lines into one node and records the
//! line number of its first line.
use vstd::prelude::*;

verus! {

/// The view of an optional owned string.
pub open spec fn opt_view(o: Option<String>) -> Option<Seq<char>> {
    match o {
        Some(s) => Some(s@),
        None => None,
    }
}

#[derive(Debug, Clone, Copy, PartialEq, Eq, Structural)]
pub enum StatementKind {
    Left,
    Right,
    Narration,
}

#[derive(Debug, Clone, PartialEq)]
pub struct Statement {
    pub kind: StatementKind,
    pub speaker: Option<String>,
    pub content: String,
    pub line_no: usize,
}

#[verifier::ext_equal]
pub ghost struct StatementV {
    pub kind: StatementKind,
    pub speaker: Option<Seq<char>>,
    pub content: Seq<char>,
    pub line_no: usize,
}

impl View for Statement {
    type V = StatementV;

    open spec fn view(&self) -> StatementV {
        StatementV {
            kind: self.kind,
            speaker: opt_view(self.speaker),
            content: self.content@,
            line_no: self.line_no,
        }
    }
}

#[derive(Debug, Clone, PartialEq)]
pub struct Directive {
    pub name: String,
    pub payload: String,
    pub line_no: usize,
}

#[verifier::ext_equal]
pub ghost struct DirectiveV {
    pub name: Seq<char>,
    pub payload: Seq<char>,
    pub line_no: usize,
}

impl View for Directive {
    type V = DirectiveV;

    open spec fn view(&self) -> DirectiveV {
        DirectiveV { name: self.name@, payload: self.payload@, line_no: self.line_no }
    }
}

#[derive(Debug, Clone, Copy, PartialEq, Eq, Structural)]
pub struct BlankLine {
    pub line_no: usize,
}

#[derive(Debug, Clone, PartialEq)]
pub struct Continuation {
    pub text: String,
    pub line_no: usize,
}

#[verifier::ext_equal]
pub ghost struct ContinuationV {
    pub text: Seq<char>,
    pub line_no: usize,
}

impl View for Continuation {
    type V = ContinuationV;

    open spec fn view(&self) -> ContinuationV {
        ContinuationV { text: self.text@, line_no: self.line_no }
    }
}

/// A reply-choice block; its items are the individual choices.
#[derive(Debug, Clone, PartialEq)]
pub struct Reply {
    pub items: Vec<String>,
    pub line_no: usize,
}

#[verifier::ext_equal]
pub ghost struct ReplyV {
    pub items: Seq<Seq<char>>,
    pub line_no: usize,
}

impl View for Reply {
    type V = ReplyV;

    open spec fn view(&self) -> ReplyV {
        ReplyV { items: self.items.deep_view(), line_no: self.line_no }
    }
}

/// A header-style directive whose payload may span a quoted block.
#[derive(Debug, Clone, PartialEq)]
pub struct Bond {
    pub content: String,
    pub line_no: usize,
}

#[verifier::ext_equal]
pub ghost struct BondV {
    pub content: Seq<char>,
    pub line_no: usize,
}

impl View for Bond {
    type V = BondV;

    open spec fn view(&self) -> BondV {
        BondV { content: self.content@, line_no: self.line_no }
    }
}

#[derive(Debug, Clone, Copy, PartialEq, Eq, Structural)]
pub enum BlockKind {
    Reply,
    TripleQuote,
}

#[derive(Debug, Clone, PartialEq)]
pub struct Block {
    pub kind: BlockKind,
    pub content: String,
    pub line_no: usize,
}

#[verifier::ext_equal]
pub ghost struct BlockV {
    pub kind: BlockKind,
    pub content: Seq<char>,
    pub line_no: usize,
}

impl View for Block {
    type V = BlockV;

    open spec fn view(&self) -> BlockV {
        BlockV { kind: self.kind, content: self.content@, line_no: self.line_no }
    }
}

#[derive(Debug, Clone, PartialEq)]
pub enum Node {
    Statement(Statement),
    Directive(Directive),
    Continuation(Continuation),
    BlankLine(BlankLine),
    Reply(Reply),
    Bond(Bond),
    Block(Block),
    Comment(String),
    Empty,
}

#[verifier::ext_equal]
pub ghost enum NodeV {
    Statement(StatementV),
    Directive(DirectiveV),
    Continuation(ContinuationV),
    BlankLine(BlankLine),
    Reply(ReplyV),
    Bond(BondV),
    Block(BlockV),
    Comment(Seq<char>),
    Empty,
}

impl View for Node {
    type V = NodeV;

    open spec fn view(&self) -> NodeV {
        match self {
            Node::Statement(s) => NodeV::Statement(s@),
            Node::Directive(d) => NodeV::Directive(d@),
            Node::Continuation(c) => NodeV::Continuation(c@),
            Node::BlankLine(b) => NodeV::BlankLine(*b),
            Node::Reply(r) => NodeV::Reply(r@),
            Node::Bond(b) => NodeV::Bond(b@),
            Node::Block(b) => NodeV::Block(b@),
            Node::Comment(s) => NodeV::Comment(s@),
            Node::Empty => NodeV::Empty,
        }
    }
}

/// The views of a sequence of nodes.
pub open spec fn node_views(s: Seq<Node>) -> Seq<NodeV> {
    s.map_values(|n: Node| n@)
}

} // verus!
