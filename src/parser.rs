use vstd::prelude::*;
use crate::rules::collected;
use crate::rules::converted;
use crate::rules::lemma_converted_bounded;
use crate::rules::lemma_resolved_shrinks;
use crate::rules::resolved;
use crate::rules::skipped;
use crate::rules::MAX_NESTING;
use crate::token::Token;
use crate::token::TokenType;
use crate::tree::leaf;
use crate::tree::Node;
use crate::tree::NodeModel;
use crate::tree::NodeType;
use crate::tree::Payload;
use crate::tree::PayloadModel;
use crate::tree::Tree;

verus! {

/// `s` read from its last element to its first.
spec fn reversed(s: Seq<Token>) -> Seq<Token> {
    Seq::new(s.len(), |i: int| s[s.len() - 1 - i])
}

/// Converts a token sequence into a tree, one token of lookahead at a time.
#[derive(Debug)]
pub struct Parser {
    /// The tokens not consumed yet, the next one last.
    tokens: Vec<Token>,
    pub tree: Tree,
}

impl Parser {
    /// The tokens not consumed yet, in source order.
    pub closed spec fn remaining(&self) -> Seq<Token> {
        reversed(self.tokens@)
    }

    /// The top-level nodes built so far.
    pub closed spec fn built(&self) -> Seq<NodeModel> {
        self.tree@
    }

    /// A parser over `tokens` with an empty tree.
    pub fn new(tokens: Vec<Token>) -> (r: Parser)
        ensures
            r.remaining() == tokens@,
            r.built() == Seq::<NodeModel>::empty(),
    {
        let mut source = tokens;
        let mut stack: Vec<Token> = Vec::new();
        loop
            invariant
                tokens@ == source@ + reversed(stack@),
            ensures
                tokens@ == reversed(stack@),
            decreases source.len(),
        {
            let ghost before = source@;
            let ghost stacked = stack@;
            match source.pop() {
                Some(t) => {
                    stack.push(t);
                    assert(reversed(stack@) =~= seq![t] + reversed(stacked));
                    assert(before =~= source@ + seq![t]);
                    assert(tokens@ =~= source@ + reversed(stack@));
                },
                None => {
                    assert(tokens@ =~= reversed(stack@));
                    break ;
                },
            }
        }
        Parser { tokens: stack, tree: Tree::new() }
    }

    /// Removes and returns the next token, if any is left.
    fn next(&mut self) -> (r: Option<Token>)
        ensures
            old(self).remaining().len() == 0 ==> r is None && final(self).remaining() == old(
                self,
            ).remaining(),
            old(self).remaining().len() > 0 ==> r == Some(old(self).remaining()[0])
                && final(self).remaining() == old(self).remaining().drop_first(),
            final(self).tree == old(self).tree,
    {
        let r = self.tokens.pop();
        assert(old(self).remaining().len() > 0 ==> self.remaining() =~= old(
            self,
        ).remaining().drop_first());
        r
    }

    /// The next token, left in place.
    fn peek(&self) -> (r: Option<&Token>)
        ensures
            self.remaining().len() == 0 ==> r is None,
            self.remaining().len() > 0 ==> (r matches Some(t) && *t == self.remaining()[0]),
    {
        let n = self.tokens.len();
        if n == 0 {
            None
        } else {
            Some(&self.tokens[n - 1])
        }
    }

    /// Converts every token left, appending the nodes to the tree in order.
    pub fn parse(&mut self)
        ensures
            final(self).built() == old(self).built() + converted(old(self).remaining()),
            final(self).remaining() == Seq::<Token>::empty(),
    {
        loop
            invariant
                old(self).tree@ + converted(old(self).remaining()) == self.tree@ + converted(
                    self.remaining(),
                ),
            ensures
                old(self).tree@ + converted(old(self).remaining()) == self.tree@,
                self.remaining() == Seq::<Token>::empty(),
            decreases self.remaining().len(),
        {
            let ghost tree_before = self.tree@;
            let ghost rest_before = self.remaining();
            match self.next() {
                Some(token) => {
                    let node = self.parse_token(token, 0);
                    proof {
                        assert(rest_before =~= seq![token] + rest_before.drop_first());
                        lemma_resolved_shrinks(rest_before, 0);
                    }
                    self.tree.add_node(node);
                    assert(converted(rest_before) == seq![node@] + converted(self.remaining()));
                    assert(tree_before + converted(rest_before) =~= self.tree@ + converted(
                        self.remaining(),
                    ));
                },
                None => {
                    assert(converted(rest_before) =~= Seq::<NodeModel>::empty());
                    assert(self.tree@ + converted(rest_before) =~= self.tree@);
                    break ;
                },
            }
        }
    }

    /// Removes the tokens of an argument list whose opener was just removed,
    /// up to and including its closer, without building nodes.
    fn skip_arguments(&mut self)
        ensures
            final(self).remaining() == skipped(old(self).remaining(), 1),
            final(self).tree == old(self).tree,
    {
        let ghost start = self.remaining();
        let size = self.tokens.len();
        let mut open: usize = 1;
        loop
            invariant_except_break
                open >= 1,
                skipped(start, 1) == skipped(self.remaining(), open as nat),
            invariant
                self.tree == old(self).tree,
                start.len() == size,
                open + self.remaining().len() <= start.len() + 1,
            ensures
                self.tree == old(self).tree,
                skipped(start, 1) == self.remaining(),
            decreases self.remaining().len(),
        {
            let ghost cur = self.remaining();
            match self.next() {
                None => {
                    break ;
                },
                Some(t) => {
                    if matches!(t.token_type, TokenType::RightParen) {
                        if open == 1 {
                            break ;
                        }
                        open = open - 1;
                    } else if matches!(t.token_type, TokenType::Identifier(_)) {
                        let nested = match self.peek() {
                            Some(u) => matches!(u.token_type, TokenType::LeftParen),
                            None => false,
                        };
                        if nested {
                            self.next();
                            open = open + 1;
                        }
                    }
                },
            }
        }
    }

    /// Resolves `token`, which was just removed from the front, into one node
    /// inside `depth` enclosing argument lists; for a call head, consumes its
    /// argument list too.
    fn parse_token(&mut self, token: Token, depth: usize) -> (node: Node)
        requires
            depth <= MAX_NESTING,
        ensures
            node@ == resolved(seq![token] + old(self).remaining(), depth as nat).0,
            final(self).remaining() == resolved(seq![token] + old(self).remaining(), depth as nat).1,
            final(self).tree == old(self).tree,
        decreases old(self).remaining().len(),
    {
        let ghost ts = seq![token] + self.remaining();
        assert(ts.drop_first() =~= self.remaining());
        let line = token.line;
        match token.token_type {
            TokenType::Number(f) => Node::new(NodeType::Number, Some(Payload::Number(f)), line),
            TokenType::Str(s) => Node::new(NodeType::String, Some(Payload::Text(s)), line),
            TokenType::Identifier(s) => {
                let call = match self.peek() {
                    Some(t) => matches!(t.token_type, TokenType::LeftParen),
                    None => false,
                };
                if !call {
                    Node::new(NodeType::Identifier, Some(Payload::Text(s)), line)
                } else if depth == MAX_NESTING {
                    self.next();
                    self.skip_arguments();
                    Node::new(NodeType::Error, None, line)
                } else {
                    self.next();
                    self.parse_call(s, line, depth + 1)
                }
            },
            TokenType::Operator(op) => Node::new(NodeType::Operator, Some(Payload::Text(op)), line),
            TokenType::Keyword(kw) => Node::new(NodeType::Keyword, Some(Payload::Text(kw)), line),
            _ => Node::new(NodeType::Error, None, line),
        }
    }

    /// Builds the call `name`, whose opener was just removed, from its
    /// arguments, each resolved inside `depth` argument lists; when the input
    /// ends before the closer, an error node follows the arguments collected.
    fn parse_call(&mut self, name: String, line: usize, depth: usize) -> (node: Node)
        requires
            1 <= depth <= MAX_NESTING,
        ensures
            ({
                let c = collected(old(self).remaining(), depth as nat);
                &&& node@ == (NodeModel {
                    kind: NodeType::FunctionCall,
                    payload: Some(PayloadModel::Text(name@)),
                    line,
                    children: if c.2 {
                        c.0
                    } else {
                        c.0.push(leaf(NodeType::Error, None, line))
                    },
                })
                &&& final(self).remaining() == c.1
            }),
            final(self).tree == old(self).tree,
        decreases old(self).remaining().len(),
    {
        let ghost args = self.remaining();
        let ghost d = depth as nat;
        let ghost text = name@;
        let mut node = Node::new(NodeType::FunctionCall, Some(Payload::Text(name)), line);
        let mut closed = false;
        loop
            invariant_except_break
                !closed,
                collected(args, d) == (
                    node@.children + collected(self.remaining(), d).0,
                    collected(self.remaining(), d).1,
                    collected(self.remaining(), d).2,
                ),
            invariant
                args == old(self).remaining(),
                d == depth as nat,
                1 <= depth <= MAX_NESTING,
                self.remaining().len() <= args.len(),
                self.tree == old(self).tree,
                node@.kind == NodeType::FunctionCall,
                node@.payload == Some(PayloadModel::Text(text)),
                node@.line == line,
            ensures
                self.tree == old(self).tree,
                node@.kind == NodeType::FunctionCall,
                node@.payload == Some(PayloadModel::Text(text)),
                node@.line == line,
                collected(args, d) == (node@.children, self.remaining(), closed),
            decreases self.remaining().len(),
        {
            let ghost cur = self.remaining();
            let ghost so_far = node@.children;
            match self.next() {
                None => {
                    assert(collected(cur, d) == (Seq::<NodeModel>::empty(), cur, false));
                    assert(so_far + collected(cur, d).0 =~= so_far);
                    break ;
                },
                Some(t) => {
                    if matches!(t.token_type, TokenType::RightParen) {
                        closed = true;
                        assert(collected(cur, d) == (
                            Seq::<NodeModel>::empty(),
                            self.remaining(),
                            true,
                        ));
                        assert(so_far + collected(cur, d).0 =~= so_far);
                        break ;
                    }
                    assert(cur =~= seq![t] + cur.drop_first());
                    let arg = self.parse_token(t, depth);
                    proof {
                        lemma_resolved_shrinks(cur, d);
                    }
                    node.add_child(arg);
                    assert(so_far + collected(cur, d).0 =~= node@.children + collected(
                        self.remaining(),
                        d,
                    ).0);
                },
            }
        }
        if !closed {
            node.add_child(Node::new(NodeType::Error, None, line));
        }
        node
    }
}

/// Converts a whole token sequence into a tree.
pub fn convert(tokens: Vec<Token>) -> (t: Tree)
    ensures
        t@ == converted(tokens@),
        t@.len() <= tokens@.len(),
{
    let mut parser = Parser::new(tokens);
    parser.parse();
    assert(parser.tree@ =~= converted(tokens@));
    proof {
        lemma_converted_bounded(tokens@);
    }
    parser.tree
}

} // verus!
