use vstd::prelude::*;
use crate::token::Token;
use crate::token::TokenType;
use crate::tree::leaf;
use crate::tree::NodeModel;
use crate::tree::NodeType;
use crate::tree::PayloadModel;

verus! {

/// The node that a token other than an identifier resolves to, wherever it stands.
pub open spec fn leaf_of(t: Token) -> NodeModel {
    match t.token_type {
        TokenType::Number(v) => leaf(NodeType::Number, Some(PayloadModel::Number(v)), t.line),
        TokenType::Str(s) => leaf(NodeType::String, Some(PayloadModel::Text(s@)), t.line),
        TokenType::Identifier(s) => leaf(NodeType::Identifier, Some(PayloadModel::Text(s@)), t.line),
        TokenType::Operator(s) => leaf(NodeType::Operator, Some(PayloadModel::Text(s@)), t.line),
        TokenType::Keyword(s) => leaf(NodeType::Keyword, Some(PayloadModel::Text(s@)), t.line),
        _ => leaf(NodeType::Error, None, t.line),
    }
}

/// Whether `ts` starts with an opening parenthesis.
pub open spec fn opens_call(ts: Seq<Token>) -> bool {
    ts.len() > 0 && ts[0].token_type is LeftParen
}

/// How many argument lists may enclose one another; a call head that would
/// open one more becomes an error node and its argument list is skipped.
pub const MAX_NESTING: usize = 200;

/// The tokens left after skipping to the closer of the `open` innermost
/// argument lists; only a call head (an identifier and an opening
/// parenthesis) opens a list.
pub open spec fn skipped(ts: Seq<Token>, open: nat) -> Seq<Token>
    decreases ts.len(),
{
    if ts.len() == 0 {
        ts
    } else if ts[0].token_type is RightParen {
        if open <= 1 {
            ts.drop_first()
        } else {
            skipped(ts.drop_first(), (open - 1) as nat)
        }
    } else if ts[0].token_type is Identifier && opens_call(ts.drop_first()) {
        skipped(ts.drop_first().drop_first(), open + 1)
    } else {
        skipped(ts.drop_first(), open)
    }
}

/// Resolves the first token of `ts` (and, for a call, its argument list)
/// inside `depth` enclosing argument lists: the node built and the tokens
/// left after it.
pub open spec fn resolved(ts: Seq<Token>, depth: nat) -> (NodeModel, Seq<Token>)
    recommends
        ts.len() > 0,
    decreases ts.len(), 0nat,
{
    if ts.len() == 0 {
        (leaf(NodeType::Error, None, 0), ts)
    } else {
        let t = ts[0];
        let rest = ts.drop_first();
        match t.token_type {
            TokenType::Identifier(name) => {
                if !opens_call(rest) {
                    (leaf_of(t), rest)
                } else if depth >= MAX_NESTING {
                    (leaf(NodeType::Error, None, t.line), skipped(rest.drop_first(), 1))
                } else {
                    let args = collected(rest.drop_first(), depth + 1);
                    let children = if args.2 {
                        args.0
                    } else {
                        args.0.push(leaf(NodeType::Error, None, t.line))
                    };
                    (
                        NodeModel {
                            kind: NodeType::FunctionCall,
                            payload: Some(PayloadModel::Text(name@)),
                            line: t.line,
                            children,
                        },
                        args.1,
                    )
                }
            },
            _ => (leaf_of(t), rest),
        }
    }
}

/// Collects the arguments of a call from `ts`, each resolved inside `depth`
/// argument lists, up to the first closing parenthesis at this level: the
/// argument nodes, the tokens left after the closer, and whether the closer
/// was found before the input ran out.
pub open spec fn collected(ts: Seq<Token>, depth: nat) -> (Seq<NodeModel>, Seq<Token>, bool)
    decreases ts.len(), 1nat,
{
    if ts.len() == 0 {
        (Seq::empty(), ts, false)
    } else if ts[0].token_type is RightParen {
        (Seq::empty(), ts.drop_first(), true)
    } else {
        let first = resolved(ts, depth);
        if first.1.len() < ts.len() {
            let more = collected(first.1, depth);
            (seq![first.0].add(more.0), more.1, more.2)
        } else {
            (seq![first.0], first.1, false)
        }
    }
}

/// The top-level nodes that the whole of `ts` converts to.
pub open spec fn converted(ts: Seq<Token>) -> Seq<NodeModel>
    decreases ts.len(),
{
    if ts.len() == 0 {
        Seq::empty()
    } else {
        let first = resolved(ts, 0);
        if first.1.len() < ts.len() {
            seq![first.0].add(converted(first.1))
        } else {
            seq![first.0]
        }
    }
}

/// Skipping never yields more tokens than it was given.
pub proof fn lemma_skipped_shrinks(ts: Seq<Token>, open: nat)
    ensures
        skipped(ts, open).len() <= ts.len(),
    decreases ts.len(),
{
    if ts.len() > 0 {
        let rest = ts.drop_first();
        if ts[0].token_type is RightParen {
            if open > 1 {
                lemma_skipped_shrinks(rest, (open - 1) as nat);
            }
        } else if ts[0].token_type is Identifier && opens_call(rest) {
            lemma_skipped_shrinks(rest.drop_first(), open + 1);
        } else {
            lemma_skipped_shrinks(rest, open);
        }
    }
}

/// Resolving a node consumes at least its first token.
pub proof fn lemma_resolved_shrinks(ts: Seq<Token>, depth: nat)
    requires
        ts.len() > 0,
    ensures
        resolved(ts, depth).1.len() < ts.len(),
    decreases ts.len(), 0nat,
{
    let rest = ts.drop_first();
    if ts[0].token_type is Identifier && opens_call(rest) {
        if depth >= MAX_NESTING {
            lemma_skipped_shrinks(rest.drop_first(), 1);
        } else {
            lemma_collected_shrinks(rest.drop_first(), depth + 1);
        }
    }
}

/// Collecting arguments never yields more tokens than it was given.
pub proof fn lemma_collected_shrinks(ts: Seq<Token>, depth: nat)
    ensures
        collected(ts, depth).1.len() <= ts.len(),
    decreases ts.len(), 1nat,
{
    if ts.len() > 0 && !(ts[0].token_type is RightParen) {
        lemma_resolved_shrinks(ts, depth);
        lemma_collected_shrinks(resolved(ts, depth).1, depth);
    }
}

/// Conversion never yields more top-level nodes than there are tokens.
pub proof fn lemma_converted_bounded(ts: Seq<Token>)
    ensures
        converted(ts).len() <= ts.len(),
    decreases ts.len(),
{
    if ts.len() > 0 {
        lemma_resolved_shrinks(ts, 0);
        lemma_converted_bounded(resolved(ts, 0).1);
    }
}

/// Every token but an identifier resolves to the same leaf whatever follows it
/// and however deeply it is nested, and consumes only itself; an identifier
/// becomes an identifier leaf unless an opening parenthesis follows, and a call
/// otherwise (an error node past the nesting limit).
pub proof fn lemma_classification_is_local(t: Token, rest: Seq<Token>, depth: nat)
    ensures
        !(t.token_type is Identifier) ==> resolved(seq![t] + rest, depth) == (leaf_of(t), rest),
        t.token_type is Identifier && !opens_call(rest) ==> resolved(seq![t] + rest, depth) == (
            leaf_of(t),
            rest,
        ),
        t.token_type is Identifier && opens_call(rest) && depth < MAX_NESTING ==> resolved(
            seq![t] + rest,
            depth,
        ).0.kind == NodeType::FunctionCall,
        t.token_type is Identifier && opens_call(rest) && depth >= MAX_NESTING ==> resolved(
            seq![t] + rest,
            depth,
        ).0 == leaf(NodeType::Error, None, t.line),
{
    assert((seq![t] + rest).drop_first() =~= rest);
}

/// An identifier with nothing after it converts to a single identifier leaf.
pub proof fn lemma_lone_identifier(t: Token)
    requires
        t.token_type is Identifier,
    ensures
        converted(seq![t]) == seq![leaf_of(t)],
        leaf_of(t).kind == NodeType::Identifier,
{
    assert(seq![t].drop_first() =~= Seq::<Token>::empty());
    assert(converted(Seq::<Token>::empty()) == Seq::<NodeModel>::empty());
    assert(seq![leaf_of(t)].add(Seq::<NodeModel>::empty()) =~= seq![leaf_of(t)]);
}

/// Whether `a` is a single identifier token, whose resolution depends on
/// whether an opening parenthesis follows it.
pub open spec fn is_bare_identifier(a: Seq<Token>) -> bool {
    a.len() == 1 && a[0].token_type is Identifier
}

/// A token sequence that forms exactly one argument of a top-level call: it
/// does not start with a closer, and, resolved inside one argument list, gives
/// one node that consumes all of it and nothing after it (for a bare
/// identifier, as long as no opening parenthesis follows).
pub open spec fn is_argument(a: Seq<Token>) -> bool {
    &&& a.len() > 0
    &&& !(a[0].token_type is RightParen)
    &&& forall|after: Seq<Token>|
        !(is_bare_identifier(a) && opens_call(after)) ==> #[trigger] resolved(a + after, 1) == (
            resolved(a, 1).0,
            after,
        )
}

/// Whether consecutive arguments keep apart: no bare identifier is directly
/// followed by an argument that starts with an opening parenthesis.
pub open spec fn arguments_apart(args: Seq<Seq<Token>>) -> bool {
    forall|i: int|
        0 < i < args.len() && #[trigger] args[i][0].token_type is LeftParen
            ==> !is_bare_identifier(args[i - 1])
}

/// The nodes that each argument resolves to on its own, in order.
pub open spec fn argument_nodes(args: Seq<Seq<Token>>) -> Seq<NodeModel> {
    args.map_values(|a: Seq<Token>| resolved(a, 1).0)
}

/// Arguments followed by a closer collect to one node per argument, in order,
/// leaving what follows the closer.
proof fn lemma_collect_arguments(args: Seq<Seq<Token>>, close: Token, after: Seq<Token>)
    requires
        close.token_type is RightParen,
        forall|i: int| 0 <= i < args.len() ==> is_argument(#[trigger] args[i]),
        arguments_apart(args),
    ensures
        collected(args.flatten() + seq![close] + after, 1) == (argument_nodes(args), after, true),
    decreases args.len(),
{
    let tail = seq![close] + after;
    if args.len() == 0 {
        assert(args.flatten() + seq![close] + after =~= tail);
        assert(tail.drop_first() =~= after);
        assert(argument_nodes(args) =~= Seq::<NodeModel>::empty());
    } else {
        let a = args[0];
        let others = args.drop_first();
        assert forall|i: int| 0 <= i < others.len() implies is_argument(#[trigger] others[i]) by {
            assert(others[i] == args[i + 1]);
        }
        assert forall|i: int|
            0 < i < others.len() && #[trigger] others[i][0].token_type is LeftParen implies !is_bare_identifier(
            others[i - 1]) by {
            assert(others[i] == args[i + 1]);
            assert(others[i - 1] == args[i]);
        }
        lemma_collect_arguments(others, close, after);
        let follow = others.flatten() + tail;
        assert(args.flatten() == a + others.flatten());
        assert(args.flatten() + seq![close] + after =~= a + follow);
        assert(others.flatten() + seq![close] + after =~= follow);
        assert(is_argument(a));
        if others.len() > 0 {
            assert(others.flatten() == others[0] + others.drop_first().flatten());
            assert(is_argument(others[0]));
            assert(follow[0] == others[0][0]);
            assert(others[0] == args[1]);
        } else {
            assert(follow =~= tail);
        }
        assert(!(is_bare_identifier(a) && opens_call(follow)));
        assert(resolved(a + follow, 1) == (resolved(a, 1).0, follow));
        assert((a + follow)[0] == a[0]);
        assert(argument_nodes(args) =~= seq![resolved(a, 1).0].add(argument_nodes(others)));
    }
}

/// An identifier, an opening parenthesis, any number of arguments kept apart
/// and a closing parenthesis convert to exactly one call node, named by the
/// identifier, whose children are the arguments' nodes in source order.
pub proof fn lemma_call_shape(
    name: Token,
    open: Token,
    args: Seq<Seq<Token>>,
    close: Token,
)
    requires
        name.token_type is Identifier,
        open.token_type is LeftParen,
        close.token_type is RightParen,
        forall|i: int| 0 <= i < args.len() ==> is_argument(#[trigger] args[i]),
        arguments_apart(args),
    ensures
        ({
            let out = converted(seq![name, open] + args.flatten() + seq![close]);
            &&& out.len() == 1
            &&& out[0].kind == NodeType::FunctionCall
            &&& out[0].payload == leaf_of(name).payload
            &&& out[0].line == name.line
            &&& out[0].children == argument_nodes(args)
            &&& out[0].children.len() == args.len()
        }),
{
    let ts = seq![name, open] + args.flatten() + seq![close];
    let inner = args.flatten() + seq![close] + Seq::<Token>::empty();
    lemma_collect_arguments(args, close, Seq::<Token>::empty());
    assert(ts.drop_first().drop_first() =~= inner);
    assert(ts.drop_first()[0] == open);
    assert(resolved(ts, 0).1 == Seq::<Token>::empty());
    assert(converted(Seq::<Token>::empty()) == Seq::<NodeModel>::empty());
    assert(converted(ts) =~= seq![resolved(ts, 0).0]);
}

} // verus!
