//! Tree building: a flat token sequence becomes expression trees.
//!
//! The builder keeps an explicit stack of in-progress groups and a running
//! nesting-depth counter. An opening parenthesis pushes a fresh group; a
//! closing parenthesis completes the innermost group, either returning it as
//! the single root (the simplified single-root policy: the first completed
//! root is returned at once and any tokens after it are not examined) or
//! appending it as the last child of the group below it. Whitespace is
//! structurally insignificant. An atom outside every group, or a depth that
//! never reconciles by the end of the input, is an [`AstError::UnbalancedBraces`].

use vstd::prelude::*;

use crate::tokens::Token;
use crate::tokens::TokenModel;

verus! {

/// An expression tree: a leaf holding one token, or a group of child
/// expressions whose first child is by convention the operator atom.
#[derive(Debug, PartialEq, Eq)]
pub enum Ast {
    Atom(Token),
    Group(Vec<Ast>),
}

/// The mathematical shape of an [`Ast`], with token text abstracted to
/// character sequences and child vectors to sequences.
#[verifier::ext_equal]
pub enum AstModel {
    Atom(TokenModel),
    Group(Seq<AstModel>),
}

impl Ast {
    /// The model of this expression tree.
    pub open spec fn model(&self) -> AstModel
        decreases self,
    {
        match self {
            Ast::Atom(token) => AstModel::Atom(token@),
            Ast::Group(children) => AstModel::Group(models_of(children@)),
        }
    }
}

/// The models of a sequence of expression trees, in order.
pub open spec fn models_of(nodes: Seq<Ast>) -> Seq<AstModel>
    decreases nodes,
{
    Seq::new(
        nodes.len(),
        |i: int|
            if 0 <= i < nodes.len() {
                nodes[i].model()
            } else {
                AstModel::Group(Seq::empty())
            },
    )
}

/// Failure of tree building: the parenthesis nesting never reconciled.
/// Carries the in-progress stack and the index of the token at which a
/// closing parenthesis was found to be missing (the token count itself when
/// the deficit is only discovered at the end of the input).
#[derive(Debug, PartialEq, Eq)]
pub enum AstError {
    UnbalancedBraces { tokens: Vec<Ast>, expected_brace_after_token: usize },
}

/// What tree building yields: either the completed roots, or the
/// in-progress stack with the position of the missing parenthesis.
#[verifier::ext_equal]
pub enum BuildOutcome {
    Roots(Seq<AstModel>),
    Unbalanced { stack: Seq<AstModel>, pos: int },
}

/// The children of a group; a leaf has none.
pub open spec fn group_children(node: AstModel) -> Seq<AstModel> {
    match node {
        AstModel::Group(children) => children,
        AstModel::Atom(_) => Seq::empty(),
    }
}

/// The group `node` with `child` appended as its last child.
pub open spec fn with_child(node: AstModel, child: AstModel) -> AstModel {
    AstModel::Group(group_children(node).push(child))
}

/// One pass of the builder from token position `i` onward, starting from
/// the given stack of in-progress groups and nesting depth `balance`.
pub open spec fn build_from(
    tokens: Seq<TokenModel>,
    i: int,
    stack: Seq<AstModel>,
    balance: int,
) -> BuildOutcome
    decreases tokens.len() - i,
{
    if i < 0 || i >= tokens.len() {
        if balance != 0 {
            BuildOutcome::Unbalanced { stack, pos: tokens.len() as int }
        } else {
            BuildOutcome::Roots(stack)
        }
    } else {
        match tokens[i] {
            TokenModel::OpenParen => build_from(
                tokens,
                i + 1,
                stack.push(AstModel::Group(Seq::empty())),
                balance + 1,
            ),
            TokenModel::CloseParen => {
                if stack.len() > 0 {
                    let completed = stack.last();
                    let rest = stack.drop_last();
                    if rest.len() == 0 {
                        BuildOutcome::Roots(seq![completed])
                    } else {
                        build_from(
                            tokens,
                            i + 1,
                            rest.drop_last().push(with_child(rest.last(), completed)),
                            balance - 1,
                        )
                    }
                } else {
                    build_from(tokens, i + 1, stack, balance - 1)
                }
            },
            TokenModel::Whitespace => build_from(tokens, i + 1, stack, balance),
            TokenModel::Atom(_) => {
                if stack.len() == 0 {
                    BuildOutcome::Unbalanced { stack, pos: i }
                } else {
                    build_from(
                        tokens,
                        i + 1,
                        stack.drop_last().push(with_child(stack.last(), AstModel::Atom(tokens[i]))),
                        balance,
                    )
                }
            },
        }
    }
}

/// The outcome of building trees from a whole token sequence.
pub open spec fn build_spec(tokens: Seq<TokenModel>) -> BuildOutcome {
    build_from(tokens, 0, Seq::empty(), 0)
}

/// Relates an executable build result to the outcome the model demands:
/// the roots on success, the stack and position on failure.
pub open spec fn build_matches(r: Result<Vec<Ast>, AstError>, outcome: BuildOutcome) -> bool {
    match r {
        Ok(roots) => outcome == BuildOutcome::Roots(models_of(roots@)),
        Err(AstError::UnbalancedBraces { tokens, expected_brace_after_token }) => outcome
            == (BuildOutcome::Unbalanced {
            stack: models_of(tokens@),
            pos: expected_brace_after_token as int,
        }),
    }
}

/// Tree building is a pure function of its token sequence: equal token
/// sequences build equal outcomes, so invoking the builder twice on equal
/// inputs produces structurally equal trees.
pub proof fn lemma_build_deterministic(a: Seq<TokenModel>, b: Seq<TokenModel>)
    requires
        a == b,
    ensures
        build_spec(a) == build_spec(b),
{
}

/// Appending a tree to a sequence appends its model to the sequence's models.
proof fn lemma_models_of_push(nodes: Seq<Ast>, node: Ast)
    ensures
        models_of(nodes.push(node)) == models_of(nodes).push(node.model()),
{
    assert(models_of(nodes.push(node)) =~= models_of(nodes).push(node.model()));
}

pub trait AstSpanner {
    /// The outcome that tree building must yield for this token sequence.
    spec fn build_model(&self) -> BuildOutcome;

    /// Builds expression trees out of the token sequence, or reports where
    /// the parenthesis nesting failed to reconcile.
    fn to_ast(&self) -> (r: Result<Vec<Ast>, AstError>)
        ensures
            build_matches(r, self.build_model()),
    ;
}

impl AstSpanner for Vec<Token> {
    open spec fn build_model(&self) -> BuildOutcome {
        build_spec(self.deep_view())
    }

    fn to_ast(&self) -> (r: Result<Vec<Ast>, AstError>) {
        let ghost toks = self.deep_view();
        let mut scopes: Vec<Ast> = Vec::new();
        let mut balance: i128 = 0;
        let mut i: usize = 0;
        proof {
            assert(models_of(scopes@) =~= Seq::<AstModel>::empty());
        }
        while i < self.len()
            invariant
                i <= self.len(),
                toks == self.deep_view(),
                -(i as int) <= balance as int <= i as int,
                forall|j: int| 0 <= j < scopes.len() ==> scopes[j] is Group,
                build_from(toks, i as int, models_of(scopes@), balance as int) == build_spec(
                    toks,
                ),
            decreases self.len() - i,
        {
            let ghost prev_nodes = scopes@;
            let ghost prev_stack = models_of(scopes@);
            let token = &self[i];
            match token {
                Token::OpenParen => {
                    let inner: Vec<Ast> = Vec::new();
                    proof {
                        assert(models_of(inner@) =~= Seq::<AstModel>::empty());
                    }
                    let node = Ast::Group(inner);
                    proof {
                        lemma_models_of_push(prev_nodes, node);
                    }
                    scopes.push(node);
                    balance = balance + 1;
                },
                Token::CloseParen => {
                    if scopes.len() > 0 {
                        let completed = scopes.pop().unwrap();
                        if scopes.len() == 0 {
                            let mut roots: Vec<Ast> = Vec::new();
                            proof {
                                assert(models_of(roots@) =~= Seq::<AstModel>::empty());
                                lemma_models_of_push(roots@, completed);
                                assert(prev_stack.drop_last() =~= Seq::<AstModel>::empty());
                            }
                            roots.push(completed);
                            proof {
                                assert(models_of(roots@) =~= seq![prev_stack.last()]);
                            }
                            return Ok(roots);
                        }
                        let parent = scopes.pop().unwrap();
                        match parent {
                            Ast::Group(mut children) => {
                                proof {
                                    lemma_models_of_push(children@, completed);
                                }
                                children.push(completed);
                                let node = Ast::Group(children);
                                proof {
                                    lemma_models_of_push(scopes@, node);
                                    assert(models_of(scopes@) =~= prev_stack.drop_last()
                                        .drop_last());
                                    assert(node.model() == with_child(
                                        prev_stack.drop_last().last(),
                                        prev_stack.last(),
                                    ));
                                }
                                scopes.push(node);
                            },
                            Ast::Atom(_) => {
                                // the stack holds only groups
                                proof {
                                    assert(false);
                                }
                            },
                        }
                    }
                    balance = balance - 1;
                },
                Token::Whitespace => {},
                Token::Atom(_) => {
                    if scopes.len() == 0 {
                        return Err(
                            AstError::UnbalancedBraces {
                                tokens: scopes,
                                expected_brace_after_token: i,
                            },
                        );
                    }
                    let top = scopes.pop().unwrap();
                    match top {
                        Ast::Group(mut children) => {
                            let leaf = Ast::Atom(token.clone());
                            proof {
                                assert(leaf.model() == AstModel::Atom(toks[i as int]));
                                lemma_models_of_push(children@, leaf);
                            }
                            children.push(leaf);
                            let node = Ast::Group(children);
                            proof {
                                lemma_models_of_push(scopes@, node);
                                assert(models_of(scopes@) =~= prev_stack.drop_last());
                                assert(node.model() == with_child(
                                    prev_stack.last(),
                                    AstModel::Atom(toks[i as int]),
                                ));
                            }
                            scopes.push(node);
                        },
                        Ast::Atom(_) => {
                            // the stack holds only groups
                            proof {
                                assert(false);
                            }
                        },
                    }
                },
            }
            i = i + 1;
        }
        if balance != 0 {
            Err(
                AstError::UnbalancedBraces {
                    tokens: scopes,
                    expected_brace_after_token: self.len(),
                },
            )
        } else {
            Ok(scopes)
        }
    }
}

} // verus!
