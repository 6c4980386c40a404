use vstd::prelude::*;
use crate::grammar::{
    branches_at, closes, condition_at, loop_end_at, loop_head_at, node_at, nodes_at, parsed,
    tag_at, tag_end_at, tag_word, tag_word_end,
};
use crate::template::{BranchView, NodeView, TemplateView, TestView};

verus! {

/// Whether branches can follow the first of a conditional block: each opens
/// with `elif`, but for the last, which may open with `else`.
pub open spec fn follows(branches: Seq<BranchView>) -> bool {
    forall|i: int|
        0 <= i < branches.len() ==> (#[trigger] branches[i]).test is Elif || (branches[i].test is Else
            && i == branches.len() - 1)
}

/// Whether branches make a conditional block: the first opens with `if` or
/// `unless`, and the others can follow it.
pub open spec fn block_shaped(branches: Seq<BranchView>) -> bool {
    branches.len() > 0 && (branches[0].test is If || branches[0].test is Unless) && follows(
        branches.skip(1),
    )
}

/// Whether the bodies of some branches are well shaped.
pub open spec fn bodies_shaped(branches: Seq<BranchView>) -> bool
    decreases branches, 1int,
{
    forall|i: int| 0 <= i < branches.len() ==> nodes_shaped((#[trigger] branches[i]).body)
}

/// Whether some nodes are well shaped.
pub open spec fn nodes_shaped(nodes: Seq<NodeView>) -> bool
    decreases nodes, 1int,
{
    forall|i: int| 0 <= i < nodes.len() ==> node_shaped(#[trigger] nodes[i])
}

/// Whether a node is well shaped: every conditional block in it has the
/// branches of one.
pub open spec fn node_shaped(node: NodeView) -> bool
    decreases node, 0int,
{
    match node {
        NodeView::Conditional(branches) => block_shaped(branches) && bodies_shaped(branches),
        NodeView::Loop(block) => nodes_shaped(block.body) && (block.otherwise matches Some(nodes)
            ==> nodes_shaped(nodes)),
        _ => true,
    }
}

/// The nodes that are read from a text are well shaped.
pub proof fn lemma_nodes_at_shaped(s: Seq<char>, pos: int)
    ensures
        nodes_at(s, pos) matches Ok((nodes, _)) ==> nodes_shaped(nodes),
    decreases s.len() - pos, 1int,
{
    if !(pos < 0 || pos >= s.len() || closes(s, pos)) {
        match node_at(s, pos) {
            Ok((node, next)) => {
                if pos < next <= s.len() {
                    lemma_node_at_shaped(s, pos);
                    lemma_nodes_at_shaped(s, next);
                    match nodes_at(s, next) {
                        Ok((rest, _)) => {
                            let all = seq![node] + rest;
                            assert forall|i: int| 0 <= i < all.len() implies node_shaped(
                                #[trigger] all[i],
                            ) by {
                                if i > 0 {
                                    assert(all[i] == rest[i - 1]);
                                }
                            }
                        },
                        Err(_) => {},
                    }
                }
            },
            Err(_) => {},
        }
    }
}

/// The branches that are read behind the first of a block can follow it,
/// and their bodies are well shaped.
pub proof fn lemma_branches_at_shaped(s: Seq<char>, pos: int, last: bool)
    ensures
        branches_at(s, pos, last) matches Ok((branches, _)) ==> follows(branches) && bodies_shaped(
            branches,
        ),
    decreases s.len() - pos, 0int,
{
    if closes(s, pos) && tag_word(s, pos) != "end"@ && !last {
        let opened = if tag_word(s, pos) == "elif"@ {
            match condition_at(s, tag_word_end(s, pos)) {
                Err(e) => Err(e),
                Ok((condition, next)) => Ok((TestView::Elif(condition), next)),
            }
        } else {
            match tag_end_at(s, tag_word_end(s, pos)) {
                Err(e) => Err(e),
                Ok((_, next)) => Ok((TestView::Else, next)),
            }
        };
        match opened {
            Ok((test, next)) => {
                if pos < next <= s.len() {
                    lemma_nodes_at_shaped(s, next);
                    match nodes_at(s, next) {
                        Ok((body, closer)) => {
                            if next <= closer <= s.len() {
                                lemma_branches_at_shaped(s, closer, test is Else);
                                match branches_at(s, closer, test is Else) {
                                    Ok((rest, _)) => {
                                        lemma_after_else_nothing(s, closer);
                                        let all = seq![BranchView { test, body }] + rest;
                                        assert forall|i: int| 0 <= i < all.len() implies nodes_shaped(
                                            (#[trigger] all[i]).body,
                                        ) by {
                                            if i > 0 {
                                                assert(all[i] == rest[i - 1]);
                                            }
                                        }
                                        assert forall|i: int| 0 <= i < all.len() implies (
                                        #[trigger] all[i]).test is Elif || (all[i].test is Else && i
                                            == all.len() - 1) by {
                                            if i > 0 {
                                                assert(all[i] == rest[i - 1]);
                                            }
                                        }
                                    },
                                    Err(_) => {},
                                }
                            }
                        },
                        Err(_) => {},
                    }
                }
            },
            Err(_) => {},
        }
    }
}

/// Behind `else` no branch follows.
pub proof fn lemma_after_else_nothing(s: Seq<char>, pos: int)
    ensures
        branches_at(s, pos, true) matches Ok((branches, _)) ==> branches.len() == 0,
{
}

/// The node that is read from a text is well shaped.
pub proof fn lemma_node_at_shaped(s: Seq<char>, pos: int)
    ensures
        node_at(s, pos) matches Ok((node, _)) ==> node_shaped(node),
    decreases s.len() - pos, 0int,
{
    if tag_at(s, pos) && !(s[pos + 1] == '{') && !(s[pos + 1] == '#') {
        if tag_word(s, pos) == "if"@ || tag_word(s, pos) == "unless"@ {
            match condition_at(s, tag_word_end(s, pos)) {
                Ok((condition, next)) => {
                    if pos < next <= s.len() {
                        lemma_nodes_at_shaped(s, next);
                        match nodes_at(s, next) {
                            Ok((body, closer)) => {
                                if next <= closer <= s.len() {
                                    lemma_branches_at_shaped(s, closer, false);
                                    match branches_at(s, closer, false) {
                                        Ok((rest, _)) => {
                                            let test = if tag_word(s, pos) == "if"@ {
                                                TestView::If(condition)
                                            } else {
                                                TestView::Unless(condition)
                                            };
                                            let all = seq![BranchView { test, body }] + rest;
                                            assert(all.skip(1) =~= rest);
                                            assert forall|i: int|
                                                0 <= i < all.len() implies nodes_shaped(
                                                (#[trigger] all[i]).body,
                                            ) by {
                                                if i > 0 {
                                                    assert(all[i] == rest[i - 1]);
                                                }
                                            }
                                        },
                                        Err(_) => {},
                                    }
                                }
                            },
                            Err(_) => {},
                        }
                    }
                },
                Err(_) => {},
            }
        } else if tag_word(s, pos) == "for"@ {
            match loop_head_at(s, tag_word_end(s, pos)) {
                Ok(((variable, iterable), next)) => {
                    if pos < next <= s.len() {
                        lemma_nodes_at_shaped(s, next);
                        match nodes_at(s, next) {
                            Ok((body, closer)) => {
                                if next <= closer <= s.len() {
                                    lemma_loop_end_at_shaped(s, closer);
                                }
                            },
                            Err(_) => {},
                        }
                    }
                },
                Err(_) => {},
            }
        }
    }
}

/// The `else` part that is read at the end of a loop is well shaped.
pub proof fn lemma_loop_end_at_shaped(s: Seq<char>, pos: int)
    ensures
        loop_end_at(s, pos) matches Ok((Some(nodes), _)) ==> nodes_shaped(nodes),
    decreases s.len() - pos, 0int,
{
    if closes(s, pos) && tag_word(s, pos) == "else"@ {
        match tag_end_at(s, tag_word_end(s, pos)) {
            Ok((_, next)) => {
                if pos < next <= s.len() {
                    lemma_nodes_at_shaped(s, next);
                }
            },
            Err(_) => {},
        }
    }
}

/// A template that is read from a text is well shaped: each of its
/// conditional blocks opens with `if` or `unless`, goes on with `elif` and
/// has at most one `else`, at its end.
pub proof fn law_parsed_is_shaped(s: Seq<char>)
    ensures
        parsed(s) matches Ok(template) ==> nodes_shaped(template.nodes),
{
    lemma_nodes_at_shaped(s, 0);
}

} // verus!
