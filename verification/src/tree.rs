//! The exhaustive search tree: every way the current player can chain
//! bonus moves from a starting board, built by the verified tree builder
//! and characterised by the `search_leaves` model.

use vstd::prelude::*;

use crate::board::{bins_total, total, Bin, Board};
use crate::moves::{chain, chain_facts, MoveResult};

verus! {

/// The six optional subtrees of a branching node: slot `b` is present
/// exactly when choosing bin `b` was a legal move at that point.
pub struct Branches {
    pub a: Option<Box<Tree>>,
    pub b: Option<Box<Tree>>,
    pub c: Option<Box<Tree>>,
    pub d: Option<Box<Tree>>,
    pub e: Option<Box<Tree>>,
    pub f: Option<Box<Tree>>,
}

/// A node of the search tree: either the turn ended here (a terminal
/// board), or a bonus move was granted and every legal follow-up choice
/// has its own subtree.
pub enum Tree {
    TurnOver(Board),
    Continue(Branches),
}

/// Prepends the bin with ordinal `b` to the move sequence of every leaf.
pub open spec fn prefixed(b: int, ls: Seq<(Seq<nat>, Seq<Bin>)>) -> Seq<(Seq<nat>, Seq<Bin>)> {
    ls.map_values(|l: (Seq<nat>, Seq<Bin>)| (l.0, seq![Bin::from_ordinal(b)] + l.1))
}

/// The leaves below one optional child, each paired with the move
/// sequence that reaches it (starting with the child's own bin).
pub open spec fn branch_leaves(child: Option<Box<Tree>>, b: int) -> Seq<(Seq<nat>, Seq<Bin>)>
    decreases child,
{
    match child {
        Option::None => Seq::empty(),
        Option::Some(sub) => prefixed(b, leaves(*sub)),
    }
}

/// Every terminal board in the tree, as (final board model, move
/// sequence from this node), in depth-first bin order.
pub open spec fn leaves(t: Tree) -> Seq<(Seq<nat>, Seq<Bin>)>
    decreases t,
{
    match t {
        Tree::TurnOver(bd) => seq![(bd@, Seq::<Bin>::empty())],
        Tree::Continue(br) => branch_leaves(br.a, 0) + branch_leaves(br.b, 1) + branch_leaves(
            br.c,
            2,
        ) + branch_leaves(br.d, 3) + branch_leaves(br.e, 4) + branch_leaves(br.f, 5),
    }
}

/// The terminal boards reachable by first choosing bin `b` on board `v`:
/// nothing if the bin is empty, the single finished board if the move
/// ends the turn, and every continuation if it grants a bonus move.
pub open spec fn search_branch(v: Seq<nat>, b: int) -> Seq<(Seq<nat>, Seq<Bin>)>
    decreases bins_total(v), 0int,
        when v.len() == 14 && 0 <= b < 6
    via search_branch_decreases
{
    if v[b] == 0 {
        Seq::empty()
    } else {
        let (v2, r) = chain(v, b);
        if r == MoveResult::GoAgain {
            prefixed(b, search_leaves(v2))
        } else {
            seq![(v2, seq![Bin::from_ordinal(b)])]
        }
    }
}

#[via_fn]
proof fn search_branch_decreases(v: Seq<nat>, b: int) {
    if v[b] != 0 {
        chain_facts(v, b);
    }
}

/// Every terminal board reachable from `v` in one turn, over all first
/// choices of bin, with the move sequence that produces it.
pub open spec fn search_leaves(v: Seq<nat>) -> Seq<(Seq<nat>, Seq<Bin>)>
    decreases bins_total(v), 1int,
{
    search_branch(v, 0) + search_branch(v, 1) + search_branch(v, 2) + search_branch(v, 3)
        + search_branch(v, 4) + search_branch(v, 5)
}

/// One slot of a branching node is faithful to board `v`: absent exactly
/// when bin `b` is empty; otherwise it holds the terminal board of the
/// move from `b` when that move ends the turn, and a faithful subtree of
/// the continuation when it grants a bonus move.
pub open spec fn child_matches(child: Option<Box<Tree>>, v: Seq<nat>, b: int) -> bool
    decreases bins_total(v), 0int,
        when v.len() == 14 && 0 <= b < 6
    via child_matches_decreases
{
    match child {
        Option::None => v[b] == 0,
        Option::Some(sub) => {
            if v[b] == 0 {
                false
            } else {
                let (v2, r) = chain(v, b);
                if r == MoveResult::GoAgain {
                    tree_matches(*sub, v2)
                } else {
                    match *sub {
                        Tree::TurnOver(bd) => bd@ == v2,
                        Tree::Continue(_) => false,
                    }
                }
            }
        },
    }
}

#[via_fn]
proof fn child_matches_decreases(child: Option<Box<Tree>>, v: Seq<nat>, b: int) {
    if child is Some && v[b] != 0 {
        chain_facts(v, b);
    }
}

/// The shape the builder guarantees at every level: a branching node
/// whose six slots are each faithful to the board reached at that point.
pub open spec fn tree_matches(t: Tree, v: Seq<nat>) -> bool
    decreases bins_total(v), 1int,
        when v.len() == 14
{
    match t {
        Tree::TurnOver(_) => false,
        Tree::Continue(br) => {
            &&& child_matches(br.a, v, 0)
            &&& child_matches(br.b, v, 1)
            &&& child_matches(br.c, v, 2)
            &&& child_matches(br.d, v, 3)
            &&& child_matches(br.e, v, 4)
            &&& child_matches(br.f, v, 5)
        },
    }
}

impl Tree {
    /// Builds the subtree for one candidate first move on a copy of the
    /// board: absent exactly when the bin is empty.
    fn build_branch(board: Board, bin: Bin) -> (child: Option<Box<Tree>>)
        requires
            board.wf(),
        ensures
            branch_leaves(child, bin.ordinal_spec()) == search_branch(board@, bin.ordinal_spec()),
            child_matches(child, board@, bin.ordinal_spec()),
            child is Some <==> board@[bin.ordinal_spec()] > 0,
        decreases bins_total(board@), 0int,
    {
        let ghost ord = bin.ordinal_spec();
        let mut board2 = board;
        match board2.make_move(bin) {
            Option::None => Option::None,
            Option::Some(MoveResult::TurnOver) => {
                let child = Option::Some(Box::new(Tree::TurnOver(board2)));
                proof {
                    assert(seq![Bin::from_ordinal(ord)] + Seq::<Bin>::empty() =~= seq![
                        Bin::from_ordinal(ord),
                    ]);
                    assert(branch_leaves(child, ord) =~= search_branch(board@, ord));
                }
                child
            },
            Option::Some(MoveResult::GoAgain) => {
                proof {
                    chain_facts(board@, ord);
                }
                let child = Option::Some(Box::new(Tree::build(board2)));
                proof {
                    assert(branch_leaves(child, ord) == search_branch(board@, ord));
                }
                child
            },
        }
    }

    /// Builds the whole search tree from a board: slot `b` of the root
    /// holds the subtree reached by first emptying bin `b`, and the
    /// tree's leaves are exactly the `search_leaves` of the board.
    pub fn build(board: Board) -> (t: Tree)
        requires
            board.wf(),
        ensures
            t is Continue,
            tree_matches(t, board@),
            leaves(t) == search_leaves(board@),
        decreases bins_total(board@), 1int,
    {
        let br = Branches {
            a: Self::build_branch(board, Bin::A),
            b: Self::build_branch(board, Bin::B),
            c: Self::build_branch(board, Bin::C),
            d: Self::build_branch(board, Bin::D),
            e: Self::build_branch(board, Bin::E),
            f: Self::build_branch(board, Bin::F),
        };
        Tree::Continue(br)
    }
}

/// The move sequence `path` can actually be played from board `v`: every
/// chosen bin is non-empty at the moment it is chosen, every move but the
/// last grants a bonus move, the last one ends the turn, and the board
/// finishes as `vf`.
pub open spec fn replay_ok(v: Seq<nat>, path: Seq<Bin>, vf: Seq<nat>) -> bool
    decreases path.len(),
{
    if path.len() == 0 {
        false
    } else {
        let b = path[0].ordinal_spec();
        let (v2, r) = chain(v, b);
        v[b] > 0 && (if path.len() == 1 {
            r == MoveResult::TurnOver && vf == v2
        } else {
            r == MoveResult::GoAgain && replay_ok(v2, path.drop_first(), vf)
        })
    }
}

/// Every listed leaf can be replayed legally from its starting board.
pub open spec fn all_replay_ok(v: Seq<nat>, ls: Seq<(Seq<nat>, Seq<Bin>)>) -> bool {
    forall|k: int| 0 <= k < ls.len() ==> replay_ok(v, (#[trigger] ls[k]).1, ls[k].0)
}

/// Conservation along one legal turn: a replayed move sequence never
/// creates or destroys stones, it only moves them.
pub proof fn lemma_replay_conserves(v: Seq<nat>, path: Seq<Bin>, vf: Seq<nat>)
    requires
        v.len() == 14,
        replay_ok(v, path, vf),
    ensures
        vf.len() == 14,
        total(vf) == total(v),
    decreases path.len(),
{
    let b = path[0].ordinal_spec();
    chain_facts(v, b);
    if path.len() > 1 {
        lemma_replay_conserves(chain(v, b).0, path.drop_first(), vf);
    }
}

/// Legality of the enumeration: every leaf the search produces carries a
/// move sequence whose bins were all non-empty when chosen, and which
/// really ends on that leaf's board.
pub proof fn lemma_search_leaves_replay(v: Seq<nat>)
    requires
        v.len() == 14,
    ensures
        all_replay_ok(v, search_leaves(v)),
    decreases bins_total(v), 2int,
{
    lemma_search_branch_replay(v, 0);
    lemma_search_branch_replay(v, 1);
    lemma_search_branch_replay(v, 2);
    lemma_search_branch_replay(v, 3);
    lemma_search_branch_replay(v, 4);
    lemma_search_branch_replay(v, 5);
    assert forall|k: int| 0 <= k < search_leaves(v).len() implies replay_ok(
        v,
        (#[trigger] search_leaves(v)[k]).1,
        search_leaves(v)[k].0,
    ) by {
        let s01 = search_branch(v, 0) + search_branch(v, 1);
        let s02 = s01 + search_branch(v, 2);
        let s03 = s02 + search_branch(v, 3);
        let s04 = s03 + search_branch(v, 4);
        assert(search_leaves(v) == s04 + search_branch(v, 5));
    }
}

/// Conservation across the whole search: every terminal board the
/// search reaches holds exactly the stones of the starting board,
/// counting bins and both stores.
pub proof fn lemma_search_leaves_conserve(v: Seq<nat>)
    requires
        v.len() == 14,
    ensures
        forall|k: int|
            0 <= k < search_leaves(v).len() ==> total((#[trigger] search_leaves(v)[k]).0) == total(
                v,
            ),
{
    lemma_search_leaves_replay(v);
    assert forall|k: int| 0 <= k < search_leaves(v).len() implies total(
        (#[trigger] search_leaves(v)[k]).0,
    ) == total(v) by {
        let l = search_leaves(v)[k];
        assert(replay_ok(v, l.1, l.0));
        lemma_replay_conserves(v, l.1, l.0);
    }
}

proof fn lemma_search_branch_replay(v: Seq<nat>, b: int)
    requires
        v.len() == 14,
        0 <= b < 6,
    ensures
        all_replay_ok(v, search_branch(v, b)),
    decreases bins_total(v), 0int,
{
    if v[b] != 0 {
        chain_facts(v, b);
        let (v2, r) = chain(v, b);
        let bin = Bin::from_ordinal(b);
        if r == MoveResult::GoAgain {
            lemma_search_leaves_replay(v2);
            assert forall|k: int| 0 <= k < search_branch(v, b).len() implies replay_ok(
                v,
                (#[trigger] search_branch(v, b)[k]).1,
                search_branch(v, b)[k].0,
            ) by {
                let l = search_leaves(v2)[k];
                assert(replay_ok(v2, l.1, l.0));
                assert(search_branch(v, b)[k] == (l.0, seq![bin] + l.1));
                assert((seq![bin] + l.1).drop_first() =~= l.1);
                assert(replay_ok(v, seq![bin] + l.1, l.0));
            }
        } else {
            assert(replay_ok(v, seq![bin], v2));
        }
    }
}

} // verus!
