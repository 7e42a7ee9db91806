//! Path ranking: collects every terminal board of a search tree together
//! with the move sequence that produced it, and sorts the results by
//! descending banked score, then ascending sequence length.

use vstd::prelude::*;
use vstd::multiset::Multiset;
use vstd::seq_lib::group_to_multiset_ensures;

use crate::board::{Bin, Board};
use crate::tree::{branch_leaves, leaves, search_leaves, Tree};

verus! {

/// The model of one ranked entry: banked score and move sequence.
pub open spec fn entry_view(e: (u8, Vec<Bin>)) -> (nat, Seq<Bin>) {
    (e.0 as nat, e.1@)
}

pub open spec fn entries_view(s: Seq<(u8, Vec<Bin>)>) -> Seq<(nat, Seq<Bin>)> {
    s.map_values(|e: (u8, Vec<Bin>)| entry_view(e))
}

/// Each leaf reduced to what the ranking keeps: the current player's
/// banked score (slot 6) and the move sequence.
pub open spec fn scored(ls: Seq<(Seq<nat>, Seq<Bin>)>) -> Seq<(nat, Seq<Bin>)> {
    ls.map_values(|l: (Seq<nat>, Seq<Bin>)| (l.0[6], l.1))
}

/// As `scored`, with every move sequence extended on the left by the
/// path that led to the subtree.
pub open spec fn scored_under(prefix: Seq<Bin>, ls: Seq<(Seq<nat>, Seq<Bin>)>) -> Seq<
    (nat, Seq<Bin>),
> {
    ls.map_values(|l: (Seq<nat>, Seq<Bin>)| (l.0[6], prefix + l.1))
}

/// The ranking order: higher scores first; among equal scores, shorter
/// move sequences first. Entries equal under both keys may come in
/// either order.
pub open spec fn rank_le(x: (nat, Seq<Bin>), y: (nat, Seq<Bin>)) -> bool {
    x.0 > y.0 || (x.0 == y.0 && x.1.len() <= y.1.len())
}

pub open spec fn sorted_ranked(s: Seq<(nat, Seq<Bin>)>) -> bool {
    forall|i: int, j: int| 0 <= i < j < s.len() ==> rank_le(s[i], s[j])
}

proof fn lemma_scored_under_add(
    prefix: Seq<Bin>,
    s1: Seq<(Seq<nat>, Seq<Bin>)>,
    s2: Seq<(Seq<nat>, Seq<Bin>)>,
)
    ensures
        scored_under(prefix, s1 + s2) == scored_under(prefix, s1) + scored_under(prefix, s2),
{
    assert(scored_under(prefix, s1 + s2) =~= scored_under(prefix, s1) + scored_under(prefix, s2));
}

/// A verified element-for-element copy of a move sequence.
fn copy_path(p: &Vec<Bin>) -> (r: Vec<Bin>)
    ensures
        r@ == p@,
{
    let mut r: Vec<Bin> = Vec::new();
    let mut i: usize = 0;
    while i < p.len()
        invariant
            i <= p@.len(),
            r@ == p@.subrange(0, i as int),
        decreases p@.len() - i,
    {
        proof {
            assert(p@.subrange(0, i as int).push(p@[i as int]) =~= p@.subrange(0, i as int + 1));
        }
        r.push(p[i]);
        i = i + 1;
    }
    proof {
        assert(p@.subrange(0, p@.len() as int) =~= p@);
    }
    r
}

/// Appends to `out` one entry per leaf under `child`, each with the
/// current path plus the child's own bin in front of the leaf's moves.
#[verifier::rlimit(100)]
fn collect_child(
    child: &Option<Box<Tree>>,
    bin: Bin,
    prefix: &mut Vec<Bin>,
    out: &mut Vec<(u8, Vec<Bin>)>,
)
    ensures
        final(prefix)@ == old(prefix)@,
        entries_view(final(out)@) == entries_view(old(out)@) + scored_under(
            old(prefix)@,
            branch_leaves(*child, bin.ordinal_spec()),
        ),
    decreases *child,
{
    match child {
        Option::None => {
            proof {
                assert(entries_view(out@) =~= entries_view(out@) + scored_under(
                    prefix@,
                    branch_leaves(*child, bin.ordinal_spec()),
                ));
            }
        },
        Option::Some(sub) => {
            let ghost p0 = prefix@;
            let ghost ord = bin.ordinal_spec();
            prefix.push(bin);
            collect(sub, prefix, out);
            prefix.pop();
            proof {
                assert(p0.push(bin).drop_last() =~= p0);
                let ls = leaves(**sub);
                assert forall|k: int| 0 <= k < ls.len() implies scored_under(p0.push(bin), ls)[k]
                    == scored_under(p0, branch_leaves(*child, ord))[k] by {
                    assert(branch_leaves(*child, ord)[k] == (
                        ls[k].0,
                        seq![Bin::from_ordinal(ord)] + ls[k].1,
                    ));
                    assert(p0.push(bin) + ls[k].1 =~= p0 + (seq![Bin::from_ordinal(ord)]
                        + ls[k].1));
                }
                assert(scored_under(p0.push(bin), ls) =~= scored_under(
                    p0,
                    branch_leaves(*child, ord),
                ));
            }
        },
    }
}

/// Appends to `out` one entry per leaf of `t`: the terminal board's
/// banked score and the full move sequence that reaches it, in
/// depth-first bin order.
#[verifier::rlimit(100)]
fn collect(t: &Tree, prefix: &mut Vec<Bin>, out: &mut Vec<(u8, Vec<Bin>)>)
    ensures
        final(prefix)@ == old(prefix)@,
        entries_view(final(out)@) == entries_view(old(out)@) + scored_under(
            old(prefix)@,
            leaves(*t),
        ),
    decreases *t,
{
    match t {
        Tree::TurnOver(bd) => {
            let ghost e0 = entries_view(out@);
            let score = bd.current.mancala;
            let path = copy_path(prefix);
            out.push((score, path));
            proof {
                assert(prefix@ + Seq::<Bin>::empty() =~= prefix@);
                assert(entries_view(out@) =~= e0 + scored_under(prefix@, leaves(*t)));
            }
        },
        Tree::Continue(br) => {
            let ghost e0 = entries_view(out@);
            let ghost p0 = prefix@;
            collect_child(&br.a, Bin::A, prefix, out);
            collect_child(&br.b, Bin::B, prefix, out);
            collect_child(&br.c, Bin::C, prefix, out);
            collect_child(&br.d, Bin::D, prefix, out);
            collect_child(&br.e, Bin::E, prefix, out);
            collect_child(&br.f, Bin::F, prefix, out);
            proof {
                let sa = scored_under(p0, branch_leaves(br.a, 0));
                let sb = scored_under(p0, branch_leaves(br.b, 1));
                let sc = scored_under(p0, branch_leaves(br.c, 2));
                let sd = scored_under(p0, branch_leaves(br.d, 3));
                let se = scored_under(p0, branch_leaves(br.e, 4));
                let sf = scored_under(p0, branch_leaves(br.f, 5));
                let l01 = branch_leaves(br.a, 0) + branch_leaves(br.b, 1);
                let l02 = l01 + branch_leaves(br.c, 2);
                let l03 = l02 + branch_leaves(br.d, 3);
                let l04 = l03 + branch_leaves(br.e, 4);
                lemma_scored_under_add(p0, branch_leaves(br.a, 0), branch_leaves(br.b, 1));
                lemma_scored_under_add(p0, l01, branch_leaves(br.c, 2));
                lemma_scored_under_add(p0, l02, branch_leaves(br.d, 3));
                lemma_scored_under_add(p0, l03, branch_leaves(br.e, 4));
                lemma_scored_under_add(p0, l04, branch_leaves(br.f, 5));
                assert(entries_view(out@) =~= e0 + (sa + sb + sc + sd + se + sf));
                assert(sa + sb + sc + sd + se + sf == scored_under(p0, leaves(*t)));
            }
        },
    }
}

/// An executable comparison deciding `rank_le` on two entries.
fn entry_le(x: &(u8, Vec<Bin>), y: &(u8, Vec<Bin>)) -> (r: bool)
    ensures
        r == rank_le(entry_view(*x), entry_view(*y)),
{
    x.0 > y.0 || (x.0 == y.0 && x.1.len() <= y.1.len())
}

/// Sorts ranked entries: higher scores first, and shorter move sequences
/// first among equal scores. The result is a permutation of the input,
/// and sorting an already-sorted list returns it unchanged.
#[verifier::rlimit(100)]
#[verifier::loop_isolation(false)]
pub fn sort_ranked(entries: Vec<(u8, Vec<Bin>)>) -> (out: Vec<(u8, Vec<Bin>)>)
    ensures
        sorted_ranked(entries_view(out@)),
        entries_view(out@).to_multiset() == entries_view(entries@).to_multiset(),
        sorted_ranked(entries_view(entries@)) ==> out@ == entries@,
{
    broadcast use group_to_multiset_ensures;

    let ghost orig = entries@;
    let mut rest = entries;
    let mut out: Vec<(u8, Vec<Bin>)> = Vec::new();
    while rest.len() > 0
        invariant
            entries_view(out@).to_multiset().add(entries_view(rest@).to_multiset())
                == entries_view(orig).to_multiset(),
            sorted_ranked(entries_view(out@)),
            forall|i: int, j: int|
                0 <= i < out@.len() && 0 <= j < rest@.len() ==> rank_le(
                    entry_view(out@[i]),
                    entry_view(rest@[j]),
                ),
            sorted_ranked(entries_view(orig)) ==> out@ + rest@ == orig,
        decreases rest@.len(),
    {
        // Pick the leftmost entry that ranks no worse than every other
        // remaining entry.
        let mut m: usize = 0;
        let mut i: usize = 1;
        while i < rest.len()
            invariant
                m < i,
                i <= rest@.len(),
                forall|j: int|
                    0 <= j < i ==> rank_le(entry_view(rest@[m as int]), entry_view(rest@[j])),
                sorted_ranked(entries_view(orig)) ==> m == 0,
            decreases rest@.len() - i,
        {
            if !entry_le(&rest[m], &rest[i]) {
                proof {
                    if sorted_ranked(entries_view(orig)) {
                        // The remaining entries are a suffix of the (sorted)
                        // input, so the leftmost one already ranks first.
                        let off = out@.len() as int;
                        assert(rest@[m as int] == (out@ + rest@)[off + m]);
                        assert(rest@[i as int] == (out@ + rest@)[off + i]);
                        assert(entries_view(orig)[off + m] == entry_view(rest@[m as int]));
                        assert(entries_view(orig)[off + i] == entry_view(rest@[i as int]));
                        assert(rank_le(entry_view(rest@[m as int]), entry_view(rest@[i as int])));
                    }
                }
                m = i;
            }
            i = i + 1;
        }
        let ghost rest0 = rest@;
        let ghost out0 = out@;
        let e = rest.remove(m);
        out.push(e);
        proof {
            assert(entries_view(rest@) =~= entries_view(rest0).remove(m as int));
            assert(entries_view(out@) =~= entries_view(out0).push(entry_view(e)));
            assert(entries_view(rest0)[m as int] == entry_view(e));
            assert(entries_view(out@).to_multiset().add(entries_view(rest@).to_multiset())
                =~= entries_view(out0).to_multiset().add(entries_view(rest0).to_multiset()));
            if sorted_ranked(entries_view(orig)) {
                assert(rest0.remove(0) =~= rest0.drop_first());
                assert(out0.push(e) + rest0.drop_first() =~= out0 + rest0);
            }
        }
    }
    proof {
        assert(entries_view(rest@).to_multiset() =~= Multiset::<(nat, Seq<Bin>)>::empty());
        assert(entries_view(out@).to_multiset() =~= entries_view(orig).to_multiset());
        if sorted_ranked(entries_view(orig)) {
            assert(out@ =~= out@ + rest@);
        }
    }
    out
}

impl Tree {
    /// Collects every terminal board of the tree with the move sequence
    /// that produced it, ranked by descending banked score and, among
    /// equal scores, ascending sequence length.
    pub fn find_max_paths(&self) -> (out: Vec<(u8, Vec<Bin>)>)
        ensures
            sorted_ranked(entries_view(out@)),
            entries_view(out@).to_multiset() == scored(leaves(*self)).to_multiset(),
    {
        let mut prefix: Vec<Bin> = Vec::new();
        let mut raw: Vec<(u8, Vec<Bin>)> = Vec::new();
        collect(self, &mut prefix, &mut raw);
        proof {
            let ls = leaves(*self);
            assert forall|k: int| 0 <= k < ls.len() implies scored_under(Seq::<Bin>::empty(), ls)[k]
                == scored(ls)[k] by {
                assert(Seq::<Bin>::empty() + ls[k].1 =~= ls[k].1);
            }
            assert(scored_under(Seq::<Bin>::empty(), ls) =~= scored(ls));
            assert(entries_view(raw@) =~= scored(ls));
        }
        sort_ranked(raw)
    }
}

/// The model of the starting board: `start` stones in each of the twelve
/// bins, both stores empty.
pub open spec fn initial_board(start: nat) -> Seq<nat> {
    Seq::new(14, |i: int| if i == 6 || i == 13 { 0nat } else { start })
}

/// The search entry point: builds the full tree for the uniform starting
/// configuration and returns the ranked (score, move sequence) list.
pub fn search(start_with: u8) -> (out: Vec<(u8, Vec<Bin>)>)
    requires
        12 * start_with <= 255,
    ensures
        sorted_ranked(entries_view(out@)),
        entries_view(out@).to_multiset() == scored(
            search_leaves(initial_board(start_with as nat)),
        ).to_multiset(),
{
    let board = Board::new(start_with);
    proof {
        assert(board@ =~= initial_board(start_with as nat));
    }
    let t = Tree::build(board);
    t.find_max_paths()
}

} // verus!
