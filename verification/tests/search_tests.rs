use mancala_search::board::{Bin, Board, BoardSide, FlatIndex, FlatIndexKind};
use mancala_search::moves::MoveResult;
use mancala_search::rank::{search, sort_ranked};
use mancala_search::tree::Tree;

fn board_with(current_bins: [u8; 6], opponent_bins: [u8; 6]) -> Board {
    Board {
        current: BoardSide { bins: current_bins, mancala: 0 },
        opponent: BoardSide { bins: opponent_bins, mancala: 0 },
    }
}

fn total_of(board: &Board) -> u32 {
    let mut sum: u32 = u32::from(board.current.mancala) + u32::from(board.opponent.mancala);
    for i in 0..6 {
        sum += u32::from(board.current.bins[i]);
        sum += u32::from(board.opponent.bins[i]);
    }
    sum
}

#[test]
fn new_board_layout() {
    let board = Board::new(4);
    for i in 0..6 {
        assert_eq!(board.current.bins[i], 4);
        assert_eq!(board.opponent.bins[i], 4);
    }
    assert_eq!(board.current.mancala, 0);
    assert_eq!(board.opponent.mancala, 0);
    assert_eq!(total_of(&board), 48);
}

#[test]
fn bin_ordinal_round_trip() {
    assert_eq!(Bin::try_from(0), Ok(Bin::A));
    assert_eq!(Bin::try_from(1), Ok(Bin::B));
    assert_eq!(Bin::try_from(2), Ok(Bin::C));
    assert_eq!(Bin::try_from(3), Ok(Bin::D));
    assert_eq!(Bin::try_from(4), Ok(Bin::E));
    assert_eq!(Bin::try_from(5), Ok(Bin::F));
    assert_eq!(Bin::try_from(6), Err(()));
    assert_eq!(Bin::try_from(255), Err(()));
    assert_eq!(Bin::F.ordinal(), 5);
}

#[test]
fn flat_index_steps_and_opposites() {
    let mut pos = FlatIndex(12);
    pos.step();
    assert_eq!(pos.0, 0);
    let mut pos = FlatIndex(5);
    pos.step();
    assert_eq!(pos.0, 6);
    assert_eq!(FlatIndex(0).opposite().0, 12);
    assert_eq!(FlatIndex(4).opposite().0, 8);
    assert_eq!(FlatIndex(3).kind(), FlatIndexKind::MyBins(3));
    assert_eq!(FlatIndex(6).kind(), FlatIndexKind::MyMancala);
    assert_eq!(FlatIndex(9).kind(), FlatIndexKind::TheirBins(2));
}

#[test]
fn empty_bin_is_no_move() {
    let mut board = board_with([0, 1, 0, 0, 0, 0], [0; 6]);
    let before = board;
    assert!(board.make_move(Bin::A).is_none());
    assert_eq!(board.current.bins, before.current.bins);
    assert_eq!(board.opponent.bins, before.opponent.bins);
    assert_eq!(board.current.mancala, 0);
}

#[test]
fn bonus_when_last_stone_reaches_store() {
    // Bin F sits one step from the store.
    let mut board = board_with([0, 0, 0, 0, 0, 1], [0; 6]);
    let result = board.make_move(Bin::F);
    assert!(matches!(result, Some(MoveResult::GoAgain)));
    assert_eq!(board.current.mancala, 1);
    assert_eq!(board.current.bins, [0, 0, 0, 0, 0, 0]);

    // Bin B holds exactly its distance to the store.
    let mut board = board_with([0, 5, 0, 0, 0, 0], [0; 6]);
    let result = board.make_move(Bin::B);
    assert!(matches!(result, Some(MoveResult::GoAgain)));
    assert_eq!(board.current.mancala, 1);
    assert_eq!(board.current.bins, [0, 0, 1, 1, 1, 1]);
}

#[test]
fn no_bonus_when_stone_falls_short_of_store() {
    // One stone from bin A lands in the empty bin B: the turn ends.
    let mut board = board_with([1, 0, 0, 0, 0, 0], [0; 6]);
    let result = board.make_move(Bin::A);
    assert!(matches!(result, Some(MoveResult::TurnOver)));
    assert_eq!(board.current.mancala, 0);
}

#[test]
fn capture_takes_only_the_opposite_bin() {
    // The last stone lands in the previously-empty own bin B; the bin
    // opposite B is the opponent's fifth bin.
    let mut board = board_with([1, 0, 0, 0, 0, 0], [0, 0, 0, 0, 5, 0]);
    let result = board.make_move(Bin::A);
    assert!(matches!(result, Some(MoveResult::TurnOver)));
    assert_eq!(board.current.mancala, 5);
    // The landing stone itself stays in bin B.
    assert_eq!(board.current.bins, [0, 1, 0, 0, 0, 0]);
    assert_eq!(board.opponent.bins, [0, 0, 0, 0, 0, 0]);
    assert_eq!(total_of(&board), 6);
}

#[test]
fn landing_on_empty_opponent_bin_ends_turn_without_capture() {
    // Two stones from bin F: one banks in the store, the last lands in
    // the opponent's empty first bin.
    let mut board = board_with([0, 0, 0, 0, 0, 2], [0; 6]);
    let result = board.make_move(Bin::F);
    assert!(matches!(result, Some(MoveResult::TurnOver)));
    assert_eq!(board.current.mancala, 1);
    assert_eq!(board.opponent.bins, [1, 0, 0, 0, 0, 0]);
}

#[test]
fn chain_resows_from_own_occupied_landing_bin() {
    // Two stones from A land on C, which already holds one: the move
    // chains with the combined three... here C ends with two stones, so
    // the chain picks both up and re-sows from C.
    let mut board = board_with([2, 0, 1, 0, 0, 0], [0, 3, 0, 0, 0, 0]);
    let result = board.make_move(Bin::A);
    assert!(matches!(result, Some(MoveResult::TurnOver)));
    // Chain: A empties into B and C; C (now 2) re-sows into D and E;
    // E was empty, so the opposite bin (opponent's second) is captured.
    assert_eq!(board.current.bins, [0, 1, 0, 1, 1, 0]);
    assert_eq!(board.current.mancala, 3);
    assert_eq!(board.opponent.bins, [0, 0, 0, 0, 0, 0]);
    assert_eq!(total_of(&board), 6);
}

#[test]
fn chain_resows_from_opponent_occupied_landing_bin() {
    // Three stones from F: store, opponent's first, opponent's second.
    // The opponent's second bin already held one, so the chain re-sows
    // its two stones onward and ends in an empty opponent bin with no
    // capture.
    let mut board = board_with([0, 0, 0, 0, 0, 3], [0, 1, 0, 0, 0, 0]);
    let result = board.make_move(Bin::F);
    assert!(matches!(result, Some(MoveResult::TurnOver)));
    assert_eq!(board.current.mancala, 1);
    assert_eq!(board.opponent.bins, [1, 0, 1, 1, 0, 0]);
    assert_eq!(board.current.bins, [0, 0, 0, 0, 0, 0]);
    assert_eq!(total_of(&board), 4);
}

#[test]
fn moves_conserve_stones() {
    let mut board = Board::new(4);
    assert_eq!(total_of(&board), 48);
    for bin in [Bin::A, Bin::C, Bin::F, Bin::B] {
        board.make_move(bin);
        assert_eq!(total_of(&board), 48);
    }
}

#[test]
fn search_ranking_is_ordered() {
    let ranked = search(4);
    assert!(!ranked.is_empty());
    for pair in ranked.windows(2) {
        let (score_a, path_a) = &pair[0];
        let (score_b, path_b) = &pair[1];
        assert!(score_a >= score_b);
        if score_a == score_b {
            assert!(path_a.len() <= path_b.len());
        }
    }
}

#[test]
fn best_entry_replays_to_its_score() {
    let ranked = search(4);
    assert!(!ranked.is_empty());
    let (score, path) = &ranked[0];
    assert!(*score > 0);
    assert!(path.len() >= 1);
    let mut board = Board::new(4);
    for (step, bin) in path.iter().enumerate() {
        let result = board.make_move(*bin);
        assert!(result.is_some(), "a chosen bin was empty when chosen");
        if step + 1 < path.len() {
            assert!(matches!(result, Some(MoveResult::GoAgain)));
        } else {
            assert!(matches!(result, Some(MoveResult::TurnOver)));
        }
    }
    assert_eq!(board.current.mancala, *score);
    assert_eq!(total_of(&board), 48);
}

#[test]
fn every_ranked_entry_is_a_legal_sequence() {
    let ranked = search(2);
    assert!(!ranked.is_empty());
    for (score, path) in &ranked {
        let mut board = Board::new(2);
        for (step, bin) in path.iter().enumerate() {
            let result = board.make_move(*bin);
            assert!(result.is_some());
            if step + 1 < path.len() {
                assert!(matches!(result, Some(MoveResult::GoAgain)));
            } else {
                assert!(matches!(result, Some(MoveResult::TurnOver)));
            }
        }
        assert_eq!(board.current.mancala, *score);
        assert_eq!(total_of(&board), 24);
    }
}

#[test]
fn search_with_no_stones_finds_no_moves() {
    let ranked = search(0);
    assert!(ranked.is_empty());
}

#[test]
fn build_marks_empty_bins_as_absent() {
    let tree = Tree::build(Board::new(0));
    match tree {
        Tree::Continue(br) => {
            assert!(br.a.is_none());
            assert!(br.b.is_none());
            assert!(br.c.is_none());
            assert!(br.d.is_none());
            assert!(br.e.is_none());
            assert!(br.f.is_none());
        },
        Tree::TurnOver(_) => panic!("the root of a search tree is a branching node"),
    }
}

#[test]
fn sort_ranked_orders_and_keeps_ties_stable() {
    let entries = vec![
        (3, vec![Bin::A]),
        (5, vec![Bin::A, Bin::B]),
        (5, vec![Bin::C]),
        (5, vec![Bin::D, Bin::E]),
    ];
    let sorted = sort_ranked(entries);
    let expected = vec![
        (5, vec![Bin::C]),
        (5, vec![Bin::A, Bin::B]),
        (5, vec![Bin::D, Bin::E]),
        (3, vec![Bin::A]),
    ];
    assert_eq!(sorted, expected);
}

#[test]
fn sorting_a_sorted_ranking_changes_nothing() {
    let ranked = search(4);
    let resorted = sort_ranked(ranked.clone());
    assert_eq!(resorted, ranked);
}

#[test]
fn largest_uniform_start_conserves_stones() {
    // Twelve bins of 21 stones is the most the u8 slots can hold in play.
    let mut board = Board::new(21);
    assert_eq!(total_of(&board), 252);
    let result = board.make_move(Bin::A);
    assert!(result.is_some());
    assert_eq!(total_of(&board), 252);
}
