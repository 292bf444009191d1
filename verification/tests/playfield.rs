use minesweeper::game::GameState;
use minesweeper::game::PlayField;
use minesweeper::game::PlayFieldSpot;

fn spots(pf: &PlayField) -> Vec<PlayFieldSpot> {
    pf.get_playfield()
}

#[test]
fn construction_places_exactly_the_requested_mines() {
    // Open every cell of a random 4x4 field with 3 mines: each mine
    // answers with a loss and is never opened, so exactly 3 losses show.
    let mut pf = PlayField::new(4, 4, 3);
    let mut losses = 0;
    for y in 1..=4 {
        for x in 1..=4 {
            if let Ok(GameState::YouLose) = pf.open(x, y) {
                losses += 1;
            }
        }
    }
    assert_eq!(losses, 3);
    // Mines do not move: opening the same cells again loses on the same
    // cells and nowhere else.
    let mut losses_again = 0;
    for y in 1..=4 {
        for x in 1..=4 {
            if let Ok(GameState::YouLose) = pf.open(x, y) {
                losses_again += 1;
            }
        }
    }
    assert_eq!(losses_again, 3);
    // After the loss every unflagged mine is shown, and only the mines:
    // the board view counts the same 3.
    let shown_mines = spots(&pf)
        .iter()
        .filter(|s| matches!(s, PlayFieldSpot::Bomb))
        .count();
    assert_eq!(shown_mines, 3);
}

#[test]
fn construction_with_all_cells_mined() {
    let mut pf = PlayField::new(2, 2, 4);
    assert!(matches!(pf.open(1, 1), Ok(GameState::YouLose)));
    assert!(matches!(pf.open(2, 2), Ok(GameState::YouLose)));
}

#[test]
fn construction_without_mines_floods_everything() {
    let mut pf = PlayField::new(5, 5, 0);
    assert!(matches!(pf.open(3, 3), Ok(GameState::KeepPlaying)));
    for spot in spots(&pf) {
        assert_eq!(spot, PlayFieldSpot::Open(0));
    }
}

#[test]
fn single_safe_cell_opens_clean() {
    let mut pf = PlayField::new(1, 1, 0);
    assert!(matches!(pf.open(1, 1), Ok(GameState::KeepPlaying)));
    assert_eq!(spots(&pf), vec![PlayFieldSpot::Open(0)]);
}

#[test]
fn single_mine_loses_then_flag_wins() {
    let mut pf = PlayField::new(1, 1, 1);
    assert!(matches!(pf.open(1, 1), Ok(GameState::YouLose)));
    assert_eq!(spots(&pf), vec![PlayFieldSpot::Bomb]);
    assert!(matches!(pf.toggle_flag(1, 1), Ok(GameState::YouWin)));
}

#[test]
fn adjacency_count_stops_the_flood() {
    // 3x1 row with a mine in the middle: opening the left cell shows
    // count 1 and must not cascade past the mine to the right cell.
    let mut pf = PlayField::with_mines(3, 1, vec![false, true, false]);
    assert!(matches!(pf.open(1, 1), Ok(GameState::KeepPlaying)));
    assert_eq!(
        spots(&pf),
        vec![
            PlayFieldSpot::Open(1),
            PlayFieldSpot::Closed,
            PlayFieldSpot::Closed,
        ]
    );
}

#[test]
fn flood_reveals_the_maximal_safe_region() {
    // One mine in the far corner of a 5x5 grid: opening the opposite
    // corner floods every safe cell; only the mine stays closed, and the
    // three cells around it show count 1.
    let mut mines = vec![false; 25];
    mines[24] = true;
    let mut pf = PlayField::with_mines(5, 5, mines);
    assert!(matches!(pf.open(1, 1), Ok(GameState::KeepPlaying)));
    let view = spots(&pf);
    for y in 1..=5usize {
        for x in 1..=5usize {
            let spot = view[(y - 1) * 5 + (x - 1)];
            if x == 5 && y == 5 {
                assert_eq!(spot, PlayFieldSpot::Closed);
            } else if x >= 4 && y >= 4 {
                assert_eq!(spot, PlayFieldSpot::Open(1));
            } else {
                assert_eq!(spot, PlayFieldSpot::Open(0));
            }
        }
    }
}

#[test]
fn win_needs_every_mine_and_nothing_else() {
    // Two mines: flagging a proper subset keeps the game going, the
    // exact set wins.
    let mut pf = PlayField::with_mines(2, 2, vec![true, true, false, false]);
    assert!(matches!(pf.toggle_flag(1, 1), Ok(GameState::KeepPlaying)));
    assert!(matches!(pf.toggle_flag(2, 1), Ok(GameState::YouWin)));
}

#[test]
fn flagging_a_safe_cell_prevents_the_win() {
    let mut pf = PlayField::with_mines(2, 2, vec![true, true, false, false]);
    assert!(matches!(pf.toggle_flag(1, 2), Ok(GameState::KeepPlaying)));
    assert!(matches!(pf.toggle_flag(1, 1), Ok(GameState::KeepPlaying)));
    assert!(matches!(pf.toggle_flag(2, 1), Ok(GameState::KeepPlaying)));
}

#[test]
fn flag_is_sticky_and_reflagging_changes_nothing() {
    let mut pf = PlayField::with_mines(2, 1, vec![true, false]);
    assert!(matches!(pf.toggle_flag(2, 1), Ok(GameState::KeepPlaying)));
    assert!(matches!(pf.toggle_flag(2, 1), Ok(GameState::KeepPlaying)));
    assert_eq!(
        spots(&pf),
        vec![PlayFieldSpot::Closed, PlayFieldSpot::Flagged]
    );
}

#[test]
fn loss_reveals_unflagged_mines_and_keeps_flags() {
    // Mines at (1,1) and (2,2); flag the first, then step on the second:
    // the flagged mine keeps its flag, the other one is revealed.
    let mut pf = PlayField::with_mines(2, 2, vec![true, false, false, true]);
    assert!(matches!(pf.toggle_flag(1, 1), Ok(GameState::KeepPlaying)));
    assert!(matches!(pf.open(2, 2), Ok(GameState::YouLose)));
    assert_eq!(
        spots(&pf),
        vec![
            PlayFieldSpot::Flagged,
            PlayFieldSpot::Closed,
            PlayFieldSpot::Closed,
            PlayFieldSpot::Bomb,
        ]
    );
}

#[test]
fn out_of_range_coordinates_are_rejected() {
    let mut pf = PlayField::with_mines(3, 2, vec![false; 6]);
    assert_eq!(pf.open(0, 1).unwrap_err(), "Invalid X coordinate");
    assert_eq!(pf.open(4, 1).unwrap_err(), "Invalid X coordinate");
    assert_eq!(pf.open(1, 0).unwrap_err(), "Invalid Y coordinate");
    assert_eq!(pf.open(1, 3).unwrap_err(), "Invalid Y coordinate");
    assert_eq!(pf.toggle_flag(0, 2).unwrap_err(), "Invalid X coordinate");
    assert_eq!(pf.toggle_flag(4, 2).unwrap_err(), "Invalid X coordinate");
    assert_eq!(pf.toggle_flag(3, 0).unwrap_err(), "Invalid Y coordinate");
    assert_eq!(pf.toggle_flag(3, 3).unwrap_err(), "Invalid Y coordinate");
    // Nothing was touched by any of the refused calls.
    for spot in spots(&pf) {
        assert_eq!(spot, PlayFieldSpot::Closed);
    }
}

#[test]
fn refused_moves_leave_the_field_alone() {
    let mut pf = PlayField::with_mines(3, 1, vec![false, false, true]);
    assert!(matches!(pf.open(1, 1), Ok(GameState::KeepPlaying)));
    let before = spots(&pf);
    assert_eq!(
        pf.open(1, 1).unwrap_err(),
        "Cannot open already open coordinate"
    );
    assert_eq!(pf.toggle_flag(1, 1).unwrap_err(), "Cannot tag open coordinate");
    assert!(matches!(pf.toggle_flag(3, 1), Ok(GameState::YouWin)));
    let flagged = spots(&pf);
    assert_eq!(
        pf.open(3, 1).unwrap_err(),
        "Cannot open flagged coordinate"
    );
    assert_eq!(spots(&pf), flagged);
    assert_eq!(before[0], flagged[0]);
    assert_eq!(before[1], flagged[1]);
}

#[test]
fn dimensions_are_reported() {
    let pf = PlayField::with_mines(3, 2, vec![false; 6]);
    assert_eq!(pf.get_width(), 3);
    assert_eq!(pf.get_height(), 2);
}
