use chess::{
    get_pos_label, get_tile_color, index_for_pos, init_board, simulate_move, ColLabel, PositionLabel, Team,
    TileShade,
};

#[test]
fn index_for_pos_maps_label_to_grid() {
    assert_eq!(index_for_pos(PositionLabel { col_label: ColLabel::E, row_label: 4 }), (3, 4));
    assert_eq!(index_for_pos(PositionLabel { col_label: ColLabel::A, row_label: 1 }), (0, 0));
    assert_eq!(index_for_pos(PositionLabel { col_label: ColLabel::H, row_label: 8 }), (7, 7));
}

#[test]
fn get_pos_label_maps_grid_to_label() {
    assert_eq!(get_pos_label(0, &0), (ColLabel::A, 1));
    assert_eq!(get_pos_label(3, &4), (ColLabel::E, 4));
    assert_eq!(get_pos_label(7, &9), (ColLabel::H, 8));
}

#[test]
fn tile_shades_alternate() {
    assert_eq!(get_tile_color(&0, &0), TileShade::Dark);
    assert_eq!(get_tile_color(&0, &1), TileShade::Light);
    assert_eq!(get_tile_color(&1, &0), TileShade::Light);
    assert_eq!(get_tile_color(&5, &3), TileShade::Dark);
}

#[test]
fn init_board_labels_every_tile() {
    let board = init_board();
    for row in 0..8usize {
        for col in 0..8usize {
            let tile = board[row][col];
            assert_eq!(tile.team, Team::Unoccupied);
            assert_eq!(tile.piece, None);
            assert_eq!(index_for_pos(tile.position.position_label), (row, col));
        }
    }
}

#[test]
fn simulate_move_moves_the_occupant() {
    let mut board = init_board();
    let from = PositionLabel { col_label: ColLabel::B, row_label: 1 };
    let to = PositionLabel { col_label: ColLabel::C, row_label: 3 };
    board[0][1].team = Team::White;
    board[0][1].piece = Some(7);
    board[2][2].team = Team::Black;
    board[2][2].piece = Some(40);
    let before = board;
    simulate_move(&mut board, 7, Team::White, from, to);
    assert_eq!(board[2][2].team, Team::White);
    assert_eq!(board[2][2].piece, Some(7));
    assert_eq!(board[0][1].team, Team::Unoccupied);
    assert_eq!(board[0][1].piece, None);
    assert_eq!(board[2][2].position, before[2][2].position);
    assert_eq!(board[5][5], before[5][5]);
}
