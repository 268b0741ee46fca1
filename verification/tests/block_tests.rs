use blockfall::block::{
    build_block, build_block_scaled, kind_for_draw, randomize_block, randomize_block_scaled,
    width_of, Block, BlockType,
};
use blockfall::frame::{O, X, Y};

fn all_kinds() -> Vec<BlockType> {
    vec![
        BlockType::Line,
        BlockType::Square,
        BlockType::LeftS,
        BlockType::RightS,
        BlockType::T,
        BlockType::RightL,
        BlockType::LeftL,
    ]
}

fn four_frames() -> Vec<Vec<Vec<char>>> {
    vec![
        vec![vec![X, X, X]],
        vec![vec![X], vec![X, X, X, X, X], vec![]],
        vec![],
        vec![vec![O, X], vec![X, O]],
    ]
}

#[test]
fn new_block_starts_at_the_origin() {
    let mut block = Block::new(four_frames());
    assert_eq!(block.current_x(), 0);
    assert_eq!(block.current_y(), 0);
    assert_eq!(block.rotation(), 0);
    assert_eq!(block.cell_width(), 2);
    assert_eq!(block.get_height(), 1);
    assert_eq!(block.get_width(), 3);
    assert_eq!(block.get_all_frames(), &four_frames());
    assert_eq!(block.get_current_frame(), &four_frames()[0]);
}

#[test]
fn with_cell_width_sets_the_step() {
    let mut block = Block::with_cell_width(four_frames(), 3);
    assert_eq!(block.cell_width(), 3);
    block.move_right();
    assert_eq!(block.current_x(), 3);
    block.move_right();
    assert_eq!(block.current_x(), 6);
    block.move_left();
    assert_eq!(block.current_x(), 3);
    assert_eq!(block.current_y(), 0);
}

#[test]
fn rotation_wraps_after_the_fourth_shape() {
    let mut block = Block::new(four_frames());
    block.rotate();
    assert_eq!(block.rotation(), 1);
    assert_eq!(block.get_current_frame(), &four_frames()[1]);
    block.rotate();
    assert_eq!(block.rotation(), 2);
    block.rotate();
    assert_eq!(block.rotation(), 3);
    block.rotate();
    assert_eq!(block.rotation(), 0);
    assert_eq!(block.get_current_frame(), &four_frames()[0]);
    assert_eq!(block.get_all_frames(), &four_frames());
}

#[test]
fn rotation_keeps_the_position() {
    let mut block = Block::new(four_frames());
    block.move_to(8, 5);
    block.rotate();
    assert_eq!(block.current_x(), 8);
    assert_eq!(block.current_y(), 5);
}

#[test]
fn width_is_the_longest_row() {
    let mut block = Block::new(four_frames());
    block.rotate();
    assert_eq!(block.get_width(), 5);
    assert_eq!(block.get_height(), 3);
    block.rotate();
    assert_eq!(block.get_width(), 0);
    assert_eq!(block.get_height(), 0);
    block.rotate();
    assert_eq!(block.get_width(), 2);
    assert_eq!(block.get_height(), 2);
}

#[test]
fn width_of_a_shape() {
    assert_eq!(width_of(&vec![]), 0);
    assert_eq!(width_of(&vec![vec![], vec![]]), 0);
    assert_eq!(width_of(&vec![vec![X, Y], vec![X, Y, X, Y], vec![O]]), 4);
}

#[test]
fn moves_change_the_position_by_one_step() {
    let mut block = Block::new(four_frames());
    block.move_down();
    assert_eq!((block.current_x(), block.current_y()), (0, 1));
    block.move_right();
    assert_eq!((block.current_x(), block.current_y()), (2, 1));
    block.move_right();
    block.move_left();
    assert_eq!((block.current_x(), block.current_y()), (2, 1));
    block.move_to(7, 9);
    assert_eq!((block.current_x(), block.current_y()), (7, 9));
}

#[test]
fn lower_y_is_the_row_below_the_block() {
    let mut block = Block::new(four_frames());
    assert_eq!(block.lower_y(), 1);
    block.rotate();
    block.move_to(0, 4);
    assert_eq!(block.lower_y(), 7);
    assert_eq!(block.current_y(), 4);
}

#[test]
fn line_has_its_four_shapes() {
    let block = build_block(BlockType::Line);
    assert_eq!(
        block.get_all_frames(),
        &vec![
            vec![vec![X, Y, X, Y, X, Y, X, Y]],
            vec![vec![X, Y], vec![X, Y], vec![X, Y], vec![X, Y]],
            vec![vec![X, Y, X, Y, X, Y, X, Y]],
            vec![vec![X, Y], vec![X, Y], vec![X, Y], vec![X, Y]],
        ]
    );
}

#[test]
fn square_has_its_four_shapes() {
    let block = build_block(BlockType::Square);
    assert_eq!(
        block.get_all_frames(),
        &vec![
            vec![vec![X, Y, X, Y], vec![X, Y, X, Y]],
            vec![vec![X, Y, X, Y], vec![X, Y, X, Y]],
            vec![vec![X, Y, X, Y], vec![X, Y, X, Y]],
            vec![vec![X, Y, X, Y], vec![X, Y, X, Y]],
        ]
    );
}

#[test]
fn left_s_has_its_four_shapes() {
    let block = build_block(BlockType::LeftS);
    assert_eq!(
        block.get_all_frames(),
        &vec![
            vec![vec![X, Y, X, Y, O, O], vec![O, O, X, Y, X, Y]],
            vec![vec![O, O, X, Y], vec![X, Y, X, Y], vec![X, Y, O, O]],
            vec![vec![X, Y, X, Y, O, O], vec![O, O, X, Y, X, Y]],
            vec![vec![O, O, X, Y], vec![X, Y, X, Y], vec![X, Y, O, O]],
        ]
    );
}

#[test]
fn right_s_has_its_four_shapes() {
    let block = build_block(BlockType::RightS);
    assert_eq!(
        block.get_all_frames(),
        &vec![
            vec![vec![O, O, X, Y, X, Y], vec![X, Y, X, Y, O, O]],
            vec![vec![X, Y, O, O], vec![X, Y, X, Y], vec![O, O, X, Y]],
            vec![vec![O, O, X, Y, X, Y], vec![X, Y, X, Y, O, O]],
            vec![vec![X, Y, O, O], vec![X, Y, X, Y], vec![O, O, X, Y]],
        ]
    );
}

#[test]
fn left_l_has_its_four_shapes() {
    let block = build_block(BlockType::LeftL);
    assert_eq!(
        block.get_all_frames(),
        &vec![
            vec![vec![X, Y, O, O, O, O], vec![X, Y, X, Y, X, Y]],
            vec![vec![X, Y, X, Y], vec![X, Y, O, O], vec![X, Y, O, O]],
            vec![vec![X, Y, X, Y, X, Y], vec![O, O, O, O, X, Y]],
            vec![vec![O, O, X, Y], vec![O, O, X, Y], vec![X, Y, X, Y]],
        ]
    );
}

#[test]
fn right_l_has_its_four_shapes() {
    let block = build_block(BlockType::RightL);
    assert_eq!(
        block.get_all_frames(),
        &vec![
            vec![vec![O, O, O, O, X, Y], vec![X, Y, X, Y, X, Y]],
            vec![vec![X, Y, O, O], vec![X, Y, O, O], vec![X, Y, X, Y]],
            vec![vec![X, Y, X, Y, X, Y], vec![X, Y, O, O, O, O]],
            vec![vec![X, Y, X, Y], vec![O, O, X, Y], vec![O, O, X, Y]],
        ]
    );
}

#[test]
fn t_has_its_four_shapes() {
    let block = build_block(BlockType::T);
    assert_eq!(
        block.get_all_frames(),
        &vec![
            vec![vec![O, O, X, Y, O, O], vec![X, Y, X, Y, X, Y]],
            vec![vec![X, Y, O, O], vec![X, Y, X, Y], vec![X, Y, O, O]],
            vec![vec![X, Y, X, Y, X, Y], vec![O, O, X, Y, O, O]],
            vec![vec![O, O, X, Y], vec![X, Y, X, Y], vec![O, O, X, Y]],
        ]
    );
}

#[test]
fn built_blocks_start_at_the_origin() {
    for kind in all_kinds() {
        let block = build_block(kind);
        assert_eq!(block.current_x(), 0);
        assert_eq!(block.current_y(), 0);
        assert_eq!(block.rotation(), 0);
        assert_eq!(block.cell_width(), 2);
        assert_eq!(block.get_all_frames().len(), 4);
    }
}

#[test]
fn cells_one_column_wide_have_no_second_marker() {
    let block = build_block_scaled(BlockType::T, 1);
    assert_eq!(block.cell_width(), 1);
    assert_eq!(
        block.get_all_frames(),
        &vec![
            vec![vec![O, X, O], vec![X, X, X]],
            vec![vec![X, O], vec![X, X], vec![X, O]],
            vec![vec![X, X, X], vec![O, X, O]],
            vec![vec![O, X], vec![X, X], vec![O, X]],
        ]
    );
}

#[test]
fn cells_three_columns_wide_repeat_the_second_marker() {
    let block = build_block_scaled(BlockType::LeftS, 3);
    assert_eq!(block.cell_width(), 3);
    assert_eq!(
        block.get_current_frame(),
        &vec![
            vec![X, Y, Y, X, Y, Y, O, O, O],
            vec![O, O, O, X, Y, Y, X, Y, Y],
        ]
    );
}

#[test]
fn cells_of_no_width_leave_empty_rows() {
    let mut block = build_block_scaled(BlockType::Line, 0);
    assert_eq!(block.get_width(), 0);
    assert_eq!(block.get_height(), 1);
    block.rotate();
    assert_eq!(block.get_height(), 4);
}

#[test]
fn width_scales_with_the_cell_width() {
    for kind in all_kinds() {
        for rotation in 0..4 {
            let mut narrow = build_block_scaled(kind, 1);
            let mut wide = build_block_scaled(kind, 5);
            for _ in 0..rotation {
                narrow.rotate();
                wide.rotate();
            }
            assert_eq!(wide.get_width(), 5 * narrow.get_width());
            assert_eq!(wide.get_height(), narrow.get_height());
        }
    }
}

#[test]
fn draws_pick_kinds_by_their_remainder() {
    assert_eq!(kind_for_draw(0), BlockType::LeftS);
    assert_eq!(kind_for_draw(1), BlockType::RightS);
    assert_eq!(kind_for_draw(2), BlockType::Square);
    assert_eq!(kind_for_draw(3), BlockType::LeftL);
    assert_eq!(kind_for_draw(4), BlockType::RightL);
    assert_eq!(kind_for_draw(5), BlockType::Line);
    assert_eq!(kind_for_draw(6), BlockType::T);
    assert_eq!(kind_for_draw(7), BlockType::LeftS);
    assert_eq!(kind_for_draw(13), BlockType::T);
    // 4294967295 = 7 * 613566756 + 3
    assert_eq!(kind_for_draw(u32::MAX), BlockType::LeftL);
}

#[test]
fn random_block_is_one_of_the_seven() {
    for _ in 0..50 {
        let block = randomize_block();
        assert_eq!(block.current_x(), 0);
        assert_eq!(block.current_y(), 0);
        assert_eq!(block.rotation(), 0);
        assert_eq!(block.cell_width(), 2);
        let known = all_kinds()
            .into_iter()
            .any(|kind| build_block(kind).get_all_frames() == block.get_all_frames());
        assert!(known);
    }
}

#[test]
fn random_scaled_block_is_one_of_the_seven() {
    for _ in 0..50 {
        let block = randomize_block_scaled(4);
        assert_eq!(block.cell_width(), 4);
        let known = all_kinds()
            .into_iter()
            .any(|kind| build_block_scaled(kind, 4).get_all_frames() == block.get_all_frames());
        assert!(known);
    }
}

#[test]
fn random_blocks_are_not_all_of_one_kind() {
    let first = randomize_block();
    let mut differs = false;
    for _ in 0..400 {
        if randomize_block().get_all_frames() != first.get_all_frames() {
            differs = true;
        }
    }
    assert!(differs);
}
