use tetris_core::piece::Tetromino;

fn catalog() -> Vec<Vec<Vec<bool>>> {
    vec![
        vec![vec![true, true, true, true], vec![false, false, false, false]],
        vec![vec![true, true], vec![true, true]],
        vec![vec![false, true, false], vec![true, true, true]],
        vec![vec![true, false, false], vec![true, true, true]],
        vec![vec![false, false, true], vec![true, true, true]],
        vec![vec![false, true, true], vec![true, true, false]],
        vec![vec![true, true, false], vec![false, true, true]],
    ]
}

#[test]
fn test_spawn_o_position() {
    let p = Tetromino::from_index(1);
    assert_eq!(p.blocks, vec![vec![true, true], vec![true, true]]);
    assert_eq!(p.x, 4);
    assert_eq!(p.y, 0);
}

#[test]
fn test_spawn_positions_all_shapes() {
    let shapes = catalog();
    for k in 0..7 {
        let p = Tetromino::from_index(k);
        assert_eq!(p.blocks, shapes[k]);
        let w = shapes[k][0].len() as i32;
        assert_eq!(p.x, (10 - w) / 2);
        assert_eq!(p.y, 0);
    }
}

#[test]
fn test_new_is_catalog_shape() {
    let shapes = catalog();
    for _ in 0..50 {
        let p = Tetromino::new();
        let k = shapes.iter().position(|s| *s == p.blocks);
        assert!(k.is_some(), "spawned mask is not in the catalog");
        let w = shapes[k.unwrap()][0].len() as i32;
        assert_eq!(p.x, (10 - w) / 2);
        assert_eq!(p.y, 0);
    }
}

#[test]
fn test_rotate_quarter_turn() {
    let mut p = Tetromino { blocks: vec![vec![false, true, false], vec![true, true, true]], x: 4, y: 5 };
    p.rotate();
    assert_eq!(p.blocks, vec![vec![true, false], vec![true, true], vec![true, false]]);
    assert_eq!(p.x, 4);
    assert_eq!(p.y, 5);
}

#[test]
fn test_rotate_i_to_vertical() {
    let mut p = Tetromino {
        blocks: vec![vec![true, true, true, true], vec![false, false, false, false]],
        x: 3,
        y: 0,
    };
    p.rotate();
    assert_eq!(
        p.blocks,
        vec![
            vec![false, true],
            vec![false, true],
            vec![false, true],
            vec![false, true],
        ]
    );
}

#[test]
fn test_rotate_four_times_identity() {
    for k in 0..7 {
        let mut p = Tetromino::from_index(k);
        let original = p.blocks.clone();
        for _ in 0..4 {
            p.rotate();
        }
        assert_eq!(p.blocks, original);
    }
}
