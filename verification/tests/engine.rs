use rubik::cube::Cube;
use rubik::geom::Pos;
use rubik::moves::{parse_move, Layers, Move};

const SOLVED: &str = "UUUUUUUUURRRRRRRRRFFFFFFFFFDDDDDDDDDLLLLLLLLLBBBBBBBBB";

#[test]
fn it_works() {
    let mut cube = Cube::solved();
    assert_eq!(cube.serialize(), SOLVED);

    cube.apply_move("U").unwrap();
    assert_eq!(cube.serialize(), "UUUUUUUUUBBBRRRRRRRRRFFFFFFDDDDDDDDDFFFLLLLLLLLLBBBBBB");
}

#[test]
fn lib_it_works() {
    let move1 = parse_move("U2").unwrap();
    let move2 = Move {
        axis: Pos { x: 0, y: 1, z: 0 },
        angle: 180,
        layers: Layers::Outer,
    };

    assert_eq!(move1.angle, move2.angle);
    assert_eq!(move1.axis, move2.axis);
}

#[test]
fn solved_serialization() {
    assert_eq!(Cube::solved().serialize(), SOLVED);
}

#[test]
fn whole_cube_x_rotation() {
    let mut cube = Cube::solved();
    cube.apply_move("x").unwrap();
    assert_eq!(
        cube.serialize(),
        "FFFFFFFFFRRRRRRRRRDDDDDDDDDBBBBBBBBBLLLLLLLLLUUUUUUUUU"
    );
}

#[test]
fn whole_cube_y_rotation() {
    let mut cube = Cube::solved();
    cube.apply_move("y").unwrap();
    assert_eq!(
        cube.serialize(),
        "UUUUUUUUUBBBBBBBBBRRRRRRRRRDDDDDDDDDFFFFFFFFFLLLLLLLLL"
    );
}

#[test]
fn token_then_inverse_restores() {
    for base in [
        "U", "u", "D", "d", "E", "y", "L", "l", "R", "r", "M", "x", "F", "B", "S", "z",
    ] {
        let mut cube = Cube::solved();
        cube.apply_moves("R U F").unwrap();
        let before = cube.serialize();

        let inverse = format!("{}'", base);
        cube.apply_move(base).unwrap();
        cube.apply_move(&inverse).unwrap();
        assert_eq!(cube.serialize(), before, "token {base}");

        cube.apply_move(&inverse).unwrap();
        cube.apply_move(base).unwrap();
        assert_eq!(cube.serialize(), before, "token {base}'");

        let half = format!("{}2", base);
        cube.apply_move(&half).unwrap();
        cube.apply_move(&half).unwrap();
        assert_eq!(cube.serialize(), before, "token {base}2");
    }
}

#[test]
fn token_cycle_restores() {
    for base in [
        "U", "u", "D", "d", "E", "y", "L", "l", "R", "r", "M", "x", "F", "B", "S", "z",
    ] {
        let mut cube = Cube::solved();
        for _ in 0..4 {
            cube.apply_move(base).unwrap();
        }
        assert_eq!(cube.serialize(), SOLVED, "token {base}");

        let prime = format!("{}'", base);
        for _ in 0..4 {
            cube.apply_move(&prime).unwrap();
        }
        assert_eq!(cube.serialize(), SOLVED, "token {base}'");

        let half = format!("{}2", base);
        for _ in 0..2 {
            cube.apply_move(&half).unwrap();
        }
        assert_eq!(cube.serialize(), SOLVED, "token {base}2");
    }
}

#[test]
fn sexy_move_has_order_six() {
    let mut cube = Cube::solved();
    for _ in 0..6 {
        cube.apply_moves("R U R' U'").unwrap();
    }
    assert_eq!(cube.serialize(), SOLVED);
}

#[test]
fn wide_move_is_face_plus_slice() {
    let mut wide = Cube::solved();
    wide.apply_moves("R U F u").unwrap();

    let mut pair = Cube::solved();
    pair.apply_moves("R U F U E").unwrap();

    assert_eq!(wide.serialize(), pair.serialize());
}

#[test]
fn empty_sequence_is_noop() {
    let mut cube = Cube::solved();
    cube.apply_moves("R U").unwrap();
    let before = cube.serialize();
    cube.apply_moves("").unwrap();
    assert_eq!(cube.serialize(), before);
}

#[test]
fn whitespace_only_sequence_is_noop() {
    let mut cube = Cube::solved();
    cube.apply_moves("  \t \n ").unwrap();
    assert_eq!(cube.serialize(), SOLVED);
}

#[test]
fn invalid_token_is_rejected_without_effect() {
    let mut cube = Cube::solved();
    assert!(cube.apply_move("Q").is_err());
    assert!(cube.apply_move("U3").is_err());
    assert!(cube.apply_move("").is_err());
    assert!(cube.apply_move("U''").is_err());
    assert_eq!(cube.serialize(), SOLVED);
}

#[test]
fn invalid_token_aborts_sequence_after_valid_prefix() {
    let mut cube = Cube::solved();
    assert!(cube.apply_moves("R Q U").is_err());

    let mut prefix_only = Cube::solved();
    prefix_only.apply_move("R").unwrap();
    assert_eq!(cube.serialize(), prefix_only.serialize());
}

#[test]
fn parse_move_angles() {
    assert_eq!(parse_move("R").unwrap().angle, 90);
    assert_eq!(parse_move("R2").unwrap().angle, 180);
    assert_eq!(parse_move("R'").unwrap().angle, 270);
    assert!(parse_move("R3").is_err());
    assert!(parse_move("W").is_err());
}

#[test]
fn parse_move_axes() {
    assert_eq!(parse_move("M").unwrap().axis, Pos { x: -1, y: 0, z: 0 });
    assert_eq!(parse_move("B").unwrap().axis, Pos { x: 0, y: 0, z: -1 });
    assert_eq!(parse_move("d").unwrap().axis, Pos { x: 0, y: -1, z: 0 });
    assert_eq!(parse_move("z").unwrap().axis, Pos { x: 0, y: 0, z: 1 });
}

#[test]
fn serialization_keeps_nine_of_each_color() {
    let mut cube = Cube::solved();
    cube.apply_moves("R U2 F' d M S E x y' z2 l r B").unwrap();
    let s = cube.serialize();
    assert_eq!(s.len(), 54);
    for color in ['U', 'R', 'F', 'D', 'L', 'B'] {
        assert_eq!(s.chars().filter(|c| *c == color).count(), 9, "color {color}");
    }
}

#[test]
fn scramble_and_exact_undo() {
    let mut cube = Cube::solved();
    cube.apply_moves("R U F' L2 d M' S E2 x y z'").unwrap();
    cube.apply_moves("z y' x' E2 S' M d' L2 F U' R'").unwrap();
    assert_eq!(cube.serialize(), SOLVED);
}
