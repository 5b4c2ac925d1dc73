use rubik::cube::{permute_colors, quarter_turn, Cubie, Face, FaceColor, RubiksCube};
use rubik::cube::FaceColor::{Blue, Green, Orange, Red, White, Yellow};

const FACES: [Face; 6] = [Face::Right, Face::Left, Face::Up, Face::Down, Face::Front, Face::Back];

fn positions(cube: &RubiksCube) -> Vec<[i32; 3]> {
    cube.cubies().iter().map(|c| c.grid_pos).collect()
}

fn colors(cube: &RubiksCube) -> Vec<[FaceColor; 6]> {
    cube.cubies().iter().map(|c| c.face_colors).collect()
}

fn turn(cube: &mut RubiksCube, face: Face, clockwise: bool) {
    cube.rotate_face(face, clockwise);
    cube.complete_turn();
}

#[test]
fn layer_of_each_face() {
    assert_eq!(Face::Right.layer(), (0, 1));
    assert_eq!(Face::Left.layer(), (0, -1));
    assert_eq!(Face::Up.layer(), (1, 1));
    assert_eq!(Face::Down.layer(), (1, -1));
    assert_eq!(Face::Front.layer(), (2, 1));
    assert_eq!(Face::Back.layer(), (2, -1));
}

#[test]
fn cubie_new_colours_outer_sides() {
    let corner = Cubie::new(1, 1, 1);
    assert_eq!(corner.grid_pos, [1, 1, 1]);
    assert_eq!(
        corner.face_colors,
        [
            FaceColor::Green,
            FaceColor::Black,
            FaceColor::White,
            FaceColor::Black,
            FaceColor::Red,
            FaceColor::Black
        ]
    );
    let edge = Cubie::new(-1, 0, -1);
    assert_eq!(
        edge.face_colors,
        [
            FaceColor::Black,
            FaceColor::Blue,
            FaceColor::Black,
            FaceColor::Black,
            FaceColor::Black,
            FaceColor::Orange
        ]
    );
    let centre = Cubie::new(0, -1, 0);
    assert_eq!(centre.face_colors[3], FaceColor::Yellow);
    assert_eq!(centre.face_colors.iter().filter(|c| **c == FaceColor::Black).count(), 5);
}

#[test]
fn new_cube_has_every_place_but_the_centre() {
    let cube = RubiksCube::new();
    let pos = positions(&cube);
    assert_eq!(pos.len(), 26);
    assert_eq!(pos[0], [-1, -1, -1]);
    assert_eq!(pos[1], [-1, -1, 0]);
    assert_eq!(pos[12], [0, 0, -1]);
    assert_eq!(pos[13], [0, 0, 1]);
    assert_eq!(pos[25], [1, 1, 1]);
    for (k, p) in pos.iter().enumerate() {
        assert_ne!(*p, [0, 0, 0]);
        for q in &pos[k + 1..] {
            assert_ne!(p, q);
        }
        assert_eq!(cube.cubies()[k].face_colors, Cubie::new(p[0], p[1], p[2]).face_colors);
    }
    assert!(!cube.is_animating());
    assert_eq!(cube.current_turn(), None);
}

#[test]
fn rotate_face_starts_one_turn_at_a_time() {
    let mut cube = RubiksCube::new();
    cube.rotate_face(Face::Up, true);
    assert!(cube.is_animating());
    assert_eq!(cube.current_turn(), Some((Face::Up, true)));
    cube.rotate_face(Face::Left, false);
    assert_eq!(cube.current_turn(), Some((Face::Up, true)));
    assert_eq!(positions(&cube), positions(&RubiksCube::new()));
}

#[test]
fn anim_face_membership() {
    let mut cube = RubiksCube::new();
    assert!(!cube.is_in_anim_face(25));
    assert!(!cube.is_in_anim_face(1000));
    cube.rotate_face(Face::Right, true);
    let pos = positions(&cube);
    for k in 0..26 {
        assert_eq!(cube.is_in_anim_face(k), pos[k][0] == 1);
    }
}

#[test]
fn indices_in_face_lists_the_layer() {
    let cube = RubiksCube::new();
    for face in FACES {
        let idx = cube.indices_in_face(face);
        assert_eq!(idx.len(), 9);
        let (axis, side) = face.layer();
        for w in idx.windows(2) {
            assert!(w[0] < w[1]);
        }
        for k in 0..26 {
            assert_eq!(idx.contains(&k), cube.cubies()[k].grid_pos[axis] == side);
        }
    }
    assert_eq!(cube.indices_in_face(Face::Back), vec![0, 3, 6, 9, 12, 14, 17, 20, 23]);
}

#[test]
fn complete_turn_moves_the_layer() {
    let mut cube = RubiksCube::new();
    let before = positions(&cube);
    let before_colors = colors(&cube);
    turn(&mut cube, Face::Right, true);
    assert!(!cube.is_animating());
    let after = positions(&cube);
    let after_colors = colors(&cube);
    // the corner (1, 1, 1) is index 25
    assert_eq!(after[25], [1, 1, -1]);
    assert_eq!(
        after_colors[25],
        [
            FaceColor::Green,
            FaceColor::Black,
            FaceColor::Black,
            FaceColor::Red,
            FaceColor::White,
            FaceColor::Black
        ]
    );
    for k in 0..26 {
        if before[k][0] != 1 {
            assert_eq!(after[k], before[k]);
            assert_eq!(after_colors[k], before_colors[k]);
        }
    }
}

#[test]
fn complete_turn_without_a_turn_changes_nothing() {
    let mut cube = RubiksCube::new();
    cube.complete_turn();
    assert_eq!(positions(&cube), positions(&RubiksCube::new()));
    assert_eq!(colors(&cube), colors(&RubiksCube::new()));
}

#[test]
fn turn_then_reverse_restores_cube() {
    for face in FACES {
        for cw in [true, false] {
            let mut cube = RubiksCube::new();
            turn(&mut cube, Face::Front, true);
            turn(&mut cube, Face::Up, false);
            let pos = positions(&cube);
            let col = colors(&cube);
            turn(&mut cube, face, cw);
            assert_ne!(positions(&cube), pos);
            turn(&mut cube, face, !cw);
            assert_eq!(positions(&cube), pos);
            assert_eq!(colors(&cube), col);
        }
    }
}

#[test]
fn four_turns_restore_cube() {
    for face in FACES {
        for cw in [true, false] {
            let mut cube = RubiksCube::new();
            turn(&mut cube, Face::Left, true);
            let pos = positions(&cube);
            let col = colors(&cube);
            for _ in 0..4 {
                turn(&mut cube, face, cw);
            }
            assert_eq!(positions(&cube), pos);
            assert_eq!(colors(&cube), col);
        }
    }
}

#[test]
fn turns_keep_cubies_on_distinct_grid_places() {
    let mut cube = RubiksCube::new();
    let moves = [
        (Face::Right, true),
        (Face::Up, false),
        (Face::Front, true),
        (Face::Back, true),
        (Face::Left, false),
        (Face::Down, true),
    ];
    for (face, cw) in moves {
        turn(&mut cube, face, cw);
        let pos = positions(&cube);
        assert_eq!(pos.len(), 26);
        for (k, p) in pos.iter().enumerate() {
            assert!(p.iter().all(|v| (-1..=1).contains(v)));
            assert_ne!(*p, [0, 0, 0]);
            for q in &pos[k + 1..] {
                assert_ne!(p, q);
            }
        }
    }
}

#[test]
fn quarter_turn_matches_the_rotation_of_space() {
    for face in FACES {
        let (axis, side) = face.layer();
        let mut axis_vec = glam::Vec3::ZERO;
        axis_vec[axis] = side as f32;
        for cw in [true, false] {
            let angle = if cw { -std::f32::consts::FRAC_PI_2 } else { std::f32::consts::FRAC_PI_2 };
            let q = glam::Quat::from_axis_angle(axis_vec, angle);
            for x in -1..=1 {
                for y in -1..=1 {
                    for z in -1..=1 {
                        let v = q * glam::Vec3::new(x as f32, y as f32, z as f32);
                        let expected = [v.x.round() as i32, v.y.round() as i32, v.z.round() as i32];
                        assert_eq!(quarter_turn([x, y, z], face, cw), expected);
                    }
                }
            }
        }
    }
}

#[test]
fn quarter_turn_right_clockwise() {
    assert_eq!(quarter_turn([1, 1, 0], Face::Right, true), [1, 0, -1]);
    assert_eq!(quarter_turn([1, 0, 1], Face::Right, true), [1, 1, 0]);
    assert_eq!(quarter_turn([0, 1, 1], Face::Front, true), [1, 0, 1]);
}

#[test]
fn permute_colors_cases() {
    let c = [Green, Blue, White, Yellow, Red, Orange];
    assert_eq!(permute_colors(c, Face::Right, true), [Green, Blue, Orange, Red, White, Yellow]);
    assert_eq!(permute_colors(c, Face::Up, true), [Red, Orange, White, Yellow, Blue, Green]);
    assert_eq!(permute_colors(c, Face::Front, false), [Yellow, White, Green, Blue, Red, Orange]);
    assert_eq!(permute_colors(c, Face::Left, true), permute_colors(c, Face::Right, false));
    for face in FACES {
        for cw in [true, false] {
            assert_eq!(permute_colors(permute_colors(c, face, cw), face, !cw), c);
            let mut x = c;
            for _ in 0..4 {
                x = permute_colors(x, face, cw);
            }
            assert_eq!(x, c);
        }
    }
}

fn colours_face_out(c: &Cubie) -> bool {
    let [x, y, z] = c.grid_pos;
    let out = [x == 1, x == -1, y == 1, y == -1, z == 1, z == -1];
    (0..6).all(|k| (c.face_colors[k] != FaceColor::Black) == out[k])
}

#[test]
fn front_and_back_turns_keep_colours_outside() {
    let mut cube = RubiksCube::new();
    assert!(cube.cubies().iter().all(colours_face_out));
    for (face, cw) in [(Face::Front, true), (Face::Back, false), (Face::Front, false), (Face::Back, true)] {
        turn(&mut cube, face, cw);
        assert!(cube.cubies().iter().all(colours_face_out));
    }
}

#[test]
fn right_turn_turns_a_coloured_side_inwards() {
    let mut cube = RubiksCube::new();
    turn(&mut cube, Face::Right, true);
    assert!(!cube.cubies().iter().all(colours_face_out));
    // the corner that moved to (1, 1, -1) shows black on its -z side
    assert_eq!(cube.cubies()[25].grid_pos, [1, 1, -1]);
    assert_eq!(cube.cubies()[25].face_colors[5], FaceColor::Black);
}
