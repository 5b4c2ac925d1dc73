use rubik::cube::{Face, FaceColor, RubiksCube};
use rubik::input::turn_for_key;
use rubik::solver::state::{Color, CubeState, B, D, F, L, R, U};
use rubik::solver::state::Color::{Blue, Green, Orange, Red, White, Yellow};

const FACES: [Face; 6] = [Face::Right, Face::Left, Face::Up, Face::Down, Face::Front, Face::Back];

fn counts(s: &CubeState) -> [usize; 6] {
    let mut n = [0usize; 6];
    for face in s.faces.iter() {
        for c in face.iter() {
            n[*c as usize] += 1;
        }
    }
    n
}

#[test]
fn face_indices() {
    assert_eq!((U, D, F, B, R, L), (0, 1, 2, 3, 4, 5));
}

#[test]
fn from_face_color_maps_each_colour() {
    assert_eq!(Color::from_face_color(FaceColor::White), Color::White);
    assert_eq!(Color::from_face_color(FaceColor::Yellow), Color::Yellow);
    assert_eq!(Color::from_face_color(FaceColor::Red), Color::Red);
    assert_eq!(Color::from_face_color(FaceColor::Orange), Color::Orange);
    assert_eq!(Color::from_face_color(FaceColor::Green), Color::Green);
    assert_eq!(Color::from_face_color(FaceColor::Blue), Color::Blue);
}

#[test]
fn solved_state_is_solved() {
    let s = CubeState::solved();
    assert!(s.is_solved());
    assert_eq!(s.faces[U], [Color::White; 9]);
    assert_eq!(s.faces[D], [Color::Yellow; 9]);
    assert_eq!(s.faces[F], [Color::Red; 9]);
    assert_eq!(s.faces[B], [Color::Orange; 9]);
    assert_eq!(s.faces[R], [Color::Green; 9]);
    assert_eq!(s.faces[L], [Color::Blue; 9]);
}

#[test]
fn one_sticker_off_is_not_solved() {
    let mut s = CubeState::solved();
    s.faces[L][8] = Color::Red;
    assert!(!s.is_solved());
    let mut t = CubeState::solved();
    t.faces[U][4] = Color::Red;
    assert!(!t.is_solved());
}

#[test]
fn up_clockwise_from_solved() {
    let s = CubeState::solved().apply_move(Face::Up, true);
    assert_eq!(s.faces[U], [White; 9]);
    assert_eq!(s.faces[D], [Yellow; 9]);
    assert_eq!(s.faces[F], [Blue, Blue, Blue, Red, Red, Red, Red, Red, Red]);
    assert_eq!(s.faces[B], [Green, Green, Green, Orange, Orange, Orange, Orange, Orange, Orange]);
    assert_eq!(s.faces[R], [Red, Red, Red, Green, Green, Green, Green, Green, Green]);
    assert_eq!(s.faces[L], [Orange, Orange, Orange, Blue, Blue, Blue, Blue, Blue, Blue]);
    assert!(!s.is_solved());
}

#[test]
fn front_counterclockwise_from_solved() {
    let s = CubeState::solved().apply_move(Face::Front, false);
    assert_eq!(s.faces[U], [White, White, White, White, White, White, Green, Green, Green]);
    assert_eq!(s.faces[D], [Blue, Blue, Blue, Yellow, Yellow, Yellow, Yellow, Yellow, Yellow]);
    assert_eq!(s.faces[F], [Red; 9]);
    assert_eq!(s.faces[R], [Yellow, Green, Green, Yellow, Green, Green, Yellow, Green, Green]);
    assert_eq!(s.faces[L], [Blue, Blue, White, Blue, Blue, White, Blue, Blue, White]);
}

#[test]
fn right_clockwise_from_solved() {
    let s = CubeState::solved().apply_move(Face::Right, true);
    assert_eq!(s.faces[U], [White, White, Orange, White, White, Orange, White, White, Orange]);
    assert_eq!(s.faces[D], [Yellow, Yellow, Red, Yellow, Yellow, Red, Yellow, Yellow, Red]);
    assert_eq!(s.faces[F], [Red, Red, White, Red, Red, White, Red, Red, White]);
    assert_eq!(s.faces[B], [Yellow, Orange, Orange, Yellow, Orange, Orange, Yellow, Orange, Orange]);
    assert_eq!(s.faces[R], [Green; 9]);
}

#[test]
fn apply_move_leaves_self_and_matches_apply_move_mut() {
    let s = CubeState::solved().apply_move(Face::Left, true);
    let copy = s.clone();
    for face in FACES {
        for cw in [true, false] {
            let t = s.apply_move(face, cw);
            assert_eq!(s, copy);
            let mut u = s.clone();
            u.apply_move_mut(face, cw);
            assert_eq!(t, u);
        }
    }
}

fn scrambled() -> CubeState {
    let mut s = CubeState::solved();
    for (face, cw) in [
        (Face::Right, true),
        (Face::Up, true),
        (Face::Front, true),
        (Face::Left, false),
        (Face::Back, true),
        (Face::Down, false),
    ] {
        s.apply_move_mut(face, cw);
    }
    s
}

#[test]
fn turn_undone_by_reverse_turn() {
    let s = scrambled();
    for face in [Face::Up, Face::Down, Face::Right, Face::Left] {
        for cw in [true, false] {
            assert_eq!(s.apply_move(face, cw).apply_move(face, !cw), s);
        }
    }
}

#[test]
fn front_turn_is_not_undone_by_the_reverse_front_turn() {
    let s = CubeState::solved().apply_move(Face::Right, true);
    let t = s.apply_move(Face::Front, true).apply_move(Face::Front, false);
    assert_ne!(t, s);
    assert_eq!(t.faces[D][0], Color::Red);
    assert_eq!(s.faces[D][0], Color::Yellow);
}

#[test]
fn four_turns_give_back_the_state() {
    let s = scrambled();
    for face in [Face::Up, Face::Down, Face::Right, Face::Left, Face::Front] {
        let mut t = s.clone();
        for _ in 0..4 {
            t.apply_move_mut(face, true);
        }
        assert_eq!(t, s);
    }
    for face in [Face::Up, Face::Down, Face::Right, Face::Left] {
        let mut t = s.clone();
        for _ in 0..4 {
            t.apply_move_mut(face, false);
        }
        assert_eq!(t, s);
    }
}

#[test]
fn turns_keep_centres_opposite_face_and_counts() {
    let s = scrambled();
    assert_eq!(counts(&s), [9; 6]);
    let opposite = [(Face::Up, D), (Face::Down, U), (Face::Front, B), (Face::Back, F), (Face::Right, L), (Face::Left, R)];
    for (face, opp) in opposite {
        for cw in [true, false] {
            let t = s.apply_move(face, cw);
            assert_eq!(counts(&t), [9; 6]);
            for f in 0..6 {
                assert_eq!(t.faces[f][4], s.faces[f][4]);
            }
            assert_eq!(t.faces[opp], s.faces[opp]);
        }
    }
}

#[test]
fn fresh_cube_reads_as_solved() {
    let cube = RubiksCube::new();
    assert_eq!(CubeState::from_rubiks_cube(&cube), CubeState::solved());
}

#[test]
fn cube_after_front_turn_reads() {
    let mut cube = RubiksCube::new();
    cube.rotate_face(Face::Front, true);
    cube.complete_turn();
    let s = CubeState::from_rubiks_cube(&cube);
    assert_eq!(s.faces[U], [Blue, Blue, Blue, White, White, White, White, White, White]);
    assert_eq!(s.faces[D], [Yellow, Yellow, Yellow, Yellow, Yellow, Yellow, Green, Green, Green]);
    assert_eq!(s.faces[F], [Red; 9]);
    assert_eq!(s.faces[B], [Orange; 9]);
    assert_eq!(s.faces[R], [White, Green, Green, White, Green, Green, White, Green, Green]);
    assert_eq!(s.faces[L], [Blue, Blue, Yellow, Blue, Blue, Yellow, Blue, Blue, Yellow]);
}

#[test]
fn keys_name_turns() {
    assert_eq!(turn_for_key('R', false), Some((Face::Right, true)));
    assert_eq!(turn_for_key('L', true), Some((Face::Left, false)));
    assert_eq!(turn_for_key('U', false), Some((Face::Up, true)));
    assert_eq!(turn_for_key('D', false), Some((Face::Down, true)));
    assert_eq!(turn_for_key('F', true), Some((Face::Front, false)));
    assert_eq!(turn_for_key('B', false), Some((Face::Back, true)));
    assert_eq!(turn_for_key('S', false), None);
    assert_eq!(turn_for_key('r', false), None);
}
