use vstd::prelude::*;
use crate::cube::{
    fresh_cubies, in_layer, on_grid, permuted, side_source, start_pos, turned_cubie, turned_cubies, turned_pos,
    well_placed, CubieView, Face, FaceColor, Pos, RubiksCube,
};
use vstd::relations::injective_on;
use vstd::set_lib::{lemma_int_range, lemma_map_size, lemma_set_subset_finite, set_int_range};

verus! {

/// The colour of a sticker of the solved-state model; interior sides never show.
#[derive(Clone, Copy, Debug, PartialEq, Eq, Hash, Structural)]
pub enum Color {
    White,
    Yellow,
    Red,
    Orange,
    Green,
    Blue,
}

/// The sticker colour that a cubie side colour stands for.
pub open spec fn sticker_color(fc: FaceColor) -> Color {
    match fc {
        FaceColor::White => Color::White,
        FaceColor::Yellow => Color::Yellow,
        FaceColor::Red => Color::Red,
        FaceColor::Orange => Color::Orange,
        FaceColor::Green => Color::Green,
        FaceColor::Blue => Color::Blue,
        FaceColor::Black => Color::White,
    }
}

impl Color {
    /// The sticker colour of an outer cubie side; `Black` sides are inside the cube and
    /// have none.
    pub fn from_face_color(fc: FaceColor) -> (r: Self)
        requires
            fc != FaceColor::Black,
        ensures
            r == sticker_color(fc),
    {
        match fc {
            FaceColor::White => Color::White,
            FaceColor::Yellow => Color::Yellow,
            FaceColor::Red => Color::Red,
            FaceColor::Orange => Color::Orange,
            FaceColor::Green => Color::Green,
            FaceColor::Blue => Color::Blue,
            FaceColor::Black => Color::White,
        }
    }
}

/// Index of the up face in `CubeState::faces`.
pub const U: usize = 0;
/// Index of the down face.
pub const D: usize = 1;
/// Index of the front face.
pub const F: usize = 2;
/// Index of the back face.
pub const B: usize = 3;
/// Index of the right face.
pub const R: usize = 4;
/// Index of the left face.
pub const L: usize = 5;

/// The sticker model of the cube: six faces of nine stickers, each face read row by
/// row, `faces[f][4]` being the centre.
#[derive(Clone, Copy, Debug, PartialEq, Eq, Hash)]
pub struct CubeState {
    pub faces: [[Color; 9]; 6],
}

impl View for CubeState {
    type V = Seq<Seq<Color>>;

    open spec fn view(&self) -> Seq<Seq<Color>> {
        sticker_model(self.faces)
    }
}

/// The stickers of six faces as sequences.
pub open spec fn sticker_model(faces: [[Color; 9]; 6]) -> Seq<Seq<Color>> {
    faces@.map_values(|f: [Color; 9]| f@)
}

/// Reading cubie `c` into the sticker model is defined: every side of it that faces
/// out of the cube has a colour.
pub open spec fn readable(c: CubieView) -> bool {
    let (x, y, z) = c.0;
    &&& y == 1 ==> c.1[2] != FaceColor::Black
    &&& y == -1 ==> c.1[3] != FaceColor::Black
    &&& z == 1 ==> c.1[4] != FaceColor::Black
    &&& z == -1 ==> c.1[5] != FaceColor::Black
    &&& x == 1 ==> c.1[0] != FaceColor::Black
    &&& x == -1 ==> c.1[1] != FaceColor::Black
}

/// `m` with sticker `(row, col)` of face `f` set to the colour of `fc`.
pub open spec fn paint_sticker(m: Seq<Seq<Color>>, f: usize, row: int, col: int, fc: FaceColor) -> Seq<
    Seq<Color>,
> {
    m.update(f as int, m[f as int].update(row * 3 + col, sticker_color(fc)))
}

/// `m` with the outer sides of cubie `c` written onto the faces they lie on, each face
/// seen from outside the cube.
#[verifier::opaque]
pub open spec fn paint_cubie(m: Seq<Seq<Color>>, c: CubieView) -> Seq<Seq<Color>> {
    let (x, y, z) = c.0;
    let s = c.1;
    let m1 = if y == 1 { paint_sticker(m, U, 1 - z, x + 1, s[2]) } else { m };
    let m2 = if y == -1 { paint_sticker(m1, D, z + 1, x + 1, s[3]) } else { m1 };
    let m3 = if z == 1 { paint_sticker(m2, F, 1 - y, x + 1, s[4]) } else { m2 };
    let m4 = if z == -1 { paint_sticker(m3, B, 1 - y, 1 - x, s[5]) } else { m3 };
    let m5 = if x == 1 { paint_sticker(m4, R, 1 - y, 1 - z, s[0]) } else { m4 };
    if x == -1 { paint_sticker(m5, L, 1 - y, z + 1, s[1]) } else { m5 }
}

/// Six white faces.
pub open spec fn blank() -> Seq<Seq<Color>> {
    Seq::new(6, |f: int| Seq::new(9, |i: int| Color::White))
}

/// The sticker model read off the cubies `cs`, painted in order onto blank faces.
pub open spec fn painted(cs: Seq<CubieView>) -> Seq<Seq<Color>>
    decreases cs.len(),
{
    if cs.len() == 0 {
        blank()
    } else {
        paint_cubie(painted(cs.drop_last()), cs.last())
    }
}

/// Six faces of nine stickers each.
pub open spec fn well_shaped(m: Seq<Seq<Color>>) -> bool {
    &&& m.len() == 6
    &&& forall|f: int| 0 <= f < 6 ==> (#[trigger] m[f]).len() == 9
}

/// The colour of face `f` on the solved cube.
pub open spec fn home_color(f: int) -> Color {
    if f == U as int {
        Color::White
    } else if f == D as int {
        Color::Yellow
    } else if f == F as int {
        Color::Red
    } else if f == B as int {
        Color::Orange
    } else if f == R as int {
        Color::Green
    } else {
        Color::Blue
    }
}

/// Every face shows one colour: that of its centre.
pub open spec fn all_faces_uniform(m: Seq<Seq<Color>>) -> bool {
    forall|f: int, i: int| 0 <= f < 6 && 0 <= i < 9 ==> #[trigger] m[f][i] == m[f][4]
}

/// The index in `faces` of the face turned by `face`.
pub open spec fn face_slot(face: Face) -> int {
    match face {
        Face::Up => U as int,
        Face::Down => D as int,
        Face::Front => F as int,
        Face::Back => B as int,
        Face::Right => R as int,
        Face::Left => L as int,
    }
}

/// The sticker of a turned face whose colour sticker `i` takes: the face's own nine
/// stickers turn a quarter about the centre (row `i / 3`, column `i % 3`).
pub open spec fn spin_source(clockwise: bool, i: int) -> int {
    let row = i / 3;
    let col = i % 3;
    if clockwise {
        (2 - col) * 3 + row
    } else {
        col * 3 + (2 - row)
    }
}

/// The nine stickers of a face after a quarter turn about its centre.
pub open spec fn spun(face: Seq<Color>, clockwise: bool) -> Seq<Color> {
    Seq::new(9, |i: int| face[spin_source(clockwise, i)])
}

/// A strip move: stickers `(to, d.k)` take the colours of `(from, s.k)`. Read forwards,
/// the sticker `(f, i)` takes its colour from the result; read backwards, the colour of
/// `(f, i)` goes to the result.
pub open spec fn strip_source(
    f: int,
    i: int,
    to: usize,
    d: (int, int, int),
    from: usize,
    s: (int, int, int),
    backwards: bool,
) -> Option<(int, int)> {
    if backwards {
        strip_pair(f, i, from as int, s, to as int, d)
    } else {
        strip_pair(f, i, to as int, d, from as int, s)
    }
}

/// `(a, x.k)` is paired with `(b, y.k)`.
pub open spec fn strip_pair(f: int, i: int, a: int, x: (int, int, int), b: int, y: (int, int, int)) -> Option<
    (int, int),
> {
    if f == a && i == x.0 {
        Some((b, y.0))
    } else if f == a && i == x.1 {
        Some((b, y.1))
    } else if f == a && i == x.2 {
        Some((b, y.2))
    } else {
        None
    }
}

/// The first of four that is `Some`.
pub open spec fn first_of(
    a: Option<(int, int)>,
    b: Option<(int, int)>,
    c: Option<(int, int)>,
    d: Option<(int, int)>,
) -> Option<(int, int)> {
    if a is Some {
        a
    } else if b is Some {
        b
    } else if c is Some {
        c
    } else {
        d
    }
}

/// For a turn of `face`, where each moving sticker of the four neighbouring faces takes
/// its colour from (or, read backwards, where its colour goes): four strips of three
/// stickers, each written as the face and slots it goes to, then the face and slots it
/// comes from.
pub open spec fn ring_source(face: Face, clockwise: bool, f: int, i: int, backwards: bool) -> Option<(int, int)> {
    let top = (0int, 1int, 2int);
    let bottom = (6int, 7int, 8int);
    let left = (0int, 3int, 6int);
    let right = (2int, 5int, 8int);
    match (face, clockwise) {
        (Face::Up, true) => first_of(
            strip_source(f, i, R, top, F, top, backwards),
            strip_source(f, i, B, top, R, top, backwards),
            strip_source(f, i, L, top, B, top, backwards),
            strip_source(f, i, F, top, L, top, backwards),
        ),
        (Face::Up, false) => first_of(
            strip_source(f, i, L, top, F, top, backwards),
            strip_source(f, i, B, top, L, top, backwards),
            strip_source(f, i, R, top, B, top, backwards),
            strip_source(f, i, F, top, R, top, backwards),
        ),
        (Face::Down, true) => first_of(
            strip_source(f, i, L, bottom, F, bottom, backwards),
            strip_source(f, i, B, bottom, L, bottom, backwards),
            strip_source(f, i, R, bottom, B, bottom, backwards),
            strip_source(f, i, F, bottom, R, bottom, backwards),
        ),
        (Face::Down, false) => first_of(
            strip_source(f, i, R, bottom, F, bottom, backwards),
            strip_source(f, i, B, bottom, R, bottom, backwards),
            strip_source(f, i, L, bottom, B, bottom, backwards),
            strip_source(f, i, F, bottom, L, bottom, backwards),
        ),
        (Face::Front, true) => first_of(
            strip_source(f, i, R, left, U, bottom, backwards),
            strip_source(f, i, D, (2, 1, 0), R, left, backwards),
            strip_source(f, i, L, (8, 5, 2), D, (2, 1, 0), backwards),
            strip_source(f, i, U, bottom, L, (8, 5, 2), backwards),
        ),
        (Face::Front, false) => first_of(
            strip_source(f, i, L, (8, 5, 2), U, bottom, backwards),
            strip_source(f, i, D, top, L, (8, 5, 2), backwards),
            strip_source(f, i, R, left, D, (2, 1, 0), backwards),
            strip_source(f, i, U, bottom, R, left, backwards),
        ),
        (Face::Back, true) => first_of(
            strip_source(f, i, L, left, U, (2, 1, 0), backwards),
            strip_source(f, i, D, (8, 7, 6), L, left, backwards),
            strip_source(f, i, R, right, D, (8, 7, 6), backwards),
            strip_source(f, i, U, top, R, right, backwards),
        ),
        (Face::Back, false) => first_of(
            strip_source(f, i, R, right, U, top, backwards),
            strip_source(f, i, D, bottom, R, right, backwards),
            strip_source(f, i, L, left, D, bottom, backwards),
            strip_source(f, i, U, top, L, (6, 3, 0), backwards),
        ),
        (Face::Right, true) => first_of(
            strip_source(f, i, F, right, U, right, backwards),
            strip_source(f, i, D, right, F, right, backwards),
            strip_source(f, i, B, (6, 3, 0), D, right, backwards),
            strip_source(f, i, U, right, B, (6, 3, 0), backwards),
        ),
        (Face::Right, false) => first_of(
            strip_source(f, i, B, (6, 3, 0), U, right, backwards),
            strip_source(f, i, D, right, B, (6, 3, 0), backwards),
            strip_source(f, i, F, right, D, right, backwards),
            strip_source(f, i, U, right, F, right, backwards),
        ),
        (Face::Left, true) => first_of(
            strip_source(f, i, B, (8, 5, 2), U, left, backwards),
            strip_source(f, i, D, left, B, (8, 5, 2), backwards),
            strip_source(f, i, F, left, D, left, backwards),
            strip_source(f, i, U, left, F, left, backwards),
        ),
        (Face::Left, false) => first_of(
            strip_source(f, i, F, left, U, left, backwards),
            strip_source(f, i, D, left, F, left, backwards),
            strip_source(f, i, B, (8, 5, 2), D, left, backwards),
            strip_source(f, i, U, left, B, (8, 5, 2), backwards),
        ),
    }
}

/// The sticker `(face, index)` whose colour sticker `(f, i)` shows after a turn.
pub open spec fn source(face: Face, clockwise: bool, f: int, i: int) -> (int, int) {
    if f == face_slot(face) {
        (f, spin_source(clockwise, i))
    } else {
        match ring_source(face, clockwise, f, i, false) {
            Some(p) => p,
            None => (f, i),
        }
    }
}

/// The sticker `(face, index)` that the colour of sticker `(f, i)` goes to in a turn.
pub open spec fn target(face: Face, clockwise: bool, f: int, i: int) -> (int, int) {
    if f == face_slot(face) {
        (f, spin_source(!clockwise, i))
    } else {
        match ring_source(face, clockwise, f, i, true) {
            Some(p) => p,
            None => (f, i),
        }
    }
}

/// The sticker model after a turn of `face`.
pub open spec fn turned(m: Seq<Seq<Color>>, face: Face, clockwise: bool) -> Seq<Seq<Color>> {
    Seq::new(
        6,
        |f: int|
            Seq::new(
                9,
                |i: int| m[source(face, clockwise, f, i).0][source(face, clockwise, f, i).1],
            ),
    )
}

/// The quarter turn of a face's own stickers, slot by slot.
proof fn lemma_spin_source_table(clockwise: bool, i: int)
    requires
        0 <= i < 9,
    ensures
        spin_source(clockwise, i) == if clockwise {
            if i == 0 { 6int } else if i == 1 { 3int } else if i == 2 { 0int } else if i == 3 { 7int }
            else if i == 4 { 4int } else if i == 5 { 1int } else if i == 6 { 8int } else if i == 7 { 5int }
            else { 2int }
        } else {
            if i == 0 { 2int } else if i == 1 { 5int } else if i == 2 { 8int } else if i == 3 { 1int }
            else if i == 4 { 4int } else if i == 5 { 7int } else if i == 6 { 0int } else if i == 7 { 3int }
            else { 6int }
        },
{
    assert(i == 0 || i == 1 || i == 2 || i == 3 || i == 4 || i == 5 || i == 6 || i == 7 || i == 8);
}

/// Writes the outer sides of `cubie` onto the faces they lie on.
fn paint_cubie_onto(faces: &mut [[Color; 9]; 6], cubie: &crate::cube::Cubie)
    requires
        readable(cubie@),
        crate::cube::on_grid(cubie@.0),
    ensures
        sticker_model(*final(faces)) == paint_cubie(sticker_model(*old(faces)), cubie@),
{
    reveal(paint_cubie);
    let x = cubie.grid_pos[0];
    let y = cubie.grid_pos[1];
    let z = cubie.grid_pos[2];

    if y == 1 {
        let col = (x + 1) as usize;
        let row = (1 - z) as usize;
        paint(faces, U, row, col, cubie.face_colors[2]);
    }
    if y == -1 {
        let col = (x + 1) as usize;
        let row = (z + 1) as usize;
        paint(faces, D, row, col, cubie.face_colors[3]);
    }
    if z == 1 {
        let col = (x + 1) as usize;
        let row = (1 - y) as usize;
        paint(faces, F, row, col, cubie.face_colors[4]);
    }
    if z == -1 {
        let col = (1 - x) as usize;
        let row = (1 - y) as usize;
        paint(faces, B, row, col, cubie.face_colors[5]);
    }
    if x == 1 {
        let col = (1 - z) as usize;
        let row = (1 - y) as usize;
        paint(faces, R, row, col, cubie.face_colors[0]);
    }
    if x == -1 {
        let col = (z + 1) as usize;
        let row = (1 - y) as usize;
        paint(faces, L, row, col, cubie.face_colors[1]);
    }
}

/// Sets sticker `(row, col)` of face `f` to the colour of the outer cubie side `fc`.
fn paint(faces: &mut [[Color; 9]; 6], f: usize, row: usize, col: usize, fc: FaceColor)
    requires
        f < 6,
        row < 3,
        col < 3,
        fc != FaceColor::Black,
    ensures
        sticker_model(*final(faces)) == paint_sticker(sticker_model(*old(faces)), f, row as int, col as int, fc),
{
    faces[f][row * 3 + col] = Color::from_face_color(fc);
    assert(sticker_model(*faces) =~= paint_sticker(sticker_model(*old(faces)), f, row as int, col as int, fc));
}

/// Two well-shaped sticker models that agree sticker by sticker are equal.
proof fn lemma_same_stickers(a: Seq<Seq<Color>>, b: Seq<Seq<Color>>)
    requires
        well_shaped(a),
        well_shaped(b),
        a[0][0] == b[0][0],
        a[0][1] == b[0][1],
        a[0][2] == b[0][2],
        a[0][3] == b[0][3],
        a[0][4] == b[0][4],
        a[0][5] == b[0][5],
        a[0][6] == b[0][6],
        a[0][7] == b[0][7],
        a[0][8] == b[0][8],
        a[1][0] == b[1][0],
        a[1][1] == b[1][1],
        a[1][2] == b[1][2],
        a[1][3] == b[1][3],
        a[1][4] == b[1][4],
        a[1][5] == b[1][5],
        a[1][6] == b[1][6],
        a[1][7] == b[1][7],
        a[1][8] == b[1][8],
        a[2][0] == b[2][0],
        a[2][1] == b[2][1],
        a[2][2] == b[2][2],
        a[2][3] == b[2][3],
        a[2][4] == b[2][4],
        a[2][5] == b[2][5],
        a[2][6] == b[2][6],
        a[2][7] == b[2][7],
        a[2][8] == b[2][8],
        a[3][0] == b[3][0],
        a[3][1] == b[3][1],
        a[3][2] == b[3][2],
        a[3][3] == b[3][3],
        a[3][4] == b[3][4],
        a[3][5] == b[3][5],
        a[3][6] == b[3][6],
        a[3][7] == b[3][7],
        a[3][8] == b[3][8],
        a[4][0] == b[4][0],
        a[4][1] == b[4][1],
        a[4][2] == b[4][2],
        a[4][3] == b[4][3],
        a[4][4] == b[4][4],
        a[4][5] == b[4][5],
        a[4][6] == b[4][6],
        a[4][7] == b[4][7],
        a[4][8] == b[4][8],
        a[5][0] == b[5][0],
        a[5][1] == b[5][1],
        a[5][2] == b[5][2],
        a[5][3] == b[5][3],
        a[5][4] == b[5][4],
        a[5][5] == b[5][5],
        a[5][6] == b[5][6],
        a[5][7] == b[5][7],
        a[5][8] == b[5][8],
    ensures
        a == b,
{
    assert forall|g: int, i: int| 0 <= g < 6 && 0 <= i < 9 implies #[trigger] a[g][i] == b[g][i] by {
        assert(g == 0 || g == 1 || g == 2 || g == 3 || g == 4 || g == 5);
        assert(i == 0 || i == 1 || i == 2 || i == 3 || i == 4 || i == 5 || i == 6 || i == 7 || i == 8);
    }
    assert forall|g: int| 0 <= g < 6 implies #[trigger] a[g] =~= b[g] by {}
    assert(a =~= b);
}

impl CubeState {
    /// The solved cube: every face shows its own colour.
    pub fn solved() -> (r: Self)
        ensures
            forall|f: int, i: int| 0 <= f < 6 && 0 <= i < 9 ==> #[trigger] r@[f][i] == home_color(f),
    {
        let r = Self {
            faces: [
                [Color::White; 9],
                [Color::Yellow; 9],
                [Color::Red; 9],
                [Color::Orange; 9],
                [Color::Green; 9],
                [Color::Blue; 9],
            ],
        };
        r
    }

    /// The sticker model of a cube of cubies.
    pub fn from_rubiks_cube(cube: &RubiksCube) -> (r: Self)
        requires
            forall|k: int| 0 <= k < cube@.len() ==> readable(#[trigger] cube@[k]),
        ensures
            r@ == painted(cube@),
    {
        let mut faces = [[Color::White; 9]; 6];
        let cubies = cube.cubies();
        let n = cubies.len();
        assert(forall|j: int| 0 <= j < cube@.len() ==> crate::cube::on_grid((#[trigger] cube@[j]).0));
        let mut k: usize = 0;
        assert(sticker_model(faces) =~~= blank());
        while k < n
            invariant
                n == cube@.len(),
                cubies@.map_values(|c: crate::cube::Cubie| c@) == cube@,
                k <= n,
                forall|j: int| 0 <= j < cube@.len() ==> readable(#[trigger] cube@[j]),
                forall|j: int| 0 <= j < cube@.len() ==> crate::cube::on_grid((#[trigger] cube@[j]).0),
                sticker_model(faces) == painted(cube@.take(k as int)),
            decreases n - k,
        {
            let ghost cv = cube@[k as int];
            assert(cubies[k as int]@ == cv);
            assert(cube@.take(k + 1).drop_last() =~= cube@.take(k as int));
            paint_cubie_onto(&mut faces, &cubies[k]);
            k += 1;
        }
        assert(cube@.take(n as int) =~= cube@);
        Self { faces }
    }

    /// Whether every face shows a single colour.
    pub fn is_solved(&self) -> (r: bool)
        ensures
            r == all_faces_uniform(self@),
    {
        let mut f: usize = 0;
        while f < 6
            invariant
                f <= 6,
                forall|g: int, i: int| 0 <= g < f && 0 <= i < 9 ==> #[trigger] self@[g][i] == self@[g][4],
            decreases 6 - f,
        {
            let face = &self.faces[f];
            let center = face[4];
            let mut i: usize = 0;
            while i < 9
                invariant
                    f < 6,
                    i <= 9,
                    center == self@[f as int][4],
                    face@ == self@[f as int],
                    forall|j: int| 0 <= j < i ==> #[trigger] self@[f as int][j] == center,
                decreases 9 - i,
            {
                if face[i] != center {
                    return false;
                }
                i += 1;
            }
            f += 1;
        }
        true
    }

    /// The cube after a turn of `face`; `self` is left as it is.
    pub fn apply_move(&self, face: Face, clockwise: bool) -> (r: Self)
        ensures
            r@ == turned(self@, face, clockwise),
    {
        let mut next = self.clone();
        next.apply_move_mut(face, clockwise);
        next
    }

    /// Turns the layer `face`, clockwise as seen from outside that face or not.
    pub fn apply_move_mut(&mut self, face: Face, clockwise: bool)
        ensures
            final(self)@ == turned(old(self)@, face, clockwise),
    {
        match face {
            Face::Up => self.rotate_u(clockwise),
            Face::Down => self.rotate_d(clockwise),
            Face::Front => self.rotate_f(clockwise),
            Face::Back => self.rotate_b(clockwise),
            Face::Right => self.rotate_r(clockwise),
            Face::Left => self.rotate_l(clockwise),
        }
    }

    /// Copies stickers `from[s.0]`, `from[s.1]`, `from[s.2]` onto stickers `d.0`, `d.1`,
    /// `d.2` of face `to`.
    fn copy_strip(&mut self, to: usize, d: (usize, usize, usize), from: &[Color; 9], s: (usize, usize, usize))
        requires
            to < 6,
            d.0 < 9 && d.1 < 9 && d.2 < 9,
            s.0 < 9 && s.1 < 9 && s.2 < 9,
        ensures
            final(self)@ == old(self)@.update(
                to as int,
                old(self)@[to as int].update(d.0 as int, from@[s.0 as int]).update(
                    d.1 as int,
                    from@[s.1 as int],
                ).update(d.2 as int, from@[s.2 as int]),
            ),
    {
        let mut face = self.faces[to];
        face[d.0] = from[s.0];
        face[d.1] = from[s.1];
        face[d.2] = from[s.2];
        self.faces[to] = face;
        assert(self@ =~= old(self)@.update(
            to as int,
            old(self)@[to as int].update(d.0 as int, from@[s.0 as int]).update(d.1 as int, from@[s.1 as int]).update(
                d.2 as int,
                from@[s.2 as int],
            ),
        ));
    }

    fn rotate_u(&mut self, clockwise: bool)
        ensures
            final(self)@ == turned(old(self)@, Face::Up, clockwise),
    {
        self.rotate_face_stickers(U, clockwise);

        // The top rows of F, R, B and L cycle.
        let f = self.faces[F];
        let r = self.faces[R];
        let b = self.faces[B];
        let l = self.faces[L];
        let top = (0, 1, 2);

        if clockwise {
            self.copy_strip(R, top, &f, top);
            self.copy_strip(B, top, &r, top);
            self.copy_strip(L, top, &b, top);
            self.copy_strip(F, top, &l, top);
        } else {
            self.copy_strip(L, top, &f, top);
            self.copy_strip(B, top, &l, top);
            self.copy_strip(R, top, &b, top);
            self.copy_strip(F, top, &r, top);
        }
        proof {
            lemma_same_stickers(self@, turned(old(self)@, Face::Up, clockwise));
        }
    }

    fn rotate_d(&mut self, clockwise: bool)
        ensures
            final(self)@ == turned(old(self)@, Face::Down, clockwise),
    {
        self.rotate_face_stickers(D, clockwise);

        // The bottom rows of F, L, B and R cycle.
        let f = self.faces[F];
        let r = self.faces[R];
        let b = self.faces[B];
        let l = self.faces[L];
        let bottom = (6, 7, 8);

        if clockwise {
            self.copy_strip(L, bottom, &f, bottom);
            self.copy_strip(B, bottom, &l, bottom);
            self.copy_strip(R, bottom, &b, bottom);
            self.copy_strip(F, bottom, &r, bottom);
        } else {
            self.copy_strip(R, bottom, &f, bottom);
            self.copy_strip(B, bottom, &r, bottom);
            self.copy_strip(L, bottom, &b, bottom);
            self.copy_strip(F, bottom, &l, bottom);
        }
        proof {
            lemma_same_stickers(self@, turned(old(self)@, Face::Down, clockwise));
        }
    }

    fn rotate_f(&mut self, clockwise: bool)
        ensures
            final(self)@ == turned(old(self)@, Face::Front, clockwise),
    {
        self.rotate_face_stickers(F, clockwise);

        // The bottom row of U, the left column of R, the top row of D and the right column of L cycle.
        let u = self.faces[U];
        let r = self.faces[R];
        let d = self.faces[D];
        let l = self.faces[L];

        if clockwise {
            self.copy_strip(R, (0, 3, 6), &u, (6, 7, 8));
            self.copy_strip(D, (2, 1, 0), &r, (0, 3, 6));
            self.copy_strip(L, (8, 5, 2), &d, (2, 1, 0));
            self.copy_strip(U, (6, 7, 8), &l, (8, 5, 2));
        } else {
            self.copy_strip(L, (8, 5, 2), &u, (6, 7, 8));
            self.copy_strip(D, (0, 1, 2), &l, (8, 5, 2));
            self.copy_strip(R, (0, 3, 6), &d, (2, 1, 0));
            self.copy_strip(U, (6, 7, 8), &r, (0, 3, 6));
        }
        proof {
            lemma_same_stickers(self@, turned(old(self)@, Face::Front, clockwise));
        }
    }

    fn rotate_b(&mut self, clockwise: bool)
        ensures
            final(self)@ == turned(old(self)@, Face::Back, clockwise),
    {
        self.rotate_face_stickers(B, clockwise);

        // The top row of U, the left column of L, the bottom row of D and the right column of R cycle.
        let u = self.faces[U];
        let r = self.faces[R];
        let d = self.faces[D];
        let l = self.faces[L];

        if clockwise {
            self.copy_strip(L, (0, 3, 6), &u, (2, 1, 0));
            self.copy_strip(D, (8, 7, 6), &l, (0, 3, 6));
            self.copy_strip(R, (2, 5, 8), &d, (8, 7, 6));
            self.copy_strip(U, (0, 1, 2), &r, (2, 5, 8));
        } else {
            self.copy_strip(R, (2, 5, 8), &u, (0, 1, 2));
            self.copy_strip(D, (6, 7, 8), &r, (2, 5, 8));
            self.copy_strip(L, (0, 3, 6), &d, (6, 7, 8));
            self.copy_strip(U, (0, 1, 2), &l, (6, 3, 0));
        }
        proof {
            lemma_same_stickers(self@, turned(old(self)@, Face::Back, clockwise));
        }
    }

    fn rotate_r(&mut self, clockwise: bool)
        ensures
            final(self)@ == turned(old(self)@, Face::Right, clockwise),
    {
        self.rotate_face_stickers(R, clockwise);

        // The right columns of U, F and D and the left column of B (read upwards) cycle.
        let u = self.faces[U];
        let f = self.faces[F];
        let d = self.faces[D];
        let b = self.faces[B];
        let right = (2, 5, 8);

        if clockwise {
            self.copy_strip(F, right, &u, right);
            self.copy_strip(D, right, &f, right);
            self.copy_strip(B, (6, 3, 0), &d, right);
            self.copy_strip(U, right, &b, (6, 3, 0));
        } else {
            self.copy_strip(B, (6, 3, 0), &u, right);
            self.copy_strip(D, right, &b, (6, 3, 0));
            self.copy_strip(F, right, &d, right);
            self.copy_strip(U, right, &f, right);
        }
        proof {
            lemma_same_stickers(self@, turned(old(self)@, Face::Right, clockwise));
        }
    }

    fn rotate_l(&mut self, clockwise: bool)
        ensures
            final(self)@ == turned(old(self)@, Face::Left, clockwise),
    {
        self.rotate_face_stickers(L, clockwise);

        // The left columns of U, F and D and the right column of B (read upwards) cycle.
        let u = self.faces[U];
        let f = self.faces[F];
        let d = self.faces[D];
        let b = self.faces[B];
        let left = (0, 3, 6);

        if clockwise {
            self.copy_strip(B, (8, 5, 2), &u, left);
            self.copy_strip(D, left, &b, (8, 5, 2));
            self.copy_strip(F, left, &d, left);
            self.copy_strip(U, left, &f, left);
        } else {
            self.copy_strip(F, left, &u, left);
            self.copy_strip(D, left, &f, left);
            self.copy_strip(B, (8, 5, 2), &d, left);
            self.copy_strip(U, left, &b, (8, 5, 2));
        }
        proof {
            lemma_same_stickers(self@, turned(old(self)@, Face::Left, clockwise));
        }
    }

    /// Turns the nine stickers of face `f` a quarter about its centre.
    fn rotate_face_stickers(&mut self, f: usize, clockwise: bool)
        requires
            f < 6,
        ensures
            final(self)@ == old(self)@.update(f as int, spun(old(self)@[f as int], clockwise)),
    {
        let face = &mut self.faces[f];
        if clockwise {
            // 0 -> 2 -> 8 -> 6, 1 -> 5 -> 7 -> 3
            let tmp = face[0];
            face[0] = face[6];
            face[6] = face[8];
            face[8] = face[2];
            face[2] = tmp;

            let tmp = face[1];
            face[1] = face[3];
            face[3] = face[7];
            face[7] = face[5];
            face[5] = tmp;
        } else {
            let tmp = face[0];
            face[0] = face[2];
            face[2] = face[8];
            face[8] = face[6];
            face[6] = tmp;

            let tmp = face[1];
            face[1] = face[5];
            face[5] = face[7];
            face[7] = face[3];
            face[3] = tmp;
        }
        assert forall|i: int| 0 <= i < 9 implies #[trigger] self@[f as int][i] == spun(old(self)@[f as int], clockwise)[i] by {
            lemma_spin_source_table(clockwise, i);
        }
        assert(self@ =~~= old(self)@.update(f as int, spun(old(self)@[f as int], clockwise)));
    }
}


/// The slots `(f, i)` of the sticker model.
pub open spec fn is_slot(p: (int, int)) -> bool {
    0 <= p.0 < 6 && 0 <= p.1 < 9
}

/// The face opposite the one turned by `face`.
pub open spec fn opposite_slot(face: Face) -> int {
    match face {
        Face::Up => D as int,
        Face::Down => U as int,
        Face::Front => B as int,
        Face::Back => F as int,
        Face::Right => L as int,
        Face::Left => R as int,
    }
}

/// The slots that show colour `c`.
pub open spec fn stickers_of(m: Seq<Seq<Color>>, c: Color) -> Set<(int, int)> {
    Set::new(|p: (int, int)| is_slot(p) && m[p.0][p.1] == c)
}

proof fn lemma_slot_cases(f: int, i: int)
    requires
        0 <= f < 6,
        0 <= i < 9,
    ensures
        f == 0 || f == 1 || f == 2 || f == 3 || f == 4 || f == 5,
        i == 0 || i == 1 || i == 2 || i == 3 || i == 4 || i == 5 || i == 6 || i == 7 || i == 8,
{
}

proof fn lemma_slot_undone(face: Face, clockwise: bool, f: int, i: int)
    requires
        face != Face::Front && face != Face::Back,
        0 <= f < 6,
        0 <= i < 9,
    ensures
        is_slot(source(face, !clockwise, f, i)),
        source(face, clockwise, source(face, !clockwise, f, i).0, source(face, !clockwise, f, i).1) == (f, i),
{
    lemma_spin_source_table(clockwise, i);
    lemma_spin_source_table(!clockwise, i);
    lemma_slot_cases(f, i);
    let p = source(face, !clockwise, f, i);
    lemma_spin_source_table(clockwise, p.1);
}

#[verifier::spinoff_prover]
#[verifier::rlimit(100)]
proof fn lemma_slot_bijection(face: Face, clockwise: bool, f: int, i: int)
    requires
        0 <= f < 6,
        0 <= i < 9,
    ensures
        is_slot(source(face, clockwise, f, i)),
        is_slot(target(face, clockwise, f, i)),
        target(face, clockwise, source(face, clockwise, f, i).0, source(face, clockwise, f, i).1) == (f, i),
        source(face, clockwise, target(face, clockwise, f, i).0, target(face, clockwise, f, i).1) == (f, i),
{
    lemma_spin_source_table(clockwise, i);
    lemma_spin_source_table(!clockwise, i);
    lemma_slot_cases(f, i);
    let p = source(face, clockwise, f, i);
    let q = target(face, clockwise, f, i);
    lemma_spin_source_table(!clockwise, p.1);
    lemma_spin_source_table(clockwise, q.1);
}

#[verifier::spinoff_prover]
#[verifier::rlimit(100)]
proof fn lemma_slot_four(face: Face, clockwise: bool, f: int, i: int)
    requires
        face != Face::Back,
        face == Face::Front ==> clockwise,
        0 <= f < 6,
        0 <= i < 9,
    ensures
        ({
            let p1 = source(face, clockwise, f, i);
            let p2 = source(face, clockwise, p1.0, p1.1);
            let p3 = source(face, clockwise, p2.0, p2.1);
            let p4 = source(face, clockwise, p3.0, p3.1);
            is_slot(p1) && is_slot(p2) && is_slot(p3) && p4 == (f, i)
        }),
{
    lemma_slot_cases(f, i);
    lemma_spin_source_table(clockwise, i);
    let p1 = source(face, clockwise, f, i);
    lemma_spin_source_table(clockwise, p1.1);
    let p2 = source(face, clockwise, p1.0, p1.1);
    lemma_spin_source_table(clockwise, p2.1);
    let p3 = source(face, clockwise, p2.0, p2.1);
    lemma_spin_source_table(clockwise, p3.1);
}

/// The solved cube's stickers show one colour per face.
pub proof fn lemma_home_colors_uniform(m: Seq<Seq<Color>>)
    requires
        well_shaped(m),
        forall|f: int, i: int| 0 <= f < 6 && 0 <= i < 9 ==> #[trigger] m[f][i] == home_color(f),
    ensures
        all_faces_uniform(m),
{
    assert forall|f: int, i: int| 0 <= f < 6 && 0 <= i < 9 implies #[trigger] m[f][i] == m[f][4] by {
        assert(m[f][4] == home_color(f));
    }
}

/// A turn is undone by the opposite turn of the same face, for the up, down, right and
/// left faces.
pub proof fn lemma_turn_undone(m: Seq<Seq<Color>>, face: Face, clockwise: bool)
    requires
        well_shaped(m),
        face != Face::Front && face != Face::Back,
    ensures
        turned(turned(m, face, clockwise), face, !clockwise) == m,
{
    let t = turned(turned(m, face, clockwise), face, !clockwise);
    assert forall|f: int, i: int| 0 <= f < 6 && 0 <= i < 9 implies #[trigger] t[f][i] == m[f][i] by {
        lemma_slot_undone(face, clockwise, f, i);
    }
    assert forall|f: int| 0 <= f < 6 implies #[trigger] t[f] =~= m[f] by {}
    assert(t =~= m);
}

/// Four quarter turns of a face in one direction give back the cube, for every turn but
/// a counterclockwise front turn and the back turns.
pub proof fn lemma_four_turns(m: Seq<Seq<Color>>, face: Face, clockwise: bool)
    requires
        well_shaped(m),
        face != Face::Back,
        face == Face::Front ==> clockwise,
    ensures
        turned(turned(turned(turned(m, face, clockwise), face, clockwise), face, clockwise), face, clockwise)
            == m,
{
    let t1 = turned(m, face, clockwise);
    let t2 = turned(t1, face, clockwise);
    let t3 = turned(t2, face, clockwise);
    let t4 = turned(t3, face, clockwise);
    assert forall|f: int, i: int| 0 <= f < 6 && 0 <= i < 9 implies #[trigger] t4[f][i] == m[f][i] by {
        lemma_slot_four(face, clockwise, f, i);
    }
    assert forall|f: int| 0 <= f < 6 implies #[trigger] t4[f] =~= m[f] by {}
    assert(t4 =~= m);
}

/// A turn keeps every centre sticker and the whole opposite face where they are.
pub proof fn lemma_turn_keeps_centres_and_opposite(m: Seq<Seq<Color>>, face: Face, clockwise: bool)
    requires
        well_shaped(m),
    ensures
        well_shaped(turned(m, face, clockwise)),
        forall|f: int| 0 <= f < 6 ==> #[trigger] turned(m, face, clockwise)[f][4] == m[f][4],
        turned(m, face, clockwise)[opposite_slot(face)] == m[opposite_slot(face)],
{
    let t = turned(m, face, clockwise);
    assert forall|f: int| 0 <= f < 6 implies #[trigger] t[f][4] == m[f][4] by {
        lemma_spin_source_table(clockwise, 4);
        lemma_slot_cases(f, 4);
    }
    let o = opposite_slot(face);
    assert forall|i: int| 0 <= i < 9 implies #[trigger] t[o][i] == m[o][i] by {
        lemma_slot_cases(o, i);
    }
    assert(t[o] =~= m[o]);
}

/// A turn only moves stickers about: `target` undoes `source` and the other way round,
/// on every slot.
pub proof fn lemma_turn_permutes_slots(face: Face, clockwise: bool)
    ensures
        forall|f: int, i: int| 0 <= f < 6 && 0 <= i < 9 ==> {
            let p = #[trigger] source(face, clockwise, f, i);
            let q = target(face, clockwise, f, i);
            &&& is_slot(p)
            &&& is_slot(q)
            &&& target(face, clockwise, p.0, p.1) == (f, i)
            &&& source(face, clockwise, q.0, q.1) == (f, i)
        },
{
    assert forall|f: int, i: int| 0 <= f < 6 && 0 <= i < 9 implies {
        let p = #[trigger] source(face, clockwise, f, i);
        let q = target(face, clockwise, f, i);
        &&& is_slot(p)
        &&& is_slot(q)
        &&& target(face, clockwise, p.0, p.1) == (f, i)
        &&& source(face, clockwise, q.0, q.1) == (f, i)
    } by {
        lemma_slot_bijection(face, clockwise, f, i);
    }
}

/// All 54 sticker slots.
pub open spec fn all_slots() -> Set<(int, int)> {
    Set::new(|p: (int, int)| is_slot(p))
}

proof fn lemma_slot_number(p: (int, int))
    requires
        is_slot(p),
    ensures
        0 <= p.0 * 9 + p.1 < 54,
        (p.0 * 9 + p.1) / 9 == p.0,
        (p.0 * 9 + p.1) % 9 == p.1,
{
    assert((p.0 * 9 + p.1) / 9 == p.0 && (p.0 * 9 + p.1) % 9 == p.1) by (nonlinear_arith)
        requires 0 <= p.1 < 9;
}

proof fn lemma_stickers_of_finite(m: Seq<Seq<Color>>, c: Color)
    ensures
        all_slots().finite(),
        stickers_of(m, c).finite(),
{
    let numbers = set_int_range(0, 54);
    let split = |n: int| (n / 9, n % 9);
    lemma_int_range(0, 54);
    numbers.lemma_map_finite(split);
    assert forall|p: (int, int)| all_slots().contains(p) implies #[trigger] numbers.map(split).contains(p) by {
        lemma_slot_number(p);
        assert(numbers.contains(p.0 * 9 + p.1));
        assert(split(p.0 * 9 + p.1) == p);
    }
    lemma_set_subset_finite(numbers.map(split), all_slots());
    lemma_set_subset_finite(all_slots(), stickers_of(m, c));
}

/// Rearranging stickers by a bijection of the slots keeps the number of each colour.
proof fn lemma_rearranged_counts(
    m: Seq<Seq<Color>>,
    n: Seq<Seq<Color>>,
    from: spec_fn((int, int)) -> (int, int),
    to: spec_fn((int, int)) -> (int, int),
    c: Color,
)
    requires
        forall|x: (int, int)| is_slot(x) ==> is_slot(#[trigger] from(x)) && to(from(x)) == x,
        forall|x: (int, int)| is_slot(x) ==> is_slot(#[trigger] to(x)) && from(to(x)) == x,
        forall|x: (int, int)| is_slot(x) ==> #[trigger] n[x.0][x.1] == m[from(x).0][from(x).1],
    ensures
        stickers_of(n, c).finite(),
        stickers_of(n, c).len() == stickers_of(m, c).len(),
{
    let before = stickers_of(m, c);
    let after = stickers_of(n, c);
    lemma_stickers_of_finite(m, c);
    assert forall|a: (int, int)| after.contains(a) implies #[trigger] before.map(to).contains(a) by {
        let x = from(a);
        assert(before.contains(x));
        assert(to(x) == a);
    }
    assert forall|a: (int, int)| #[trigger] before.map(to).contains(a) implies after.contains(a) by {
        let x = choose|x: (int, int)| before.contains(x) && a == to(x);
        assert(is_slot(x));
        assert(n[a.0][a.1] == m[from(a).0][from(a).1]);
    }
    assert(before.map(to) =~= after);
    assert forall|x: (int, int), y: (int, int)|
        before.contains(x) && before.contains(y) && #[trigger] to(x) == #[trigger] to(y) implies x == y by {
        assert(from(to(x)) == x);
        assert(from(to(y)) == y);
    }
    assert(injective_on(to, before));
    lemma_map_size(before, after, to);
}

/// A turn keeps the number of stickers of each colour.
pub proof fn lemma_turn_keeps_color_counts(m: Seq<Seq<Color>>, face: Face, clockwise: bool, c: Color)
    requires
        well_shaped(m),
    ensures
        stickers_of(turned(m, face, clockwise), c).finite(),
        stickers_of(turned(m, face, clockwise), c).len() == stickers_of(m, c).len(),
{
    let from = |p: (int, int)| source(face, clockwise, p.0, p.1);
    let to = |p: (int, int)| target(face, clockwise, p.0, p.1);
    lemma_turn_permutes_slots(face, clockwise);
    let t = turned(m, face, clockwise);
    assert forall|x: (int, int)| is_slot(x) implies is_slot(#[trigger] from(x)) && to(from(x)) == x by {
        let p = source(face, clockwise, x.0, x.1);
    }
    assert forall|x: (int, int)| is_slot(x) implies is_slot(#[trigger] to(x)) && from(to(x)) == x by {
        let p = source(face, clockwise, x.0, x.1);
    }
    assert forall|x: (int, int)| is_slot(x) implies #[trigger] t[x.0][x.1] == m[from(x).0][from(x).1] by {}
    lemma_rearranged_counts(m, t, from, to, c);
}

/// The sticker model of every cube state has six faces of nine stickers.
pub proof fn lemma_state_well_shaped(s: CubeState)
    ensures
        well_shaped(s@),
{
}

/// The side of an on-grid cubie `c` that is read into sticker `(f, i)`, if any.
pub open spec fn writer(c: CubieView, f: int, i: int) -> Option<int> {
    let (x, y, z) = c.0;
    if f == U as int && y == 1 && i == (1 - z) * 3 + (x + 1) {
        Some(2)
    } else if f == D as int && y == -1 && i == (z + 1) * 3 + (x + 1) {
        Some(3)
    } else if f == F as int && z == 1 && i == (1 - y) * 3 + (x + 1) {
        Some(4)
    } else if f == B as int && z == -1 && i == (1 - y) * 3 + (1 - x) {
        Some(5)
    } else if f == R as int && x == 1 && i == (1 - y) * 3 + (1 - z) {
        Some(0)
    } else if f == L as int && x == -1 && i == (1 - y) * 3 + (z + 1) {
        Some(1)
    } else {
        None
    }
}

proof fn lemma_paint_cubie_cell(m: Seq<Seq<Color>>, c: CubieView, f: int, i: int)
    requires
        well_shaped(m),
        on_grid(c.0),
        0 <= f < 6,
        0 <= i < 9,
    ensures
        well_shaped(paint_cubie(m, c)),
        paint_cubie(m, c)[f][i] == match writer(c, f, i) {
            Some(k) => sticker_color(c.1[k]),
            None => m[f][i],
        },
{
    reveal(paint_cubie);
}

/// The index of the freshly made cubie at grid position `(x, y, z)`.
proof fn lemma_fresh_index(x: int, y: int, z: int) -> (k: int)
    requires
        on_grid((x, y, z)),
        (x, y, z) != (0int, 0int, 0int),
    ensures
        0 <= k < 26,
        start_pos(k) == (x, y, z),
{
    let n = 9 * (x + 1) + 3 * (y + 1) + (z + 1);
    let k = if n < 13 { n } else { n - 1 };
    assert(n / 9 == x + 1 && n % 9 == 3 * (y + 1) + (z + 1)) by (nonlinear_arith)
        requires n == 9 * (x + 1) + 3 * (y + 1) + (z + 1), 0 <= x + 1 < 3, 0 <= y + 1 < 3, 0 <= z + 1 < 3;
    assert((n % 9) / 3 == y + 1 && n % 3 == z + 1) by (nonlinear_arith)
        requires n == 9 * (x + 1) + 3 * (y + 1) + (z + 1), n % 9 == 3 * (y + 1) + (z + 1), 0 <= y + 1 < 3, 0 <= z + 1 < 3;
    k
}

/// Cubie `c` is on the grid and each side of it that is read into the sticker model
/// shows the home colour of the face it is read into.
pub open spec fn paints_home(c: CubieView) -> bool {
    &&& on_grid(c.0)
    &&& forall|f: int, i: int| 0 <= f < 6 && 0 <= i < 9 ==> match #[trigger] writer(c, f, i) {
        Some(k) => sticker_color(c.1[k]) == home_color(f),
        None => true,
    }
}

proof fn lemma_painted_prefix(cs: Seq<CubieView>, k: int)
    requires
        0 <= k <= cs.len(),
        forall|j: int| 0 <= j < cs.len() ==> paints_home(#[trigger] cs[j]),
    ensures
        well_shaped(painted(cs.take(k))),
        forall|f: int, i: int| 0 <= f < 6 && 0 <= i < 9 ==> #[trigger] painted(cs.take(k))[f][i]
            == if exists|j: int| 0 <= j < k && (#[trigger] writer(cs[j], f, i)) is Some {
                home_color(f)
            } else {
                Color::White
            },
    decreases k,
{
    if k == 0 {
        assert(cs.take(0) =~= Seq::<CubieView>::empty());
    } else {
        lemma_painted_prefix(cs, k - 1);
        assert(cs.take(k).drop_last() =~= cs.take(k - 1));
        let c = cs[k - 1];
        assert(paints_home(c));
        let prev = painted(cs.take(k - 1));
        assert forall|f: int, i: int| 0 <= f < 6 && 0 <= i < 9 implies #[trigger] painted(cs.take(k))[f][i]
            == if exists|j: int| 0 <= j < k && (#[trigger] writer(cs[j], f, i)) is Some {
                home_color(f)
            } else {
                Color::White
            } by {
            lemma_paint_cubie_cell(prev, c, f, i);
            if writer(c, f, i) is Some {
                assert(0 <= k - 1 < k && writer(cs[k - 1], f, i) is Some);
            } else if exists|j: int| 0 <= j < k && (#[trigger] writer(cs[j], f, i)) is Some {
                let j = choose|j: int| 0 <= j < k && (#[trigger] writer(cs[j], f, i)) is Some;
                assert(j < k - 1);
            }
        }
        lemma_paint_cubie_cell(prev, c, 0, 0);
    }
}

/// A freshly made cube can be read into the sticker model, and reads as the solved
/// cube: every face shows its own colour.
pub proof fn lemma_fresh_cube_reads_solved()
    ensures
        forall|k: int| 0 <= k < 26 ==> readable(#[trigger] fresh_cubies()[k]),
        well_shaped(painted(fresh_cubies())),
        forall|f: int, i: int| 0 <= f < 6 && 0 <= i < 9 ==> #[trigger] painted(fresh_cubies())[f][i]
            == home_color(f),
{
    let cs = fresh_cubies();
    assert forall|k: int| 0 <= k < 26 implies readable(#[trigger] cs[k]) by {
        crate::cube::lemma_start_pos_code(k);
    }
    assert forall|k: int| 0 <= k < 26 implies paints_home(#[trigger] cs[k]) by {
        crate::cube::lemma_start_pos_code(k);
        let c = cs[k];
        assert forall|f: int, i: int| 0 <= f < 6 && 0 <= i < 9 implies match #[trigger] writer(c, f, i) {
            Some(s) => sticker_color(c.1[s]) == home_color(f),
            None => true,
        } by {}
    }
    lemma_painted_prefix(cs, 26);
    assert(cs.take(26) =~= cs);
    assert forall|f: int, i: int| 0 <= f < 6 && 0 <= i < 9 implies #[trigger] painted(cs)[f][i] == home_color(f) by {
        let row = i / 3;
        let col = i % 3;
        assert(0 <= row < 3 && 0 <= col < 3 && i == row * 3 + col) by (nonlinear_arith)
            requires 0 <= i < 9, row == i / 3, col == i % 3;
        let p: (int, int, int) = if f == U as int {
            (col - 1, 1, 1 - row)
        } else if f == D as int {
            (col - 1, -1, row - 1)
        } else if f == F as int {
            (col - 1, 1 - row, 1)
        } else if f == B as int {
            (1 - col, 1 - row, -1)
        } else if f == R as int {
            (1, 1 - row, 1 - col)
        } else {
            (-1, 1 - row, col - 1)
        };
        let j = lemma_fresh_index(p.0, p.1, p.2);
        assert(writer(cs[j], f, i) is Some);
    }
}

/// A cubie whose colours are all on the outside of the cube can be read into the
/// sticker model.
pub proof fn lemma_colours_out_readable(c: CubieView)
    requires
        crate::cube::colours_face_out(c),
    ensures
        readable(c),
{
}

/// The face opposite face `f`: up and down, front and back, right and left.
pub open spec fn opposite(f: int) -> int {
    if f == U as int {
        D as int
    } else if f == D as int {
        U as int
    } else if f == F as int {
        B as int
    } else if f == B as int {
        F as int
    } else if f == R as int {
        L as int
    } else {
        R as int
    }
}

/// Faces `f` and `g` share an edge of the cube.
pub open spec fn adjacent(f: int, g: int) -> bool {
    0 <= f < 6 && 0 <= g < 6 && f != g && g != opposite(f)
}

/// Sticker `i` of face `f` lies along the edge that `f` shares with face `g`. Each face
/// is read row by row as seen from outside; up and down are seen with the front face
/// towards the bottom and the top of the net respectively, the side faces with up at
/// the top.
pub open spec fn on_border(f: int, g: int, i: int) -> bool {
    let top = 0 <= i < 3;
    let bottom = 6 <= i < 9;
    let left = i == 0 || i == 3 || i == 6;
    let right = i == 2 || i == 5 || i == 8;
    if f == U as int {
        (g == F as int && bottom) || (g == B as int && top) || (g == R as int && right) || (g == L as int
            && left)
    } else if f == D as int {
        (g == F as int && top) || (g == B as int && bottom) || (g == R as int && right) || (g == L as int
            && left)
    } else if f == F as int {
        (g == U as int && top) || (g == D as int && bottom) || (g == R as int && right) || (g == L as int
            && left)
    } else if f == B as int {
        (g == U as int && top) || (g == D as int && bottom) || (g == L as int && right) || (g == R as int
            && left)
    } else if f == R as int {
        (g == U as int && top) || (g == D as int && bottom) || (g == F as int && left) || (g == B as int
            && right)
    } else if f == L as int {
        (g == U as int && top) || (g == D as int && bottom) || (g == B as int && left) || (g == F as int
            && right)
    } else {
        false
    }
}

#[verifier::spinoff_prover]
#[verifier::rlimit(100)]
proof fn lemma_slot_local(face: Face, clockwise: bool, f: int, i: int)
    requires
        0 <= f < 6,
        0 <= i < 9,
    ensures
        ({
            let x = face_slot(face);
            let p = source(face, clockwise, f, i);
            &&& is_slot(p)
            &&& f == x ==> p.0 == x
            &&& f != x && !on_border(f, x, i) ==> p == (f, i)
            &&& f != x && on_border(f, x, i) ==> adjacent(f, p.0) && adjacent(x, p.0) && on_border(p.0, x, p.1)
        }),
{
    lemma_spin_source_table(clockwise, i);
    lemma_slot_cases(f, i);
}

/// What a turn touches. The turned face's stickers stay on that face (they turn about
/// its centre); a sticker of another face changes only if it lies along the edge
/// shared with the turned face, and then it takes the colour of a sticker along the
/// turned face's edge on a face next to its own, never from the face opposite.
pub proof fn lemma_turn_is_local(m: Seq<Seq<Color>>, face: Face, clockwise: bool, f: int, i: int)
    requires
        well_shaped(m),
        0 <= f < 6,
        0 <= i < 9,
    ensures
        ({
            let x = face_slot(face);
            let p = source(face, clockwise, f, i);
            &&& is_slot(p)
            &&& turned(m, face, clockwise)[f][i] == m[p.0][p.1]
            &&& f == x ==> p.0 == x
            &&& f != x && !on_border(f, x, i) ==> turned(m, face, clockwise)[f][i] == m[f][i]
            &&& f != x && on_border(f, x, i) ==> adjacent(f, p.0) && adjacent(x, p.0) && on_border(p.0, x, p.1)
        }),
{
    lemma_slot_local(face, clockwise, f, i);
}

/// The grid position of the cubie whose side is read into sticker `(f, i)`.
pub open spec fn slot_pos(f: int, i: int) -> Pos {
    let row = i / 3;
    let col = i % 3;
    if f == U as int {
        (col - 1, 1, 1 - row)
    } else if f == D as int {
        (col - 1, -1, row - 1)
    } else if f == F as int {
        (col - 1, 1 - row, 1)
    } else if f == B as int {
        (1 - col, 1 - row, -1)
    } else if f == R as int {
        (1, 1 - row, 1 - col)
    } else {
        (-1, 1 - row, col - 1)
    }
}

/// The cubie side (+x, -x, +y, -y, +z, -z) that is read into face `f`.
pub open spec fn slot_side(f: int) -> int {
    if f == U as int {
        2
    } else if f == D as int {
        3
    } else if f == F as int {
        4
    } else if f == B as int {
        5
    } else if f == R as int {
        0
    } else {
        1
    }
}

proof fn lemma_writer_slot(c: CubieView, f: int, i: int)
    requires
        on_grid(c.0),
        0 <= f < 6,
        0 <= i < 9,
    ensures
        writer(c, f, i) is Some <==> c.0 == slot_pos(f, i),
        writer(c, f, i) is Some ==> writer(c, f, i) == Some(slot_side(f)),
{
    lemma_slot_cases(f, i);
}

/// The colour read into sticker `(f, i)` from the first `k` cubies of `cs`: that of the
/// cubie at the sticker's place, white if there is none.
pub open spec fn read_at(cs: Seq<CubieView>, k: int, f: int, i: int) -> Color {
    if exists|j: int| 0 <= j < k && (#[trigger] cs[j]).0 == slot_pos(f, i) {
        let j = choose|j: int| 0 <= j < k && (#[trigger] cs[j]).0 == slot_pos(f, i);
        sticker_color(cs[j].1[slot_side(f)])
    } else {
        Color::White
    }
}

/// All cubies on the grid, no two in the same place.
pub open spec fn apart_on_grid(cs: Seq<CubieView>) -> bool {
    &&& forall|j: int| 0 <= j < cs.len() ==> on_grid(#[trigger] cs[j].0)
    &&& forall|j: int, k: int|
        0 <= j < cs.len() && 0 <= k < cs.len() && j != k ==> #[trigger] cs[j].0 != #[trigger] cs[k].0
}

proof fn lemma_painted_read(cs: Seq<CubieView>, k: int)
    requires
        apart_on_grid(cs),
        0 <= k <= cs.len(),
    ensures
        well_shaped(painted(cs.take(k))),
        forall|f: int, i: int| 0 <= f < 6 && 0 <= i < 9 ==> #[trigger] painted(cs.take(k))[f][i]
            == read_at(cs, k, f, i),
    decreases k,
{
    if k == 0 {
        assert(cs.take(0) =~= Seq::<CubieView>::empty());
    } else {
        lemma_painted_read(cs, k - 1);
        assert(cs.take(k).drop_last() =~= cs.take(k - 1));
        let c = cs[k - 1];
        let prev = painted(cs.take(k - 1));
        assert forall|f: int, i: int| 0 <= f < 6 && 0 <= i < 9 implies #[trigger] painted(cs.take(k))[f][i]
            == read_at(cs, k, f, i) by {
            lemma_paint_cubie_cell(prev, c, f, i);
            lemma_writer_slot(c, f, i);
            if c.0 == slot_pos(f, i) {
                assert(0 <= k - 1 < k && cs[k - 1].0 == slot_pos(f, i));
                let j = choose|j: int| 0 <= j < k && (#[trigger] cs[j]).0 == slot_pos(f, i);
                assert(j == k - 1);
            } else if exists|j: int| 0 <= j < k && (#[trigger] cs[j]).0 == slot_pos(f, i) {
                let j = choose|j: int| 0 <= j < k && (#[trigger] cs[j]).0 == slot_pos(f, i);
                assert(j < k - 1);
                let j2 = choose|j: int| 0 <= j < k - 1 && (#[trigger] cs[j]).0 == slot_pos(f, i);
                assert(j2 == j);
            }
        }
        lemma_paint_cubie_cell(prev, c, 0, 0);
    }
}

/// Where two turns of `face` carry grid position `p`.
pub open spec fn half_turned_pos(p: Pos, face: Face, clockwise: bool) -> Pos {
    turned_pos(turned_pos(p, face, clockwise), face, clockwise)
}

#[verifier::spinoff_prover]
#[verifier::rlimit(100)]
proof fn lemma_half_turn_slot(face: Face, clockwise: bool, f: int, i: int)
    requires
        face != Face::Front && face != Face::Back,
        0 <= f < 6,
        0 <= i < 9,
    ensures
        ({
            let s1 = source(face, clockwise, f, i);
            let y = source(face, clockwise, s1.0, s1.1);
            let p = slot_pos(f, i);
            let q = slot_pos(y.0, y.1);
            let ss = side_source(face, clockwise);
            &&& is_slot(y)
            &&& on_grid(p)
            &&& (in_layer(p, face) <==> in_layer(q, face))
            &&& in_layer(q, face) ==> half_turned_pos(q, face, clockwise) == p && ss[ss[slot_side(f)]]
                == slot_side(y.0)
            &&& !in_layer(q, face) ==> y == (f, i)
        }),
{
    lemma_slot_cases(f, i);
    lemma_spin_source_table(clockwise, i);
    let s1 = source(face, clockwise, f, i);
    lemma_spin_source_table(clockwise, s1.1);
    let y = source(face, clockwise, s1.0, s1.1);
    lemma_slot_cases(y.0, y.1);
}

proof fn lemma_half_turn_twice(p: Pos, face: Face, clockwise: bool)
    ensures
        half_turned_pos(half_turned_pos(p, face, clockwise), face, clockwise) == p,
        in_layer(half_turned_pos(p, face, clockwise), face) == in_layer(p, face),
{
}

/// Reading the cubie model into stickers agrees with the sticker model's turns: for a
/// well-formed cube, turning the up, down, right or left layer twice and then reading
/// gives what reading and then turning that face twice gives.
pub proof fn lemma_half_turn_reads_alike(cs: Seq<CubieView>, face: Face, clockwise: bool)
    requires
        well_placed(cs),
        face != Face::Front && face != Face::Back,
    ensures
        painted(turned_cubies(turned_cubies(cs, face, clockwise), face, clockwise)) == turned(
            turned(painted(cs), face, clockwise),
            face,
            clockwise,
        ),
{
    let n = cs.len() as int;
    let t1 = turned_cubies(cs, face, clockwise);
    let tt = turned_cubies(t1, face, clockwise);
    crate::cube::lemma_turn_keeps_well_placed(cs, face, clockwise);
    crate::cube::lemma_turn_keeps_well_placed(t1, face, clockwise);
    assert(apart_on_grid(cs));
    assert(apart_on_grid(tt));
    lemma_painted_read(cs, n);
    lemma_painted_read(tt, n);
    assert(cs.take(n) =~= cs);
    assert(tt.take(n) =~= tt);
    let m = painted(cs);
    let r = turned(turned(m, face, clockwise), face, clockwise);
    let ss = side_source(face, clockwise);
    assert forall|f: int, i: int| 0 <= f < 6 && 0 <= i < 9 implies #[trigger] painted(tt)[f][i] == r[f][i] by {
        lemma_half_turn_slot(face, clockwise, f, i);
        lemma_slot_local(face, clockwise, f, i);
        let s1 = source(face, clockwise, f, i);
        let y = source(face, clockwise, s1.0, s1.1);
        assert(r[f][i] == m[y.0][y.1]);
        let p = slot_pos(f, i);
        let q = slot_pos(y.0, y.1);
        assert(painted(tt)[f][i] == read_at(tt, n, f, i));
        assert(m[y.0][y.1] == read_at(cs, n, y.0, y.1));
        if exists|j: int| 0 <= j < n && (#[trigger] tt[j]).0 == p {
            let j = choose|j: int| 0 <= j < n && (#[trigger] tt[j]).0 == p;
            let c = cs[j];
            crate::cube::lemma_turn_moves_only_layer(c, face, clockwise);
            crate::cube::lemma_turn_moves_only_layer(turned_cubie(c, face, clockwise), face, clockwise);
            assert(tt[j] == turned_cubie(turned_cubie(c, face, clockwise), face, clockwise));
            if in_layer(c.0, face) {
                assert(tt[j].0 == half_turned_pos(c.0, face, clockwise));
                lemma_half_turn_twice(c.0, face, clockwise);
                lemma_half_turn_twice(q, face, clockwise);
                assert(in_layer(p, face));
                assert(c.0 == q);
                assert(tt[j].1 == permuted(permuted(c.1, face, clockwise), face, clockwise));
                assert(tt[j].1[slot_side(f)] == c.1[ss[ss[slot_side(f)]]]);
                let j2 = choose|j: int| 0 <= j < n && (#[trigger] cs[j]).0 == q;
                assert(cs[j].0 == q);
                assert(j2 == j);
            } else {
                assert(tt[j] == c);
                assert(y == (f, i));
                let j2 = choose|j: int| 0 <= j < n && (#[trigger] cs[j]).0 == q;
                assert(cs[j].0 == q);
                assert(j2 == j);
            }
        } else {
            if exists|j: int| 0 <= j < n && (#[trigger] cs[j]).0 == q {
                let j = choose|j: int| 0 <= j < n && (#[trigger] cs[j]).0 == q;
                let c = cs[j];
                crate::cube::lemma_turn_moves_only_layer(c, face, clockwise);
                crate::cube::lemma_turn_moves_only_layer(turned_cubie(c, face, clockwise), face, clockwise);
                assert(tt[j] == turned_cubie(turned_cubie(c, face, clockwise), face, clockwise));
                if in_layer(q, face) {
                    assert(tt[j].0 == p);
                } else {
                    assert(tt[j].0 == p);
                }
                assert(false);
            }
        }
    }
    lemma_slot_cases(0, 0);
    assert forall|f: int| 0 <= f < 6 implies #[trigger] painted(tt)[f] =~= r[f] by {}
    assert(painted(tt) =~= r);
}

} // verus!
