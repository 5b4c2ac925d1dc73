use vstd::prelude::*;

verus! {

/// The colour printed on one side of a cubie; interior sides are `Black`.
#[derive(Clone, Copy, Debug, PartialEq, Eq, Structural)]
pub enum FaceColor {
    White,
    Yellow,
    Red,
    Orange,
    Green,
    Blue,
    Black,
}

/// One of the six outer layers of the cube, named by the side it faces.
#[derive(Clone, Copy, Debug, PartialEq, Eq, Structural)]
pub enum Face {
    Right,
    Left,
    Up,
    Down,
    Front,
    Back,
}

impl Face {
    /// The coordinate axis (0 = x, 1 = y, 2 = z) that the face looks along.
    pub open spec fn axis_index(self) -> int {
        match self {
            Face::Right | Face::Left => 0,
            Face::Up | Face::Down => 1,
            Face::Front | Face::Back => 2,
        }
    }

    /// The side of the axis the face lies on: `1` or `-1`.
    pub open spec fn side(self) -> int {
        match self {
            Face::Right | Face::Up | Face::Front => 1,
            Face::Left | Face::Down | Face::Back => -1,
        }
    }

    /// The axis and the grid coordinate along it of every cubie in this layer.
    pub fn layer(self) -> (r: (usize, i32))
        ensures
            r.0 as int == self.axis_index(),
            r.1 as int == self.side(),
    {
        match self {
            Face::Right => (0, 1),
            Face::Left => (0, -1),
            Face::Up => (1, 1),
            Face::Down => (1, -1),
            Face::Front => (2, 1),
            Face::Back => (2, -1),
        }
    }
}


/// A grid position, as mathematical integers.
pub type Pos = (int, int, int);

/// What the logic reads of a cubie: its grid position and its six side colours,
/// indexed +x, -x, +y, -y, +z, -z.
pub type CubieView = (Pos, Seq<FaceColor>);

/// The coordinate of `p` along axis `a`.
pub open spec fn coord(p: Pos, a: int) -> int {
    if a == 0 {
        p.0
    } else if a == 1 {
        p.1
    } else {
        p.2
    }
}

/// Every coordinate of `p` is -1, 0 or 1.
pub open spec fn on_grid(p: Pos) -> bool {
    &&& -1 <= p.0 <= 1
    &&& -1 <= p.1 <= 1
    &&& -1 <= p.2 <= 1
}

/// `p` lies in the outer layer of `face`.
pub open spec fn in_layer(p: Pos, face: Face) -> bool {
    coord(p, face.axis_index()) == face.side()
}

/// A turn of `face`, clockwise when seen from outside the face or not, is a quarter
/// turn about the positive coordinate axis: `1` counterclockwise, `-1` clockwise
/// (right-handed).
pub open spec fn quarter_sign(face: Face, clockwise: bool) -> int {
    if clockwise {
        -face.side()
    } else {
        face.side()
    }
}

/// Where a turn of `face` carries the grid position `p`: the quarter rotation about
/// the face's axis (applied to every position, in the layer or not).
pub open spec fn turned_pos(p: Pos, face: Face, clockwise: bool) -> Pos {
    let ccw = quarter_sign(face, clockwise) == 1;
    if face.axis_index() == 0 {
        if ccw { (p.0, -p.2, p.1) } else { (p.0, p.2, -p.1) }
    } else if face.axis_index() == 1 {
        if ccw { (p.2, p.1, -p.0) } else { (-p.2, p.1, p.0) }
    } else {
        if ccw { (-p.1, p.0, p.2) } else { (p.1, -p.0, p.2) }
    }
}

/// For a turn of `face`, the old side (index into +x, -x, +y, -y, +z, -z) whose colour
/// each new side of a turned cubie shows.
pub open spec fn side_source(face: Face, clockwise: bool) -> Seq<int> {
    match (face, clockwise) {
        (Face::Right, true) | (Face::Left, false) => seq![0, 1, 5, 4, 2, 3],
        (Face::Right, false) | (Face::Left, true) => seq![0, 1, 4, 5, 3, 2],
        (Face::Up, true) | (Face::Down, false) => seq![4, 5, 2, 3, 1, 0],
        (Face::Up, false) | (Face::Down, true) => seq![5, 4, 2, 3, 0, 1],
        (Face::Front, true) | (Face::Back, false) => seq![2, 3, 1, 0, 4, 5],
        (Face::Front, false) | (Face::Back, true) => seq![3, 2, 0, 1, 4, 5],
    }
}

/// The side colours of a cubie after a turn of `face`.
pub open spec fn permuted(c: Seq<FaceColor>, face: Face, clockwise: bool) -> Seq<FaceColor> {
    Seq::new(6, |k: int| c[side_source(face, clockwise)[k]])
}

/// A cubie after a turn of `face`: moved and re-coloured if it is in the layer,
/// untouched otherwise.
pub open spec fn turned_cubie(c: CubieView, face: Face, clockwise: bool) -> CubieView {
    if in_layer(c.0, face) {
        (turned_pos(c.0, face, clockwise), permuted(c.1, face, clockwise))
    } else {
        c
    }
}

/// All cubies after a turn of `face`, in the same order.
pub open spec fn turned_cubies(cs: Seq<CubieView>, face: Face, clockwise: bool) -> Seq<CubieView> {
    Seq::new(cs.len(), |k: int| turned_cubie(cs[k], face, clockwise))
}

/// The colours a cubie at `(x, y, z)` is made with: each outer side gets the colour of
/// its face of the solved cube, every other side is black.
pub open spec fn home_colors(x: int, y: int, z: int) -> Seq<FaceColor> {
    seq![
        if x == 1 { FaceColor::Green } else { FaceColor::Black },
        if x == -1 { FaceColor::Blue } else { FaceColor::Black },
        if y == 1 { FaceColor::White } else { FaceColor::Black },
        if y == -1 { FaceColor::Yellow } else { FaceColor::Black },
        if z == 1 { FaceColor::Red } else { FaceColor::Black },
        if z == -1 { FaceColor::Orange } else { FaceColor::Black },
    ]
}

/// One small cube of the puzzle.
#[derive(Clone, Copy, Debug)]
pub struct Cubie {
    pub grid_pos: [i32; 3],
    pub face_colors: [FaceColor; 6],
}

impl View for Cubie {
    type V = CubieView;

    open spec fn view(&self) -> CubieView {
        (
            (self.grid_pos[0] as int, self.grid_pos[1] as int, self.grid_pos[2] as int),
            self.face_colors@,
        )
    }
}

impl Cubie {
    /// The cubie of a solved cube at `(x, y, z)`.
    pub fn new(x: i32, y: i32, z: i32) -> (r: Self)
        ensures
            r@ == ((x as int, y as int, z as int), home_colors(x as int, y as int, z as int)),
    {
        let r = Cubie {
            grid_pos: [x, y, z],
            face_colors: [
                if x == 1 { FaceColor::Green } else { FaceColor::Black },
                if x == -1 { FaceColor::Blue } else { FaceColor::Black },
                if y == 1 { FaceColor::White } else { FaceColor::Black },
                if y == -1 { FaceColor::Yellow } else { FaceColor::Black },
                if z == 1 { FaceColor::Red } else { FaceColor::Black },
                if z == -1 { FaceColor::Orange } else { FaceColor::Black },
            ],
        };
        assert(r.face_colors@ =~= home_colors(x as int, y as int, z as int));
        r
    }
}

/// The grid position reached by a turn of `face`.
pub fn quarter_turn(pos: [i32; 3], face: Face, clockwise: bool) -> (r: [i32; 3])
    requires
        on_grid((pos[0] as int, pos[1] as int, pos[2] as int)),
    ensures
        (r[0] as int, r[1] as int, r[2] as int) == turned_pos(
            (pos[0] as int, pos[1] as int, pos[2] as int),
            face,
            clockwise,
        ),
{
    let (axis, side) = face.layer();
    let ccw = if clockwise { side == -1 } else { side == 1 };
    let (x, y, z) = (pos[0], pos[1], pos[2]);
    if axis == 0 {
        if ccw { [x, -z, y] } else { [x, z, -y] }
    } else if axis == 1 {
        if ccw { [z, y, -x] } else { [-z, y, x] }
    } else {
        if ccw { [-y, x, z] } else { [y, -x, z] }
    }
}

/// The side colours of a cubie after it is carried along by a turn of `face`.
pub fn permute_colors(c: [FaceColor; 6], face: Face, clockwise: bool) -> (r: [FaceColor; 6])
    ensures
        r@ == permuted(c@, face, clockwise),
{
    // sides: 0 = +x, 1 = -x, 2 = +y, 3 = -y, 4 = +z, 5 = -z
    let (px, nx, py, ny, pz, nz) = (c[0], c[1], c[2], c[3], c[4], c[5]);
    let r = match (face, clockwise) {
        (Face::Right, true) => [px, nx, nz, pz, py, ny],
        (Face::Right, false) => [px, nx, pz, nz, ny, py],
        (Face::Left, true) => [px, nx, pz, nz, ny, py],
        (Face::Left, false) => [px, nx, nz, pz, py, ny],
        (Face::Up, true) => [pz, nz, py, ny, nx, px],
        (Face::Up, false) => [nz, pz, py, ny, px, nx],
        (Face::Down, true) => [nz, pz, py, ny, px, nx],
        (Face::Down, false) => [pz, nz, py, ny, nx, px],
        (Face::Front, true) => [py, ny, nx, px, pz, nz],
        (Face::Front, false) => [ny, py, px, nx, pz, nz],
        (Face::Back, true) => [ny, py, px, nx, pz, nz],
        (Face::Back, false) => [py, ny, nx, px, pz, nz],
    };
    assert(r@ =~= permuted(c@, face, clockwise));
    r
}


/// The place of the `k`-th cubie of a freshly made cube: the grid positions in the
/// order x, then y, then z, each from -1 up to 1, leaving out the hidden centre.
pub open spec fn start_pos(k: int) -> Pos {
    let n = if k < 13 { k } else { k + 1 };
    (n / 9 - 1, (n % 9) / 3 - 1, n % 3 - 1)
}

/// The cubies of a freshly made, solved cube.
pub open spec fn fresh_cubies() -> Seq<CubieView> {
    Seq::new(
        26,
        |k: int| (start_pos(k), home_colors(start_pos(k).0, start_pos(k).1, start_pos(k).2)),
    )
}

/// A well-formed cube: 26 cubies, each on the grid, none at the hidden centre, and no
/// two in the same place.
pub open spec fn well_placed(cs: Seq<CubieView>) -> bool {
    &&& cs.len() == 26
    &&& forall|k: int| 0 <= k < cs.len() ==> on_grid(#[trigger] cs[k].0) && cs[k].0 != (0int, 0int, 0int)
    &&& forall|j: int, k: int|
        0 <= j < cs.len() && 0 <= k < cs.len() && j != k ==> #[trigger] cs[j].0 != #[trigger] cs[k].0
}

/// A layer turn that has been started and not yet completed.
struct Animation {
    face: Face,
    clockwise: bool,
}

/// The puzzle: its cubies, and the layer turn in progress, if any.
pub struct RubiksCube {
    cubies: Vec<Cubie>,
    anim: Option<Animation>,
}

impl View for RubiksCube {
    type V = Seq<CubieView>;

    closed spec fn view(&self) -> Seq<CubieView> {
        self.cubies@.map_values(|c: Cubie| c@)
    }
}

impl RubiksCube {
    #[verifier::type_invariant]
    spec fn well_formed(self) -> bool {
        well_placed(self@)
    }

    /// The layer turn in progress: its face and whether it is clockwise.
    pub closed spec fn turning(self) -> Option<(Face, bool)> {
        match self.anim {
            Some(a) => Some((a.face, a.clockwise)),
            None => None,
        }
    }

    /// A solved cube with no turn in progress.
    pub fn new() -> (r: Self)
        ensures
            r@ == fresh_cubies(),
            r.turning() is None,
    {
        let mut cubies: Vec<Cubie> = Vec::new();
        let mut x: i32 = -1;
        while x <= 1
            invariant
                -1 <= x <= 2,
                cubies@.map_values(|c: Cubie| c@) =~= fresh_cubies().take(
                    if x <= 0 { 9 * (x + 1) } else { 9 * (x + 1) - 1 },
                ),
            decreases 2 - x,
        {
            let mut y: i32 = -1;
            while y <= 1
                invariant
                    -1 <= x <= 1,
                    -1 <= y <= 2,
                    cubies@.map_values(|c: Cubie| c@) =~= fresh_cubies().take(
                        if 9 * (x + 1) + 3 * (y + 1) <= 13 { 9 * (x + 1) + 3 * (y + 1) }
                        else { 9 * (x + 1) + 3 * (y + 1) - 1 },
                    ),
                decreases 2 - y,
            {
                let mut z: i32 = -1;
                while z <= 1
                    invariant
                        -1 <= x <= 1,
                        -1 <= y <= 1,
                        -1 <= z <= 2,
                        cubies@.map_values(|c: Cubie| c@) =~= fresh_cubies().take(
                            if 9 * (x + 1) + 3 * (y + 1) + (z + 1) <= 13 {
                                9 * (x + 1) + 3 * (y + 1) + (z + 1)
                            } else {
                                9 * (x + 1) + 3 * (y + 1) + (z + 1) - 1
                            },
                        ),
                    decreases 2 - z,
                {
                    if !(x == 0 && y == 0 && z == 0) {
                        let ghost n: int = 9 * (x + 1) + 3 * (y + 1) + (z + 1);
                        let ghost k: int = if n <= 13 { n } else { n - 1 };
                        assert(start_pos(k) == (x as int, y as int, z as int)) by {
                            assert(n / 9 == x + 1 && n % 9 == 3 * (y + 1) + (z + 1)) by (nonlinear_arith)
                                requires n == 9 * (x + 1) + 3 * (y + 1) + (z + 1), 0 <= x + 1 < 3, 0 <= y + 1 < 3, 0 <= z + 1 < 3;
                            assert((n % 9) / 3 == y + 1 && n % 3 == z + 1) by (nonlinear_arith)
                                requires n == 9 * (x + 1) + 3 * (y + 1) + (z + 1), n % 9 == 3 * (y + 1) + (z + 1), 0 <= y + 1 < 3, 0 <= z + 1 < 3;
                        }
                        let c = Cubie::new(x, y, z);
                        let ghost before = cubies@.map_values(|c: Cubie| c@);
                        cubies.push(c);
                        assert(fresh_cubies()[k] == c@);
                        assert(cubies@.map_values(|c: Cubie| c@) =~= before.push(c@));
                        assert(fresh_cubies().take(k + 1) =~= fresh_cubies().take(k).push(c@));
                    }
                    z += 1;
                }
                y += 1;
            }
            x += 1;
        }
        let r = RubiksCube { cubies, anim: None };
        proof {
            lemma_fresh_cubies_well_placed();
        }
        r
    }
}

impl RubiksCube {
    /// The cubies, in the order they were made in; the cube is always well formed.
    pub fn cubies(&self) -> (r: &Vec<Cubie>)
        ensures
            r@.map_values(|c: Cubie| c@) == self@,
            well_placed(self@),
    {
        proof {
            use_type_invariant(self);
        }
        &self.cubies
    }

    /// Whether a layer turn is in progress.
    pub fn is_animating(&self) -> (r: bool)
        ensures
            r == self.turning() is Some,
    {
        self.anim.is_some()
    }

    /// The layer turn in progress, if any: its face and whether it is clockwise.
    pub fn current_turn(&self) -> (r: Option<(Face, bool)>)
        ensures
            r == self.turning(),
    {
        match &self.anim {
            Some(a) => Some((a.face, a.clockwise)),
            None => None,
        }
    }

    /// Starts a turn of `face`, unless a turn is already in progress, in which case
    /// nothing changes.
    pub fn rotate_face(&mut self, face: Face, clockwise: bool)
        ensures
            final(self)@ == old(self)@,
            old(self).turning() is Some ==> final(self).turning() == old(self).turning(),
            old(self).turning() is None ==> final(self).turning() == Some((face, clockwise)),
    {
        proof {
            use_type_invariant(&*self);
        }
        if self.anim.is_some() {
            return;
        }
        self.anim = Some(Animation { face, clockwise });
    }

    /// Whether cubie `index` is in the layer `face`.
    fn cubie_in_face(&self, index: usize, face: Face) -> (r: bool)
        requires
            index < self@.len(),
        ensures
            r == in_layer(self@[index as int].0, face),
    {
        proof {
            use_type_invariant(self);
        }
        let (axis, val) = face.layer();
        self.cubies[index].grid_pos[axis] == val
    }

    /// Whether cubie `cubie_index` belongs to the layer that is turning; `false` when no
    /// turn is in progress.
    pub fn is_in_anim_face(&self, cubie_index: usize) -> (r: bool)
        requires
            self.turning() is Some ==> cubie_index < self@.len(),
        ensures
            r == (match self.turning() {
                Some((face, _)) => in_layer(self@[cubie_index as int].0, face),
                None => false,
            }),
    {
        match &self.anim {
            Some(anim) => self.cubie_in_face(cubie_index, anim.face),
            None => false,
        }
    }

    /// The indices, in increasing order, of the cubies in the layer `face`.
    pub fn indices_in_face(&self, face: Face) -> (r: Vec<usize>)
        ensures
            forall|j: int, l: int| 0 <= j < l < r.len() ==> r[j] < r[l],
            forall|j: int| 0 <= j < r.len() ==> r[j] < self@.len() && in_layer(self@[r[j] as int].0, face),
            forall|k: int| 0 <= k < self@.len() && in_layer(self@[k].0, face) ==> r@.contains(k as usize),
    {
        proof {
            use_type_invariant(self);
        }
        let mut r: Vec<usize> = Vec::new();
        let n = self.cubies.len();
        let mut i: usize = 0;
        while i < n
            invariant
                n == self@.len(),
                i <= n,
                forall|j: int, l: int| 0 <= j < l < r.len() ==> r[j] < r[l],
                forall|j: int| 0 <= j < r.len() ==> r[j] < i && in_layer(self@[r[j] as int].0, face),
                forall|k: int| 0 <= k < i && in_layer(self@[k].0, face) ==> r@.contains(k as usize),
            decreases n - i,
        {
            let ghost old_r = r@;
            if self.cubie_in_face(i, face) {
                r.push(i);
                assert(r[r.len() - 1] == i);
            }
            assert forall|k: int| 0 <= k <= i && in_layer(self@[k].0, face) implies r@.contains(k as usize) by {
                if k < i {
                    let j = choose|j: int| 0 <= j < old_r.len() && old_r[j] == k as usize;
                    assert(r@[j] == old_r[j]);
                }
            }
            i += 1;
        }
        r
    }

    /// Carries every cubie of the layer `face` through a quarter turn.
    fn finalize_rotation(&mut self, face: Face, clockwise: bool)
        ensures
            final(self)@ == turned_cubies(old(self)@, face, clockwise),
            final(self).turning() == old(self).turning(),
    {
        proof {
            use_type_invariant(&*self);
        }
        let ghost start = self@;
        let (axis, val) = face.layer();
        let n = self.cubies.len();
        let mut next: Vec<Cubie> = Vec::new();
        let mut i: usize = 0;
        while i < n
            invariant
                n == start.len(),
                start == self@,
                well_placed(start),
                axis as int == face.axis_index(),
                val as int == face.side(),
                i <= n,
                next@.map_values(|c: Cubie| c@) =~= turned_cubies(start, face, clockwise).take(i as int),
            decreases n - i,
        {
            let c = self.cubies[i];
            assert(c@ == start[i as int]);
            let moved = if c.grid_pos[axis] == val {
                assert(on_grid(start[i as int].0));
                Cubie {
                    grid_pos: quarter_turn(c.grid_pos, face, clockwise),
                    face_colors: permute_colors(c.face_colors, face, clockwise),
                }
            } else {
                c
            };
            assert(moved@ == turned_cubie(start[i as int], face, clockwise));
            let ghost before = next@.map_values(|c: Cubie| c@);
            next.push(moved);
            assert(next@.map_values(|c: Cubie| c@) =~= before.push(moved@));
            assert(turned_cubies(start, face, clockwise).take(i + 1) =~= turned_cubies(start, face, clockwise).take(i as int).push(moved@));
            i += 1;
        }
        proof {
            lemma_turn_keeps_well_placed(start, face, clockwise);
        }
        self.cubies = next;
    }

    /// Completes the turn in progress, if any: its layer is carried through the quarter
    /// turn and no turn is in progress afterwards.
    pub fn complete_turn(&mut self)
        ensures
            final(self).turning() is None,
            match old(self).turning() {
                Some((face, clockwise)) => final(self)@ == turned_cubies(old(self)@, face, clockwise),
                None => final(self)@ == old(self)@,
            },
    {
        match self.current_turn() {
            Some((face, clockwise)) => {
                proof {
                    use_type_invariant(&*self);
                }
                self.anim = None;
                self.finalize_rotation(face, clockwise);
            },
            None => {},
        }
    }
}

/// A turn keeps the cube well formed: every cubie stays on the grid, away from the
/// centre, and no two cubies come to share a place.
pub proof fn lemma_turn_keeps_well_placed(cs: Seq<CubieView>, face: Face, clockwise: bool)
    requires
        well_placed(cs),
    ensures
        well_placed(turned_cubies(cs, face, clockwise)),
{
    let ts = turned_cubies(cs, face, clockwise);
    assert forall|k: int| 0 <= k < ts.len() implies on_grid(#[trigger] ts[k].0) && ts[k].0 != (0int, 0int, 0int) by {
        assert(on_grid(cs[k].0));
    }
    assert forall|j: int, k: int| 0 <= j < ts.len() && 0 <= k < ts.len() && j != k implies #[trigger] ts[j].0 != #[trigger] ts[k].0 by {
        assert(cs[j].0 != cs[k].0);
    }
}

/// Every cubie in `cs` has six sides, as every `Cubie` has.
pub open spec fn six_sided(cs: Seq<CubieView>) -> bool {
    forall|k: int| 0 <= k < cs.len() ==> (#[trigger] cs[k]).1.len() == 6
}

proof fn lemma_cubie_turn_undone(c: CubieView, face: Face, clockwise: bool)
    requires
        c.1.len() == 6,
    ensures
        turned_cubie(turned_cubie(c, face, clockwise), face, !clockwise) == c,
{
    if in_layer(c.0, face) {
        assert(permuted(permuted(c.1, face, clockwise), face, !clockwise) =~= c.1);
    }
}

proof fn lemma_cubie_four_turns(c: CubieView, face: Face, clockwise: bool)
    requires
        c.1.len() == 6,
    ensures
        turned_cubie(
            turned_cubie(turned_cubie(turned_cubie(c, face, clockwise), face, clockwise), face, clockwise),
            face,
            clockwise,
        ) == c,
{
    if in_layer(c.0, face) {
        let p1 = permuted(c.1, face, clockwise);
        let p2 = permuted(p1, face, clockwise);
        let p3 = permuted(p2, face, clockwise);
        assert(permuted(p3, face, clockwise) =~= c.1);
    }
}

/// Turning a layer one way and then the other way gives back every cubie, in place
/// and colour.
pub proof fn lemma_turn_undone(cs: Seq<CubieView>, face: Face, clockwise: bool)
    requires
        six_sided(cs),
    ensures
        turned_cubies(turned_cubies(cs, face, clockwise), face, !clockwise) == cs,
{
    let back = turned_cubies(turned_cubies(cs, face, clockwise), face, !clockwise);
    assert forall|k: int| 0 <= k < cs.len() implies back[k] == cs[k] by {
        lemma_cubie_turn_undone(cs[k], face, clockwise);
    }
    assert(back =~= cs);
}

/// Four turns of the same layer in the same direction give back every cubie.
pub proof fn lemma_four_turns(cs: Seq<CubieView>, face: Face, clockwise: bool)
    requires
        six_sided(cs),
    ensures
        turned_cubies(
            turned_cubies(turned_cubies(turned_cubies(cs, face, clockwise), face, clockwise), face, clockwise),
            face,
            clockwise,
        ) == cs,
{
    let t1 = turned_cubies(cs, face, clockwise);
    let t2 = turned_cubies(t1, face, clockwise);
    let t3 = turned_cubies(t2, face, clockwise);
    let t4 = turned_cubies(t3, face, clockwise);
    assert forall|k: int| 0 <= k < cs.len() implies t4[k] == cs[k] by {
        lemma_cubie_four_turns(cs[k], face, clockwise);
    }
    assert(t4 =~= cs);
}

/// Every coloured side of cubie `c` faces out of the cube, and every side that faces
/// out is coloured.
pub open spec fn colours_face_out(c: CubieView) -> bool {
    let (x, y, z) = c.0;
    &&& (c.1[0] != FaceColor::Black <==> x == 1)
    &&& (c.1[1] != FaceColor::Black <==> x == -1)
    &&& (c.1[2] != FaceColor::Black <==> y == 1)
    &&& (c.1[3] != FaceColor::Black <==> y == -1)
    &&& (c.1[4] != FaceColor::Black <==> z == 1)
    &&& (c.1[5] != FaceColor::Black <==> z == -1)
}

/// The cubies of a freshly made cube show their colours on the outside.
pub proof fn lemma_fresh_colours_face_out()
    ensures
        forall|k: int| 0 <= k < 26 ==> colours_face_out(#[trigger] fresh_cubies()[k]),
{
}

/// Front and back turns keep every cubie's colours on the outside of the cube.
pub proof fn lemma_front_back_turns_keep_colours_out(c: CubieView, face: Face, clockwise: bool)
    requires
        face == Face::Front || face == Face::Back,
        c.1.len() == 6,
        colours_face_out(c),
    ensures
        colours_face_out(turned_cubie(c, face, clockwise)),
{
}

/// A turn moves exactly the cubies of its layer: a cubie outside the layer keeps its
/// place and colours; a cubie in the layer stays in the layer, keeps its coordinate
/// along the face's axis, and changes place unless it sits on that axis.
pub proof fn lemma_turn_moves_only_layer(c: CubieView, face: Face, clockwise: bool)
    ensures
        !in_layer(c.0, face) ==> turned_cubie(c, face, clockwise) == c,
        in_layer(c.0, face) ==> {
            let t = turned_cubie(c, face, clockwise).0;
            &&& in_layer(t, face)
            &&& coord(t, face.axis_index()) == coord(c.0, face.axis_index())
            &&& (t == c.0 <==> (forall|a: int| 0 <= a < 3 && a != face.axis_index() ==> coord(c.0, a) == 0))
        },
{
    if in_layer(c.0, face) {
        let t = turned_cubie(c, face, clockwise).0;
        if t == c.0 {
            assert forall|a: int| 0 <= a < 3 && a != face.axis_index() implies coord(c.0, a) == 0 by {}
        }
        if forall|a: int| 0 <= a < 3 && a != face.axis_index() ==> coord(c.0, a) == 0 {
            assert(coord(c.0, 0) == 0 || face.axis_index() == 0);
            assert(coord(c.0, 1) == 0 || face.axis_index() == 1);
            assert(coord(c.0, 2) == 0 || face.axis_index() == 2);
        }
    }
}

/// A cube's cubies always have six sides each.
pub proof fn lemma_cube_six_sided(cube: RubiksCube)
    ensures
        six_sided(cube@),
{
}

/// Grid positions are told apart by the number `9 (x + 1) + 3 (y + 1) + (z + 1)`.
pub(crate) proof fn lemma_start_pos_code(k: int)
    requires
        0 <= k < 26,
    ensures
        on_grid(start_pos(k)),
        start_pos(k) != (0int, 0int, 0int),
        9 * (start_pos(k).0 + 1) + 3 * (start_pos(k).1 + 1) + (start_pos(k).2 + 1)
            == if k < 13 { k } else { k + 1 },
{
    let n = if k < 13 { k } else { k + 1 };
    assert(0 <= n / 9 < 3 && 0 <= (n % 9) / 3 < 3 && 0 <= n % 3 < 3) by (nonlinear_arith)
        requires 0 <= n < 27;
    assert(9 * (n / 9) + 3 * ((n % 9) / 3) + n % 3 == n) by (nonlinear_arith)
        requires 0 <= n;
}

proof fn lemma_fresh_cubies_well_placed()
    ensures
        well_placed(fresh_cubies()),
{
    let cs = fresh_cubies();
    assert forall|k: int| 0 <= k < cs.len() implies on_grid(#[trigger] cs[k].0) && cs[k].0 != (0int, 0int, 0int) by {
        lemma_start_pos_code(k);
    }
    assert forall|j: int, k: int| 0 <= j < cs.len() && 0 <= k < cs.len() && j != k implies #[trigger] cs[j].0 != #[trigger] cs[k].0 by {
        lemma_start_pos_code(j);
        lemma_start_pos_code(k);
    }
}

} // verus!
