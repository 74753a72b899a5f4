use vstd::prelude::*;
use crate::color::{Color, FIXED_ONE};
use vstd::string::StringExecFns;

verus! {

/// A grid of colors, stored row by row.
#[derive(Clone, Debug, PartialEq)]
pub struct Texture {
    pub width: u32,
    pub height: u32,
    pub pixels: Vec<Color>,
}

/// Column (or row) picked by a fixed-point coordinate on an axis of `n` cells.
pub open spec fn cell_of(coord: int, n: int) -> int {
    if coord * n / FIXED_ONE as int > n - 1 { n - 1 } else { coord * n / FIXED_ONE as int }
}

/// The color of pixel `i` in RGBA bytes (alpha is dropped).
pub open spec fn rgba_pixel(rgba: Seq<u8>, i: int) -> Color {
    Color { r: rgba[4 * i], g: rgba[4 * i + 1], b: rgba[4 * i + 2] }
}

impl Texture {
    /// The grid is non-empty and holds exactly `width * height` pixels.
    pub open spec fn wf(&self) -> bool {
        &&& self.width > 0
        &&& self.height > 0
        &&& self.pixels@.len() == self.width * self.height
    }

    /// Same size and the same pixels.
    pub open spec fn same_as(&self, o: Texture) -> bool {
        self.width == o.width && self.height == o.height && self.pixels@ == o.pixels@
    }

    /// A copy of the texture, pixel by pixel.
    pub fn duplicate(&self) -> (t: Texture)
        ensures
            t.same_as(*self),
    {
        let mut pixels: Vec<Color> = Vec::new();
        let mut i: usize = 0;
        while i < self.pixels.len()
            invariant
                i <= self.pixels@.len(),
                pixels@ == self.pixels@.subrange(0, i as int),
            decreases self.pixels.len() - i,
        {
            pixels.push(self.pixels[i]);
            i = i + 1;
            assert(pixels@ =~= self.pixels@.subrange(0, i as int));
        }
        assert(pixels@ =~= self.pixels@);
        Texture { width: self.width, height: self.height, pixels }
    }

    /// The pixel at column `x` and row `y`.
    pub open spec fn at(&self, x: int, y: int) -> Color {
        self.pixels@[y * self.width + x]
    }

    /// Builds a texture from RGBA bytes, four per pixel, row by row; alpha is dropped.
    pub fn from_rgba(width: u32, height: u32, rgba: &Vec<u8>) -> (t: Texture)
        requires
            width > 0,
            height > 0,
            rgba@.len() == 4 * width * height,
            4 * width * height <= usize::MAX,
        ensures
            t.wf(),
            t.width == width,
            t.height == height,
            forall|i: int|
                0 <= i < width * height ==> #[trigger] t.pixels@[i] == rgba_pixel(rgba@, i),
    {
        let n: usize = rgba.len() / 4;
        assert(4 * width * height == 4 * (width * height)) by (nonlinear_arith);
        assert(n == width * height);
        let mut pixels: Vec<Color> = Vec::with_capacity(n);
        let mut i: usize = 0;
        while i < n
            invariant
                n == width * height,
                rgba@.len() == 4 * n,
                i <= n,
                n <= usize::MAX / 4,
                pixels@.len() == i,
                forall|k: int|
                    0 <= k < i ==> #[trigger] pixels@[k] == rgba_pixel(rgba@, k),
            decreases n - i,
        {
            let c = Color { r: rgba[4 * i], g: rgba[4 * i + 1], b: rgba[4 * i + 2] };
            pixels.push(c);
            i = i + 1;
        }
        Texture { width, height, pixels }
    }

    /// Nearest-cell lookup at fixed-point coordinates in [0, 1]; a coordinate past the
    /// last cell picks the last cell.
    pub fn sample(&self, u: u32, v: u32) -> (c: Color)
        requires
            self.wf(),
        ensures
            c == self.at(cell_of(u as int, self.width as int), cell_of(v as int, self.height as int)),
    {
        let x = Self::cell(u, self.width);
        let y = Self::cell(v, self.height);
        let n = self.pixels.len();
        proof {
            assert(y * self.width + x < self.width * self.height) by (nonlinear_arith)
                requires y < self.height, x < self.width;
            assert(y * self.width + x < n);
            assert(0 <= y * self.width) by (nonlinear_arith)
                requires 0 <= y, 0 <= self.width;
        }
        self.pixels[y as usize * self.width as usize + x as usize]
    }

    fn cell(coord: u32, n: u32) -> (r: u32)
        requires
            n > 0,
        ensures
            r == cell_of(coord as int, n as int),
            r < n,
    {
        assert(coord as int * n as int <= 0xffff_ffff * 0xffff_ffff) by (nonlinear_arith)
            requires coord <= 0xffff_ffff, n <= 0xffff_ffff;
        let c = coord as u64 * n as u64 / FIXED_ONE as u64;
        if c > (n - 1) as u64 { n - 1 } else { c as u32 }
    }
}

/// Six textures, one per axis direction, for a background cube.
#[derive(Clone, Debug)]
pub struct Skybox {
    px: Texture,
    nx: Texture,
    py: Texture,
    ny: Texture,
    pz: Texture,
    nz: Texture,
}

/// The message of a face that failed to load: `skybox <face>: <error>`.
pub open spec fn skybox_message(face: Seq<char>, err: Seq<char>) -> Seq<char> {
    seq!['s', 'k', 'y', 'b', 'o', 'x', ' '] + face + seq![':', ' '] + err
}

/// The message `skybox <face>: <error>`.
fn face_error(face: &str, err: String) -> (m: String)
    ensures
        m@ == skybox_message(face@, err@),
{
    let mut m = <String as StringExecFns>::from_str("skybox ");
    m.append(face);
    m.append(": ");
    m.append(err.as_str());
    proof {
        reveal_strlit("skybox ");
        reveal_strlit(": ");
    }
    assert(m@ =~= skybox_message(face@, err@));
    m
}

/// Face picked by a direction, with fixed-point texture coordinates in [0, 1).
pub open spec fn sky_pick(x: int, y: int, z: int) -> (int, int, int) {
    let ax = if x < 0 { -x } else { x };
    let ay = if y < 0 { -y } else { y };
    let az = if z < 0 { -z } else { z };
    if ax >= ay && ax >= az {
        if x > 0 {
            (0, sky_coord(-z, ax), sky_coord(-y, ax))
        } else {
            (1, sky_coord(z, ax), sky_coord(-y, ax))
        }
    } else if ay >= az {
        if y > 0 {
            (2, sky_coord(x, ay), sky_coord(z, ay))
        } else {
            (3, sky_coord(x, ay), sky_coord(-z, ay))
        }
    } else {
        if z > 0 {
            (4, sky_coord(x, az), sky_coord(-y, az))
        } else {
            (5, sky_coord(-x, az), sky_coord(-y, az))
        }
    }
}

/// `(c / a + 1) / 2` as a fixed-point fraction, wrapped into [0, 1).
pub open spec fn sky_coord(c: int, a: int) -> int {
    ((a + c) * FIXED_ONE as int / (2 * a)) % FIXED_ONE as int
}

impl Skybox {
    pub closed spec fn wf(&self) -> bool {
        self.px.wf() && self.nx.wf() && self.py.wf() && self.ny.wf() && self.pz.wf() && self.nz.wf()
    }

    /// The texture for a face index in the order +X, -X, +Y, -Y, +Z, -Z.
    pub closed spec fn face(&self, i: int) -> Texture {
        if i == 0 { self.px }
        else if i == 1 { self.nx }
        else if i == 2 { self.py }
        else if i == 3 { self.ny }
        else if i == 4 { self.pz }
        else { self.nz }
    }

    /// Assembles a skybox from the six loaded faces (+X, -X, +Y, -Y, +Z, -Z). The first
    /// face that failed gives the error, prefixed with `skybox <face>: `.
    pub fn load(
        px: Result<Texture, String>,
        nx: Result<Texture, String>,
        py: Result<Texture, String>,
        ny: Result<Texture, String>,
        pz: Result<Texture, String>,
        nz: Result<Texture, String>,
    ) -> (r: Result<Skybox, String>)
        ensures
            px is Err ==> r is Err && r->Err_0@ == skybox_message("px"@, px->Err_0@),
            px is Ok && nx is Err ==> r is Err && r->Err_0@ == skybox_message("nx"@, nx->Err_0@),
            px is Ok && nx is Ok && py is Err ==> r is Err && r->Err_0@ == skybox_message("py"@, py->Err_0@),
            px is Ok && nx is Ok && py is Ok && ny is Err ==> r is Err && r->Err_0@ == skybox_message("ny"@, ny->Err_0@),
            px is Ok && nx is Ok && py is Ok && ny is Ok && pz is Err ==> r is Err && r->Err_0@ == skybox_message("pz"@, pz->Err_0@),
            px is Ok && nx is Ok && py is Ok && ny is Ok && pz is Ok && nz is Err ==> r is Err && r->Err_0@ == skybox_message("nz"@, nz->Err_0@),
            r is Ok <==> (px is Ok && nx is Ok && py is Ok && ny is Ok && pz is Ok && nz is Ok),
            r is Ok ==> {
                let s = r->Ok_0;
                &&& s.face(0) == px->Ok_0
                &&& s.face(1) == nx->Ok_0
                &&& s.face(2) == py->Ok_0
                &&& s.face(3) == ny->Ok_0
                &&& s.face(4) == pz->Ok_0
                &&& s.face(5) == nz->Ok_0
            },
    {
        let px = match px { Ok(t) => t, Err(e) => { return Err(face_error("px", e)); } };
        let nx = match nx { Ok(t) => t, Err(e) => { return Err(face_error("nx", e)); } };
        let py = match py { Ok(t) => t, Err(e) => { return Err(face_error("py", e)); } };
        let ny = match ny { Ok(t) => t, Err(e) => { return Err(face_error("ny", e)); } };
        let pz = match pz { Ok(t) => t, Err(e) => { return Err(face_error("pz", e)); } };
        let nz = match nz { Ok(t) => t, Err(e) => { return Err(face_error("nz", e)); } };
        Ok(Skybox { px, nx, py, ny, pz, nz })
    }

    /// Background color seen along a non-zero direction: the face of the dominant axis,
    /// sampled at the direction's projection onto it.
    pub fn sample(&self, x: i32, y: i32, z: i32) -> (c: Color)
        requires
            self.wf(),
            x != 0 || y != 0 || z != 0,
        ensures
            ({
                let (f, u, v) = sky_pick(x as int, y as int, z as int);
                let t = self.face(f);
                c == t.at(cell_of(u, t.width as int), cell_of(v, t.height as int))
            }),
    {
        let xi = x as i64;
        let yi = y as i64;
        let zi = z as i64;
        let ax = if xi < 0 { -xi } else { xi };
        let ay = if yi < 0 { -yi } else { yi };
        let az = if zi < 0 { -zi } else { zi };
        if ax >= ay && ax >= az {
            if xi > 0 {
                self.px.sample(Self::coord(-zi, ax), Self::coord(-yi, ax))
            } else {
                self.nx.sample(Self::coord(zi, ax), Self::coord(-yi, ax))
            }
        } else if ay >= az {
            if yi > 0 {
                self.py.sample(Self::coord(xi, ay), Self::coord(zi, ay))
            } else {
                self.ny.sample(Self::coord(xi, ay), Self::coord(-zi, ay))
            }
        } else {
            if zi > 0 {
                self.pz.sample(Self::coord(xi, az), Self::coord(-yi, az))
            } else {
                self.nz.sample(Self::coord(-xi, az), Self::coord(-yi, az))
            }
        }
    }

    fn coord(c: i64, a: i64) -> (r: u32)
        requires
            0 < a <= 0x8000_0000,
            -a <= c <= a,
        ensures
            r == sky_coord(c as int, a as int),
    {
        let s = (a + c) as u64;
        assert(s * 10000 <= 0x8000_0000 * 2 * 10000) by (nonlinear_arith)
            requires s <= 2 * 0x8000_0000;
        let q = s * FIXED_ONE as u64 / (2 * a) as u64;
        assert(q <= 10000) by (nonlinear_arith)
            requires q == s * 10000 / (2 * a), s <= 2 * a, a > 0;
        (q % FIXED_ONE as u64) as u32
    }
}

} // verus!
