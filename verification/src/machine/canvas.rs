use vstd::prelude::*;

verus! {

/// A rectangle of packed pixels.
pub struct Tile {
    width: i32,
    height: i32,
    buffer: Vec<u32>,
}

impl Tile {

}

/// An RGBA pixel buffer, four bytes per pixel, row by row.
pub struct Canvas {
    width: i32,
    height: i32,
    pixels: Vec<u8>,
}

/// The mathematical model of a [`Canvas`].
pub ghost struct CanvasView {
    pub width: int,
    pub height: int,
    pub pixels: Seq<u8>,
}

impl View for Canvas {
    type V = CanvasView;

    closed spec fn view(&self) -> CanvasView {
        CanvasView { width: self.width as int, height: self.height as int, pixels: self.pixels@ }
    }
}

impl CanvasView {
    /// The buffer holds exactly the pixels of the canvas, and every pixel's
    /// byte offset fits in an `i32`.
    pub open spec fn wf(self) -> bool {
        &&& 0 <= self.width
        &&& 0 <= self.height
        &&& self.pixels.len() == 4 * self.width * self.height
        &&& 4 * self.width * self.height <= i32::MAX
    }

    pub open spec fn in_bounds(self, x: int, y: int) -> bool {
        0 <= x < self.width && 0 <= y < self.height
    }

    /// The byte offset of the pixel at (x, y).
    pub open spec fn offset(self, x: int, y: int) -> int {
        4 * (x + y * self.width)
    }

    /// A pixel inside the canvas can be written without leaving the buffer.
    pub open spec fn pixel_writable(self, x: int, y: int) -> bool {
        self.in_bounds(x, y) ==> {
            &&& self.offset(x, y) + 3 < self.pixels.len()
            &&& self.offset(x, y) <= i32::MAX
        }
    }

    /// The pixels after setting (x, y) to the colour (r, g, b), opaque; a point
    /// outside the canvas changes nothing.
    pub open spec fn paint(self, x: int, y: int, r: u8, g: u8, b: u8) -> Seq<u8> {
        if self.in_bounds(x, y) {
            let i = self.offset(x, y);
            self.pixels.update(i, r).update(i + 1, g).update(i + 2, b).update(i + 3, 255)
        } else {
            self.pixels
        }
    }
}

/// In a well-formed canvas every pixel inside it is writable.
pub proof fn lemma_wf_writable(c: CanvasView, x: int, y: int)
    requires
        c.wf(),
    ensures
        c.pixel_writable(x, y),
{
    if c.in_bounds(x, y) {
        assert(4 * (x + y * c.width) + 4 <= 4 * c.width * c.height) by (nonlinear_arith)
            requires
                0 <= x < c.width,
                0 <= y < c.height,
        ;
    }
}

/// The sign of `v`: -1, 0 or 1.
pub open spec fn sign(v: int) -> int {
    if v > 0 {
        1
    } else if v < 0 {
        -1
    } else {
        0
    }
}

pub open spec fn magnitude(v: int) -> int {
    if v < 0 {
        -v
    } else {
        v
    }
}

/// `i32::signum`.
fn signum(v: i32) -> (s: i32)
    ensures
        s == sign(v as int),
{
    if v > 0 {
        1
    } else if v < 0 {
        -1
    } else {
        0
    }
}

/// `i32::abs`, which overflows on `i32::MIN`.
fn abs(v: i32) -> (a: i32)
    requires
        v != i32::MIN,
    ensures
        a == magnitude(v as int),
{
    if v < 0 {
        -v
    } else {
        v
    }
}

/// The stepping of a line from (x, y) to (x2, y2): the length of the longest
/// axis, that of the shortest, the diagonal step and the straight step.
pub open spec fn line_setup(x: int, y: int, x2: int, y2: int) -> (int, int, int, int, int, int) {
    let w = x2 - x;
    let h = y2 - y;
    if magnitude(w) <= magnitude(h) {
        (magnitude(h), magnitude(w), sign(w), sign(h), 0, sign(h))
    } else {
        (magnitude(w), magnitude(h), sign(w), sign(h), sign(w), 0)
    }
}

/// The states (x, y, numerator) of the line algorithm: the given one and the
/// `n` after it.
pub open spec fn line_walk(
    x: int,
    y: int,
    numerator: int,
    n: nat,
    shortest: int,
    longest: int,
    dx1: int,
    dy1: int,
    dx2: int,
    dy2: int,
) -> Seq<(int, int, int)>
    decreases n,
{
    if n == 0 {
        seq![(x, y, numerator)]
    } else {
        let num = numerator + shortest;
        if num >= longest {
            seq![(x, y, numerator)] + line_walk(x + dx1, y + dy1, num - longest, (n - 1) as nat, shortest, longest, dx1, dy1, dx2, dy2)
        } else {
            seq![(x, y, numerator)] + line_walk(x + dx2, y + dy2, num, (n - 1) as nat, shortest, longest, dx1, dy1, dx2, dy2)
        }
    }
}

pub proof fn lemma_line_walk_len(
    x: int,
    y: int,
    numerator: int,
    n: nat,
    shortest: int,
    longest: int,
    dx1: int,
    dy1: int,
    dx2: int,
    dy2: int,
)
    ensures
        line_walk(x, y, numerator, n, shortest, longest, dx1, dy1, dx2, dy2).len() == n + 1,
        line_walk(x, y, numerator, n, shortest, longest, dx1, dy1, dx2, dy2)[0] == (x, y, numerator),
    decreases n,
{
    if n > 0 {
        let num = numerator + shortest;
        if num >= longest {
            lemma_line_walk_len(x + dx1, y + dy1, num - longest, (n - 1) as nat, shortest, longest, dx1, dy1, dx2, dy2);
        } else {
            lemma_line_walk_len(x + dx2, y + dy2, num, (n - 1) as nat, shortest, longest, dx1, dy1, dx2, dy2);
        }
    }
}

/// After `k` steps from numerator `numerator`, the walk has taken `q` diagonal
/// steps, where `numerator + k * shortest == q * longest + r` with
/// `0 <= r < longest`, and `r` is the numerator.
proof fn lemma_line_walk_closed_form(
    x: int,
    y: int,
    numerator: int,
    n: nat,
    shortest: int,
    longest: int,
    dx1: int,
    dy1: int,
    dx2: int,
    dy2: int,
    k: int,
    q: int,
    r: int,
)
    requires
        0 <= shortest <= longest,
        0 <= numerator < longest,
        0 <= k <= n,
        0 <= r < longest,
        numerator + k * shortest == q * longest + r,
    ensures
        line_walk(x, y, numerator, n, shortest, longest, dx1, dy1, dx2, dy2)[k] == (
            x + q * dx1 + (k - q) * dx2,
            y + q * dy1 + (k - q) * dy2,
            r,
        ),
    decreases n,
{
    lemma_line_walk_len(x, y, numerator, n, shortest, longest, dx1, dy1, dx2, dy2);
    if k == 0 {
        assert(k * shortest == 0) by (nonlinear_arith)
            requires
                k == 0,
        ;
        vstd::arithmetic::div_mod::lemma_fundamental_div_mod_converse(numerator, longest, q, r);
        vstd::arithmetic::div_mod::lemma_fundamental_div_mod_converse(numerator, longest, 0, numerator);
        assert(q == 0 && r == numerator);
        assert(q * dx1 == 0 && (k - q) * dx2 == 0 && q * dy1 == 0 && (k - q) * dy2 == 0) by (nonlinear_arith)
            requires
                q == 0,
                k == 0,
        ;
    } else {
        let num = numerator + shortest;
        assert(numerator + k * shortest == num + (k - 1) * shortest) by (nonlinear_arith)
            requires
                num == numerator + shortest,
        ;
        if num >= longest {
            assert(num - longest + (k - 1) * shortest == (q - 1) * longest + r) by (nonlinear_arith)
                requires
                    num + (k - 1) * shortest == q * longest + r,
            ;
            lemma_line_walk_closed_form(
                x + dx1,
                y + dy1,
                num - longest,
                (n - 1) as nat,
                shortest,
                longest,
                dx1,
                dy1,
                dx2,
                dy2,
                k - 1,
                q - 1,
                r,
            );
            assert(line_walk(x, y, numerator, n, shortest, longest, dx1, dy1, dx2, dy2)[k] == line_walk(
                x + dx1,
                y + dy1,
                num - longest,
                (n - 1) as nat,
                shortest,
                longest,
                dx1,
                dy1,
                dx2,
                dy2,
            )[k - 1]);
            assert(x + dx1 + (q - 1) * dx1 + (k - 1 - (q - 1)) * dx2 == x + q * dx1 + (k - q) * dx2) by (nonlinear_arith);
            assert(y + dy1 + (q - 1) * dy1 + (k - 1 - (q - 1)) * dy2 == y + q * dy1 + (k - q) * dy2) by (nonlinear_arith);
        } else {
            lemma_line_walk_closed_form(
                x + dx2,
                y + dy2,
                num,
                (n - 1) as nat,
                shortest,
                longest,
                dx1,
                dy1,
                dx2,
                dy2,
                k - 1,
                q,
                r,
            );
            assert(line_walk(x, y, numerator, n, shortest, longest, dx1, dy1, dx2, dy2)[k] == line_walk(
                x + dx2,
                y + dy2,
                num,
                (n - 1) as nat,
                shortest,
                longest,
                dx1,
                dy1,
                dx2,
                dy2,
            )[k - 1]);
            assert(x + dx2 + q * dx1 + (k - 1 - q) * dx2 == x + q * dx1 + (k - q) * dx2) by (nonlinear_arith);
            assert(y + dy2 + q * dy1 + (k - 1 - q) * dy2 == y + q * dy1 + (k - q) * dy2) by (nonlinear_arith);
        }
    }
}

/// The states of the line from (x, y) to (x2, y2): one per pixel drawn, and
/// the state the algorithm ends in after the last pixel.
pub open spec fn line_states(x: int, y: int, x2: int, y2: int) -> Seq<(int, int, int)> {
    let (longest, shortest, dx1, dy1, dx2, dy2) = line_setup(x, y, x2, y2);
    line_walk(x, y, longest / 2, (longest + 1) as nat, shortest, longest, dx1, dy1, dx2, dy2)
}

/// Each step of the walk moves by the diagonal step or by the straight step.
proof fn lemma_line_walk_steps(
    x: int,
    y: int,
    numerator: int,
    n: nat,
    shortest: int,
    longest: int,
    dx1: int,
    dy1: int,
    dx2: int,
    dy2: int,
    k: int,
)
    requires
        0 <= k < n,
    ensures
        ({
            let walk = line_walk(x, y, numerator, n, shortest, longest, dx1, dy1, dx2, dy2);
            (walk[k + 1].0 - walk[k].0 == dx1 && walk[k + 1].1 - walk[k].1 == dy1) || (walk[k + 1].0
                - walk[k].0 == dx2 && walk[k + 1].1 - walk[k].1 == dy2)
        }),
    decreases n,
{
    let num = numerator + shortest;
    let (nx, ny, nn) = if num >= longest {
        (x + dx1, y + dy1, num - longest)
    } else {
        (x + dx2, y + dy2, num)
    };
    let walk = line_walk(x, y, numerator, n, shortest, longest, dx1, dy1, dx2, dy2);
    let rest = line_walk(nx, ny, nn, (n - 1) as nat, shortest, longest, dx1, dy1, dx2, dy2);
    lemma_line_walk_len(nx, ny, nn, (n - 1) as nat, shortest, longest, dx1, dy1, dx2, dy2);
    assert(walk == seq![(x, y, numerator)] + rest);
    if k > 0 {
        lemma_line_walk_steps(nx, ny, nn, (n - 1) as nat, shortest, longest, dx1, dy1, dx2, dy2, k - 1);
        assert(walk[k] == rest[k - 1] && walk[k + 1] == rest[k]);
    } else {
        assert(walk[0] == (x, y, numerator) && walk[1] == rest[0]);
    }
}

/// A line has no gaps: each pixel painted after the first lies at most one
/// step away, on each axis, from the one painted before it.
pub proof fn law_line_connected(x: int, y: int, x2: int, y2: int, k: int)
    requires
        0 <= k < line_setup(x, y, x2, y2).0,
    ensures
        -1 <= line_states(x, y, x2, y2)[k + 1].0 - line_states(x, y, x2, y2)[k].0 <= 1,
        -1 <= line_states(x, y, x2, y2)[k + 1].1 - line_states(x, y, x2, y2)[k].1 <= 1,
{
    let (longest, shortest, dx1, dy1, dx2, dy2) = line_setup(x, y, x2, y2);
    lemma_line_walk_steps(x, y, longest / 2, (longest + 1) as nat, shortest, longest, dx1, dy1, dx2, dy2, k);
}

/// Byte `t` (0 to 3) of an opaque pixel of colour (r, g, b).
pub open spec fn colour_byte(t: int, r: u8, g: u8, b: u8) -> u8 {
    if t == 0 {
        r
    } else if t == 1 {
        g
    } else if t == 2 {
        b
    } else {
        255
    }
}

/// One of the points of the first `n` states lies on the canvas and its
/// pixel holds byte `j`.
pub open spec fn painted_at(c: CanvasView, states: Seq<(int, int, int)>, n: nat, j: int) -> bool
    decreases n,
{
    if n == 0 {
        false
    } else {
        let (x, y, _) = states[n - 1];
        ||| (c.in_bounds(x, y) && c.offset(x, y) <= j < c.offset(x, y) + 4)
        ||| painted_at(c, states, (n - 1) as nat, j)
    }
}

proof fn lemma_paint_states(c: CanvasView, states: Seq<(int, int, int)>, n: nat, r: u8, g: u8, b: u8, j: int)
    requires
        c.wf(),
        n <= states.len(),
        0 <= j < c.pixels.len(),
    ensures
        paint_states(c, states, n, r, g, b).len() == c.pixels.len(),
        painted_at(c, states, n, j) ==> paint_states(c, states, n, r, g, b)[j] == colour_byte(j % 4, r, g, b),
        !painted_at(c, states, n, j) ==> paint_states(c, states, n, r, g, b)[j] == c.pixels[j],
    decreases n,
{
    if n > 0 {
        lemma_paint_states(c, states, (n - 1) as nat, r, g, b, j);
        let before = CanvasView { pixels: paint_states(c, states, (n - 1) as nat, r, g, b), ..c };
        let (x, y, _) = states[n - 1];
        lemma_wf_writable(c, x, y);
        if c.in_bounds(x, y) {
            let i = c.offset(x, y);
            assert(i % 4 == 0 && 0 <= i) by (nonlinear_arith)
                requires
                    i == 4 * (x + y * c.width),
                    0 <= x,
                    0 <= y,
                    0 <= c.width,
            ;
            if i <= j < i + 4 {
                assert(j % 4 == j - i);
            }
        }
        assert(before.pixels.len() == c.pixels.len());
    }
}

/// Drawing a line changes exactly the bytes of those of its points that lie
/// on the canvas: they take the colour, opaque, and every other byte keeps
/// its value.
pub proof fn law_line_paints_its_points(c: CanvasView, x: int, y: int, x2: int, y2: int, r: u8, g: u8, b: u8, j: int)
    requires
        c.wf(),
        0 <= j < c.pixels.len(),
    ensures
        ({
            let states = line_states(x, y, x2, y2);
            let n = (line_setup(x, y, x2, y2).0 + 1) as nat;
            let after = paint_states(c, states, n, r, g, b);
            &&& after.len() == c.pixels.len()
            &&& painted_at(c, states, n, j) ==> after[j] == colour_byte(j % 4, r, g, b)
            &&& !painted_at(c, states, n, j) ==> after[j] == c.pixels[j]
        }),
{
    let (longest, shortest, dx1, dy1, dx2, dy2) = line_setup(x, y, x2, y2);
    lemma_line_walk_len(x, y, longest / 2, (longest + 1) as nat, shortest, longest, dx1, dy1, dx2, dy2);
    lemma_paint_states(c, line_states(x, y, x2, y2), (longest + 1) as nat, r, g, b, j);
}

/// Every point of a line lies in the rectangle spanned by its two end points.
pub proof fn law_line_in_bounding_box(x: int, y: int, x2: int, y2: int, k: int)
    requires
        0 <= k <= line_setup(x, y, x2, y2).0,
    ensures
        ({
            let (px, py, _) = line_states(x, y, x2, y2)[k];
            &&& (x <= px <= x2 || x2 <= px <= x)
            &&& (y <= py <= y2 || y2 <= py <= y)
        }),
{
    let (longest, shortest, dx1, dy1, dx2, dy2) = line_setup(x, y, x2, y2);
    let n = (longest + 1) as nat;
    lemma_line_walk_len(x, y, longest / 2, n, shortest, longest, dx1, dy1, dx2, dy2);
    if longest == 0 {
        assert(k == 0);
    } else {
        let total = longest / 2 + k * shortest;
        let q = total / longest;
        let rem = total % longest;
        vstd::arithmetic::div_mod::lemma_fundamental_div_mod(total, longest);
        assert(0 <= k * shortest <= longest * shortest) by (nonlinear_arith)
            requires
                0 <= k <= longest,
                0 <= shortest,
        ;
        assert(0 <= shortest <= longest);
        assert(0 <= q <= shortest && q <= k) by (nonlinear_arith)
            requires
                total == longest * q + rem,
                0 <= rem < longest,
                total == longest / 2 + k * shortest,
                0 <= longest / 2 < longest,
                0 <= k * shortest <= longest * shortest,
                0 <= shortest <= longest,
                0 <= k <= longest,
        ;
        assert(longest / 2 + k * shortest == q * longest + rem) by (nonlinear_arith)
            requires
                total == longest * q + rem,
                total == longest / 2 + k * shortest,
        ;
        lemma_line_walk_closed_form(x, y, longest / 2, n, shortest, longest, dx1, dy1, dx2, dy2, k, q, rem);
        let w = x2 - x;
        let h = y2 - y;
        let px = x + q * dx1 + (k - q) * dx2;
        let py = y + q * dy1 + (k - q) * dy2;
        assert((x <= px <= x2 || x2 <= px <= x) && (y <= py <= y2 || y2 <= py <= y)) by (nonlinear_arith)
            requires
                (longest, shortest, dx1, dy1, dx2, dy2) == line_setup(x, y, x2, y2),
                w == x2 - x,
                h == y2 - y,
                px == x + q * dx1 + (k - q) * dx2,
                py == y + q * dy1 + (k - q) * dy2,
                0 <= q <= shortest,
                q <= k <= longest,
        {
        }
    }
}

/// A line has one point per step along its longer axis: point `k` lies `k`
/// steps from the start on that axis, so its `longest + 1` points are
/// distinct.
pub proof fn law_line_one_point_per_step(x: int, y: int, x2: int, y2: int, k: int)
    requires
        0 <= k <= line_setup(x, y, x2, y2).0,
    ensures
        magnitude(x2 - x) > magnitude(y2 - y) ==> line_states(x, y, x2, y2)[k].0 == x + k * sign(x2 - x),
        magnitude(x2 - x) <= magnitude(y2 - y) ==> line_states(x, y, x2, y2)[k].1 == y + k * sign(y2 - y),
{
    let (longest, shortest, dx1, dy1, dx2, dy2) = line_setup(x, y, x2, y2);
    let n = (longest + 1) as nat;
    lemma_line_walk_len(x, y, longest / 2, n, shortest, longest, dx1, dy1, dx2, dy2);
    if longest > 0 {
        let total = longest / 2 + k * shortest;
        let q = total / longest;
        let rem = total % longest;
        vstd::arithmetic::div_mod::lemma_fundamental_div_mod(total, longest);
        assert(longest / 2 + k * shortest == q * longest + rem) by (nonlinear_arith)
            requires
                total == longest * q + rem,
                total == longest / 2 + k * shortest,
        ;
        lemma_line_walk_closed_form(x, y, longest / 2, n, shortest, longest, dx1, dy1, dx2, dy2, k, q, rem);
        assert(q * dx1 + (k - q) * dx2 == k * dx1 || dx2 == 0) by (nonlinear_arith)
            requires
                dx2 == dx1 || dx2 == 0,
        ;
        assert(q * dy1 + (k - q) * dy2 == k * dy1 || dy2 == 0) by (nonlinear_arith)
            requires
                dy2 == dy1 || dy2 == 0,
        ;
    } else {
        assert(k == 0);
    }
}

/// A line is drawn from its first point to its last: the first pixel painted
/// is (x, y) and the last one is (x2, y2).
pub proof fn law_line_endpoints(x: int, y: int, x2: int, y2: int)
    ensures
        line_states(x, y, x2, y2)[0].0 == x,
        line_states(x, y, x2, y2)[0].1 == y,
        line_states(x, y, x2, y2)[line_setup(x, y, x2, y2).0].0 == x2,
        line_states(x, y, x2, y2)[line_setup(x, y, x2, y2).0].1 == y2,
{
    let (longest, shortest, dx1, dy1, dx2, dy2) = line_setup(x, y, x2, y2);
    let n = (longest + 1) as nat;
    lemma_line_walk_len(x, y, longest / 2, n, shortest, longest, dx1, dy1, dx2, dy2);
    if longest > 0 {
        assert(longest / 2 + longest * shortest == shortest * longest + longest / 2) by (nonlinear_arith);
        lemma_line_walk_closed_form(
            x,
            y,
            longest / 2,
            n,
            shortest,
            longest,
            dx1,
            dy1,
            dx2,
            dy2,
            longest,
            shortest,
            longest / 2,
        );
        let w = x2 - x;
        let h = y2 - y;
        assert(shortest * sign(w) + (longest - shortest) * dx2 == w && shortest * sign(h) + (longest
            - shortest) * dy2 == h) by (nonlinear_arith)
            requires
                (longest, shortest, dx1, dy1, dx2, dy2) == line_setup(x, y, x2, y2),
                w == x2 - x,
                h == y2 - y,
        {
        }
    }
}

/// The pixels after painting the points of the first `n` states in order.
pub open spec fn paint_states(c: CanvasView, states: Seq<(int, int, int)>, n: nat, r: u8, g: u8, b: u8) -> Seq<u8>
    decreases n,
{
    if n == 0 {
        c.pixels
    } else {
        let before = CanvasView { pixels: paint_states(c, states, (n - 1) as nat, r, g, b), ..c };
        before.paint(states[n - 1].0, states[n - 1].1, r, g, b)
    }
}

/// The line algorithm from (x, y) to (x2, y2) stays within `i32`.
pub open spec fn line_fits(x: int, y: int, x2: int, y2: int) -> bool {
    let (longest, shortest, dx1, dy1, dx2, dy2) = line_setup(x, y, x2, y2);
    let states = line_states(x, y, x2, y2);
    &&& i32::MIN < x2 - x <= i32::MAX
    &&& i32::MIN < y2 - y <= i32::MAX
    &&& longest + shortest <= i32::MAX
    &&& longest < i32::MAX
    &&& forall|k: int| 0 <= k < states.len() ==> i32::MIN <= #[trigger] states[k].0 <= i32::MAX
        && i32::MIN <= states[k].1 <= i32::MAX
}

/// Where the line algorithm stands after its last pixel: one step past the
/// end point along the longer axis.
pub open spec fn state_after_line(x: int, y: int, x2: int, y2: int) -> (int, int) {
    let (longest, shortest, dx1, dy1, dx2, dy2) = line_setup(x, y, x2, y2);
    if longest == 0 {
        (x, y)
    } else {
        let q = (longest / 2 + (longest + 1) * shortest) / longest;
        if magnitude(x2 - x) <= magnitude(y2 - y) {
            (x + q * sign(x2 - x), y2 + sign(y2 - y))
        } else {
            (x2 + sign(x2 - x), y + q * sign(y2 - y))
        }
    }
}

proof fn lemma_state_after_line(x: int, y: int, x2: int, y2: int)
    ensures
        line_states(x, y, x2, y2).len() == line_setup(x, y, x2, y2).0 + 2,
        line_states(x, y, x2, y2)[line_setup(x, y, x2, y2).0 + 1].0 == state_after_line(x, y, x2, y2).0,
        line_states(x, y, x2, y2)[line_setup(x, y, x2, y2).0 + 1].1 == state_after_line(x, y, x2, y2).1,
{
    let (longest, shortest, dx1, dy1, dx2, dy2) = line_setup(x, y, x2, y2);
    let n = (longest + 1) as nat;
    lemma_line_walk_len(x, y, longest / 2, n, shortest, longest, dx1, dy1, dx2, dy2);
    let states = line_states(x, y, x2, y2);
    if longest == 0 {
        lemma_line_walk_len(x + dx1, y + dy1, 0, 0, shortest, longest, dx1, dy1, dx2, dy2);
        assert(states == seq![(x, y, 0int)] + line_walk(x + dx1, y + dy1, 0, 0, shortest, longest, dx1, dy1, dx2, dy2));
    } else {
        let k = longest + 1;
        let total = longest / 2 + k * shortest;
        let q = total / longest;
        let rem = total % longest;
        vstd::arithmetic::div_mod::lemma_fundamental_div_mod(total, longest);
        assert(longest / 2 + k * shortest == q * longest + rem) by (nonlinear_arith)
            requires
                total == longest * q + rem,
                total == longest / 2 + k * shortest,
        ;
        lemma_line_walk_closed_form(x, y, longest / 2, n, shortest, longest, dx1, dy1, dx2, dy2, k, q, rem);
        let w = x2 - x;
        let h = y2 - y;
        assert(x + q * dx1 + (k - q) * dx2 == state_after_line(x, y, x2, y2).0 && y + q * dy1 + (k - q) * dy2
            == state_after_line(x, y, x2, y2).1) by (nonlinear_arith)
            requires
                (longest, shortest, dx1, dy1, dx2, dy2) == line_setup(x, y, x2, y2),
                w == x2 - x,
                h == y2 - y,
                k == longest + 1,
                longest > 0,
                q == (longest / 2 + (longest + 1) * shortest) / longest,
        {
        }
    }
}

/// A line between two points of a well-formed canvas can always be drawn:
/// the algorithm's `i32` arithmetic does not overflow.
pub proof fn law_line_fits_on_canvas(c: CanvasView, x: int, y: int, x2: int, y2: int)
    requires
        c.wf(),
        c.in_bounds(x, y),
        c.in_bounds(x2, y2),
    ensures
        line_fits(x, y, x2, y2),
{
    assert(c.width <= 0x2000_0000 && c.height <= 0x2000_0000) by (nonlinear_arith)
        requires
            4 * c.width * c.height <= i32::MAX,
            1 <= c.width,
            1 <= c.height,
    ;
    let (longest, shortest, dx1, dy1, dx2, dy2) = line_setup(x, y, x2, y2);
    lemma_state_after_line(x, y, x2, y2);
    let states = line_states(x, y, x2, y2);
    if longest > 0 {
        let q = (longest / 2 + (longest + 1) * shortest) / longest;
        assert(0 <= q <= shortest + 1) by (nonlinear_arith)
            requires
                q == (longest / 2 + (longest + 1) * shortest) / longest,
                0 < longest,
                0 <= shortest <= longest,
        ;
    }
    assert forall|k: int| 0 <= k < states.len() implies i32::MIN <= #[trigger] states[k].0 <= i32::MAX
        && i32::MIN <= states[k].1 <= i32::MAX by {
        if k <= longest {
            law_line_in_bounding_box(x, y, x2, y2, k);
        }
    }
}

/// Whether a line from (x, y) to (x2, y2) can be drawn without the
/// algorithm's `i32` arithmetic overflowing: [`line_fits`].
pub fn can_draw_line(x: i32, y: i32, x2: i32, y2: i32) -> (ok: bool)
    ensures
        ok == line_fits(x as int, y as int, x2 as int, y2 as int),
{
    proof {
        lemma_state_after_line(x as int, y as int, x2 as int, y2 as int);
    }
    let w: i64 = x2 as i64 - x as i64;
    let h: i64 = y2 as i64 - y as i64;
    if w <= i32::MIN as i64 || w > i32::MAX as i64 || h <= i32::MIN as i64 || h > i32::MAX as i64 {
        return false;
    }
    let aw: i64 = if w < 0 { -w } else { w };
    let ah: i64 = if h < 0 { -h } else { h };
    let sw: i64 = if w > 0 { 1 } else if w < 0 { -1 } else { 0 };
    let sh: i64 = if h > 0 { 1 } else if h < 0 { -1 } else { 0 };
    let y_major = aw <= ah;
    let longest: i64 = if y_major { ah } else { aw };
    let shortest: i64 = if y_major { aw } else { ah };
    if longest + shortest > i32::MAX as i64 || longest >= i32::MAX as i64 {
        return false;
    }
    let ghost setup = line_setup(x as int, y as int, x2 as int, y2 as int);
    assert(setup.0 == longest && setup.1 == shortest);
    let (lx, ly): (i64, i64) = if longest == 0 {
        (x as i64, y as i64)
    } else {
        assert(0 <= (longest + 1) * shortest <= 0x4000_0000_0000_0000) by (nonlinear_arith)
            requires
                0 <= longest < 0x8000_0000,
                0 <= shortest <= longest,
        ;
        let q: i64 = (longest / 2 + (longest + 1) * shortest) / longest;
        assert(0 <= q <= 0x1_0000_0000) by (nonlinear_arith)
            requires
                q == (longest / 2 + (longest + 1) * shortest) / (longest as int),
                0 < longest,
                0 <= shortest <= longest,
                longest < 0x8000_0000,
        ;
        if y_major {
            (x as i64 + q * sw, y2 as i64 + sh)
        } else {
            (x2 as i64 + sw, y as i64 + q * sh)
        }
    };
    assert(lx == state_after_line(x as int, y as int, x2 as int, y2 as int).0);
    assert(ly == state_after_line(x as int, y as int, x2 as int, y2 as int).1);
    let last_fits = i32::MIN as i64 <= lx && lx <= i32::MAX as i64 && i32::MIN as i64 <= ly && ly <= i32::MAX as i64;
    proof {
        let states = line_states(x as int, y as int, x2 as int, y2 as int);
        if last_fits {
            assert forall|k: int| 0 <= k < states.len() implies i32::MIN <= #[trigger] states[k].0 <= i32::MAX
                && i32::MIN <= states[k].1 <= i32::MAX by {
                if k <= longest {
                    law_line_in_bounding_box(x as int, y as int, x2 as int, y2 as int, k);
                }
            }
        } else {
            assert(states[longest + 1].0 == lx);
        }
    }
    last_fits
}

impl Canvas {
    pub fn new(width: u32, height: u32) -> (canvas: Self)
        requires
            width * height * 4 <= u32::MAX,
        ensures
            canvas@.width == width as i32,
            canvas@.height == height as i32,
            canvas@.pixels == Seq::new((width * height * 4) as nat, |i: int| 255u8),
            width <= i32::MAX && height <= i32::MAX && width * height * 4 <= i32::MAX ==> canvas@.wf(),
    {
        let len = width * height * 4;
        let pixels = vec![255; len as usize];
        proof {
            assert(pixels@ =~= Seq::new((width * height * 4) as nat, |i: int| 255u8));
        }
        let w = width as i32;
        let h = height as i32;
        proof {
            if width <= i32::MAX && height <= i32::MAX {
                assert(w == width && h == height) by (bit_vector)
                    requires
                        width <= i32::MAX,
                        height <= i32::MAX,
                        w == width as i32,
                        h == height as i32,
                ;
                assert(4 * w * h == width * height * 4) by (nonlinear_arith)
                    requires
                        w == width,
                        h == height,
                ;
            }
        }

        Self { width: w, height: h, pixels }
    }

    pub fn get_pixel_data(&self) -> (pixels: &Vec<u8>)
        ensures
            pixels@ == self@.pixels,
    {
        &self.pixels
    }

    /// Changes the recorded dimensions; the buffer is left as it is.
    pub fn resize(&mut self, new_width: i32, new_height: i32)
        ensures
            final(self)@ == (CanvasView { width: new_width as int, height: new_height as int, pixels: old(self)@.pixels }),
    {
        self.width = new_width;
        self.height = new_height;
    }

    /// Sets every byte of the buffer to 255: opaque white.
    pub fn clear(&mut self)
        ensures
            final(self)@ == (CanvasView {
                width: old(self)@.width,
                height: old(self)@.height,
                pixels: Seq::new(old(self)@.pixels.len(), |i: int| 255u8),
            }),
    {
        let n = self.pixels.len();
        for i in 0..n
            invariant
                n == self.pixels@.len(),
                self.width == old(self).width,
                self.height == old(self).height,
                self.pixels@.len() == old(self).pixels@.len(),
                forall|j: int| 0 <= j < i ==> self.pixels@[j] == 255u8,
        {
            self.pixels.set(i, 255);
        }
        proof {
            assert(self.pixels@ =~= Seq::new(old(self)@.pixels.len(), |i: int| 255u8));
        }
    }

    /// Sets the pixel at (x, y) to the colour (r, g, b), opaque; a point
    /// outside the canvas is ignored.
    pub fn set_pixel(&mut self, x: i32, y: i32, r: u8, g: u8, b: u8)
        requires
            old(self)@.pixel_writable(x as int, y as int),
        ensures
            final(self)@ == (CanvasView {
                width: old(self)@.width,
                height: old(self)@.height,
                pixels: old(self)@.paint(x as int, y as int, r, g, b),
            }),
    {
        if x < 0 || y < 0 || x >= self.width || y >= self.height {
            return;
        }

        let ghost view = self@;
        assert(0 <= y * self.width <= i32::MAX) by (nonlinear_arith)
            requires
                0 <= y,
                0 <= self.width,
                4 * (x + y * self.width) <= i32::MAX,
                0 <= x,
        ;
        let idx = x + y * self.width;
        assert(idx << 2 == idx * 4) by (bit_vector)
            requires
                0 <= idx,
                idx * 4 <= i32::MAX,
        ;
        let idx = (idx << 2) as usize;

        self.pixels.set(idx, r);
        self.pixels.set(idx + 1, g);
        self.pixels.set(idx + 2, b);
        self.pixels.set(idx + 3, 255);
    }
}

impl Canvas {
    /// Draws a line of pixels from (x, y) to (x2, y2) in the colour (r, g, b).
    pub fn draw_line(&mut self, x: i32, y: i32, x2: i32, y2: i32, r: u8, g: u8, b: u8)
        requires
            old(self)@.wf(),
            line_fits(x as int, y as int, x2 as int, y2 as int),
        ensures
            final(self)@ == (CanvasView {
                pixels: paint_states(
                    old(self)@,
                    line_states(x as int, y as int, x2 as int, y2 as int),
                    (line_setup(x as int, y as int, x2 as int, y2 as int).0 + 1) as nat,
                    r,
                    g,
                    b,
                ),
                ..old(self)@
            }),
    {
        let ghost states = line_states(x as int, y as int, x2 as int, y2 as int);
        let x0: i32 = x;
        let y0: i32 = y;
        let mut x: i32 = x;
        let mut y: i32 = y;

        let w: i32 = x2 - x;
        let h: i32 = y2 - y;
        let dx1: i32 = signum(w);
        let dy1: i32 = signum(h);
        let mut dx2: i32 = signum(w);
        let mut dy2: i32 = 0;

        let mut longest: i32 = abs(w);
        let mut shortest: i32 = abs(h);

        if longest <= shortest {
            longest = abs(h);
            shortest = abs(w);
            dy2 = signum(h);
            dx2 = 0;
        }

        let mut numerator: i32 = longest >> 1;
        assert(longest >> 1 == longest / 2) by (bit_vector);
        let ghost setup = line_setup(x0 as int, y0 as int, x2 as int, y2 as int);
        assert(setup == (longest as int, shortest as int, dx1 as int, dy1 as int, dx2 as int, dy2 as int));

        proof {
            lemma_line_walk_len(x0 as int, y0 as int, longest / 2, (longest + 1) as nat, shortest as int, longest as int, dx1 as int, dy1 as int, dx2 as int, dy2 as int);
            assert(states.subrange(0, states.len() as int) =~= states);
        }
        let mut i: i32 = 0;
        while i < longest + 1
            invariant
                self@.wf(),
                self@.width == old(self)@.width,
                self@.height == old(self)@.height,
                0 <= i <= longest + 1,
                0 <= shortest <= longest,
                longest + shortest <= i32::MAX,
                longest < i32::MAX,
                0 <= numerator,
                longest > 0 ==> numerator < longest,
                longest == 0 ==> numerator == 0,
                states == line_states(x0 as int, y0 as int, x2 as int, y2 as int),
                line_fits(x0 as int, y0 as int, x2 as int, y2 as int),
                states.len() == longest + 2,
                line_walk(x as int, y as int, numerator as int, (longest + 1 - i) as nat, shortest as int, longest as int, dx1 as int, dy1 as int, dx2 as int, dy2 as int)
                    == states.subrange(i as int, states.len() as int),
                self@.pixels == paint_states(old(self)@, states, i as nat, r, g, b),
            decreases longest + 1 - i,
        {
            let ghost n = (longest + 1 - i) as nat;
            let ghost rest = line_walk(x as int, y as int, numerator as int, n, shortest as int, longest as int, dx1 as int, dy1 as int, dx2 as int, dy2 as int);
            let ghost next = line_walk(x as int, y as int, numerator as int, n, shortest as int, longest as int, dx1 as int, dy1 as int, dx2 as int, dy2 as int).drop_first();
            proof {
                lemma_wf_writable(self@, x as int, y as int);
                lemma_line_walk_len(x as int, y as int, numerator as int, n, shortest as int, longest as int, dx1 as int, dy1 as int, dx2 as int, dy2 as int);
                assert(rest[0] == states[i as int]);
                assert(rest[1] == states[i + 1]);
                assert(i32::MIN <= states[i + 1].0 <= i32::MAX && i32::MIN <= states[i + 1].1 <= i32::MAX);
                assert(states.subrange(i + 1, states.len() as int) =~= rest.drop_first());
                let num = numerator + shortest;
                if num >= longest {
                    lemma_line_walk_len(x + dx1, y + dy1, num - longest, (n - 1) as nat, shortest as int, longest as int, dx1 as int, dy1 as int, dx2 as int, dy2 as int);
                    assert(rest.drop_first() =~= line_walk(x + dx1, y + dy1, num - longest, (n - 1) as nat, shortest as int, longest as int, dx1 as int, dy1 as int, dx2 as int, dy2 as int));
                } else {
                    lemma_line_walk_len(x + dx2, y + dy2, num, (n - 1) as nat, shortest as int, longest as int, dx1 as int, dy1 as int, dx2 as int, dy2 as int);
                    assert(rest.drop_first() =~= line_walk(x + dx2, y + dy2, num, (n - 1) as nat, shortest as int, longest as int, dx1 as int, dy1 as int, dx2 as int, dy2 as int));
                }
            }
            self.set_pixel(x, y, r, g, b);

            numerator += shortest;

            if numerator >= longest {
                numerator -= longest;
                x += dx1;
                y += dy1;
            } else {
                x += dx2;
                y += dy2;
            }
            i += 1;
        }
    }
}

} // verus!
