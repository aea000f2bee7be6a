//! The taskbar: rows of pixels, four bytes each, with the clock
//! and the daemon's status on it.
use vstd::prelude::*;

use crate::tarnod_client::TarnodStatus;
use crate::text;

verus! {

/// The height in pixels.
pub const HEIGHT: u32 = 40;

/// The colours in use.
#[derive(Clone, Copy)]
pub struct Theme {
    pub bg_panel: [u8; 3],
    pub accent: [u8; 3],
    pub success: [u8; 3],
    pub danger: [u8; 3],
    pub text_muted: [u8; 3],
    pub text_primary: [u8; 3],
}

// --- pixels ---

/// Byte `i` of a pixel of this colour with this opacity.
pub open spec fn channel(c: Seq<u8>, alpha: u8, i: int) -> u8 {
    if i % 4 == 3 {
        alpha
    } else {
        c[i % 4]
    }
}

/// A buffer of one colour.
pub open spec fn filled(n: nat, c: Seq<u8>) -> Seq<u8> {
    Seq::new(n, |i: int| channel(c, 255, i))
}

/// Paint the whole buffer.
pub fn fill_bg(b: &mut Vec<u8>, c: [u8; 3])
    requires
        old(b)@.len() % 4 == 0,
    ensures
        final(b)@ == filled(old(b)@.len(), c@),
{
    let n: usize = b.len();
    let mut i: usize = 0;
    while i < n
        invariant
            i <= n,
            n == b@.len(),
            n % 4 == 0,
            b@.len() == old(b)@.len(),
            forall|k: int| 0 <= k < i ==> b@[k] == channel(c@, 255, k),
        decreases n - i,
    {
        let v: u8 = if i % 4 == 3 { 255 } else { c[i % 4] };
        b.set(i, v);
        i = i + 1;
    }
    assert(b@ =~= filled(old(b)@.len(), c@));
}

/// The top row made a thin, see-through white line.
pub open spec fn highlighted(b: Seq<u8>, w: int) -> Seq<u8> {
    Seq::new(
        b.len(),
        |i: int|
            if i < 4 * w {
                channel(seq![255u8, 255, 255], 40, i)
            } else {
                b[i]
            },
    )
}

/// Draw the line at the top.
pub fn draw_top_highlight(b: &mut Vec<u8>, w: usize)
    requires
        4 * w <= old(b)@.len(),
    ensures
        final(b)@ == highlighted(old(b)@, w as int),
{
    let len: usize = b.len();
    let n: usize = 4 * w;
    let mut i: usize = 0;
    while i < n
        invariant
            i <= n,
            n == 4 * w,
            n <= b@.len(),
            b@.len() == old(b)@.len(),
            forall|k: int|
                0 <= k < b@.len() ==> b@[k] == if k < i {
                    channel(seq![255u8, 255, 255], 40, k)
                } else {
                    old(b)@[k]
                },
        decreases n - i,
    {
        let v: u8 = if i % 4 == 3 { 40 } else { 255 };
        b.set(i, v);
        i = i + 1;
    }
    assert(b@ =~= highlighted(old(b)@, w as int));
}

/// A foreground over a background, covered `cov` parts in 255, rounded to the
/// nearest.
pub open spec fn blend(cov: u8, fg: u8, bg: u8) -> u8 {
    ((2 * (fg * cov + bg * (255 - cov)) + 255) / 510) as u8
}

fn mix(cov: u8, fg: u8, bg: u8) -> (r: u8)
    ensures
        r == blend(cov, fg, bg),
{
    let f: u32 = fg as u32;
    let b: u32 = bg as u32;
    let c: u32 = cov as u32;
    let d: u32 = 255 - c;
    proof {
        assert(f * c + b * d <= 255 * 255 && f * c >= 0 && b * d >= 0) by (nonlinear_arith)
            requires
                f <= 255,
                b <= 255,
                c + d == 255,
        ;
    }
    let sum: u32 = f * c + b * d;
    ((2 * sum + 255) / 510) as u8
}

/// Nothing covered leaves the background, all covered gives the foreground,
/// and nothing leaves the range between them.
pub proof fn law_blend_stays_between(cov: u8, fg: u8, bg: u8)
    ensures
        blend(0, fg, bg) == bg,
        blend(255, fg, bg) == fg,
        fg <= bg ==> fg <= blend(cov, fg, bg) <= bg,
        bg <= fg ==> bg <= blend(cov, fg, bg) <= fg,
{
    let d = 255 - cov;
    if fg <= bg {
        assert(fg * 255 <= fg * cov + bg * d <= bg * 255) by (nonlinear_arith)
            requires
                fg <= bg,
                0 <= cov,
                0 <= d,
                cov + d == 255,
        ;
    } else {
        assert(bg * 255 <= fg * cov + bg * d <= fg * 255) by (nonlinear_arith)
            requires
                bg <= fg,
                0 <= cov,
                0 <= d,
                cov + d == 255,
        ;
    }
}

/// A picture of how much of each pixel is covered, and where its top left
/// corner goes.
pub struct Glyph {
    pub x: i64,
    pub y: i64,
    pub width: usize,
    pub height: usize,
    pub coverage: Vec<u8>,
}

impl Glyph {
    pub open spec fn wf(self) -> bool {
        &&& self.coverage@.len() == self.width * self.height
        &&& -0x1_0000_0000 <= self.x <= 0x1_0000_0000
        &&& -0x1_0000_0000 <= self.y <= 0x1_0000_0000
        &&& self.width <= 0x1_0000_0000
        &&& self.height <= 0x1_0000_0000
    }

    /// Whether the glyph has a value for each of its pixels and lies within
    /// reach.
    pub fn is_drawable(&self) -> (r: bool)
        ensures
            r == self.wf(),
    {
        let far: u64 = 0x1_0000_0000;
        if self.width as u64 > far || self.height as u64 > far {
            return false;
        }
        if self.x < -0x1_0000_0000 || self.x > 0x1_0000_0000 || self.y < -0x1_0000_0000 || self.y
            > 0x1_0000_0000 {
            return false;
        }
        assert(self.width * self.height <= 0x1_0000_0000 * 0x1_0000_0000) by (nonlinear_arith)
            requires
                self.width <= 0x1_0000_0000,
                self.height <= 0x1_0000_0000,
        ;
        self.coverage.len() as u128 == self.width as u128 * self.height as u128
    }
}

/// How much of the pixel at `(x, y)` the glyph covers.
pub open spec fn covered(g: Glyph, x: int, y: int) -> u8 {
    if 0 <= x - g.x < g.width && 0 <= y - g.y < g.height {
        g.coverage@[(y - g.y) * g.width + (x - g.x)]
    } else {
        0
    }
}

/// A byte of a pixel after the glyph went over it: pixels it does not cover
/// stay, the others are blended and made opaque.
pub open spec fn stamped1(b: Seq<u8>, w: int, g: Glyph, c: Seq<u8>, i: int) -> u8 {
    let p = i / 4;
    let cov = covered(g, p % w, p / w);
    if cov == 0 {
        b[i]
    } else if i % 4 == 3 {
        255
    } else {
        blend(cov, c[i % 4], b[i])
    }
}

/// A buffer of rows of `w` pixels after a glyph went over it; what lies
/// outside is not drawn.
pub open spec fn stamped(b: Seq<u8>, w: int, g: Glyph, c: Seq<u8>) -> Seq<u8> {
    Seq::new(b.len(), |i: int| stamped1(b, w, g, c, i))
}

/// Pixel `p` of rows of `w` stands in column `p % w` of row `p / w`.
proof fn lemma_place(x: int, y: int, w: int, p: int)
    requires
        0 <= x < w,
        0 <= y,
        p == y * w + x,
    ensures
        p % w == x,
        p / w == y,
{
    vstd::arithmetic::div_mod::lemma_fundamental_div_mod_converse(p, w, y, x);
}

proof fn lemma_inside(x: int, y: int, w: int, h: int)
    requires
        0 <= x < w,
        0 <= y < h,
    ensures
        0 <= y * w + x < w * h,
{
    assert(0 <= y * w && y * w + x < w * h) by (nonlinear_arith)
        requires
            0 <= x < w,
            0 <= y < h,
    ;
}

/// Whether the glyph's pixel at `(x, y)` comes before row `gy`, column `gx`.
pub open spec fn before(g: Glyph, x: int, y: int, gx: int, gy: int) -> bool {
    y - g.y < gy || (y - g.y == gy && x - g.x < gx)
}

/// The buffer when the glyph is drawn as far as row `gy`, column `gx`.
spec fn partly(b0: Seq<u8>, b: Seq<u8>, w: int, g: Glyph, c: Seq<u8>, gx: int, gy: int) -> bool {
    &&& b.len() == b0.len()
    &&& forall|i: int|
        0 <= i < b.len() ==> #[trigger] b[i] == if before(g, (i / 4) % w, (i / 4) / w, gx, gy) {
            stamped1(b0, w, g, c, i)
        } else {
            b0[i]
        }
}

proof fn lemma_next_row(b0: Seq<u8>, b: Seq<u8>, w: int, g: Glyph, c: Seq<u8>, gy: int)
    requires
        w > 0,
        partly(b0, b, w, g, c, g.width as int, gy),
    ensures
        partly(b0, b, w, g, c, 0, gy + 1),
{
    assert forall|i: int| 0 <= i < b.len() implies #[trigger] b[i] == if before(
        g,
        (i / 4) % w,
        (i / 4) / w,
        0,
        gy + 1,
    ) {
        stamped1(b0, w, g, c, i)
    } else {
        b0[i]
    } by {
        let x = (i / 4) % w;
        let y = (i / 4) / w;
        if y - g.y == gy && x - g.x >= g.width {
            assert(covered(g, x, y) == 0);
        }
    }
}

/// Put one pixel of the glyph where it goes.
fn stamp_pixel(b: &mut Vec<u8>, w: usize, h: usize, g: &Glyph, c: [u8; 3], gx: usize, gy: usize, Ghost(
    b0,
): Ghost<Seq<u8>>)
    requires
        g.wf(),
        0 < w,
        old(b)@.len() == 4 * (w * h),
        gx < g.width,
        gy < g.height,
        partly(b0, old(b)@, w as int, *g, c@, gx as int, gy as int),
    ensures
        partly(b0, final(b)@, w as int, *g, c@, gx + 1, gy as int),
{
    proof {
        lemma_inside(gx as int, gy as int, g.width as int, g.height as int);
        assert(gy * g.width >= 0) by (nonlinear_arith);
    }
    let cells: usize = g.coverage.len();
    let len: usize = b.len();
    let cov: u8 = g.coverage[gy * g.width + gx];
    let x: i64 = g.x + gx as i64;
    let y: i64 = g.y + gy as i64;
    let ghost bb = b@;
    if cov != 0 && x >= 0 && y >= 0 && (x as u64) < w as u64 && (y as u64) < h as u64 {
        proof {
            lemma_inside(x as int, y as int, w as int, h as int);
            lemma_place(x as int, y as int, w as int, y * w + x);
            assert(y * w >= 0) by (nonlinear_arith)
                requires
                    y >= 0,
                    w > 0,
            ;
        }
        let p: usize = y as usize * w + x as usize;
        let at: usize = 4 * p;
        let r: u8 = mix(cov, c[0], b[at]);
        b.set(at, r);
        let gg: u8 = mix(cov, c[1], b[at + 1]);
        b.set(at + 1, gg);
        let bl: u8 = mix(cov, c[2], b[at + 2]);
        b.set(at + 2, bl);
        b.set(at + 3, 255);
        proof {
            assert forall|i: int| 0 <= i < b@.len() implies #[trigger] b@[i] == if before(
                *g,
                (i / 4) % (w as int),
                (i / 4) / (w as int),
                gx + 1,
                gy as int,
            ) {
                stamped1(b0, w as int, *g, c@, i)
            } else {
                b0[i]
            } by {
                assert(bb[i] == if before(*g, (i / 4) % (w as int), (i / 4) / (w as int), gx as int, gy as int) {
                    stamped1(b0, w as int, *g, c@, i)
                } else {
                    b0[i]
                });
                if i / 4 == p {
                    assert((i / 4) % (w as int) == x);
                    assert((i / 4) / (w as int) == y);
                    assert(covered(*g, x as int, y as int) == cov);
                } else {
                    let q = i / 4;
                    let qx = q % (w as int);
                    let qy = q / (w as int);
                    if qx == x && qy == y {
                        vstd::arithmetic::div_mod::lemma_fundamental_div_mod(q, w as int);
                        assert(w * qy == qy * w) by (nonlinear_arith);
                        assert(false);
                    }
                }
            }
        }
    } else {
        proof {
            assert forall|i: int| 0 <= i < b@.len() implies #[trigger] b@[i] == if before(
                *g,
                (i / 4) % (w as int),
                (i / 4) / (w as int),
                gx + 1,
                gy as int,
            ) {
                stamped1(b0, w as int, *g, c@, i)
            } else {
                b0[i]
            } by {
                let q = i / 4;
                let qx = q % (w as int);
                let qy = q / (w as int);
                assert(bb[i] == if before(*g, qx, qy, gx as int, gy as int) {
                    stamped1(b0, w as int, *g, c@, i)
                } else {
                    b0[i]
                });
                if qy - g.y == gy && qx - g.x == gx {
                    assert(covered(*g, qx, qy) == cov);
                    lemma_row_bound(q, w as int, h as int);
                }
            }
        }
    }
}

proof fn lemma_row_bound(q: int, w: int, h: int)
    requires
        w > 0,
        0 <= q < w * h,
    ensures
        0 <= q % w < w,
        0 <= q / w < h,
{
    vstd::arithmetic::div_mod::lemma_fundamental_div_mod(q, w);
    vstd::arithmetic::div_mod::lemma_mod_bound(q, w);
    vstd::arithmetic::div_mod::lemma_div_pos_is_pos(q, w);
    if q / w >= h {
        let k = q / w;
        assert(w * k >= w * h) by (nonlinear_arith)
            requires
                k >= h,
                w > 0,
        ;
    }
}

/// Draw a glyph in a buffer of `h` rows of `w` pixels.
pub fn stamp(b: &mut Vec<u8>, w: usize, h: usize, g: &Glyph, c: [u8; 3])
    requires
        g.wf(),
        0 < w,
        old(b)@.len() == 4 * (w * h),
    ensures
        final(b)@ == stamped(old(b)@, w as int, *g, c@),
{
    let ghost b0 = b@;
    let mut gy: usize = 0;
    proof {
        assert forall|i: int| 0 <= i < b@.len() implies #[trigger] b@[i] == if before(
            *g,
            (i / 4) % (w as int),
            (i / 4) / (w as int),
            0,
            0,
        ) {
            stamped1(b0, w as int, *g, c@, i)
        } else {
            b0[i]
        } by {}
    }
    while gy < g.height
        invariant
            gy <= g.height,
            g.wf(),
            0 < w,
            b@.len() == 4 * (w * h),
            b0.len() == b@.len(),
            partly(b0, b@, w as int, *g, c@, 0, gy as int),
        decreases g.height - gy,
    {
        let mut gx: usize = 0;
        while gx < g.width
            invariant
                gx <= g.width,
                gy < g.height,
                g.wf(),
                0 < w,
                b@.len() == 4 * (w * h),
                b0.len() == b@.len(),
                partly(b0, b@, w as int, *g, c@, gx as int, gy as int),
            decreases g.width - gx,
        {
            stamp_pixel(b, w, h, g, c, gx, gy, Ghost(b0));
            gx = gx + 1;
        }
        proof {
            lemma_next_row(b0, b@, w as int, *g, c@, gy as int);
        }
        gy = gy + 1;
    }
    proof {
        assert forall|i: int| 0 <= i < b@.len() implies b@[i] == stamped1(
            b0,
            w as int,
            *g,
            c@,
            i,
        ) by {
            let x = (i / 4) % (w as int);
            let y = (i / 4) / (w as int);
            if !before(*g, x, y, 0, gy as int) {
                assert(covered(*g, x, y) == 0);
            }
        }
        assert(b@ =~= stamped(b0, w as int, *g, c@));
    }
}

/// The buffer with a filled circle on it; what lies outside is not drawn.
pub open spec fn dotted(b: Seq<u8>, w: int, cx: int, cy: int, r: int, c: Seq<u8>) -> Seq<u8> {
    Seq::new(
        b.len(),
        |i: int|
            {
                let dx = (i / 4) % w - cx;
                let dy = (i / 4) / w - cy;
                if dx * dx + dy * dy <= r * r {
                    channel(c, 255, i)
                } else {
                    b[i]
                }
            },
    )
}

/// A round stamp.
fn disc(cx: i32, cy: i32, r: u8) -> (g: Glyph)
    ensures
        g.wf(),
        g.x == cx - r,
        g.y == cy - r,
        g.width == 2 * r + 1,
        g.height == 2 * r + 1,
        forall|x: int, y: int|
            #![trigger covered(g, x, y)]
            covered(g, x, y) == if (x - cx) * (x - cx) + (y - cy) * (y - cy) <= r * r {
                255u8
            } else {
                0
            },
{
    let d: usize = 2 * r as usize + 1;
    let rr: i64 = r as i64;
    let mut coverage: Vec<u8> = Vec::new();
    let mut y: usize = 0;
    while y < d
        invariant
            y <= d,
            d == 2 * r + 1,
            d <= 511,
            rr == r,
            coverage@.len() == y * d,
            forall|k: int|
                0 <= k < coverage@.len() ==> #[trigger] coverage@[k] == if (k % (d as int) - r) * (k
                    % (d as int) - r) + (k / (d as int) - r) * (k / (d as int) - r) <= r * r {
                    255u8
                } else {
                    0
                },
        decreases d - y,
    {
        let mut x: usize = 0;
        while x < d
            invariant
                x <= d,
                y < d,
                d == 2 * r + 1,
                d <= 511,
                rr == r,
                coverage@.len() == y * d + x,
                forall|k: int|
                    0 <= k < coverage@.len() ==> #[trigger] coverage@[k] == if (k % (d as int) - r)
                        * (k % (d as int) - r) + (k / (d as int) - r) * (k / (d as int) - r) <= r
                        * r {
                        255u8
                    } else {
                        0
                    },
            decreases d - x,
        {
            let dx: i64 = x as i64 - rr;
            let dy: i64 = y as i64 - rr;
            proof {
                assert(0 <= dx * dx <= 255 * 255) by (nonlinear_arith)
                    requires
                        -255 <= dx <= 255,
                ;
                assert(0 <= dy * dy <= 255 * 255) by (nonlinear_arith)
                    requires
                        -255 <= dy <= 255,
                ;
                assert(0 <= rr * rr <= 255 * 255) by (nonlinear_arith)
                    requires
                        0 <= rr <= 255,
                ;
                lemma_place(x as int, y as int, d as int, y * d + x);
            }
            coverage.push(if dx * dx + dy * dy <= rr * rr { 255 } else { 0 });
            x = x + 1;
        }
        proof {
            assert(y * d + d == (y + 1) * d) by (nonlinear_arith);
        }
        y = y + 1;
    }
    let g = Glyph {
        x: cx as i64 - rr,
        y: cy as i64 - rr,
        width: d,
        height: d,
        coverage,
    };
    proof {
        assert forall|x: int, y: int|
            #![trigger covered(g, x, y)]
            covered(g, x, y) == if (x - cx) * (x - cx) + (y - cy) * (y - cy) <= r * r {
                255u8
            } else {
                0
            } by {
            let gx = x - g.x;
            let gy = y - g.y;
            let ax = x - cx;
            let ay = y - cy;
            if 0 <= gx < d && 0 <= gy < d {
                lemma_inside(gx, gy, d as int, d as int);
                lemma_place(gx, gy, d as int, gy * d + gx);
                assert(gx - r == ax && gy - r == ay);
            } else {
                assert(ax * ax + ay * ay > r * r) by (nonlinear_arith)
                    requires
                        ax < -r || ax > r || ay < -r || ay > r,
                        r >= 0,
                ;
            }
        }
    }
    g
}

/// Draw a filled circle.
pub fn draw_dot(b: &mut Vec<u8>, w: usize, h: usize, cx: i32, cy: i32, radius: u8, c: [u8; 3])
    requires
        0 < w,
        old(b)@.len() == 4 * (w * h),
    ensures
        final(b)@ == dotted(old(b)@, w as int, cx as int, cy as int, radius as int, c@),
{
    let g = disc(cx, cy, radius);
    stamp(b, w, h, &g, c);
    proof {
        let b0 = old(b)@;
        let want = dotted(b0, w as int, cx as int, cy as int, radius as int, c@);
        assert forall|i: int| 0 <= i < b@.len() implies b@[i] == want[i] by {
            assert(b@[i] == stamped1(b0, w as int, g, c@, i));
            let cov = covered(g, (i / 4) % (w as int), (i / 4) / (w as int));
            law_blend_stays_between(cov, c@[i % 4], b0[i]);
        }
        assert(b@ =~= want);
    }
}

// --- the bar ---

/// A colour of the theme.
#[derive(Clone, Copy, PartialEq, Eq, Structural)]
pub enum Ink {
    Accent,
    Success,
    Muted,
    Primary,
}

pub open spec fn ink_of(t: Theme, i: Ink) -> [u8; 3] {
    match i {
        Ink::Accent => t.accent,
        Ink::Success => t.success,
        Ink::Muted => t.text_muted,
        Ink::Primary => t.text_primary,
    }
}

pub fn ink(t: &Theme, i: Ink) -> (r: [u8; 3])
    ensures
        r == ink_of(*t, i),
{
    match i {
        Ink::Accent => t.accent,
        Ink::Success => t.success,
        Ink::Muted => t.text_muted,
        Ink::Primary => t.text_primary,
    }
}

/// A text on the bar: where its base line begins, its size in pixels and its
/// colour.
pub struct Item {
    pub x: i32,
    pub y: i32,
    pub size: u32,
    pub text: Vec<char>,
    pub ink: Ink,
}

#[verifier::ext_equal]
pub struct Iv {
    pub x: int,
    pub y: int,
    pub size: u32,
    pub text: Seq<char>,
    pub ink: Ink,
}

impl View for Item {
    type V = Iv;

    open spec fn view(&self) -> Iv {
        Iv { x: self.x as int, y: self.y as int, size: self.size, text: self.text@, ink: self.ink }
    }
}

pub open spec fn item_views(v: Seq<Item>) -> Seq<Iv> {
    v.map_values(|e: Item| e@)
}

/// The label for the CPUs set apart; nothing where there are none.
pub open spec fn cpus_label(s: TarnodStatus) -> Option<Seq<char>> {
    match s.isolated_cpus {
        Some(c) => if c@.len() > 0 {
            Some("isolcpus "@ + c@)
        } else {
            None
        },
        None => None,
    }
}

/// The texts on the bar, in the order they are drawn. `cpus_width` is how wide
/// the CPU label comes out, `clock_width` how wide the clock does.
pub open spec fn layout(
    width: int,
    s: TarnodStatus,
    clock: Seq<char>,
    cpus_width: int,
    clock_width: int,
) -> Seq<Iv> {
    let name = seq![Iv { x: 14, y: 25, size: 17, text: "TARNO"@, ink: Ink::Accent }];
    let state = seq![
        Iv {
            x: 112,
            y: 25,
            size: 13,
            text: if s.connected {
                "tarnod verbunden"@
            } else {
                "tarnod getrennt"@
            },
            ink: Ink::Muted,
        },
    ];
    let cpus = match cpus_label(s) {
        Some(t) => seq![Iv { x: 260, y: 25, size: 13, text: t, ink: Ink::Success }],
        None => Seq::empty(),
    };
    let next = match cpus_label(s) {
        Some(t) => 260 + cpus_width + 16,
        None => 260,
    };
    let ebpf = match s.ebpf_active {
        Some(on) => seq![
            Iv {
                x: next,
                y: 25,
                size: 13,
                text: if on {
                    "eBPF aktiv"@
                } else {
                    "eBPF inaktiv"@
                },
                ink: if on {
                    Ink::Success
                } else {
                    Ink::Muted
                },
            },
        ],
        None => Seq::empty(),
    };
    let time = seq![
        Iv { x: width - clock_width - 16, y: 25, size: 16, text: clock, ink: Ink::Primary },
    ];
    name + state + cpus + ebpf + time
}

fn push_item(r: &mut Vec<Item>, e: Item)
    ensures
        item_views(final(r)@) == item_views(old(r)@).push(e@),
{
    let ghost v = e@;
    r.push(e);
    assert(item_views(r@) =~= item_views(old(r)@).push(v));
}

/// The label for the CPUs set apart.
pub fn isolated_label(s: &TarnodStatus) -> (r: Option<Vec<char>>)
    ensures
        match cpus_label(*s) {
            Some(t) => r is Some && r->0@ == t,
            None => r is None,
        },
{
    match &s.isolated_cpus {
        Some(c) => {
            let t = text::chars_of(c.as_str());
            if t.len() == 0 {
                return None;
            }
            let mut l = text::chars_of("isolcpus ");
            text::extend_chars(&mut l, t.as_slice());
            Some(l)
        },
        None => None,
    }
}

/// Lay out the texts.
pub fn plan(width: i32, s: &TarnodStatus, clock: &[char], cpus_width: i32, clock_width: i32) -> (r: Vec<
    Item,
>)
    requires
        0 <= cpus_width,
        cpus_width + 276 <= i32::MAX,
        i32::MIN <= width - clock_width - 16 <= i32::MAX,
        0 <= clock_width,
        i32::MIN <= width - clock_width,
    ensures
        item_views(r@) == layout(
            width as int,
            *s,
            clock@,
            cpus_width as int,
            clock_width as int,
        ),
{
    let mut r: Vec<Item> = Vec::new();
    assert(item_views(r@) =~= Seq::<Iv>::empty());
    push_item(
        &mut r,
        Item { x: 14, y: 25, size: 17, text: text::chars_of("TARNO"), ink: Ink::Accent },
    );
    let state = text::chars_of(
        if s.connected {
            "tarnod verbunden"
        } else {
            "tarnod getrennt"
        },
    );
    push_item(&mut r, Item { x: 112, y: 25, size: 13, text: state, ink: Ink::Muted });
    let mut next: i32 = 260;
    match isolated_label(s) {
        Some(t) => {
            push_item(&mut r, Item { x: 260, y: 25, size: 13, text: t, ink: Ink::Success });
            next = 260 + cpus_width + 16;
        },
        None => {},
    }
    match s.ebpf_active {
        Some(on) => {
            let t = text::chars_of(
                if on {
                    "eBPF aktiv"
                } else {
                    "eBPF inaktiv"
                },
            );
            push_item(
                &mut r,
                Item {
                    x: next,
                    y: 25,
                    size: 13,
                    text: t,
                    ink: if on {
                        Ink::Success
                    } else {
                        Ink::Muted
                    },
                },
            );
        },
        None => {},
    }
    push_item(
        &mut r,
        Item {
            x: width - clock_width - 16,
            y: 25,
            size: 16,
            text: text::copy_chars(clock),
            ink: Ink::Primary,
        },
    );
    assert(item_views(r@) =~= layout(
        width as int,
        *s,
        clock@,
        cpus_width as int,
        clock_width as int,
    ));
    r
}

/// The colours of the texts on the bar, in the order they are drawn.
pub open spec fn inks(s: TarnodStatus) -> Seq<Ink> {
    let cpus = match cpus_label(s) {
        Some(t) => seq![Ink::Success],
        None => Seq::empty(),
    };
    let ebpf = match s.ebpf_active {
        Some(on) => seq![
            if on {
                Ink::Success
            } else {
                Ink::Muted
            },
        ],
        None => Seq::empty(),
    };
    seq![Ink::Accent, Ink::Muted] + cpus + ebpf + seq![Ink::Primary]
}

fn plan_inks(s: &TarnodStatus) -> (r: Vec<Ink>)
    ensures
        r@ == inks(*s),
{
    let mut r: Vec<Ink> = Vec::new();
    r.push(Ink::Accent);
    r.push(Ink::Muted);
    if isolated_label(s).is_some() {
        r.push(Ink::Success);
    }
    match s.ebpf_active {
        Some(on) => {
            r.push(if on { Ink::Success } else { Ink::Muted });
        },
        None => {},
    }
    r.push(Ink::Primary);
    assert(r@ =~= inks(*s));
    r
}

/// Every text that is laid out is drawn, in the colour it was laid out with.
pub proof fn law_texts_have_their_ink(
    width: int,
    s: TarnodStatus,
    clock: Seq<char>,
    cpus_width: int,
    clock_width: int,
    i: int,
)
    requires
        0 <= i < inks(s).len(),
    ensures
        layout(width, s, clock, cpus_width, clock_width).len() == inks(s).len(),
        layout(width, s, clock, cpus_width, clock_width)[i].ink == inks(s)[i],
{
}

/// The glyphs of each text, in the order of the layout.
pub open spec fn texts_wf(v: Seq<Vec<Glyph>>) -> bool {
    forall|i: int, j: int|
        0 <= i < v.len() && 0 <= j < v[i]@.len() ==> (#[trigger] v[i]@[j]).wf()
}

/// The glyphs of text `i`; none where none are given.
pub open spec fn text_glyphs(v: Seq<Vec<Glyph>>, i: int) -> Seq<Glyph> {
    if 0 <= i < v.len() {
        v[i]@
    } else {
        Seq::empty()
    }
}

/// The buffer after the first `n` glyphs were drawn.
pub open spec fn glyphs_drawn(b: Seq<u8>, w: int, g: Seq<Glyph>, c: Seq<u8>, n: int) -> Seq<u8>
    decreases n,
{
    if n <= 0 {
        b
    } else {
        stamped(glyphs_drawn(b, w, g, c, n - 1), w, g[n - 1], c)
    }
}

/// The buffer after the first `n` texts were drawn in these colours. The status
/// dot comes right after the first of them.
pub open spec fn texts_drawn(
    b: Seq<u8>,
    w: int,
    t: Theme,
    connected: bool,
    ink: Seq<Ink>,
    v: Seq<Vec<Glyph>>,
    n: int,
) -> Seq<u8>
    decreases n,
{
    let dot = if connected {
        t.success@
    } else {
        t.danger@
    };
    if n <= 0 {
        b
    } else {
        let g = text_glyphs(v, n - 1);
        let a = glyphs_drawn(
            texts_drawn(b, w, t, connected, ink, v, n - 1),
            w,
            g,
            ink_of(t, ink[n - 1])@,
            g.len() as int,
        );
        if n == 1 {
            dotted(a, w, 100, 20, 4, dot)
        } else {
            a
        }
    }
}

fn draw_text(b: &mut Vec<u8>, w: usize, h: usize, r: &Vec<Glyph>, c: [u8; 3])
    requires
        0 < w,
        old(b)@.len() == 4 * (w * h),
        forall|j: int| 0 <= j < r@.len() ==> (#[trigger] r@[j]).wf(),
    ensures
        final(b)@ == glyphs_drawn(old(b)@, w as int, r@, c@, r@.len() as int),
        final(b)@.len() == old(b)@.len(),
{
    let n: usize = r.len();
    let mut i: usize = 0;
    while i < n
        invariant
            i <= n,
            n == r@.len(),
            0 < w,
            old(b)@.len() == 4 * (w * h),
            b@.len() == old(b)@.len(),
            forall|j: int| 0 <= j < r@.len() ==> (#[trigger] r@[j]).wf(),
            b@ == glyphs_drawn(old(b)@, w as int, r@, c@, i as int),
        decreases n - i,
    {
        stamp(b, w, h, &r[i], c);
        i = i + 1;
    }
}

/// The bar: one colour, the line at the top, and the texts with the dot.
pub open spec fn rendered(width: u32, t: Theme, s: TarnodStatus, v: Seq<Vec<Glyph>>) -> Seq<u8> {
    let w = if width == 0 {
        1
    } else {
        width as int
    };
    texts_drawn(
        highlighted(filled((160 * w) as nat, t.bg_panel@), w),
        w,
        t,
        s.connected,
        inks(s),
        v,
        inks(s).len() as int,
    )
}

/// Draw the texts and the dot.
fn draw_texts(
    b: &mut Vec<u8>,
    w: usize,
    h: usize,
    t: &Theme,
    connected: bool,
    colours: &Vec<Ink>,
    texts: &Vec<Vec<Glyph>>,
)
    requires
        0 < w,
        old(b)@.len() == 4 * (w * h),
        texts_wf(texts@),
    ensures
        final(b)@ == texts_drawn(
            old(b)@,
            w as int,
            *t,
            connected,
            colours@,
            texts@,
            colours@.len() as int,
        ),
        final(b)@.len() == old(b)@.len(),
{
    let n: usize = colours.len();
    let mut i: usize = 0;
    while i < n
        invariant
            i <= n,
            n == colours@.len(),
            0 < w,
            old(b)@.len() == 4 * (w * h),
            b@.len() == old(b)@.len(),
            texts_wf(texts@),
            b@ == texts_drawn(old(b)@, w as int, *t, connected, colours@, texts@, i as int),
        decreases n - i,
    {
        if i < texts.len() {
            let text = &texts[i];
            assert forall|j: int| 0 <= j < text@.len() implies (#[trigger] text@[j]).wf() by {
                assert(texts@[i as int]@[j].wf());
            }
            let c = ink(t, colours[i]);
            draw_text(b, w, h, text, c);
        }
        if i == 0 {
            draw_dot(b, w, h, 100, 20, 4, if connected { t.success } else { t.danger });
        }
        i = i + 1;
    }
}

/// The taskbar and its colours.
pub struct Taskbar {
    pub theme: Theme,
}

impl Taskbar {
    pub fn new(theme: Theme) -> (r: Self)
        ensures
            r.theme == theme,
    {
        Taskbar { theme }
    }

    /// Draw the bar for a window this wide. `texts` are the glyphs of the texts
    /// that `plan` lays out, in its order.
    pub fn render(&self, width: u32, status: &TarnodStatus, texts: &Vec<Vec<Glyph>>) -> (r: Vec<u8>)
        requires
            160 * width <= usize::MAX,
            texts_wf(texts@),
        ensures
            r@ == rendered(width, self.theme, *status, texts@),
            r@.len() == 160 * (if width == 0 {
                1
            } else {
                width as int
            }),
    {
        let w: usize = if width == 0 { 1 } else { width as usize };
        let h: usize = HEIGHT as usize;
        let mut b = crate::bytes::zeroed(160 * w);
        fill_bg(&mut b, self.theme.bg_panel);
        draw_top_highlight(&mut b, w);
        assert(4 * (w * h) == 160 * w) by (nonlinear_arith)
            requires
                h == 40,
        ;
        let colours = plan_inks(status);
        draw_texts(&mut b, w, h, &self.theme, status.connected, &colours, texts);
        b
    }
}

/// Whether the bar has to be drawn again: it never was, the window's width
/// changed, or a second has gone by.
pub fn needs_refresh(drawn: Option<(i32, u64)>, width: i32, now_ms: u64) -> (r: bool)
    ensures
        r == match drawn {
            Some((w, at)) => w != width || now_ms - at >= 1000,
            None => true,
        },
{
    match drawn {
        Some((w, at)) => w != width || (now_ms >= at && now_ms - at >= 1000),
        None => true,
    }
}

/// The row the bar begins at: it stands at the bottom.
pub fn bar_top(height: i32) -> (r: i32)
    ensures
        r == if height > 40 {
            height - 40
        } else {
            0
        },
{
    if height > 40 {
        height - 40
    } else {
        0
    }
}

} // verus!
