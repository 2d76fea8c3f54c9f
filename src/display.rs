use vstd::prelude::*;
use vstd::arithmetic::div_mod::{
    lemma_fundamental_div_mod, lemma_mod_multiples_vanish, lemma_small_mod,
};

verus! {

/// Width of the framebuffer, in pixels.
pub const WIDTH: usize = 64;

/// Height of the framebuffer, in pixels.
pub const HEIGHT: usize = 32;

/// Height of one font glyph, in rows; each row is one byte.
pub const GLYPH_ROWS: usize = 5;

/// The built-in hexadecimal font: five rows of eight pixels for each digit 0-F.
/// It is loaded at address 0 of memory.
pub const FONT_SET: [u8; 80] = [
    0xF0, 0x90, 0x90, 0x90, 0xF0, // 0
    0x20, 0x60, 0x20, 0x20, 0x70, // 1
    0xF0, 0x10, 0xF0, 0x80, 0xF0, // 2
    0xF0, 0x10, 0xF0, 0x10, 0xF0, // 3
    0x90, 0x90, 0xF0, 0x10, 0x10, // 4
    0xF0, 0x80, 0xF0, 0x10, 0xF0, // 5
    0xF0, 0x80, 0xF0, 0x90, 0xF0, // 6
    0xF0, 0x10, 0x20, 0x40, 0x40, // 7
    0xF0, 0x90, 0xF0, 0x90, 0xF0, // 8
    0xF0, 0x90, 0xF0, 0x10, 0xF0, // 9
    0xF0, 0x90, 0xF0, 0x90, 0x90, // A
    0xE0, 0x90, 0xE0, 0x90, 0xE0, // B
    0xF0, 0x80, 0x80, 0x80, 0xF0, // C
    0xE0, 0x90, 0x90, 0x90, 0xE0, // D
    0xF0, 0x80, 0xF0, 0x80, 0xF0, // E
    0xF0, 0x80, 0xF0, 0x80, 0x80, // F
];

/// Whether bit `b` of a sprite row is set, counting from the most significant
/// bit (`b == 0` is the leftmost pixel).
pub open spec fn sprite_pixel(row: u8, b: int) -> bool {
    (row >> ((7 - b) as u8)) & 1u8 == 1u8
}

/// What a pixel holds after a set sprite bit has been XORed into it.
pub open spec fn toggled(c: u8) -> u8 {
    if c != 0 {
        0
    } else {
        1
    }
}

/// A framebuffer with every pixel unlit.
pub open spec fn blank_frame() -> Seq<Seq<u8>> {
    Seq::new(HEIGHT as nat, |row: int| Seq::new(WIDTH as nat, |col: int| 0u8))
}

/// A framebuffer of the right dimensions.
pub open spec fn frame_shaped(frame: Seq<Seq<u8>>) -> bool {
    &&& frame.len() == HEIGHT
    &&& forall|row: int| 0 <= row < HEIGHT ==> (#[trigger] frame[row]).len() == WIDTH
}

/// Every pixel is either lit (1) or unlit (0).
pub open spec fn frame_binary(frame: Seq<Seq<u8>>) -> bool {
    forall|row: int, col: int|
        0 <= row < HEIGHT && 0 <= col < WIDTH ==> #[trigger] frame[row][col] <= 1
}

/// On a torus of size `m`, the coordinate `t` lies `r` steps past `v` exactly when it
/// is `(v + r) % m`.
pub proof fn lemma_wrap(v: int, r: int, t: int, m: int)
    requires
        0 <= v,
        0 <= r < m,
        0 <= t < m,
    ensures
        (t == (v + r) % m) <==> ((t - v) % m == r),
{
    lemma_fundamental_div_mod(v + r, m);
    lemma_fundamental_div_mod(t - v, m);
    if t == (v + r) % m {
        let q = (v + r) / m;
        assert(m * (-q) == -(m * q)) by (nonlinear_arith);
        lemma_mod_multiples_vanish(-q, r, m);
        lemma_small_mod(r as nat, m as nat);
    }
    if (t - v) % m == r {
        let q = (t - v) / m;
        assert(m * (-q) == -(m * q)) by (nonlinear_arith);
        lemma_mod_multiples_vanish(-q, t, m);
        lemma_small_mod(t as nat, m as nat);
    }
}

/// Whether the sprite drawn at `(vx, vy)` has a set bit on pixel `(row, col)`.
///
/// Sprite row `r`, bit `b` lands on `((vx + b) % WIDTH, (vy + r) % HEIGHT)`. As a sprite
/// is at most 15 rows high and 8 pixels wide, each pixel receives at most one bit:
/// the one at the pixel's offset from the origin, taken modulo the frame size.
/// `r_lim` and `b_lim` limit this to the bits that come before row `r_lim`, bit
/// `b_lim` in drawing order.
pub open spec fn covered_before(
    sprite: Seq<u8>,
    vx: int,
    vy: int,
    row: int,
    col: int,
    r_lim: int,
    b_lim: int,
) -> bool {
    let r = (row - vy) % (HEIGHT as int);
    let b = (col - vx) % (WIDTH as int);
    &&& r < sprite.len()
    &&& b < 8
    &&& (r < r_lim || (r == r_lim && b < b_lim))
    &&& sprite_pixel(sprite[r], b)
}

/// The framebuffer after the bits before row `r_lim`, bit `b_lim` of the sprite
/// have been XORed in.
pub open spec fn drawn_before(
    frame: Seq<Seq<u8>>,
    sprite: Seq<u8>,
    vx: int,
    vy: int,
    r_lim: int,
    b_lim: int,
) -> Seq<Seq<u8>> {
    Seq::new(
        HEIGHT as nat,
        |row: int|
            Seq::new(
                WIDTH as nat,
                |col: int|
                    if covered_before(sprite, vx, vy, row, col, r_lim, b_lim) {
                        toggled(frame[row][col])
                    } else {
                        frame[row][col]
                    },
            ),
    )
}

/// The framebuffer after the whole sprite has been XORed in at `(vx, vy)`, wrapping
/// around the edges.
pub open spec fn draw_sprite(frame: Seq<Seq<u8>>, sprite: Seq<u8>, vx: int, vy: int) -> Seq<
    Seq<u8>,
> {
    drawn_before(frame, sprite, vx, vy, sprite.len() as int, 0)
}

/// Sprite row `r`, bit `b` is set and lands on a lit pixel.
pub open spec fn hits(frame: Seq<Seq<u8>>, sprite: Seq<u8>, vx: int, vy: int, r: int, b: int) -> bool {
    &&& sprite_pixel(sprite[r], b)
    &&& frame[(vy + r) % (HEIGHT as int)][(vx + b) % (WIDTH as int)] != 0
}

/// Some bit before row `r_lim`, bit `b_lim` of the sprite lands on a lit pixel.
pub open spec fn collides_before(
    frame: Seq<Seq<u8>>,
    sprite: Seq<u8>,
    vx: int,
    vy: int,
    r_lim: int,
    b_lim: int,
) -> bool {
    exists|r: int, b: int|
        0 <= r < sprite.len() && 0 <= b < 8 && (r < r_lim || (r == r_lim && b < b_lim))
            && #[trigger] hits(frame, sprite, vx, vy, r, b)
}

/// Drawing the sprite at `(vx, vy)` turns some lit pixel unlit.
pub open spec fn collides(frame: Seq<Seq<u8>>, sprite: Seq<u8>, vx: int, vy: int) -> bool {
    collides_before(frame, sprite, vx, vy, sprite.len() as int, 0)
}

/// Whether font glyph `digit`, placed with its top-left corner at `(ox, oy)`, has a set
/// bit on pixel `(row, col)` that comes before glyph row `r_lim`, bit `b_lim`.
pub open spec fn glyph_before(
    digit: int,
    ox: int,
    oy: int,
    row: int,
    col: int,
    r_lim: int,
    b_lim: int,
) -> bool {
    let r = row - oy;
    let b = col - ox;
    &&& 0 <= r < GLYPH_ROWS
    &&& 0 <= b < 8
    &&& (r < r_lim || (r == r_lim && b < b_lim))
    &&& sprite_pixel(FONT_SET@[digit * GLYPH_ROWS + r], b)
}

/// The framebuffer after the bits of glyph `digit` before row `r_lim`, bit `b_lim` have
/// been lit.
pub open spec fn stamped_before(
    frame: Seq<Seq<u8>>,
    digit: int,
    ox: int,
    oy: int,
    r_lim: int,
    b_lim: int,
) -> Seq<Seq<u8>> {
    Seq::new(
        HEIGHT as nat,
        |row: int|
            Seq::new(
                WIDTH as nat,
                |col: int|
                    if glyph_before(digit, ox, oy, row, col, r_lim, b_lim) {
                        1u8
                    } else {
                        frame[row][col]
                    },
            ),
    )
}

/// The framebuffer after font glyph `digit` has been stamped with its top-left corner
/// at `(ox, oy)`: its set bits light their pixels, its clear bits leave them alone.
pub open spec fn stamp_glyph(frame: Seq<Seq<u8>>, digit: int, ox: int, oy: int) -> Seq<Seq<u8>> {
    stamped_before(frame, digit, ox, oy, GLYPH_ROWS as int, 0)
}

/// Drawing a sprite keeps the framebuffer's dimensions, and keeps every pixel lit or
/// unlit.
pub proof fn lemma_draw_keeps_binary(frame: Seq<Seq<u8>>, sprite: Seq<u8>, vx: int, vy: int)
    requires
        frame_shaped(frame),
        frame_binary(frame),
    ensures
        frame_shaped(draw_sprite(frame, sprite, vx, vy)),
        frame_binary(draw_sprite(frame, sprite, vx, vy)),
{
}

/// On a framebuffer whose pixels are all lit or unlit, drawing the same sprite at the
/// same place twice gives back the framebuffer it started from.
pub proof fn lemma_draw_twice(frame: Seq<Seq<u8>>, sprite: Seq<u8>, vx: int, vy: int)
    requires
        frame_shaped(frame),
        frame_binary(frame),
    ensures
        draw_sprite(draw_sprite(frame, sprite, vx, vy), sprite, vx, vy) == frame,
{
    let once = draw_sprite(frame, sprite, vx, vy);
    let twice = draw_sprite(once, sprite, vx, vy);
    assert forall|row: int| 0 <= row < HEIGHT implies #[trigger] twice[row] =~= frame[row] by {
        assert forall|col: int| 0 <= col < WIDTH implies twice[row][col] == frame[row][col] by {
            assert(frame[row][col] <= 1);
        }
    }
    assert(twice =~= frame);
}

/// Right after a sprite has been drawn, drawing it again collides exactly when one of
/// its set bits lands on a pixel that was unlit before the first draw.
pub proof fn lemma_redraw_collides(frame: Seq<Seq<u8>>, sprite: Seq<u8>, vx: int, vy: int)
    requires
        frame_shaped(frame),
        frame_binary(frame),
        sprite.len() < HEIGHT,
        0 <= vx,
        0 <= vy,
    ensures
        collides(draw_sprite(frame, sprite, vx, vy), sprite, vx, vy) <==> exists|r: int, b: int|
            0 <= r < sprite.len() && 0 <= b < 8 && #[trigger] sprite_pixel(sprite[r], b)
                && frame[(vy + r) % (HEIGHT as int)][(vx + b) % (WIDTH as int)] == 0,
{
    let once = draw_sprite(frame, sprite, vx, vy);
    assert forall|r: int, b: int| 0 <= r < sprite.len() && 0 <= b < 8 implies (#[trigger] hits(
        once,
        sprite,
        vx,
        vy,
        r,
        b,
    ) <==> (sprite_pixel(sprite[r], b) && frame[(vy + r) % (HEIGHT as int)][(vx + b) % (
    WIDTH as int)] == 0)) by {
        let row = (vy + r) % (HEIGHT as int);
        let col = (vx + b) % (WIDTH as int);
        lemma_wrap(vy, r, row, HEIGHT as int);
        lemma_wrap(vx, b, col, WIDTH as int);
        assert(frame[row][col] <= 1);
    }
    if collides(once, sprite, vx, vy) {
        let (r, b) = choose|r: int, b: int|
            0 <= r < sprite.len() && 0 <= b < 8 && (r < sprite.len() || (r == sprite.len() && b
                < 0)) && #[trigger] hits(once, sprite, vx, vy, r, b);
        assert(sprite_pixel(sprite[r], b));
    }
    if exists|r: int, b: int|
        0 <= r < sprite.len() && 0 <= b < 8 && #[trigger] sprite_pixel(sprite[r], b)
            && frame[(vy + r) % (HEIGHT as int)][(vx + b) % (WIDTH as int)] == 0 {
        let (r, b) = choose|r: int, b: int|
            0 <= r < sprite.len() && 0 <= b < 8 && #[trigger] sprite_pixel(sprite[r], b)
                && frame[(vy + r) % (HEIGHT as int)][(vx + b) % (WIDTH as int)] == 0;
        assert(hits(once, sprite, vx, vy, r, b));
    }
}

} // verus!
