use vstd::prelude::*;
use vstd::arithmetic::div_mod::{
    lemma_fundamental_div_mod, lemma_fundamental_div_mod_converse, lemma_mod_mod,
};
use crate::display::{
    blank_frame, collides, draw_sprite, lemma_draw_keeps_binary, lemma_draw_twice,
    lemma_redraw_collides, sprite_pixel, HEIGHT, WIDTH,
};
use crate::error::CpuError;
use crate::semantics::{
    cycle, execute, instruction, family, field_n, field_nn, field_nnn, field_x, field_y, sem_0, sem_2, sem_6,
    sem_7, sem_8, sem_d, sem_f, sprite_of, tick, word_at, CpuState, FLAG, MEMORY_SIZE,
    STACK_SIZE,
};

verus! {

/// The fields of an instruction word assembled from its four nibbles.
pub proof fn lemma_decode(w: u16, f: int, x: int, y: int, n: int)
    requires
        0 <= f < 16,
        0 <= x < 16,
        0 <= y < 16,
        0 <= n < 16,
        w == f * 0x1000 + x * 0x100 + y * 0x10 + n,
    ensures
        family(w) == f,
        field_x(w) == x,
        field_y(w) == y,
        field_n(w) == n,
        field_nn(w) == y * 0x10 + n,
        field_nnn(w) == x * 0x100 + y * 0x10 + n,
{
    let wi = w as int;
    lemma_fundamental_div_mod_converse(wi, 0x1000, f, x * 0x100 + y * 0x10 + n);
    lemma_fundamental_div_mod_converse(wi, 0x100, f * 0x10 + x, y * 0x10 + n);
    lemma_fundamental_div_mod_converse(f * 0x10 + x, 0x10, f, x);
    lemma_fundamental_div_mod_converse(wi, 0x10, f * 0x100 + x * 0x10 + y, n);
    lemma_fundamental_div_mod_converse(f * 0x100 + x * 0x10 + y, 0x10, f * 0x10 + x, y);
}

/// Running `6xnn` and then `7xnn` (the same `x` and `nn`) leaves `nn + nn` modulo 256 in
/// `v[x]` and moves `pc` on by two instructions; neither touches the flag register
/// unless it is `v[x]` itself.
pub proof fn law_set_then_add(s: CpuState, x: int, nn: int, key1: u8, rnd1: u8, key2: u8, rnd2: u8)
    requires
        s.shaped(),
        !s.wait_key,
        s.pc + 3 < MEMORY_SIZE,
        0 <= x < 16,
        0 <= nn < 256,
        word_at(s.memory, s.pc as int) == 0x6000 + x * 0x100 + nn,
        word_at(s.memory, s.pc + 2) == 0x7000 + x * 0x100 + nn,
    ensures
        cycle(s, key1, rnd1) is Ok,
        cycle(cycle(s, key1, rnd1)->Ok_0, key2, rnd2) is Ok,
        ({
            let t = cycle(cycle(s, key1, rnd1)->Ok_0, key2, rnd2)->Ok_0;
            &&& t.v[x] == (nn + nn) % 256
            &&& t.pc == s.pc + 4
            &&& x != FLAG ==> t.v[FLAG as int] == s.v[FLAG as int]
        }),
{
    let w1 = word_at(s.memory, s.pc as int);
    lemma_decode(w1, 6, x, nn / 16, nn % 16);
    assert(execute(tick(s), w1, key1, rnd1) == sem_6(tick(s), w1));
    let t1 = cycle(s, key1, rnd1)->Ok_0;
    assert(t1.v[x] == nn && t1.pc == s.pc + 2 && t1.memory == s.memory && !t1.wait_key);
    let w2 = word_at(t1.memory, t1.pc as int);
    lemma_decode(w2, 7, x, nn / 16, nn % 16);
    assert(execute(tick(t1), w2, key2, rnd2) == sem_7(tick(t1), w2));
}

/// `8xy4` with `v[x] == a` and `v[y] == b` leaves `(a + b) % 256` in `v[x]`, the flag 1
/// exactly when the sum does not fit in a byte, and `pc` at the next instruction. (With `x` the flag register, the
/// two cannot both hold.)
pub proof fn law_add_carry(s: CpuState, x: int, y: int, a: u8, b: u8, key: u8, rnd: u8)
    requires
        s.shaped(),
        !s.wait_key,
        s.pc + 1 < MEMORY_SIZE,
        0 <= x < 16,
        0 <= y < 16,
        x != FLAG,
        s.v[x] == a,
        s.v[y] == b,
        word_at(s.memory, s.pc as int) == 0x8004 + x * 0x100 + y * 0x10,
    ensures
        cycle(s, key, rnd) is Ok,
        cycle(s, key, rnd)->Ok_0.v[x] == (a + b) % 256,
        cycle(s, key, rnd)->Ok_0.pc == s.pc + 2,
        cycle(s, key, rnd)->Ok_0.v[FLAG as int] == if a + b > 255 {
            1u8
        } else {
            0u8
        },
{
    let w = word_at(s.memory, s.pc as int);
    lemma_decode(w, 8, x, y, 4);
    assert(execute(tick(s), w, key, rnd) == sem_8(tick(s), w));
}

/// `8xy5` with `v[x] == a` and `v[y] == b` leaves `(a - b)` modulo 256 in `v[x]`, the flag
/// 1 exactly when no borrow occurs (`a >= b`), and `pc` at the next instruction.
pub proof fn law_sub_borrow(s: CpuState, x: int, y: int, a: u8, b: u8, key: u8, rnd: u8)
    requires
        s.shaped(),
        !s.wait_key,
        s.pc + 1 < MEMORY_SIZE,
        0 <= x < 16,
        0 <= y < 16,
        x != FLAG,
        s.v[x] == a,
        s.v[y] == b,
        word_at(s.memory, s.pc as int) == 0x8005 + x * 0x100 + y * 0x10,
    ensures
        cycle(s, key, rnd) is Ok,
        cycle(s, key, rnd)->Ok_0.v[x] == (a - b) % 256,
        cycle(s, key, rnd)->Ok_0.pc == s.pc + 2,
        cycle(s, key, rnd)->Ok_0.v[FLAG as int] == if a >= b {
            1u8
        } else {
            0u8
        },
{
    let w = word_at(s.memory, s.pc as int);
    lemma_decode(w, 8, x, y, 5);
    assert(execute(tick(s), w, key, rnd) == sem_8(tick(s), w));
}

/// `8xy7` with `v[x] == a` and `v[y] == b` leaves `(b - a)` modulo 256 in `v[x]`, the flag
/// 1 exactly when no borrow occurs (`b >= a`), and `pc` at the next instruction.
pub proof fn law_sub_reversed_borrow(s: CpuState, x: int, y: int, a: u8, b: u8, key: u8, rnd: u8)
    requires
        s.shaped(),
        !s.wait_key,
        s.pc + 1 < MEMORY_SIZE,
        0 <= x < 16,
        0 <= y < 16,
        x != FLAG,
        s.v[x] == a,
        s.v[y] == b,
        word_at(s.memory, s.pc as int) == 0x8007 + x * 0x100 + y * 0x10,
    ensures
        cycle(s, key, rnd) is Ok,
        cycle(s, key, rnd)->Ok_0.v[x] == (b - a) % 256,
        cycle(s, key, rnd)->Ok_0.pc == s.pc + 2,
        cycle(s, key, rnd)->Ok_0.v[FLAG as int] == if b >= a {
            1u8
        } else {
            0u8
        },
{
    let w = word_at(s.memory, s.pc as int);
    lemma_decode(w, 8, x, y, 7);
    assert(execute(tick(s), w, key, rnd) == sem_8(tick(s), w));
}

/// A call `2nnn` followed by the `00EE` at `nnn` brings `pc` back to the instruction after
/// the call and the stack pointer back to where it was, with the return addresses below
/// it untouched.
pub proof fn law_call_return(s: CpuState, nnn: int, key1: u8, rnd1: u8, key2: u8, rnd2: u8)
    requires
        s.shaped(),
        !s.wait_key,
        s.sp < STACK_SIZE,
        s.pc + 1 < MEMORY_SIZE,
        0 <= nnn,
        nnn + 1 < MEMORY_SIZE,
        word_at(s.memory, s.pc as int) == 0x2000 + nnn,
        word_at(s.memory, nnn) == 0x00EE,
    ensures
        cycle(s, key1, rnd1) is Ok,
        cycle(cycle(s, key1, rnd1)->Ok_0, key2, rnd2) is Ok,
        ({
            let t = cycle(cycle(s, key1, rnd1)->Ok_0, key2, rnd2)->Ok_0;
            &&& t.pc == s.pc + 2
            &&& t.sp == s.sp
            &&& forall|k: int| 0 <= k < s.sp ==> #[trigger] t.stack[k] == s.stack[k]
        }),
{
    let w1 = word_at(s.memory, s.pc as int);
    let hx = nnn / 0x100;
    let hy = (nnn % 0x100) / 0x10;
    let hn = nnn % 0x10;
    assert(nnn == hx * 0x100 + hy * 0x10 + hn && 0 <= hx < 16 && 0 <= hy < 16 && 0 <= hn < 16)
        by {
        lemma_fundamental_div_mod(nnn, 0x100);
        lemma_fundamental_div_mod(nnn % 0x100, 0x10);
        lemma_mod_mod(nnn, 0x10, 0x10);
        lemma_fundamental_div_mod_converse(nnn % 0x100, 0x10, hy, nnn % 0x10);
    }
    lemma_decode(w1, 2, hx, hy, hn);
    assert(cycle(s, key1, rnd1) == sem_2(tick(s), w1));
    let t1 = cycle(s, key1, rnd1)->Ok_0;
    assert(t1.pc == nnn && t1.sp == s.sp + 1 && t1.memory == s.memory && !t1.wait_key);
    assert(t1.stack[s.sp as int] == s.pc + 2);
    let w2 = word_at(t1.memory, t1.pc as int);
    lemma_decode(w2, 0, 0, 0xE, 0xE);
    assert(cycle(t1, key2, rnd2) == sem_0(tick(t1), w2));
}

/// After an `Fx0A` run without a key the machine waits: every further cycle without a
/// key changes nothing at all (neither `pc`, nor the timers, nor any register), and the
/// first cycle with a key `k` stores it in `v[x]`, moves on to the next instruction, and
/// ends the wait.
pub proof fn law_key_wait(s: CpuState, x: int, rnd1: u8)
    requires
        s.shaped(),
        !s.wait_key,
        s.pc + 1 < MEMORY_SIZE,
        0 <= x < 16,
        word_at(s.memory, s.pc as int) == 0xF00A + x * 0x100,
    ensures
        cycle(s, 0, rnd1) is Ok,
        ({
            let t = cycle(s, 0, rnd1)->Ok_0;
            &&& t.wait_key
            &&& t.pc == s.pc
            &&& t.v == s.v
            &&& forall|rnd: u8| #[trigger] cycle(t, 0, rnd) == Ok::<CpuState, CpuError>(t)
            &&& forall|k: u8, rnd: u8|
                k != 0 ==> {
                    let u = #[trigger] cycle(t, k, rnd);
                    &&& u is Ok
                    &&& !u->Ok_0.wait_key
                    &&& u->Ok_0.pc == s.pc + 2
                    &&& u->Ok_0.v == t.v.update(x, k)
                    &&& u->Ok_0.delay_timer == t.delay_timer
                    &&& u->Ok_0.sound_timer == t.sound_timer
                }
        }),
{
    let w = word_at(s.memory, s.pc as int);
    lemma_decode(w, 0xF, x, 0, 0xA);
    assert(execute(tick(s), w, 0, rnd1) == sem_f(tick(s), w, 0));
}

/// Running `Dxyn` twice in a row, with neither `x` nor `y` the flag register, gives back
/// the framebuffer as it was before the first draw. The flag after the second draw is
/// set exactly when some set bit of the sprite lands on a pixel lit after the first draw,
/// that is, on one that was unlit before it.
pub proof fn law_draw_twice(
    s: CpuState,
    x: int,
    y: int,
    n: int,
    key1: u8,
    rnd1: u8,
    key2: u8,
    rnd2: u8,
)
    requires
        s.wf(),
        !s.wait_key,
        s.pc + 3 < MEMORY_SIZE,
        0 <= x < 16,
        0 <= y < 16,
        0 <= n < 16,
        x != FLAG,
        y != FLAG,
        s.i + n <= MEMORY_SIZE,
        word_at(s.memory, s.pc as int) == 0xD000 + x * 0x100 + y * 0x10 + n,
        word_at(s.memory, s.pc + 2) == 0xD000 + x * 0x100 + y * 0x10 + n,
    ensures
        cycle(s, key1, rnd1) is Ok,
        cycle(cycle(s, key1, rnd1)->Ok_0, key2, rnd2) is Ok,
        ({
            let sprite = sprite_of(s, n);
            let vx = s.v[x] as int;
            let vy = s.v[y] as int;
            let once = cycle(s, key1, rnd1)->Ok_0;
            let twice = cycle(once, key2, rnd2)->Ok_0;
            &&& once.gfx == draw_sprite(s.gfx, sprite, vx, vy)
            &&& twice.gfx == s.gfx
            &&& twice.v[FLAG as int] == if collides(once.gfx, sprite, vx, vy) {
                1u8
            } else {
                0u8
            }
            &&& collides(once.gfx, sprite, vx, vy) <==> exists|r: int, b: int|
                0 <= r < n && 0 <= b < 8 && #[trigger] sprite_pixel(sprite[r], b)
                    && s.gfx[(vy + r) % (HEIGHT as int)][(vx + b) % (WIDTH as int)] == 0
        }),
{
    let w = word_at(s.memory, s.pc as int);
    lemma_decode(w, 0xD, x, y, n);
    assert(cycle(s, key1, rnd1) == sem_d(tick(s), w));
    let sprite = sprite_of(s, n);
    let vx = s.v[x] as int;
    let vy = s.v[y] as int;
    let once = cycle(s, key1, rnd1)->Ok_0;
    assert(once.memory == s.memory && once.i == s.i && once.v[x] == s.v[x] && once.v[y] == s.v[y]);
    assert(once.gfx == draw_sprite(s.gfx, sprite, vx, vy));
    assert(word_at(once.memory, once.pc as int) == w);
    assert(cycle(once, key2, rnd2) == sem_d(tick(once), w));
    assert(sprite_of(once, n) == sprite);
    lemma_draw_twice(s.gfx, sprite, vx, vy);
    lemma_redraw_collides(s.gfx, sprite, vx, vy);
}

/// Every instruction keeps a well-formed machine well formed.
pub proof fn lemma_instruction_keeps_wf(s: CpuState, key: u8, rnd: u8)
    requires
        s.wf(),
    ensures
        instruction(s, key, rnd) is Ok ==> instruction(s, key, rnd)->Ok_0.wf(),
{
    if s.pc + 1 < MEMORY_SIZE && !s.wait_key {
        let w = word_at(s.memory, s.pc as int);
        if family(w) == 0xD && s.i + field_n(w) <= MEMORY_SIZE {
            lemma_draw_keeps_binary(
                s.gfx,
                sprite_of(s, field_n(w)),
                s.v[field_x(w)] as int,
                s.v[field_y(w)] as int,
            );
        }
        assert(blank_frame().len() == HEIGHT);
    }
}

/// Every cycle keeps a well-formed machine well formed.
pub proof fn lemma_cycle_keeps_wf(s: CpuState, key: u8, rnd: u8)
    requires
        s.wf(),
    ensures
        cycle(s, key, rnd) is Ok ==> cycle(s, key, rnd)->Ok_0.wf(),
{
    lemma_instruction_keeps_wf(s, key, rnd);
    lemma_instruction_keeps_wf(tick(s), key, rnd);
}

} // verus!
