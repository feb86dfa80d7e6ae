//! The terminal animations: a message that moves along a row and bounces
//! off the edges, a ball that moves in two dimensions on its own timers,
//! the keys that steer them, and the interval timer's settings.

use vstd::prelude::*;
use crate::text::{dec_int, push_dec_i64, push_str};

verus! {

/// The width of the moving message (`"hello"`).
pub const MESSAGE_LEN: i32 = 5;

/// The direction of the message after it moved to `col` heading `dir` on a
/// screen `cols` wide: it turns right at the left edge and left when it
/// touches the right edge.
pub open spec fn bounced_dir(col: i32, dir: i32, cols: i32) -> i32 {
    if dir == -1 && col <= 0 {
        1i32
    } else if dir == 1 && col + MESSAGE_LEN >= cols {
        -1i32
    } else {
        dir
    }
}

/// One step of the moving message: it advances by `dir` (the column wraps
/// around as the animations' atomic add does), then bounces. Returns the
/// new column and direction. Heading right, the right-edge test adds the
/// message's width to the new column, which must not overflow.
pub fn move_msg(col: i32, dir: i32, cols: i32) -> (r: (i32, i32))
    requires
        dir == 1 ==> col.wrapping_add(dir) + MESSAGE_LEN <= i32::MAX,
    ensures
        r.0 == col.wrapping_add(dir),
        r.1 == bounced_dir(r.0, dir, cols),
{
    let c: i32 = col.wrapping_add(dir);
    let d: i32 = if dir == -1 && c <= 0 {
        1
    } else if dir == 1 && c + MESSAGE_LEN >= cols {
        -1
    } else {
        dir
    };
    (c, d)
}

/// Where the message may be: on the screen, heading away from an edge it
/// touches.
pub open spec fn msg_on_screen(col: i32, dir: i32, cols: i32) -> bool {
    &&& cols > MESSAGE_LEN
    &&& 0 <= col
    &&& col + MESSAGE_LEN <= cols
    &&& dir == 1 || dir == -1
    &&& dir == 1 ==> col + MESSAGE_LEN < cols
    &&& dir == -1 ==> col > 0
}

/// Left alone, the message stays on the screen: each step keeps it between
/// the edges and heading away from the edge it reached.
pub proof fn law_message_stays_on_screen(col: i32, dir: i32, cols: i32)
    requires
        msg_on_screen(col, dir, cols),
    ensures
        i32::MIN <= col + dir <= i32::MAX,
        col.wrapping_add(dir) == col + dir,
        msg_on_screen((col + dir) as i32, bounced_dir((col + dir) as i32, dir, cols), cols),
{
}

/// Nanoseconds in the longest `Duration`.
pub open spec fn max_duration_ns() -> int {
    (u64::MAX as int + 1) * 1_000_000_000 - 1
}

/// What a key does to the one-dimensional animation: `Q` quits, space
/// reverses the direction, `f` halves the delay (when it is above 2 ms),
/// `s` doubles it. Returns (quit, direction, delay in nanoseconds).
pub fn bounce1d_key(c: i32, dir: i32, delay_ns: u128) -> (r: (bool, i32, u128))
    requires
        delay_ns <= max_duration_ns(),
        c == 32 ==> dir != i32::MIN,
        c == 115 ==> delay_ns * 2 <= max_duration_ns(),
    ensures
        r.0 == (c == 81),
        r.1 == if c == 32 {
            -dir
        } else {
            dir as int
        },
        r.2 == if c == 102 && delay_ns > 2_000_000 {
            (delay_ns / 2) as int
        } else if c == 115 && delay_ns > 0 {
            delay_ns * 2
        } else {
            delay_ns as int
        },
{
    if c == 81 {
        return (true, dir, delay_ns);
    }
    let mut d: i32 = dir;
    let mut delay: u128 = delay_ns;
    let mut ndelay: u128 = 0;
    if c == 32 {
        d = -dir;
    }
    if c == 102 {
        if delay > 2_000_000 {
            ndelay = delay / 2;
        }
    }
    if c == 115 {
        ndelay = delay * 2;
    }
    if ndelay > 0 {
        delay = ndelay;
    }
    (false, d, delay)
}

/// What an input does to the signal-driven animations: `Q` or the end of
/// input quits, space reverses the direction. Returns (quit, direction).
pub fn on_input(c: i32, eof: i32, dir: i32) -> (r: (bool, i32))
    requires
        dir != i32::MIN,
    ensures
        r.0 == (c == 81 || c == eof),
        r.1 == if !(c == 81 || c == eof) && c == 32 {
            -dir
        } else {
            dir as int
        },
{
    if c == 81 || c == eof {
        (true, dir)
    } else if c == 32 {
        (false, -dir)
    } else {
        (false, dir)
    }
}

/// The two-dimensional ball: position, the ticks to go before each axis
/// moves and the ticks between moves, and the direction on each axis.
pub struct Ball {
    pub y_pos: i32,
    pub x_pos: i32,
    pub y_ttg: i32,
    pub y_ttm: i32,
    pub x_ttg: i32,
    pub x_ttm: i32,
    pub y_dir: i32,
    pub x_dir: i32,
}

/// Turns the ball around at the edges of a screen `lines` by `cols`;
/// returns 1 when it touched an edge, 0 otherwise.
pub fn bounce_or_lose(b: &mut Ball, lines: i32, cols: i32) -> (r: i32)
    requires
        lines > i32::MIN,
        cols > i32::MIN,
    ensures
        final(b).y_pos == old(b).y_pos && final(b).x_pos == old(b).x_pos,
        final(b).y_ttg == old(b).y_ttg && final(b).y_ttm == old(b).y_ttm,
        final(b).x_ttg == old(b).x_ttg && final(b).x_ttm == old(b).x_ttm,
        final(b).y_dir == if old(b).y_pos <= 0 {
            1i32
        } else if old(b).y_pos >= lines - 1 {
            -1i32
        } else {
            old(b).y_dir
        },
        final(b).x_dir == if old(b).x_pos <= 0 {
            1i32
        } else if old(b).x_pos >= cols - 1 {
            -1i32
        } else {
            old(b).x_dir
        },
        r == if old(b).y_pos <= 0 || old(b).y_pos >= lines - 1 || old(b).x_pos <= 0 || old(
            b,
        ).x_pos >= cols - 1 {
            1i32
        } else {
            0i32
        },
{
    let mut return_val: i32 = 0;
    if b.y_pos <= 0 {
        b.y_dir = 1;
        return_val = 1;
    } else if b.y_pos >= lines - 1 {
        b.y_dir = -1;
        return_val = 1;
    }
    if b.x_pos <= 0 {
        b.x_dir = 1;
        return_val = 1;
    } else if b.x_pos >= cols - 1 {
        b.x_dir = -1;
        return_val = 1;
    }
    return_val
}

/// One tick of one axis: when moves are on (`ttm > 0`) the counter goes
/// down, and when it was 1 the position advances and the counter starts
/// over. Returns (position, counter, moved). The counters and position
/// wrap around as the atomic operations of the animation do.
pub open spec fn axis_tick(pos: i32, ttg: i32, ttm: i32, dir: i32) -> (i32, i32, bool) {
    if ttm > 0 {
        if ttg == 1 {
            (pos.wrapping_add(dir), ttm, true)
        } else {
            (pos, ttg.wrapping_sub(1), false)
        }
    } else {
        (pos, ttg, false)
    }
}

/// The ball after one tick on a screen `lines` by `cols`: each axis
/// ticks; when the ball moved, a direction at an edge turns inward.
pub open spec fn ball_step(b: Ball, lines: i32, cols: i32) -> Ball {
    let (y, yg, ym) = axis_tick(b.y_pos, b.y_ttg, b.y_ttm, b.y_dir);
    let (x, xg, xm) = axis_tick(b.x_pos, b.x_ttg, b.x_ttm, b.x_dir);
    let moved = ym || xm;
    Ball {
        y_pos: y,
        x_pos: x,
        y_ttg: yg,
        y_ttm: b.y_ttm,
        x_ttg: xg,
        x_ttm: b.x_ttm,
        y_dir: if moved && y <= 0 {
            1i32
        } else if moved && y >= lines - 1 {
            -1i32
        } else {
            b.y_dir
        },
        x_dir: if moved && x <= 0 {
            1i32
        } else if moved && x >= cols - 1 {
            -1i32
        } else {
            b.x_dir
        },
    }
}

/// Where the ball may be on a screen of at least two lines and two
/// columns: inside it, moving one step on each axis, and heading away from
/// an edge it touches.
pub open spec fn ball_on_screen(b: Ball, lines: i32, cols: i32) -> bool {
    &&& lines >= 2 && cols >= 2
    &&& 0 <= b.y_pos <= lines - 1 && 0 <= b.x_pos <= cols - 1
    &&& (b.y_dir == 1 || b.y_dir == -1) && (b.x_dir == 1 || b.x_dir == -1)
    &&& b.y_pos == 0 ==> b.y_dir == 1
    &&& b.y_pos == lines - 1 ==> b.y_dir == -1
    &&& b.x_pos == 0 ==> b.x_dir == 1
    &&& b.x_pos == cols - 1 ==> b.x_dir == -1
}

/// Left alone, the ball stays on the screen: each tick keeps it inside and
/// heading away from the edges it touches, whatever its timers hold.
pub proof fn law_ball_stays_on_screen(b: Ball, lines: i32, cols: i32)
    requires
        ball_on_screen(b, lines, cols),
    ensures
        ball_on_screen(ball_step(b, lines, cols), lines, cols),
{
}

/// One tick of the ball: each axis ticks; when the ball moved it bounces
/// off the edges of a screen `lines` by `cols`. Returns whether it moved.
pub fn ball_move(b: &mut Ball, lines: i32, cols: i32) -> (moved: bool)
    requires
        lines > i32::MIN,
        cols > i32::MIN,
    ensures
        *final(b) == ball_step(*old(b), lines, cols),
        ({
            let (y, yg, ym) = axis_tick(old(b).y_pos, old(b).y_ttg, old(b).y_ttm, old(b).y_dir);
            let (x, xg, xm) = axis_tick(old(b).x_pos, old(b).x_ttg, old(b).x_ttm, old(b).x_dir);
            &&& moved == (ym || xm)
            &&& final(b).y_pos == y && final(b).x_pos == x
            &&& final(b).y_ttg == yg && final(b).x_ttg == xg
            &&& final(b).y_ttm == old(b).y_ttm && final(b).x_ttm == old(b).x_ttm
            &&& final(b).y_dir == if moved && y <= 0 {
                1i32
            } else if moved && y >= lines - 1 {
                -1i32
            } else {
                old(b).y_dir
            }
            &&& final(b).x_dir == if moved && x <= 0 {
                1i32
            } else if moved && x >= cols - 1 {
                -1i32
            } else {
                old(b).x_dir
            }
        }),
{
    let mut moved = false;
    if b.y_ttm > 0 {
        let old_ttg: i32 = b.y_ttg;
        b.y_ttg = b.y_ttg.wrapping_sub(1);
        if old_ttg == 1 {
            b.y_pos = b.y_pos.wrapping_add(b.y_dir);
            b.y_ttg = b.y_ttm;
            moved = true;
        }
    }
    if b.x_ttm > 0 {
        let old_ttg: i32 = b.x_ttg;
        b.x_ttg = b.x_ttg.wrapping_sub(1);
        if old_ttg == 1 {
            b.x_pos = b.x_pos.wrapping_add(b.x_dir);
            b.x_ttg = b.x_ttm;
            moved = true;
        }
    }
    if moved {
        let _ = bounce_or_lose(b, lines, cols);
    }
    moved
}

/// What a key does to the ball: `Q` quits; `f`/`s` make horizontal moves
/// more or less frequent, `F`/`S` vertical ones (the counters wrap around).
/// Returns whether to quit.
pub fn bounce2d_key(c: i32, b: &mut Ball) -> (quit: bool)
    ensures
        quit == (c == 81),
        final(b).x_ttm == if c == 102 {
            old(b).x_ttm.wrapping_sub(1)
        } else if c == 115 {
            old(b).x_ttm.wrapping_add(1)
        } else {
            old(b).x_ttm
        },
        final(b).y_ttm == if c == 70 {
            old(b).y_ttm.wrapping_sub(1)
        } else if c == 83 {
            old(b).y_ttm.wrapping_add(1)
        } else {
            old(b).y_ttm
        },
        final(b).y_pos == old(b).y_pos && final(b).x_pos == old(b).x_pos,
        final(b).y_ttg == old(b).y_ttg && final(b).x_ttg == old(b).x_ttg,
        final(b).y_dir == old(b).y_dir && final(b).x_dir == old(b).x_dir,
{
    if c == 81 {
        return true;
    }
    if c == 102 {
        b.x_ttm = b.x_ttm.wrapping_sub(1);
    } else if c == 115 {
        b.x_ttm = b.x_ttm.wrapping_add(1);
    } else if c == 70 {
        b.y_ttm = b.y_ttm.wrapping_sub(1);
    } else if c == 83 {
        b.y_ttm = b.y_ttm.wrapping_add(1);
    }
    false
}

/// Truncating division, as Rust's `/` on integers.
pub open spec fn trunc_div(a: int, b: int) -> int {
    if a >= 0 {
        a / b
    } else {
        -((-a) / b)
    }
}

/// The interval timer's setting for `n_msecs` milliseconds: (seconds,
/// microseconds), both truncated toward zero as Rust's `/` and `%` do.
pub fn set_ticker(n_msecs: i32) -> (r: (i64, i64))
    ensures
        r.0 == trunc_div(n_msecs as int, 1000),
        r.1 == (n_msecs - trunc_div(n_msecs as int, 1000) * 1000) * 1000,
{
    let n: i64 = n_msecs as i64;
    let n_sec: i64 = if n >= 0 {
        n / 1000
    } else {
        -((-n) / 1000)
    };
    let n_usecs: i64 = (n - n_sec * 1000) * 1000;
    (n_sec, n_usecs)
}

/// One tick of the countdown: the line it prints, the next count, and
/// whether the count is over (then `DONE!` is printed too).
pub fn countdown(num: i32) -> (r: (String, i32, bool))
    requires
        num > i32::MIN,
    ensures
        r.0@ == dec_int(num as int) + " .."@,
        r.1 == num - 1,
        r.2 == (num - 1 < 0),
{
    let mut line = String::new();
    push_dec_i64(&mut line, num as i64);
    push_str(&mut line, " ..");
    let next: i32 = num - 1;
    (line, next, next < 0)
}

/// The left edge of the bouncing greeting.
pub const LEFTEDGE: i32 = 10;
/// The right edge of the bouncing greeting.
pub const RIGHTEDGE: i32 = 30;

/// One step of the bouncing greeting: it advances, and turns at the edges.
pub fn hello_step(pos: i32, dir: i32) -> (r: (i32, i32))
    requires
        i32::MIN <= pos + dir <= i32::MAX,
    ensures
        r.0 == pos + dir,
        r.1 == if r.0 <= LEFTEDGE {
            1i32
        } else if r.0 >= RIGHTEDGE {
            -1i32
        } else {
            dir
        },
{
    let p: i32 = pos + dir;
    let mut d: i32 = dir;
    if p >= RIGHTEDGE {
        d = -1;
    }
    if p <= LEFTEDGE {
        d = 1;
    }
    (p, d)
}

/// The greeting stays between its edges: starting at the left edge heading
/// right, every step keeps it within them.
pub proof fn law_greeting_stays_between_edges(pos: i32, dir: i32)
    requires
        LEFTEDGE <= pos <= RIGHTEDGE,
        dir == 1 || dir == -1,
        pos == RIGHTEDGE ==> dir == -1,
        pos == LEFTEDGE ==> dir == 1,
    ensures
        ({
            let p = pos + dir;
            let d: int = if p <= LEFTEDGE {
                1
            } else if p >= RIGHTEDGE {
                -1
            } else {
                dir as int
            };
            &&& LEFTEDGE <= p <= RIGHTEDGE
            &&& d == 1 || d == -1
            &&& p == RIGHTEDGE ==> d == -1
            &&& p == LEFTEDGE ==> d == 1
        }),
{
}

} // verus!
