use uulp::bounce::{
    ball_move, bounce1d_key, bounce2d_key, bounce_or_lose, countdown, hello_step, move_msg,
    on_input, set_ticker, Ball, LEFTEDGE, MESSAGE_LEN, RIGHTEDGE,
};

#[test]
fn message_moves_and_bounces() {
    assert_eq!(move_msg(10, 1, 80), (11, 1));
    assert_eq!(move_msg(74, 1, 80), (75, -1));
    assert_eq!(move_msg(1, -1, 80), (0, 1));
    assert_eq!(move_msg(5, -1, 80), (4, -1));
}

#[test]
fn message_stays_on_screen_for_many_steps() {
    let cols = 20;
    let (mut col, mut dir) = (0, 1);
    for _ in 0..200 {
        let (c, d) = move_msg(col, dir, cols);
        col = c;
        dir = d;
        assert!(col >= 0 && col + MESSAGE_LEN <= cols);
    }
}

#[test]
fn keys_of_the_one_dimensional_animation() {
    assert_eq!(bounce1d_key('Q' as i32, 1, 200_000_000), (true, 1, 200_000_000));
    assert_eq!(bounce1d_key(' ' as i32, 1, 200_000_000), (false, -1, 200_000_000));
    assert_eq!(bounce1d_key('f' as i32, 1, 200_000_000), (false, 1, 100_000_000));
    assert_eq!(bounce1d_key('f' as i32, 1, 2_000_000), (false, 1, 2_000_000));
    assert_eq!(bounce1d_key('s' as i32, -1, 200_000_000), (false, -1, 400_000_000));
    assert_eq!(bounce1d_key('x' as i32, -1, 5), (false, -1, 5));
}

#[test]
fn keys_of_the_signal_animations() {
    assert_eq!(on_input('Q' as i32, -1, 1), (true, 1));
    assert_eq!(on_input(-1, -1, 1), (true, 1));
    assert_eq!(on_input(' ' as i32, -1, 1), (false, -1));
    assert_eq!(on_input('a' as i32, -1, -1), (false, -1));
}

fn ball() -> Ball {
    Ball { y_pos: 10, x_pos: 10, y_ttg: 1, y_ttm: 5, x_ttg: 2, x_ttm: 3, y_dir: 1, x_dir: 1 }
}

#[test]
fn ball_moves_on_its_timers() {
    let mut b = ball();
    assert!(ball_move(&mut b, 24, 80));
    assert_eq!((b.y_pos, b.x_pos, b.y_ttg, b.x_ttg), (11, 10, 5, 1));
    assert!(ball_move(&mut b, 24, 80));
    assert_eq!((b.y_pos, b.x_pos, b.y_ttg, b.x_ttg), (11, 11, 4, 3));
    let mut still = Ball { y_ttm: 0, x_ttm: 0, ..ball() };
    assert!(!ball_move(&mut still, 24, 80));
    assert_eq!((still.y_pos, still.x_pos), (10, 10));
}

#[test]
fn ball_bounces_at_edges() {
    let mut b = Ball { y_pos: 22, ..ball() };
    assert!(ball_move(&mut b, 24, 80));
    assert_eq!(b.y_pos, 23);
    assert_eq!(b.y_dir, -1);
    let mut c = Ball { y_pos: 0, x_pos: 79, y_dir: -1, ..ball() };
    assert_eq!(bounce_or_lose(&mut c, 24, 80), 1);
    assert_eq!((c.y_dir, c.x_dir), (1, -1));
    let mut d = ball();
    assert_eq!(bounce_or_lose(&mut d, 24, 80), 0);
}

#[test]
fn keys_of_the_ball() {
    let mut b = ball();
    assert!(!bounce2d_key('f' as i32, &mut b));
    assert_eq!(b.x_ttm, 2);
    assert!(!bounce2d_key('s' as i32, &mut b));
    assert_eq!(b.x_ttm, 3);
    assert!(!bounce2d_key('F' as i32, &mut b));
    assert_eq!(b.y_ttm, 4);
    assert!(!bounce2d_key('S' as i32, &mut b));
    assert_eq!(b.y_ttm, 5);
    assert!(bounce2d_key('Q' as i32, &mut b));
}

#[test]
fn timer_settings() {
    assert_eq!(set_ticker(500), (0, 500_000));
    assert_eq!(set_ticker(1500), (1, 500_000));
    assert_eq!(set_ticker(2000), (2, 0));
    assert_eq!(set_ticker(-1500), (-1, -500_000));
}

#[test]
fn countdown_ticks() {
    assert_eq!(countdown(10), ("10 ..".to_string(), 9, false));
    assert_eq!(countdown(0), ("0 ..".to_string(), -1, true));
}

#[test]
fn greeting_bounces_between_edges() {
    assert_eq!(hello_step(29, 1), (30, -1));
    assert_eq!(hello_step(11, -1), (10, 1));
    assert_eq!(hello_step(15, 1), (16, 1));
    let (mut pos, mut dir) = (LEFTEDGE, 1);
    for _ in 0..100 {
        let (p, d) = hello_step(pos, dir);
        pos = p;
        dir = d;
        assert!(LEFTEDGE <= pos && pos <= RIGHTEDGE);
    }
}
