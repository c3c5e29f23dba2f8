use chola_controller::rate_limit::{let_through, login_limiter, webhook_limiter, RateLimiter};

#[test]
fn allows_up_to_limit_then_refuses() {
    let mut rl = RateLimiter::new(3, 1_000);
    let ip = (4u8, 0x7f00_0001u128);
    assert!(rl.check(ip, 10));
    assert!(rl.check(ip, 20));
    assert!(rl.check(ip, 30));
    assert!(!rl.check(ip, 40));
}

#[test]
fn window_expiry_resets_the_count() {
    let mut rl = RateLimiter::new(1, 1_000);
    let ip = (4u8, 1u128);
    assert!(rl.check(ip, 0));
    assert!(!rl.check(ip, 999));
    assert!(rl.check(ip, 1_000));
}

#[test]
fn clients_are_counted_apart() {
    let mut rl = RateLimiter::new(1, 1_000);
    assert!(rl.check((4, 1), 0));
    assert!(rl.check((4, 2), 0));
    assert!(rl.check((6, 1), 0));
    assert!(!rl.check((4, 1), 5));
}

#[test]
fn login_limit_is_five_a_minute_with_429() {
    let mut rl = login_limiter();
    let ip = (4u8, 1u128);
    for k in 0..5u64 {
        assert!(let_through(&mut rl, ip, k).is_ok());
    }
    let (status, body) = let_through(&mut rl, ip, 5).unwrap_err();
    assert_eq!(status, 429);
    assert_eq!(body, r#"{"error":"Too many requests"}"#);
    // a minute later a new window starts
    assert!(let_through(&mut rl, ip, 60_000_000_000).is_ok());
}

#[test]
fn webhook_limit_is_sixty_a_minute() {
    let mut rl = webhook_limiter();
    let ip = (6u8, 9u128);
    for k in 0..60u64 {
        assert!(let_through(&mut rl, ip, k).is_ok());
    }
    assert!(let_through(&mut rl, ip, 60).is_err());
    assert!(let_through(&mut rl, (6u8, 10u128), 60).is_ok());
}
