use shadowsocks_core::replay::ReplayContext;

#[test]
fn first_insert_accepted_second_rejected() {
    let mut ctx = ReplayContext::new(16);
    let salt = [0xABu8; 32];
    assert!(ctx.check_and_insert(&salt));
    assert!(!ctx.check_and_insert(&salt));
    assert!(!ctx.check_and_insert(&salt));
}

#[test]
fn distinct_salts_accepted() {
    let mut ctx = ReplayContext::new(16);
    assert!(ctx.check_and_insert(&[1u8; 16]));
    assert!(ctx.check_and_insert(&[2u8; 16]));
    assert!(ctx.check_and_insert(&[3u8; 16]));
}

#[test]
fn replay_rejected_across_one_rotation() {
    let mut ctx = ReplayContext::new(2);
    assert!(ctx.check_and_insert(&[1u8; 8]));
    assert!(ctx.check_and_insert(&[2u8; 8]));
    // Next insert rotates: [1], [2] move to the previous generation.
    assert!(ctx.check_and_insert(&[3u8; 8]));
    assert!(!ctx.check_and_insert(&[1u8; 8]));
    assert!(!ctx.check_and_insert(&[2u8; 8]));
    assert!(!ctx.check_and_insert(&[3u8; 8]));
}

#[test]
fn salt_may_return_after_aging_out_of_the_window() {
    let mut ctx = ReplayContext::new(2);
    assert!(ctx.check_and_insert(&[1u8; 8]));
    assert!(ctx.check_and_insert(&[2u8; 8]));
    assert!(ctx.check_and_insert(&[3u8; 8]));
    assert!(ctx.check_and_insert(&[4u8; 8]));
    // A second rotation drops the generation holding [1] and [2]: per the
    // documented approximate policy they may be accepted again.
    assert!(ctx.check_and_insert(&[5u8; 8]));
    assert!(ctx.check_and_insert(&[1u8; 8]));
}
