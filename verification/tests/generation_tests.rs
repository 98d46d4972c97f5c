use mtf::generation::context_start;

#[test]
fn first_step_feeds_whole_prompt() {
    assert_eq!(context_start(0, 11), 0);
    assert_eq!(context_start(0, 0), 0);
}

#[test]
fn later_steps_feed_newest_token() {
    assert_eq!(context_start(1, 12), 11);
    assert_eq!(context_start(49, 60), 59);
    assert_eq!(context_start(3, 0), 0);
}
