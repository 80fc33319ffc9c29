use karbeat_core::{FeedbackRoute, ProjectStateFeedback};

#[test]
fn capture_routes_each_correlated_reply_once() {
    let mut router = ProjectStateFeedback::new();
    assert_eq!(router.route(Some(1)), FeedbackRoute::Forward);
    assert_eq!(router.register(&[1, 2, 2]), Ok(2));
    assert!(router.is_pending());
    assert!(router.register(&[3]).is_err());
    assert_eq!(router.route(Some(1)), FeedbackRoute::Deliver);
    router.record_delivery(1, true);
    assert_eq!(router.route(Some(1)), FeedbackRoute::Drop);
    assert_eq!(router.route(Some(3)), FeedbackRoute::Forward);
    assert_eq!(router.route(None), FeedbackRoute::Forward);
    router.record_delivery(2, false);
    assert_eq!(router.route(Some(2)), FeedbackRoute::Deliver);
    router.release();
    assert!(!router.is_pending());
    assert_eq!(router.route(Some(2)), FeedbackRoute::Forward);
}

#[test]
fn empty_capture_still_needs_a_channel_slot() {
    let mut router = ProjectStateFeedback::new();
    assert_eq!(router.register(&[]), Ok(1));
    let error = ProjectStateFeedback::new();
    assert!(!error.is_pending());
}
