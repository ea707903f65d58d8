use mc_http::utils::{likely, unlikely};

#[test]
fn hints_return_condition() {
    assert!(likely(true));
    assert!(!likely(false));
    assert!(unlikely(true));
    assert!(!unlikely(false));
}
