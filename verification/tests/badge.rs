use blog::badge::StatusBadge;
use blog::dto::{SubscribeRequest, SubscribeResponse};

#[test]
fn unknown_badge_fields() {
    let b = StatusBadge::unknown();
    assert_eq!(b.schema_version, 1);
    assert_eq!(b.label, "status");
    assert_eq!(b.message, "unknown");
    assert_eq!(b.color, "lightgrey");
}

#[test]
fn probe_outcomes_classify_as_badges() {
    let up = StatusBadge::from_probe(Some(200));
    assert_eq!(up.message, "up");
    assert_eq!(up.color, "brightgreen");
    let also_up = StatusBadge::from_probe(Some(204));
    assert_eq!(also_up.message, "up");
    let degraded = StatusBadge::from_probe(Some(503));
    assert_eq!(degraded.message, "degraded");
    assert_eq!(degraded.color, "yellow");
    let down = StatusBadge::from_probe(Some(404));
    assert_eq!(down.message, "down");
    assert_eq!(down.color, "red");
    let odd = StatusBadge::from_probe(Some(302));
    assert_eq!(odd.message, "unknown");
    assert_eq!(odd.color, "lightgrey");
    let unreachable_site = StatusBadge::from_probe(None);
    assert_eq!(unreachable_site.message, "maintenance");
    assert_eq!(unreachable_site.color, "blue");
}

#[test]
fn subscription_shapes_hold_plain_values() {
    let req = SubscribeRequest {
        email: "reader@example.com".to_string(),
        ip_address: None,
        location: None,
        user_agent: Some("agent".to_string()),
    };
    assert_eq!(req.email, "reader@example.com");
    assert!(req.ip_address.is_none());
    let resp = SubscribeResponse {
        status: "success".to_string(),
        message: "Successfully subscribed! Check your email for confirmation.".to_string(),
    };
    assert_eq!(resp.status, "success");
}
