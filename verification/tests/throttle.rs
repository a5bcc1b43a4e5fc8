use zoterable::throttle::{header_secs, ReplyHead, SendStep, Sending, Throttle, SECOND};

fn reply(status: u16, backoff: Option<&str>, retry_after: Option<&str>) -> ReplyHead {
    ReplyHead {
        status,
        backoff: backoff.map(|v| v.to_string()),
        retry_after: retry_after.map(|v| v.to_string()),
    }
}

#[test]
fn headers_hold_whole_seconds() {
    assert_eq!(header_secs(&None), None);
    assert_eq!(header_secs(&Some(" 12 ".to_string())), Some(12));
    assert_eq!(header_secs(&Some("1.5".to_string())), None);
    assert_eq!(header_secs(&Some("Wed, 21 Oct 2015 07:28:00 GMT".to_string())), None);
}

#[test]
fn a_good_reply_is_delivered() {
    let mut throttle = Throttle::new();
    let step = Sending::new().answer(&mut throttle, 5, &reply(200, None, Some("9")));
    assert_eq!(step, SendStep::Deliver);
    assert_eq!(throttle.backoff_until, None);
    assert_eq!(throttle.hold(7), None);
}

#[test]
fn a_rate_limit_has_the_request_sent_again() {
    let mut throttle = Throttle::new();
    let step = Sending::new().answer(&mut throttle, 0, &reply(429, None, Some("30")));
    assert_eq!(step, SendStep::Retry { next: Sending { attempt: 1 }, wait: 30 });
    let step = Sending { attempt: 4 }.answer(&mut throttle, 0, &reply(503, None, None));
    assert_eq!(step, SendStep::Retry { next: Sending { attempt: 5 }, wait: 1 });
}

#[test]
fn the_sixth_rate_limit_is_delivered() {
    let mut throttle = Throttle::new();
    let mut sending = Sending::new();
    let mut sent = 1;
    loop {
        match sending.answer(&mut throttle, 0, &reply(429, None, Some("0"))) {
            SendStep::Retry { next, wait } => {
                assert_eq!(wait, 0);
                sending = next;
                sent += 1;
            }
            SendStep::Deliver => break,
        }
    }
    assert_eq!(sent, 6);
}

#[test]
fn other_errors_are_delivered() {
    let mut throttle = Throttle::new();
    for status in [400, 404, 500, 502] {
        let step = Sending::new().answer(&mut throttle, 0, &reply(status, None, None));
        assert_eq!(step, SendStep::Deliver);
    }
}

#[test]
fn a_backoff_holds_the_next_request_back_once() {
    let mut throttle = Throttle::new();
    let step = Sending::new().answer(&mut throttle, 100, &reply(200, Some("2"), None));
    assert_eq!(step, SendStep::Deliver);
    assert_eq!(throttle.backoff_until, Some(100 + 2 * SECOND));
    assert_eq!(throttle.hold(100 + SECOND), Some(SECOND));
    assert_eq!(throttle.hold(100 + SECOND), None);
}

#[test]
fn a_backoff_that_has_passed_is_not_waited_for() {
    let mut throttle = Throttle { backoff_until: Some(50) };
    assert_eq!(throttle.hold(51), None);
    let mut throttle = Throttle { backoff_until: Some(50) };
    assert_eq!(throttle.hold(50), Some(0));
}

#[test]
fn a_backoff_is_noted_on_a_retry_and_kept_without_a_new_one() {
    let mut throttle = Throttle { backoff_until: Some(7) };
    let _ = Sending::new().answer(&mut throttle, 10, &reply(429, Some("soon"), None));
    assert_eq!(throttle.backoff_until, Some(7));
    let _ = Sending::new().answer(&mut throttle, 10, &reply(429, Some("1"), None));
    assert_eq!(throttle.backoff_until, Some(10 + SECOND));
}
