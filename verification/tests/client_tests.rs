use zoho_mail_sync::zoho::{
    backoff_nominal_ms, classify_response, parse_u64, retry_step, HttpOutcome, ResponseClass,
    RetryStep, RetryWait,
};

fn status(code: u16, retry_after: Option<&str>) -> HttpOutcome {
    HttpOutcome::Response { status: code, retry_after: retry_after.map(|s| s.to_string()) }
}

#[test]
fn parse_u64_matches_std() {
    let cases = [
        "", "0", "7", "+7", "+", "-1", "-0", "++1", " 1", "1 ", "12a", "007", "18446744073709551615",
        "18446744073709551616", "99999999999999999999999", "+18446744073709551615", "١٢",
    ];
    for s in cases {
        assert_eq!(parse_u64(s), s.parse::<u64>().ok(), "input {s:?}");
    }
}

#[test]
fn responses_are_classified() {
    assert_eq!(classify_response(&status(200, None)), ResponseClass::Success);
    assert_eq!(classify_response(&status(204, None)), ResponseClass::Success);
    assert_eq!(classify_response(&status(401, None)), ResponseClass::Unauthorized);
    assert_eq!(
        classify_response(&status(429, Some("3"))),
        ResponseClass::Retry { delay_secs: Some(3) }
    );
    assert_eq!(
        classify_response(&status(503, Some("soon"))),
        ResponseClass::Retry { delay_secs: None }
    );
    assert_eq!(classify_response(&status(500, None)), ResponseClass::Retry { delay_secs: None });
    assert_eq!(classify_response(&status(404, None)), ResponseClass::HttpError);
    assert_eq!(classify_response(&status(302, None)), ResponseClass::HttpError);
    assert_eq!(classify_response(&status(600, None)), ResponseClass::HttpError);
    assert_eq!(
        classify_response(&HttpOutcome::TimeoutOrConnect),
        ResponseClass::Retry { delay_secs: None }
    );
    assert_eq!(
        classify_response(&HttpOutcome::OtherTransportError),
        ResponseClass::TransportError
    );
}

#[test]
fn backoff_doubles_up_to_five_times_and_saturates() {
    assert_eq!(backoff_nominal_ms(250, 0), 250);
    assert_eq!(backoff_nominal_ms(250, 1), 500);
    assert_eq!(backoff_nominal_ms(250, 4), 4000);
    assert_eq!(backoff_nominal_ms(250, 5), 8000);
    assert_eq!(backoff_nominal_ms(250, 9), 8000);
    assert_eq!(backoff_nominal_ms(u64::MAX / 2, 1), u64::MAX - 1);
    assert_eq!(backoff_nominal_ms(u64::MAX / 2, 2), u64::MAX);
}

#[test]
fn retries_stop_at_the_limit() {
    assert_eq!(
        retry_step(0, 2, None, 250),
        RetryStep::Wait { wait: RetryWait::BackoffMs(250), next_attempt: 1 }
    );
    assert_eq!(
        retry_step(1, 2, Some(7), 250),
        RetryStep::Wait { wait: RetryWait::Seconds(7), next_attempt: 2 }
    );
    assert_eq!(retry_step(2, 2, None, 250), RetryStep::GiveUp);
    assert_eq!(retry_step(0, 0, Some(1), 250), RetryStep::GiveUp);
}
