use imgen::{
    after_create, extract_image_url, plan_output, poll_outcome, poll_url, retry_delay, timed_out,
    CreateOutcome, ExtractError, Json, PollOutcome, Prediction,
};

fn pred(status: &str, output: Option<Json>) -> Prediction {
    Prediction {
        id: "abc".to_string(),
        status: status.to_string(),
        output,
        error: None,
        urls_get: None,
    }
}

fn s(x: &str) -> Json {
    Json::Str(x.to_string())
}

#[test]
fn image_url_from_a_string_output() {
    let p = pred("succeeded", Some(s("https://x/1.png")));
    assert_eq!(extract_image_url(&p), Ok("https://x/1.png".to_string()));
}

#[test]
fn image_url_from_the_first_item_of_a_list() {
    let p = pred("succeeded", Some(Json::Array(vec![s("https://x/a.png"), s("https://x/b.png")])));
    assert_eq!(extract_image_url(&p), Ok("https://x/a.png".to_string()));
}

#[test]
fn image_url_errors() {
    assert_eq!(extract_image_url(&pred("succeeded", None)), Err(ExtractError::MissingOutput));
    assert_eq!(
        extract_image_url(&pred("succeeded", Some(Json::Array(vec![])))),
        Err(ExtractError::UnexpectedFormat)
    );
    assert_eq!(
        extract_image_url(&pred("succeeded", Some(Json::Array(vec![Json::Null, s("u")])))),
        Err(ExtractError::UnexpectedFormat)
    );
    assert_eq!(
        extract_image_url(&pred("succeeded", Some(Json::Bool(true)))),
        Err(ExtractError::UnexpectedFormat)
    );
}

#[test]
fn poll_url_prefers_urls_get() {
    let mut p = pred("starting", None);
    assert_eq!(poll_url(&p), "https://api.replicate.com/v1/predictions/abc");
    p.urls_get = Some("https://api.replicate.com/v1/predictions/abc/get".to_string());
    assert_eq!(poll_url(&p), "https://api.replicate.com/v1/predictions/abc/get");
}

#[test]
fn poll_outcomes() {
    assert!(matches!(poll_outcome(&pred("succeeded", Some(s("u")))), PollOutcome::Done(u) if u == "u"));
    assert!(matches!(
        poll_outcome(&pred("succeeded", None)),
        PollOutcome::Invalid(ExtractError::MissingOutput)
    ));
    assert!(matches!(poll_outcome(&pred("failed", None)), PollOutcome::Failed));
    assert!(matches!(poll_outcome(&pred("canceled", None)), PollOutcome::Failed));
    assert!(matches!(poll_outcome(&pred("processing", None)), PollOutcome::Pending));
    assert!(matches!(poll_outcome(&pred("starting", Some(s("u")))), PollOutcome::Pending));
}

#[test]
fn created_predictions_are_polled_unless_done() {
    assert!(matches!(after_create(&pred("succeeded", Some(s("u")))), CreateOutcome::Ready(u) if u == "u"));
    assert!(matches!(
        after_create(&pred("succeeded", Some(Json::Null))),
        CreateOutcome::Invalid(ExtractError::UnexpectedFormat)
    ));
    assert!(matches!(after_create(&pred("starting", None)), CreateOutcome::Poll));
    assert!(matches!(after_create(&pred("failed", None)), CreateOutcome::Poll));
}

#[test]
fn deadline_is_one_hundred_twenty_seconds() {
    assert!(!timed_out(0, 0));
    assert!(!timed_out(119, 999_999_999));
    assert!(!timed_out(120, 0));
    assert!(timed_out(120, 1));
    assert!(timed_out(121, 0));
}

#[test]
fn only_rate_limits_are_retried_five_times() {
    assert_eq!(retry_delay(429, Some("3"), 0), Some(3));
    assert_eq!(retry_delay(429, None, 0), Some(10));
    assert_eq!(retry_delay(429, Some("Wed, 21 Oct 2015 07:28:00 GMT"), 2), Some(10));
    assert_eq!(retry_delay(429, Some("7"), 4), Some(7));
    assert_eq!(retry_delay(429, Some("7"), 5), None);
    assert_eq!(retry_delay(500, Some("7"), 0), None);
    assert_eq!(retry_delay(200, None, 0), None);
    let mut waits = 0;
    while retry_delay(429, None, waits).is_some() {
        waits += 1;
    }
    assert_eq!(waits, 5);
}

#[test]
fn plain_output_is_saved_where_asked() {
    let p = plan_output("images/sunset.png", false, true);
    assert_eq!(p.download_path, "images/sunset.png");
    assert!(p.convert_to.is_none());
    assert_eq!(p.saved_path, "images/sunset.png");
}

#[test]
fn server_side_webp_is_saved_with_webp_extension() {
    let p = plan_output("sunset.png", true, true);
    assert_eq!(p.download_path, "sunset.webp");
    assert!(p.convert_to.is_none());
    assert_eq!(p.saved_path, "sunset.webp");
}

#[test]
fn local_webp_conversion_never_downloads_onto_the_target() {
    let p = plan_output("out/sunset.png", true, false);
    assert_eq!(p.download_path, "out/sunset.png");
    assert_eq!(p.convert_to.as_deref(), Some("out/sunset.webp"));
    assert_eq!(p.saved_path, "out/sunset.webp");
    let p = plan_output("sunset.webp", true, false);
    assert_eq!(p.download_path, "sunset.png");
    assert_eq!(p.convert_to.as_deref(), Some("sunset.webp"));
    assert_eq!(p.saved_path, "sunset.webp");
    let p = plan_output("noext", true, false);
    assert_eq!(p.download_path, "noext");
    assert_eq!(p.saved_path, "noext.webp");
}

#[test]
fn saved_webp_files_end_in_webp_and_downloads_stay_apart() {
    for out in ["a.png", "dir/b.jpeg", "c.webp", "d", "e.tar.gz", "dir/f"] {
        for server in [true, false] {
            let p = plan_output(out, true, server);
            assert!(p.saved_path.ends_with(".webp"), "{out}");
            if !server {
                assert_ne!(p.download_path, p.saved_path, "{out}");
            }
        }
    }
}
