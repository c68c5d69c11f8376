use zero2prod::form::{parse_form_data, FormError};
use zero2prod::health::health_check;
use zero2prod::subscriptions::{subscribe_finish, subscribe_prepare};

#[test]
fn health_check_works() {
    let response = health_check();
    assert_eq!(200, response.status);
    assert_eq!(0, response.body.len());
}

#[test]
fn subscribe_returns_200_for_valid_form_data() {
    let body = "name=test&email=test%40testmail.com";

    let form = parse_form_data(body.as_bytes()).expect("Failed to parse valid form data.");
    assert_eq!(form.name, "test");
    assert_eq!(form.email, "test@testmail.com");

    let prepared = subscribe_prepare(body.as_bytes()).expect("Valid form data was rejected.");
    assert_eq!(prepared.subscriber.name, "test");
    assert_eq!(prepared.subscriber.email, "test@testmail.com");

    let response = subscribe_finish(true);
    assert_eq!(200, response.status);
    assert_eq!(0, response.body.len());
}

#[test]
fn subscribe_returns_400_when_data_is_missing() {
    let test_cases = vec![
        ("name=test", "missing email"),
        ("email=test%40testmail.com", "missing name"),
        ("", "missing both email and name"),
    ];

    for (form_data, error_message) in test_cases {
        let response = match subscribe_prepare(form_data.as_bytes()) {
            Ok(_) => panic!(
                "The API did not fail with 400 when presented with bad data, test-case: {}",
                error_message
            ),
            Err(response) => response,
        };
        assert_eq!(400, response.status);
        assert_eq!(0, response.body.len());
    }
}

#[test]
fn subscribe_reports_which_field_is_wrong() {
    assert_eq!(parse_form_data(b"name=test").unwrap_err(), FormError::MissingEmail);
    assert_eq!(
        parse_form_data(b"email=test%40testmail.com").unwrap_err(),
        FormError::MissingName
    );
    assert_eq!(parse_form_data(b"").unwrap_err(), FormError::MissingEmail);
    assert_eq!(
        parse_form_data(b"email=a&name=x&email=b").unwrap_err(),
        FormError::DuplicateEmail
    );
    assert_eq!(
        parse_form_data(b"name=a&name=b&email=c").unwrap_err(),
        FormError::DuplicateName
    );
}

#[test]
fn subscribe_insert_failure_is_a_bare_500() {
    let response = subscribe_finish(false);
    assert_eq!(500, response.status);
    assert_eq!(0, response.body.len());
}

#[test]
fn duplicate_submissions_get_distinct_identifiers() {
    let body = b"name=test&email=test%40testmail.com";
    let first = subscribe_prepare(body).expect("Valid form data was rejected.");
    let second = subscribe_prepare(body).expect("Valid form data was rejected.");

    let mut persisted = Vec::new();
    persisted.push(first.subscriber);
    persisted.push(second.subscriber);

    assert_eq!(2, persisted.len());
    assert_ne!(persisted[0].id, persisted[1].id);
    assert_eq!(persisted[0].name, persisted[1].name);
    assert_eq!(persisted[0].email, persisted[1].email);
}

#[test]
fn concurrent_style_batch_keeps_every_row() {
    let bodies = [
        "name=a&email=a%40x.com",
        "name=b&email=b%40x.com",
        "name=c&email=c%40x.com",
        "name=d&email=d%40x.com",
        "name=e&email=e%40x.com",
    ];
    let mut persisted = Vec::new();
    for body in bodies.iter() {
        let prepared = subscribe_prepare(body.as_bytes()).expect("Valid form data was rejected.");
        persisted.push(prepared.subscriber);
    }
    assert_eq!(bodies.len(), persisted.len());
    for i in 0..persisted.len() {
        for j in 0..persisted.len() {
            if i != j {
                assert_ne!(persisted[i].id, persisted[j].id);
            }
        }
    }
}

#[test]
fn subscriber_timestamp_is_current_utc_micros() {
    let body = b"name=test&email=test%40testmail.com";
    let prepared = subscribe_prepare(body).expect("Valid form data was rejected.");
    // Between 2020-01-01 and 2100-01-01, in microseconds since the epoch.
    assert!(prepared.subscriber.subscribed_at_micros > 1_577_836_800_000_000);
    assert!(prepared.subscriber.subscribed_at_micros < 4_102_444_800_000_000);
}
