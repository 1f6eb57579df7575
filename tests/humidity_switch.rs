use humidity_switch::decision::{command_for, parse_humidity, Humidity, SWITCH_OFF, SWITCH_ON, THRESHOLD};
use humidity_switch::poll::{api_key_from_text, Action, Event, Failure, Phase, Poller, CHECK_INTERVAL};
use humidity_switch::request::{
    control_request_body, control_url, is_success_status, request_headers, state_request_body,
    state_url,
};

fn reading(text: &str) -> Humidity {
    parse_humidity(text).expect("a decimal reading")
}

fn switch_for(text: &str) -> i32 {
    command_for(&reading(text))
}

#[test]
fn above_threshold_turns_on() {
    assert_eq!(switch_for("50"), 1);
    assert_eq!(switch_for("50.0"), SWITCH_ON);
    assert_eq!(switch_for("46"), 1);
    assert_eq!(switch_for("100"), 1);
    assert_eq!(switch_for("45.01"), 1);
    assert_eq!(switch_for("45.000000000000001"), 1);
    assert_eq!(switch_for("045.5"), 1);
    assert_eq!(switch_for("12345678901234567890123"), 1);
}

#[test]
fn at_or_below_threshold_turns_off() {
    assert_eq!(switch_for("30"), 0);
    assert_eq!(switch_for("30.0"), SWITCH_OFF);
    assert_eq!(switch_for("45"), 0);
    assert_eq!(switch_for("45.0"), 0);
    assert_eq!(switch_for("45.000"), 0);
    assert_eq!(switch_for("44.99"), 0);
    assert_eq!(switch_for("0"), 0);
    assert_eq!(switch_for("-50"), 0);
    assert_eq!(switch_for("-0"), 0);
    assert_eq!(THRESHOLD, 45);
}

#[test]
fn parses_decimal_text() {
    let h = reading("-12.05");
    assert!(h.negative);
    assert_eq!(h.whole, vec![1, 2]);
    assert_eq!(h.fraction, vec![0, 5]);
    let h = reading("7");
    assert!(!h.negative);
    assert_eq!(h.whole, vec![7]);
    assert!(h.fraction.is_empty());
}

#[test]
fn rejects_text_that_is_no_decimal() {
    for text in ["", "-", "abc", "45.", ".5", "4.5.1", "4 5", "+45", "--4", "NaN", "inf", "1e3", "45.5x"] {
        assert!(parse_humidity(text).is_none(), "{text}");
    }
}

#[test]
fn control_body_turns_plug_on() {
    assert_eq!(
        control_request_body(1),
        "{\"requestId\":\"uuid\",\"payload\":{\"sku\":\"H5080\",\"device\":\"REDACTED_CONTROL_MAC\",\"capability\":{\"type\":\"devices.capabilities.on_off\",\"instance\":\"powerSwitch\",\"value\":1}}}"
    );
}

#[test]
fn control_body_turns_plug_off() {
    assert_eq!(
        control_request_body(0),
        "{\"requestId\":\"uuid\",\"payload\":{\"sku\":\"H5080\",\"device\":\"REDACTED_CONTROL_MAC\",\"capability\":{\"type\":\"devices.capabilities.on_off\",\"instance\":\"powerSwitch\",\"value\":0}}}"
    );
}

#[test]
fn state_body_names_the_sensor() {
    assert_eq!(
        state_request_body(),
        "{\"requestId\":\"uuid\",\"payload\":{\"sku\":\"H5179\",\"device\":\"REDACTED_SENSOR_MAC\"}}"
    );
    assert_eq!(state_url(), "https://openapi.api.govee.com/router/api/v1/device/state");
    assert_eq!(control_url(), "https://openapi.api.govee.com/router/api/v1/device/control");
}

#[test]
fn headers_carry_the_key_unchanged() {
    let h = request_headers("k3y =/ value");
    assert_eq!(h.len(), 2);
    assert_eq!(h[0], ("Content-Type".to_string(), "application/json".to_string()));
    assert_eq!(h[1], ("Govee-API-Key".to_string(), "k3y =/ value".to_string()));
}

#[test]
fn key_text_is_trimmed_once() {
    assert_eq!(api_key_from_text("  SECRET-REDACTED \n"), "SECRET-REDACTED");
    assert_eq!(api_key_from_text("\tabc def\r\n"), "abc def");
    assert_eq!(api_key_from_text(""), "");
    let poller = Poller::new(api_key_from_text(" key\n"));
    assert_eq!(poller.api_key(), "key");
    assert_eq!(poller.phase(), Phase::Idle);
}

#[test]
fn success_statuses() {
    assert!(is_success_status(200));
    assert!(is_success_status(204));
    assert!(is_success_status(299));
    assert!(!is_success_status(199));
    assert!(!is_success_status(300));
    assert!(!is_success_status(500));
}

#[test]
fn server_error_on_state_sends_no_control() {
    let mut p = Poller::new("key".to_string());
    assert_eq!(p.step(Event::Woke), Action::FetchState);
    assert_eq!(p.step(Event::Status(500)), Action::Sleep(Some(Failure::StateStatus(500))));
    assert_eq!(p.phase(), Phase::Idle);
    assert_eq!(CHECK_INTERVAL, 900);
}

#[test]
fn transport_error_on_state_sends_no_control() {
    let mut p = Poller::new("key".to_string());
    assert_eq!(p.step(Event::Woke), Action::FetchState);
    assert_eq!(p.step(Event::TransportError), Action::Sleep(Some(Failure::StateTransport)));
    assert_eq!(p.phase(), Phase::Idle);
}

#[test]
fn one_control_per_reading_whatever_its_outcome() {
    let mut p = Poller::new("key".to_string());
    // The first control request fails; the next cycle still sends one.
    assert_eq!(p.step(Event::Woke), Action::FetchState);
    assert_eq!(p.step(Event::Status(200)), Action::DecodeBody);
    assert_eq!(p.step(Event::Reading(reading("50.0"))), Action::SendControl(1));
    assert_eq!(p.phase(), Phase::AwaitingControl);
    assert_eq!(p.step(Event::Status(503)), Action::Sleep(Some(Failure::ControlStatus(503))));
    assert_eq!(p.phase(), Phase::Idle);
    assert_eq!(p.step(Event::Woke), Action::FetchState);
    assert_eq!(p.step(Event::Status(200)), Action::DecodeBody);
    assert_eq!(p.step(Event::Reading(reading("30.0"))), Action::SendControl(0));
    assert_eq!(p.step(Event::TransportError), Action::Sleep(Some(Failure::ControlTransport)));
    assert_eq!(p.step(Event::Woke), Action::FetchState);
    assert_eq!(p.step(Event::Status(200)), Action::DecodeBody);
    assert_eq!(p.step(Event::Reading(reading("45"))), Action::SendControl(0));
    assert_eq!(p.step(Event::Status(200)), Action::Sleep(None));
    assert_eq!(p.api_key(), "key");
}

#[test]
fn out_of_place_event_ends_the_cycle() {
    let mut p = Poller::new("key".to_string());
    assert_eq!(p.step(Event::Status(200)), Action::Sleep(None));
    assert_eq!(p.phase(), Phase::Idle);
    assert_eq!(p.step(Event::Woke), Action::FetchState);
    assert_eq!(p.step(Event::Reading(reading("50"))), Action::Sleep(None));
    assert_eq!(p.phase(), Phase::Idle);
}
