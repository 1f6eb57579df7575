use vstd::prelude::*;

verus! {

/// Address of the endpoint that reports a device's state.
pub open spec fn state_url_text() -> Seq<char> {
    "https://openapi.api.govee.com/router/api/v1/device/state"@
}

/// Address of the endpoint that sets a device's capability.
pub open spec fn control_url_text() -> Seq<char> {
    "https://openapi.api.govee.com/router/api/v1/device/control"@
}

/// JSON body asking for the state of the humidity sensor.
pub open spec fn state_body_text() -> Seq<char> {
    "{\"requestId\":\"uuid\",\"payload\":{\"sku\":\"H5179\",\"device\":\"REDACTED_SENSOR_MAC\"}}"@
}

pub open spec fn control_body_head() -> Seq<char> {
    "{\"requestId\":\"uuid\",\"payload\":{\"sku\":\"H5080\",\"device\":\"REDACTED_CONTROL_MAC\",\"capability\":{\"type\":\"devices.capabilities.on_off\",\"instance\":\"powerSwitch\",\"value\":"@
}

pub open spec fn control_body_tail() -> Seq<char> {
    "}}}"@
}

/// JSON body setting the plug's power switch to `value` (0 or 1).
pub open spec fn control_body_text(value: i32) -> Seq<char> {
    control_body_head() + (if value == 1 {
        "1"@
    } else {
        "0"@
    }) + control_body_tail()
}

pub open spec fn content_type_name() -> Seq<char> {
    "Content-Type"@
}

pub open spec fn content_type_value() -> Seq<char> {
    "application/json"@
}

pub open spec fn key_header_name() -> Seq<char> {
    "Govee-API-Key"@
}

pub fn state_url() -> (r: String)
    ensures
        r@ == state_url_text(),
{
    String::from_str("https://openapi.api.govee.com/router/api/v1/device/state")
}

pub fn control_url() -> (r: String)
    ensures
        r@ == control_url_text(),
{
    String::from_str("https://openapi.api.govee.com/router/api/v1/device/control")
}

/// The body of the state request for the humidity sensor.
pub fn state_request_body() -> (r: String)
    ensures
        r@ == state_body_text(),
{
    String::from_str(
        "{\"requestId\":\"uuid\",\"payload\":{\"sku\":\"H5179\",\"device\":\"REDACTED_SENSOR_MAC\"}}",
    )
}

/// The body of the control request that sets the plug's power switch to `value`.
pub fn control_request_body(value: i32) -> (r: String)
    requires
        value == 0 || value == 1,
    ensures
        r@ == control_body_text(value),
{
    let mut s = String::from_str(
        "{\"requestId\":\"uuid\",\"payload\":{\"sku\":\"H5080\",\"device\":\"REDACTED_CONTROL_MAC\",\"capability\":{\"type\":\"devices.capabilities.on_off\",\"instance\":\"powerSwitch\",\"value\":",
    );
    if value == 1 {
        s.append("1");
    } else {
        s.append("0");
    }
    s.append("}}}");
    s
}

/// The headers of both requests, as (name, value) pairs: the JSON content type
/// and the credential, unchanged.
pub fn request_headers(api_key: &str) -> (r: Vec<(String, String)>)
    ensures
        r@.len() == 2,
        r@[0].0@ == content_type_name(),
        r@[0].1@ == content_type_value(),
        r@[1].0@ == key_header_name(),
        r@[1].1@ == api_key@,
{
    let mut v: Vec<(String, String)> = Vec::new();
    v.push((String::from_str("Content-Type"), String::from_str("application/json")));
    v.push((String::from_str("Govee-API-Key"), String::from_str(api_key)));
    v
}

/// A response status of the 2xx class.
pub open spec fn is_success_code(code: u16) -> bool {
    200 <= code && code <= 299
}

/// Whether a response status reports success.
pub fn is_success_status(code: u16) -> (r: bool)
    ensures
        r == is_success_code(code),
{
    200 <= code && code <= 299
}

} // verus!
