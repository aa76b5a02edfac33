use landrop::address::{filter_usable, CandidateAddress, HostIp};
use landrop::bootstrap::{
    advance_phase, assess_startup, plan_listeners, should_abort, ListenerEvent, ListenerPhase,
    StartupReport,
};
use landrop::service::{
    accept_upload, respond_form, respond_not_found, route_request, BodyEncoding, MediaKind,
    RequestMethod, Route,
};
use landrop::tls::provision;
use landrop::url::connection_url;

fn contains_bytes(hay: &[u8], needle: &[u8]) -> bool {
    if needle.len() > hay.len() {
        return false;
    }
    for i in 0..=(hay.len() - needle.len()) {
        if &hay[i..i + needle.len()] == needle {
            return true;
        }
    }
    false
}

#[test]
fn filtering_keeps_only_usable_ipv4() {
    let discovered = vec![
        HostIp::V4(127, 0, 0, 1),
        HostIp::V4(192, 168, 1, 5),
        HostIp::V6,
        HostIp::V4(10, 0, 0, 7),
    ];
    let usable = filter_usable(&discovered);
    assert_eq!(usable.len(), 2);
    assert_eq!(usable[0].ip, HostIp::V4(192, 168, 1, 5));
    assert_eq!(usable[1].ip, HostIp::V4(10, 0, 0, 7));
    for c in &usable {
        assert!(c.is_usable);
        assert!(c.ip.is_ipv4());
        assert!(!c.ip.is_loopback());
    }
}

#[test]
fn connection_url_renders_both_schemes() {
    let addr = CandidateAddress::classify(HostIp::V4(192, 168, 1, 5));
    let plain = connection_url(&addr, true, 16333);
    assert_eq!(plain, b"http://192.168.1.5:16333/".to_vec());
    let secure = connection_url(&addr, false, 443);
    assert_eq!(secure, b"https://192.168.1.5:443/".to_vec());
}

#[test]
fn zero_discovered_addresses_is_fatal_and_starts_nothing() {
    let discovered = vec![HostIp::V4(127, 0, 0, 1), HostIp::V6];
    let usable = filter_usable(&discovered);
    assert_eq!(usable.len(), 0);
    let plans = plan_listeners(&usable, false, 16333);
    assert_eq!(plans.len(), 0);
    assert_eq!(assess_startup(plans.len()), StartupReport::NoUsableAddress);
}

#[test]
fn plans_cover_every_usable_address_in_order() {
    let discovered = vec![HostIp::V4(192, 168, 1, 5), HostIp::V4(10, 0, 0, 7)];
    let usable = filter_usable(&discovered);
    let plans = plan_listeners(&usable, false, 16333);
    assert_eq!(plans.len(), 2);
    assert_eq!(plans[0].addr.ip, HostIp::V4(192, 168, 1, 5));
    assert_eq!(plans[1].addr.ip, HostIp::V4(10, 0, 0, 7));
    for p in &plans {
        assert!(p.use_tls);
        assert_eq!(p.port, 16333);
    }
    assert_eq!(plans[0].url, b"https://192.168.1.5:16333/".to_vec());
    assert_eq!(
        assess_startup(plans.len()),
        StartupReport::Started { listeners: 2 }
    );
}

#[test]
fn listener_phases_advance_only_along_the_lifecycle() {
    assert_eq!(
        advance_phase(ListenerPhase::Discovered, ListenerEvent::ProvisionTls),
        Some(ListenerPhase::TlsProvisioned)
    );
    assert_eq!(
        advance_phase(ListenerPhase::Discovered, ListenerEvent::SelectPlaintext),
        Some(ListenerPhase::PlaintextSelected)
    );
    assert_eq!(
        advance_phase(ListenerPhase::TlsProvisioned, ListenerEvent::StartListening),
        Some(ListenerPhase::Listening)
    );
    assert_eq!(
        advance_phase(ListenerPhase::Listening, ListenerEvent::Terminate),
        Some(ListenerPhase::Terminated)
    );
    assert_eq!(
        advance_phase(ListenerPhase::TlsProvisioned, ListenerEvent::SelectPlaintext),
        None
    );
    assert_eq!(
        advance_phase(ListenerPhase::Terminated, ListenerEvent::StartListening),
        None
    );
}

#[test]
fn first_terminated_listener_aborts_the_process() {
    let all_running = vec![ListenerPhase::Listening, ListenerPhase::Listening];
    assert!(!should_abort(&all_running));
    let one_down = vec![ListenerPhase::Listening, ListenerPhase::Terminated];
    assert!(should_abort(&one_down));
    assert!(!should_abort(&vec![]));
}

#[test]
fn get_root_serves_the_form_verbatim() {
    assert_eq!(route_request(true, RequestMethod::Get), Route::ServeForm);
    let template = b"<form>upload</form>".to_vec();
    let resp = respond_form(&template);
    assert_eq!(resp.status, 200);
    assert_eq!(resp.media, MediaKind::Html);
    assert_eq!(resp.body, template);
}

#[test]
fn post_root_decodes_and_acknowledges_exactly_once() {
    assert_eq!(route_request(true, RequestMethod::Post), Route::AcceptUpload);
    let body = b"X\r\nheader\r\n\r\nhello world\r\nX--\r\n".to_vec();
    let ack = b"<p>Thank you!</p>".to_vec();
    let (fields, resp) = accept_upload(&body, BodyEncoding::SelfDescribingMultipart, &ack);
    assert_eq!(resp.status, 200);
    assert_eq!(resp.media, MediaKind::Html);
    assert_eq!(resp.body, ack);
    let hits: Vec<&Vec<u8>> = fields
        .iter()
        .map(|f| &f.value)
        .filter(|v| *v == &b"hello world".to_vec())
        .collect();
    assert_eq!(hits.len(), 1);
    assert_eq!(fields.len(), 1);
}

#[test]
fn post_root_accepts_the_urlencoded_shape_too() {
    let body = b"message=hello+world".to_vec();
    let ack = b"<p>Thank you!</p>".to_vec();
    let (fields, resp) = accept_upload(&body, BodyEncoding::UrlEncodedForm, &ack);
    assert_eq!(resp.status, 200);
    assert_eq!(fields.len(), 1);
    assert_eq!(fields[0].name.as_ref().unwrap(), &b"message".to_vec());
    assert_eq!(fields[0].value, b"hello world".to_vec());
}

#[test]
fn other_routes_are_not_found() {
    assert_eq!(route_request(false, RequestMethod::Get), Route::NotFound);
    assert_eq!(route_request(true, RequestMethod::Other), Route::NotFound);
    let resp = respond_not_found();
    assert_eq!(resp.status, 404);
    assert_eq!(resp.media, MediaKind::PlainText);
    assert_eq!(resp.body, b"Not found!".to_vec());
}

#[test]
fn certificate_covers_exactly_the_requested_address() {
    let cert = provision(b"192.168.1.5".to_vec()).unwrap();
    assert_eq!(cert.hostname, b"192.168.1.5".to_vec());
    assert!(!cert.cert_der.is_empty());
    assert!(!cert.key_der.is_empty());
    // DER subject-alternative-name entry for an IPv4 address: context tag 7,
    // length 4, then the four octets.
    let requested = [0x87u8, 4, 192, 168, 1, 5];
    let other = [0x87u8, 4, 192, 168, 1, 6];
    assert!(contains_bytes(&cert.cert_der, &requested));
    assert!(!contains_bytes(&cert.cert_der, &other));
}
