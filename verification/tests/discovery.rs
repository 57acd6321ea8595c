//! Discovery decisions, the resolver strategy switch, and counter exhaustion.

use short_id::counter::Counter;
use short_id::dns::{ip_lookup_strategy, IpStrategy};
use short_id::short::Data;
use short_id::well_known::{supported_versions, syncv3_server_url, unstable_features,
    well_known_client, well_known_support};
use short_id::DataError;

#[test]
fn versions_list_exact() {
    let versions = supported_versions();
    assert_eq!(
        versions,
        vec![
            "r0.0.1", "r0.1.0", "r0.2.0", "r0.3.0", "r0.4.0", "r0.5.0", "r0.6.0", "r0.6.1",
            "v1.1", "v1.2", "v1.3", "v1.4", "v1.5", "v1.11",
        ]
    );
}

#[test]
fn unstable_features_all_enabled() {
    let features = unstable_features();
    assert_eq!(features.len(), 13);
    assert_eq!(features[0].0, "org.matrix.e2e_cross_signing");
    assert_eq!(features[12].0, "us.cloke.msc4175");
    for (_, enabled) in &features {
        assert!(*enabled);
    }
}

#[test]
fn well_known_client_requires_configured_url() {
    assert!(well_known_client(None).is_none());
    let (base, proxy) = well_known_client(Some("https://hs.example.org".to_owned())).unwrap();
    assert_eq!(base, "https://hs.example.org");
    assert_eq!(proxy, "https://hs.example.org");
}

#[test]
fn well_known_support_needs_page_or_role() {
    assert!(well_known_support(None, None, None, None).is_none());
    assert!(well_known_support(None, None, Some("a@b.org".to_owned()), None).is_none());
}

#[test]
fn well_known_support_role_needs_a_contact_route() {
    assert!(
        well_known_support(Some("https://help.example.org".to_owned()), Some("admin".to_owned()), None, None)
            .is_none()
    );
}

#[test]
fn well_known_support_builds_the_contact() {
    let (contacts, page) = well_known_support(
        Some("https://help.example.org".to_owned()),
        Some("admin".to_owned()),
        Some("admin@example.org".to_owned()),
        None,
    )
    .unwrap();
    assert_eq!(page.as_deref(), Some("https://help.example.org"));
    assert_eq!(contacts.len(), 1);
    assert_eq!(contacts[0].role, "admin");
    assert_eq!(contacts[0].email_address.as_deref(), Some("admin@example.org"));
    assert!(contacts[0].matrix_id.is_none());
}

#[test]
fn well_known_support_page_alone_means_no_contacts() {
    let (contacts, page) =
        well_known_support(Some("https://help.example.org".to_owned()), None, None, None).unwrap();
    assert!(contacts.is_empty());
    assert_eq!(page.as_deref(), Some("https://help.example.org"));
}

#[test]
fn syncv3_prefers_client_url() {
    assert_eq!(
        syncv3_server_url(Some("c".to_owned()), Some("s".to_owned())),
        Some("c".to_owned())
    );
    assert_eq!(syncv3_server_url(None, Some("s".to_owned())), Some("s".to_owned()));
    assert_eq!(syncv3_server_url(None, None), None);
}

#[test]
fn ip_strategy_codes() {
    assert_eq!(ip_lookup_strategy(1), IpStrategy::Ipv4Only);
    assert_eq!(ip_lookup_strategy(2), IpStrategy::Ipv6Only);
    assert_eq!(ip_lookup_strategy(3), IpStrategy::Ipv4AndIpv6);
    assert_eq!(ip_lookup_strategy(4), IpStrategy::Ipv6ThenIpv4);
    assert_eq!(ip_lookup_strategy(0), IpStrategy::Ipv4ThenIpv6);
    assert_eq!(ip_lookup_strategy(99), IpStrategy::Ipv4ThenIpv6);
}

#[test]
fn counter_is_strictly_increasing() {
    let mut counter = Counter::new();
    let a = counter.next_count().unwrap();
    let b = counter.next_count().unwrap();
    let c = counter.next_count().unwrap();
    assert!(a < b && b < c);
}

#[test]
fn counter_exhaustion_aborts_create_before_any_write() {
    let mut data = Data::new();
    data.counter = Counter::resume(u64::MAX);
    assert_eq!(
        data.get_or_create_shorteventid(b"$a:example.com"),
        Err(DataError::CounterExhausted)
    );
    // no partial mapping was left behind
    assert!(data.eventid_shorteventid.get(b"$a:example.com").is_none());
    assert_eq!(data.get_eventid_from_short(u64::MAX), Err(DataError::CorruptData));
}

#[test]
fn batch_counter_exhaustion_burns_no_rollback() {
    let mut data = Data::new();
    data.counter = Counter::resume(u64::MAX - 1);
    let batch = vec![b"$a:example.com".to_vec(), b"$b:example.com".to_vec()];
    assert_eq!(
        data.multi_get_or_create_shorteventid(&batch),
        Err(DataError::CounterExhausted)
    );
    // the first identifier's entry, written before the failure, stands
    assert!(data.eventid_shorteventid.get(b"$a:example.com").is_some());
    assert!(data.eventid_shorteventid.get(b"$b:example.com").is_none());
}

#[test]
fn counter_resumes_above_high_water_mark() {
    let mut data = Data::new();
    data.counter = Counter::resume(41);
    let short = data.get_or_create_shortroomid(b"!r:example.com").unwrap();
    assert_eq!(short, 42);
}
