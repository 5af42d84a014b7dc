use hop_endpoint::source::{
    client_ip_from_xff, proxy_policy, proxy_setting, resolve_trusted_proxy, Ip, ProxySetting,
    TrustedProxy,
};

#[test]
fn client_ip_from_xff_takes_the_trusted_last_hop() {
    assert_eq!(
        client_ip_from_xff("1.1.1.1, 2.2.2.2, 3.3.3.3").as_deref(),
        Some("3.3.3.3"),
        "last (LB-appended) hop, not the first client-supplied one"
    );
    assert_eq!(
        client_ip_from_xff("9.9.9.9").as_deref(),
        Some("9.9.9.9"),
        "single entry is that entry"
    );
    assert_eq!(
        client_ip_from_xff("  1.1.1.1 ,  4.4.4.4 , ").as_deref(),
        Some("4.4.4.4")
    );
    assert_eq!(client_ip_from_xff("").as_deref(), None);
    assert_eq!(client_ip_from_xff(" , ").as_deref(), None);
}

#[test]
fn a_claimed_hop_does_not_beat_the_appended_one() {
    for claimed in ["", "9.9.9.9", "9.9.9.9, 8.8.8.8", ",,,", "\u{2003}"] {
        let list = format!("{claimed}, 1.2.3.4");
        assert_eq!(client_ip_from_xff(&list).as_deref(), Some("1.2.3.4"));
        let list = format!("{claimed},5.6.7.8, 1.2.3.4 ,,");
        assert_eq!(client_ip_from_xff(&list).as_deref(), Some("1.2.3.4"));
    }
}

#[test]
fn resolve_trusted_proxy_maps_env_to_policy() {
    assert_eq!(resolve_trusted_proxy(Some("any")), TrustedProxy::Any);
    assert_eq!(resolve_trusted_proxy(Some("1")), TrustedProxy::Any);
    assert_eq!(resolve_trusted_proxy(Some("true")), TrustedProxy::Any);
    assert_eq!(resolve_trusted_proxy(Some(" yes ")), TrustedProxy::Any);
    assert_eq!(
        resolve_trusted_proxy(Some("10.0.0.1")),
        TrustedProxy::Ip(Ip::V4(0x0a00_0001))
    );
    assert_eq!(resolve_trusted_proxy(None), TrustedProxy::Direct);
    assert_eq!(resolve_trusted_proxy(Some("")), TrustedProxy::Direct);
    assert_eq!(
        resolve_trusted_proxy(Some("not-an-ip")),
        TrustedProxy::Direct,
        "unparseable => direct exposure (fail closed to the safe limiter)"
    );
}

#[test]
fn the_front_end_can_have_either_kind_of_address() {
    assert_eq!(
        resolve_trusted_proxy(Some("\t10.0.0.1\n")),
        TrustedProxy::Ip(Ip::V4(0x0a00_0001))
    );
    assert_eq!(resolve_trusted_proxy(Some("::1")), TrustedProxy::Ip(Ip::V6(1)));
    assert_eq!(resolve_trusted_proxy(Some("10.0.0.1:80")), TrustedProxy::Direct);
    assert_eq!(resolve_trusted_proxy(Some("ANY")), TrustedProxy::Direct);
}

#[test]
fn a_setting_without_an_address_is_direct_exposure() {
    let setting = proxy_setting(Some(" lb.internal "));
    assert_eq!(setting, ProxySetting::Address("lb.internal".to_string()));
    assert_eq!(proxy_policy(&setting, None), TrustedProxy::Direct);
    assert_eq!(
        proxy_policy(&setting, Some(Ip::V4(7))),
        TrustedProxy::Ip(Ip::V4(7))
    );
    assert_eq!(proxy_policy(&ProxySetting::Any, None), TrustedProxy::Any);
    assert_eq!(proxy_policy(&ProxySetting::Unset, Some(Ip::V4(7))), TrustedProxy::Direct);
}
