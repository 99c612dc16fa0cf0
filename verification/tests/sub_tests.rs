use mm::sub::{check_subscription, prepare_subscription, SubError, SubscriptionForm, SubscriptionShape};

#[test]
fn mapping_with_proxies_is_kept_as_is() {
    let body = "proxies:\n  - name: a\n    type: ss\n".to_string();
    assert_eq!(prepare_subscription(body.clone()).unwrap(), body);
}

#[test]
fn mapping_with_providers_or_old_style_is_kept() {
    let b1 = "proxy-providers:\n  p: {type: http}\n".to_string();
    assert_eq!(prepare_subscription(b1.clone()).unwrap(), b1);
    let b2 = "Proxy: []\n".to_string();
    assert_eq!(prepare_subscription(b2.clone()).unwrap(), b2);
}

#[test]
fn bare_list_is_wrapped_into_proxies() {
    let out = prepare_subscription("- name: a\n  type: ss\n- name: b\n  type: ss\n".to_string()).unwrap();
    let v: serde_yaml::Value = serde_yaml::from_str(&out).unwrap();
    let m = v.as_mapping().unwrap();
    assert_eq!(m.len(), 1);
    let list = m.get("proxies").unwrap().as_sequence().unwrap();
    assert_eq!(list.len(), 2);
    assert_eq!(list[1].get("name").unwrap().as_str(), Some("b"));
}

#[test]
fn yaml_without_proxies_is_refused() {
    assert!(matches!(prepare_subscription("rules: []\n".to_string()), Err(SubError::NoProxies)));
    assert!(matches!(prepare_subscription("[]\n".to_string()), Err(SubError::NoProxies)));
    assert!(matches!(prepare_subscription("just some text\n".to_string()), Err(SubError::NoProxies)));
    assert!(matches!(prepare_subscription("!tag {proxies: []}\n".to_string()), Err(SubError::NoProxies)));
}

#[test]
fn non_yaml_is_refused() {
    assert!(matches!(prepare_subscription("a: [\n".to_string()), Err(SubError::NotYaml(_))));
}

#[test]
fn check_subscription_by_shape() {
    let m = |p, pp, l| SubscriptionShape::Mapping { proxies: p, proxy_providers: pp, legacy_proxy: l };
    assert_eq!(check_subscription(m(true, false, false)).unwrap(), SubscriptionForm::AsIs);
    assert_eq!(check_subscription(m(false, true, false)).unwrap(), SubscriptionForm::AsIs);
    assert_eq!(check_subscription(m(false, false, true)).unwrap(), SubscriptionForm::AsIs);
    assert!(matches!(check_subscription(m(false, false, false)), Err(SubError::NoProxies)));
    assert_eq!(
        check_subscription(SubscriptionShape::Sequence { len: 1 }).unwrap(),
        SubscriptionForm::WrapList
    );
    assert!(matches!(check_subscription(SubscriptionShape::Sequence { len: 0 }), Err(SubError::NoProxies)));
    assert!(matches!(check_subscription(SubscriptionShape::Other), Err(SubError::NoProxies)));
}
