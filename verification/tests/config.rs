use pssh::assemble::apply_machine_configurations;
use pssh::config_map::ConfigMap;
use pssh::document::load_configuration_string;
use pssh::error::ConfigError;
use pssh::record::MachineConfig;
use pssh::resolve::fetch_default_values_for_name;

#[test]
fn empty_defaults() {
    let str_content = r#"
            defaults:
            machines:
        "#;

    let config = load_configuration_string(str_content).unwrap();
    assert_eq!(config.default_values.keys().len(), 0);
    assert_eq!(config.machine_values.keys().len(), 0);
}

#[test]
fn not_empty_defaults() {
    let str_content = r#"
            machines:
            defaults:
                $:
                    user: pouet
                one:
                    two:
                        $:
                            user: pouet
                            port: 5555
                        five:
                            $:
                                port: 5566
                    $:
                        port: 4455
                three:
                    $:
                four:
        "#;

    let config = load_configuration_string(str_content).unwrap();
    assert_eq!(config.machine_values.keys().len(), 0);
    assert_eq!(config.default_values.keys().len(), 5);

    assert!(config.default_values.contains_key(""));
    assert!(config.default_values.contains_key("one"));
    assert!(config.default_values.contains_key("three"));
    assert!(config.default_values.contains_key("one:two"));
    assert!(config.default_values.contains_key("one:two:five"));
    assert!(config.default_values.contains_key("four") == false);
}

#[test]
#[should_panic]
fn defaults_error() {
    let str_content = r#"
            machines:
            defaults:
                $:
                    user: pouet
                one:pouet:
                    $:
                        user: hello
        "#;

    load_configuration_string(str_content).unwrap();
}

#[test]
fn default_values() {
    let mut values = ConfigMap::new();
    values.insert(
        "".to_string(),
        MachineConfig {
            user: Some("hello".to_string()),
            port: Some(22),
            ..Default::default()
        },
    );
    values.insert(
        "coucou".to_string(),
        MachineConfig {
            port: Some(23),
            ..Default::default()
        },
    );
    values.insert(
        "coucou:hello".to_string(),
        MachineConfig {
            port: Some(24),
            ..Default::default()
        },
    );

    let config = fetch_default_values_for_name(&"toto".to_string(), &values).unwrap();
    assert_eq!(config.user, Some("hello".to_string()));
    assert_eq!(config.port, Some(22));
    assert_eq!(config.identity, None);

    let config = fetch_default_values_for_name(&"coucou".to_string(), &values).unwrap();
    assert_eq!(config.user, Some("hello".to_string()));
    assert_eq!(config.port, Some(23));
    assert_eq!(config.identity, None);

    let config = fetch_default_values_for_name(&"coucou:pouet".to_string(), &values).unwrap();
    assert_eq!(config.user, Some("hello".to_string()));
    assert_eq!(config.port, Some(23));

    let config = fetch_default_values_for_name(&"coucou:hello".to_string(), &values).unwrap();
    assert_eq!(config.user, Some("hello".to_string()));
    assert_eq!(config.port, Some(24));

    let config = fetch_default_values_for_name(&"coucou:hello:one".to_string(), &values).unwrap();
    assert_eq!(config.user, Some("hello".to_string()));
    assert_eq!(config.port, Some(24));
}

#[test]
fn machine_configurations() {
    let mut defaults = ConfigMap::new();
    defaults.insert(
        "".to_string(),
        MachineConfig {
            user: Some("hello".to_string()),
            ..Default::default()
        },
    );
    defaults.insert(
        "coucou".to_string(),
        MachineConfig {
            port: Some(23),
            ..Default::default()
        },
    );

    let mut machines = ConfigMap::new();
    machines.insert(
        "coucou".to_string(),
        MachineConfig {
            port: Some(22),
            ..Default::default()
        },
    );
    machines.insert(
        "coucou:hello".to_string(),
        MachineConfig {
            ip: Some("127.0.0.1".to_string()),
            ..Default::default()
        },
    );

    let configured_machines = apply_machine_configurations(&machines, &defaults);
    let m_coucou = configured_machines.get(&"coucou".to_string()).unwrap();
    let m_coucou_hello = configured_machines.get(&"coucou:hello".to_string()).unwrap();

    assert_eq!(m_coucou.port, Some(22));
    assert_eq!(m_coucou.user, Some("hello".to_string()));

    assert_eq!(m_coucou_hello.user, Some("hello".to_string()));
    assert_eq!(m_coucou_hello.port, Some(23));
    assert_eq!(m_coucou_hello.ip, Some("127.0.0.1".to_string()));
}

#[test]
fn merge_is_idempotent_and_right_biased() {
    let a = MachineConfig {
        ip: Some("10.0.0.1".to_string()),
        port: Some(22),
        user: Some("alice".to_string()),
        pass: None,
        identity: Some("/home/alice/.ssh/key".to_string()),
    };
    let b = MachineConfig {
        ip: None,
        port: Some(2222),
        user: Some("bob".to_string()),
        pass: Some("secret".to_string()),
        identity: None,
    };

    let once = a.merge(&b);
    let twice = a.merge(&once);
    assert_eq!(once, twice);

    assert_eq!(once.ip, Some("10.0.0.1".to_string()));
    assert_eq!(once.port, Some(2222));
    assert_eq!(once.user, Some("bob".to_string()));
    assert_eq!(once.pass, Some("secret".to_string()));
    assert_eq!(once.identity, Some("/home/alice/.ssh/key".to_string()));
}

#[test]
fn resolve_longest_prefix_field_wins() {
    let mut defaults = ConfigMap::new();
    defaults.insert(
        "".to_string(),
        MachineConfig {
            user: Some("root".to_string()),
            port: Some(1),
            ..Default::default()
        },
    );
    defaults.insert(
        "a".to_string(),
        MachineConfig {
            port: Some(2),
            ..Default::default()
        },
    );
    defaults.insert(
        "a:b".to_string(),
        MachineConfig {
            user: Some("deep".to_string()),
            ..Default::default()
        },
    );

    // The deepest record sets only the user, so the port still comes from
    // the nearest ancestor that sets one.
    let config = fetch_default_values_for_name("a:b", &defaults).unwrap();
    assert_eq!(config.user, Some("deep".to_string()));
    assert_eq!(config.port, Some(2));
}

#[test]
fn flatten_is_deterministic() {
    let str_content = r#"
            machines:
            defaults:
                $:
                    user: pouet
                one:
                    $:
                        port: 4455
                    two:
                        $:
                            ip: 10.0.0.7
        "#;

    let first = load_configuration_string(str_content).unwrap();
    let second = load_configuration_string(str_content).unwrap();

    let mut keys = first.default_values.keys();
    keys.sort();
    let mut keys_again = second.default_values.keys();
    keys_again.sort();
    assert_eq!(keys, keys_again);
    for key in keys.iter() {
        assert_eq!(
            first.default_values.get(key).unwrap(),
            second.default_values.get(key).unwrap()
        );
    }
}

#[test]
fn machines_error() {
    let str_content = r#"
            defaults:
            machines:
                bad:label:
                    $:
                        port: 22
        "#;

    let result = load_configuration_string(str_content);
    assert!(matches!(result, Err(ConfigError::InvalidNamespace(_))));
}

#[test]
fn invalid_namespace_names_the_label() {
    let str_content = r#"
            machines:
            defaults:
                one:pouet:
                    $:
                        user: hello
        "#;

    match load_configuration_string(str_content) {
        Err(ConfigError::InvalidNamespace(label)) => assert_eq!(label, "one:pouet"),
        other => panic!("expected an invalid namespace error, got {:?}", other),
    }
}

#[test]
fn malformed_document() {
    let missing_machines = load_configuration_string("defaults:\n");
    assert!(matches!(missing_machines, Err(ConfigError::MalformedDocument)));

    let not_a_mapping = load_configuration_string("just a string");
    assert!(matches!(not_a_mapping, Err(ConfigError::MalformedDocument)));

    let numeric_key = load_configuration_string("defaults:\n  5:\nmachines:\n");
    assert!(matches!(numeric_key, Err(ConfigError::MalformedDocument)));
}

#[test]
fn out_of_range_port_is_unset() {
    let str_content = r#"
            defaults:
            machines:
                box:
                    $:
                        ip: 10.0.0.1
                        port: 70000
                cave:
                    $:
                        ip: 10.0.0.2
                        port: -1
        "#;

    let config = load_configuration_string(str_content).unwrap();

    let over = config.machine_values.get("box").unwrap();
    assert_eq!(over.ip, Some("10.0.0.1".to_string()));
    assert_eq!(over.port, None);

    let under = config.machine_values.get("cave").unwrap();
    assert_eq!(under.ip, Some("10.0.0.2".to_string()));
    assert_eq!(under.port, None);
}

#[test]
fn load_full_configuration() {
    let str_content = r#"
            defaults:
                $:
                    user: admin
                    port: 22
                lab:
                    $:
                        port: 2200
            machines:
                lab:
                    alpha:
                        $:
                            ip: 192.168.0.10
                    beta:
                        $:
                            ip: 192.168.0.11
                            user: guest
        "#;

    let config = load_configuration_string(str_content).unwrap();
    assert_eq!(config.machine_values.keys().len(), 2);

    let alpha = config.machine_values.get("lab:alpha").unwrap();
    assert_eq!(alpha.ip, Some("192.168.0.10".to_string()));
    assert_eq!(alpha.user, Some("admin".to_string()));
    assert_eq!(alpha.port, Some(2200));

    let beta = config.machine_values.get("lab:beta").unwrap();
    assert_eq!(beta.user, Some("guest".to_string()));
    assert_eq!(beta.port, Some(2200));
}
