use dispnet_storage::package::Package;
use dispnet_storage::policy::{
    IncomingPolicy, LayerPolicy, PolicyManager, PolicyPredicate, PolicyRule, PolicyTrigger,
    PolicyType, TriggerPolicy,
};

fn get_package() -> Package {
    Package {
        index: 0,
        checksum: "".to_owned(),
        compression_algorithm: "".to_owned(),
        normalized_size: 0,
        package_id: "1".to_owned(),
        size: 0,
    }
}

#[test]
fn add_policies() {
    let mut manager = PolicyManager::new();
    manager.add(PolicyRule {
        name: "1".to_owned(),
        policy_type: PolicyType::Incoming(IncomingPolicy {}),
        predicate: PolicyPredicate::Always(true),
    });
    manager.add(PolicyRule {
        name: "2".to_owned(),
        policy_type: PolicyType::Layer(LayerPolicy {
            success_layer_key: "".to_owned(),
        }),
        predicate: PolicyPredicate::Always(true),
    });
    manager.add(PolicyRule {
        name: "3".to_owned(),
        policy_type: PolicyType::Trigger(TriggerPolicy {
            layer: "l1".to_owned(),
            get_validation_conditions: vec![PolicyTrigger::BeforeSave],
        }),
        predicate: PolicyPredicate::Always(true),
    });
    assert_eq!(manager.policies_count(), 3);
    assert_eq!(manager.incoming_policies_count(), 1);
    assert_eq!(manager.layer_policies_count(), 1);
    assert_eq!(manager.trigger_policies_count(), 1);
}

#[test]
fn remove_policy() {
    let mut manager = PolicyManager::new();
    manager.add(PolicyRule {
        name: "1".to_owned(),
        policy_type: PolicyType::Incoming(IncomingPolicy {}),
        predicate: PolicyPredicate::Always(true),
    });
    manager.add(PolicyRule {
        name: "2".to_owned(),
        policy_type: PolicyType::Layer(LayerPolicy {
            success_layer_key: "".to_owned(),
        }),
        predicate: PolicyPredicate::Always(true),
    });
    manager.add(PolicyRule {
        name: "3".to_owned(),
        policy_type: PolicyType::Trigger(TriggerPolicy {
            layer: "l1".to_owned(),
            get_validation_conditions: vec![PolicyTrigger::BeforeSave],
        }),
        predicate: PolicyPredicate::Always(true),
    });
    assert_eq!(manager.policies_count(), 3);
    manager.remove("1");
    assert_eq!(manager.policies_count(), 2);
    assert_eq!(manager.incoming_policies_count(), 0);

    manager.remove("2");
    assert_eq!(manager.policies_count(), 1);
    assert_eq!(manager.layer_policies_count(), 0);

    manager.remove("3");
    assert_eq!(manager.policies_count(), 0);
    assert_eq!(manager.trigger_policies_count(), 0);
}

#[test]
fn clear_policies() {
    let mut manager = PolicyManager::new();
    manager.add(PolicyRule {
        name: "1".to_owned(),
        policy_type: PolicyType::Incoming(IncomingPolicy {}),
        predicate: PolicyPredicate::Always(true),
    });
    manager.add(PolicyRule {
        name: "2".to_owned(),
        policy_type: PolicyType::Layer(LayerPolicy {
            success_layer_key: "".to_owned(),
        }),
        predicate: PolicyPredicate::Always(true),
    });
    assert_eq!(manager.policies_count(), 2);
    manager.clear();
    assert_eq!(manager.policies_count(), 0);
}

#[test]
fn validate_incoming() {
    let mut manager = PolicyManager::new();
    manager.add(PolicyRule {
        name: "1".to_owned(),
        policy_type: PolicyType::Incoming(IncomingPolicy {}),
        predicate: PolicyPredicate::Always(true),
    });
    let valid = manager.validate_incoming(&get_package(), "client");
    assert!(valid);
}

#[test]
fn resolve_layer() {
    let mut manager = PolicyManager::new();
    manager.add(PolicyRule {
        name: "2".to_owned(),
        policy_type: PolicyType::Layer(LayerPolicy {
            success_layer_key: "test1".to_owned(),
        }),
        predicate: PolicyPredicate::Always(true),
    });
    let layer = manager.resolve_layer(&get_package(), "client").unwrap();
    assert_eq!(layer, "test1");
}

#[test]
fn validate_trigger() {
    let mut manager = PolicyManager::new();
    manager.add(PolicyRule {
        name: "3".to_owned(),
        policy_type: PolicyType::Trigger(TriggerPolicy {
            layer: "l1".to_owned(),
            get_validation_conditions: vec![PolicyTrigger::BeforeSave],
        }),
        predicate: PolicyPredicate::Always(false),
    });
    let valid = manager.validate_trigger(
        "l1",
        &PolicyTrigger::BeforeSave,
        &get_package(),
        "client",
    );
    assert!(!valid);

    let not_valid_layer = manager.validate_trigger(
        "l2",
        &PolicyTrigger::BeforeSave,
        &get_package(),
        "client",
    );
    assert!(not_valid_layer);

    let not_valid_event = manager.validate_trigger(
        "l1",
        &PolicyTrigger::AfterSave,
        &get_package(),
        "client",
    );
    assert!(not_valid_event);
}

#[test]
fn validate_incoming_empty_is_true() {
    let manager = PolicyManager::new();
    assert!(manager.validate_incoming(&get_package(), "client"));
}

#[test]
fn validate_incoming_fails_on_one_false() {
    let mut manager = PolicyManager::new();
    manager.add(PolicyRule {
        name: "1".to_owned(),
        policy_type: PolicyType::Incoming(IncomingPolicy {}),
        predicate: PolicyPredicate::Always(true),
    });
    manager.add(PolicyRule {
        name: "2".to_owned(),
        policy_type: PolicyType::Incoming(IncomingPolicy {}),
        predicate: PolicyPredicate::Always(false),
    });
    assert!(!manager.validate_incoming(&get_package(), "client"));
}

#[test]
fn validate_incoming_size_limit() {
    let mut manager = PolicyManager::new();
    manager.add(PolicyRule {
        name: "cap".to_owned(),
        policy_type: PolicyType::Incoming(IncomingPolicy {}),
        predicate: PolicyPredicate::SizeAtMost(100),
    });
    let mut small = get_package();
    small.size = 100;
    assert!(manager.validate_incoming(&small, "client"));
    let mut large = get_package();
    large.size = 101;
    assert!(!manager.validate_incoming(&large, "client"));
}

#[test]
fn resolve_layer_none_registered() {
    let manager = PolicyManager::new();
    assert!(manager.resolve_layer(&get_package(), "client").is_err());
}

#[test]
fn resolve_layer_no_match() {
    let mut manager = PolicyManager::new();
    manager.add(PolicyRule {
        name: "never".to_owned(),
        policy_type: PolicyType::Layer(LayerPolicy {
            success_layer_key: "cold".to_owned(),
        }),
        predicate: PolicyPredicate::Always(false),
    });
    assert!(manager.resolve_layer(&get_package(), "client").is_err());
}

#[test]
fn resolve_layer_first_match_wins() {
    let mut manager = PolicyManager::new();
    manager.add(PolicyRule {
        name: "small".to_owned(),
        policy_type: PolicyType::Layer(LayerPolicy {
            success_layer_key: "hot".to_owned(),
        }),
        predicate: PolicyPredicate::SizeAtMost(10),
    });
    manager.add(PolicyRule {
        name: "any".to_owned(),
        policy_type: PolicyType::Layer(LayerPolicy {
            success_layer_key: "cold".to_owned(),
        }),
        predicate: PolicyPredicate::Always(true),
    });
    let mut tiny = get_package();
    tiny.size = 5;
    assert_eq!(manager.resolve_layer(&tiny, "client").unwrap(), "hot");
    let mut big = get_package();
    big.size = 50;
    assert_eq!(manager.resolve_layer(&big, "client").unwrap(), "cold");
}

#[test]
fn remove_absent_name_is_noop() {
    let mut manager = PolicyManager::new();
    manager.add(PolicyRule {
        name: "1".to_owned(),
        policy_type: PolicyType::Incoming(IncomingPolicy {}),
        predicate: PolicyPredicate::Always(true),
    });
    assert!(!manager.remove("unknown"));
    assert_eq!(manager.policies_count(), 1);
}

#[test]
fn remove_takes_first_match_only() {
    let mut manager = PolicyManager::new();
    manager.add(PolicyRule {
        name: "dup".to_owned(),
        policy_type: PolicyType::Incoming(IncomingPolicy {}),
        predicate: PolicyPredicate::Always(true),
    });
    manager.add(PolicyRule {
        name: "dup".to_owned(),
        policy_type: PolicyType::Layer(LayerPolicy {
            success_layer_key: "cold".to_owned(),
        }),
        predicate: PolicyPredicate::Always(true),
    });
    assert!(manager.remove("dup"));
    assert_eq!(manager.incoming_policies_count(), 0);
    assert_eq!(manager.layer_policies_count(), 1);
    assert!(manager.remove("dup"));
    assert_eq!(manager.layer_policies_count(), 0);
    assert!(!manager.remove("dup"));
}

#[test]
fn client_predicate_reads_client_id() {
    let mut manager = PolicyManager::new();
    manager.add(PolicyRule {
        name: "vip".to_owned(),
        policy_type: PolicyType::Incoming(IncomingPolicy {}),
        predicate: PolicyPredicate::ClientIs("alice".to_owned()),
    });
    assert!(manager.validate_incoming(&get_package(), "alice"));
    assert!(!manager.validate_incoming(&get_package(), "bob"));
}
