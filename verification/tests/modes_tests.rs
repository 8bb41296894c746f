//! Mode resolution and contract-kind recognition.

use contracts::modes::{final_mode, BuildFlags, ContractMode, ContractType};

fn flags(disable: bool, debug: bool, log: bool) -> BuildFlags {
    BuildFlags { disable_contracts: disable, override_debug: debug, override_log: log }
}

#[test]
fn test_mode_resolution_fixed_points() {
    // Test and Disabled survive every flag combination.
    for &d in &[false, true] {
        for &dbg in &[false, true] {
            for &lg in &[false, true] {
                let f = flags(d, dbg, lg);
                assert_eq!(final_mode(ContractMode::Test, f), ContractMode::Test);
                assert_eq!(final_mode(ContractMode::Disabled, f), ContractMode::Disabled);
            }
        }
    }
}

#[test]
fn test_mode_resolution_overrides() {
    assert_eq!(
        final_mode(ContractMode::Always, flags(true, false, false)),
        ContractMode::Disabled
    );
    assert_eq!(
        final_mode(ContractMode::LogOnly, flags(false, true, false)),
        ContractMode::LogOnly
    );
    assert_eq!(final_mode(ContractMode::Always, flags(false, true, false)), ContractMode::Debug);
    assert_eq!(
        final_mode(ContractMode::Always, flags(false, false, true)),
        ContractMode::LogOnly
    );
    assert_eq!(final_mode(ContractMode::Always, flags(false, false, false)), ContractMode::Always);
    assert_eq!(final_mode(ContractMode::Debug, flags(false, false, false)), ContractMode::Debug);
    // Disabling wins over the other overrides.
    assert_eq!(final_mode(ContractMode::Debug, flags(true, true, true)), ContractMode::Disabled);
    // Forcing debug wins over forcing log-only.
    assert_eq!(final_mode(ContractMode::Always, flags(false, true, true)), ContractMode::Debug);
}

#[test]
fn test_mode_name_prefixes() {
    assert_eq!(ContractMode::Always.name(), Some(""));
    assert_eq!(ContractMode::Debug.name(), Some("debug_"));
    assert_eq!(ContractMode::Test.name(), Some("test_"));
    assert_eq!(ContractMode::Disabled.name(), None);
    assert_eq!(ContractMode::LogOnly.name(), None);
}

#[test]
fn test_message_names() {
    assert_eq!(ContractType::Pre.message_name(), "Pre-condition");
    assert_eq!(ContractType::Post.message_name(), "Post-condition");
    assert_eq!(ContractType::Invariant.message_name(), "Invariant");
}

#[test]
fn test_contract_type_and_mode() {
    assert_eq!(
        ContractType::contract_type_and_mode("pre"),
        Some((ContractType::Pre, ContractMode::Always))
    );
    assert_eq!(
        ContractType::contract_type_and_mode("post"),
        Some((ContractType::Post, ContractMode::Always))
    );
    assert_eq!(
        ContractType::contract_type_and_mode("invariant"),
        Some((ContractType::Invariant, ContractMode::Always))
    );
    assert_eq!(
        ContractType::contract_type_and_mode("debug_pre"),
        Some((ContractType::Pre, ContractMode::Debug))
    );
    assert_eq!(
        ContractType::contract_type_and_mode("debug_post"),
        Some((ContractType::Post, ContractMode::Debug))
    );
    assert_eq!(
        ContractType::contract_type_and_mode("debug_invariant"),
        Some((ContractType::Invariant, ContractMode::Debug))
    );
    assert_eq!(
        ContractType::contract_type_and_mode("test_pre"),
        Some((ContractType::Pre, ContractMode::Test))
    );
    assert_eq!(
        ContractType::contract_type_and_mode("test_post"),
        Some((ContractType::Post, ContractMode::Test))
    );
    assert_eq!(
        ContractType::contract_type_and_mode("test_invariant"),
        Some((ContractType::Invariant, ContractMode::Test))
    );
    assert_eq!(ContractType::contract_type_and_mode("doc"), None);
    assert_eq!(ContractType::contract_type_and_mode("inline"), None);
    assert_eq!(ContractType::contract_type_and_mode(""), None);
}
