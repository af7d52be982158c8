use ckb_capsule::config::config::{Config, ConfigError, Contract, RustConfig, TemplateType};
use ckb_capsule::contracts::{group_contracts_by_type, select_contracts};

fn contract(name: &str, template_type: TemplateType) -> Contract {
    Contract { name: name.to_string(), template_type }
}

fn four() -> Vec<Contract> {
    vec![
        contract("vault", TemplateType::Rust),
        contract("gate", TemplateType::C),
        contract("oracle", TemplateType::Rust),
        contract("math", TemplateType::CSharedLib),
    ]
}

#[test]
fn template_type_is_read_from_its_name() {
    assert_eq!(TemplateType::from_str("rust"), Ok(TemplateType::Rust));
    assert_eq!(TemplateType::from_str("c"), Ok(TemplateType::C));
    assert_eq!(TemplateType::from_str("c-sharedlib"), Ok(TemplateType::CSharedLib));
}

#[test]
fn template_type_is_read_in_any_case() {
    assert_eq!(TemplateType::from_str("Rust"), Ok(TemplateType::Rust));
    assert_eq!(TemplateType::from_str("RUST"), Ok(TemplateType::Rust));
    assert_eq!(TemplateType::from_str("C"), Ok(TemplateType::C));
    assert_eq!(TemplateType::from_str("C-SharedLib"), Ok(TemplateType::CSharedLib));
}

#[test]
fn unknown_template_type_is_refused_with_its_text() {
    assert_eq!(
        TemplateType::from_str("Go"),
        Err(ConfigError::UnexpectedTemplateType { name: "Go".to_string() })
    );
    assert_eq!(
        TemplateType::from_str(""),
        Err(ConfigError::UnexpectedTemplateType { name: String::new() })
    );
    assert_eq!(
        TemplateType::from_str(" rust"),
        Err(ConfigError::UnexpectedTemplateType { name: " rust".to_string() })
    );
    assert_eq!(
        TemplateType::from_str("c_sharedlib"),
        Err(ConfigError::UnexpectedTemplateType { name: "c_sharedlib".to_string() })
    );
}

#[test]
fn name_is_matched_letter_for_letter() {
    assert_eq!(TemplateType::from_name("rust"), Some(TemplateType::Rust));
    assert_eq!(TemplateType::from_name("c"), Some(TemplateType::C));
    assert_eq!(TemplateType::from_name("c-sharedlib"), Some(TemplateType::CSharedLib));
    assert_eq!(TemplateType::from_name("Rust"), None);
    assert_eq!(TemplateType::from_name("rusty"), None);
}

#[test]
fn rust_config_has_no_workspace_by_default() {
    assert_eq!(RustConfig::default().workspace_dir, None);
}

#[test]
fn no_names_select_every_contract() {
    assert_eq!(select_contracts(&four(), &[]), four());
    assert_eq!(select_contracts(&[], &[]), Vec::<Contract>::new());
}

#[test]
fn names_select_in_the_order_of_the_contracts() {
    let selected = select_contracts(&four(), &["oracle", "absent", "vault"]);
    assert_eq!(
        selected,
        vec![contract("vault", TemplateType::Rust), contract("oracle", TemplateType::Rust)]
    );
    assert_eq!(select_contracts(&four(), &["absent"]), Vec::<Contract>::new());
    assert_eq!(select_contracts(&four(), &["gate", "gate"]), vec![contract("gate", TemplateType::C)]);
}

#[test]
fn contracts_are_grouped_by_template() {
    let groups = group_contracts_by_type(four());
    assert_eq!(
        groups,
        vec![
            (
                TemplateType::Rust,
                vec![contract("vault", TemplateType::Rust), contract("oracle", TemplateType::Rust)]
            ),
            (TemplateType::C, vec![contract("gate", TemplateType::C)]),
            (TemplateType::CSharedLib, vec![contract("math", TemplateType::CSharedLib)]),
        ]
    );
}

#[test]
fn templates_without_contracts_get_no_group() {
    assert_eq!(group_contracts_by_type(Vec::new()), Vec::new());
    let only_c = vec![contract("a", TemplateType::C), contract("b", TemplateType::C)];
    assert_eq!(group_contracts_by_type(only_c.clone()), vec![(TemplateType::C, only_c)]);
}

#[test]
fn contract_is_appended_once() {
    let mut config = Config {
        version: "0.1.0".to_string(),
        contracts: vec![contract("vault", TemplateType::Rust)],
        deployment: "deployment.toml".to_string(),
        rust: RustConfig::default(),
    };
    assert_eq!(config.append_contract(contract("gate", TemplateType::C)), Ok(()));
    assert_eq!(
        config.contracts,
        vec![contract("vault", TemplateType::Rust), contract("gate", TemplateType::C)]
    );
    assert_eq!(
        config.append_contract(contract("vault", TemplateType::CSharedLib)),
        Err(ConfigError::ContractExists { name: "vault".to_string() })
    );
    assert_eq!(config.contracts.len(), 2);
    assert_eq!(config.version, "0.1.0");
    assert_eq!(config.deployment, "deployment.toml");
}
