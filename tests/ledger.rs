use std::collections::HashMap;
use tokenize_core::ledger::{LedgerError, TokenizationCore};
use tokenize_core::model::{AssetType, ComplianceStatus, DigitalWallet, TokenizedAsset, WalletType};

fn asset(id: &str, asset_type: AssetType, value: u64) -> TokenizedAsset {
    TokenizedAsset {
        id: id.to_string(),
        name: "Test Asset".to_string(),
        asset_type,
        value,
        owner: "user1".to_string(),
        metadata: HashMap::new(),
        compliance_status: ComplianceStatus::Pending,
        created_at: 0,
        updated_at: 0,
    }
}

fn wallet(id: &str) -> DigitalWallet {
    DigitalWallet {
        id: id.to_string(),
        owner: "user1".to_string(),
        assets: vec![],
        balance: 0,
        wallet_type: WalletType::Custodial,
        created_at: 0,
        updated_at: 0,
    }
}

#[test]
fn test_create_and_get_asset() {
    let mut core = TokenizationCore::new();
    let a = asset("asset1", AssetType::Equity, 100);
    let result = core.create_asset(a.clone());
    assert!(result.is_ok());
    let retrieved_asset = core.get_asset("asset1").unwrap();
    assert!(retrieved_asset.is_some());
    assert_eq!(retrieved_asset.unwrap().name, "Test Asset");
}

#[test]
fn test_create_and_get_wallet() {
    let mut core = TokenizationCore::new();
    let w = wallet("wallet1");
    let result = core.create_wallet(w.clone());
    assert!(result.is_ok());
    let retrieved_wallet = core.get_wallet("wallet1").unwrap();
    assert!(retrieved_wallet.is_some());
    assert_eq!(retrieved_wallet.unwrap().owner, "user1");
}

#[test]
fn test_add_asset_to_wallet() {
    let mut core = TokenizationCore::new();
    core.create_asset(asset("asset1", AssetType::Equity, 100)).unwrap();
    core.create_wallet(wallet("wallet1")).unwrap();
    let result = core.add_asset_to_wallet("wallet1", "asset1");
    assert!(result.is_ok());
    let w = core.get_wallet("wallet1").unwrap().unwrap();
    assert!(w.assets.contains(&"asset1".to_string()));
    assert_eq!(w.balance, 100);
}

#[test]
fn get_after_create_returns_the_record() {
    let mut core = TokenizationCore::new();
    let mut a = asset("a7", AssetType::Other("Wine".to_string()), 42);
    a.metadata.insert("vintage".to_string(), "1999".to_string());
    a.created_at = 5;
    a.updated_at = 9;
    assert_eq!(core.create_asset(a.clone()), Ok("a7".to_string()));
    let got = core.get_asset("a7").unwrap().unwrap();
    assert_eq!(got.id, a.id);
    assert_eq!(got.name, a.name);
    assert_eq!(got.asset_type, a.asset_type);
    assert_eq!(got.value, 42);
    assert_eq!(got.metadata, a.metadata);
    assert_eq!(got.compliance_status, ComplianceStatus::Pending);
    assert_eq!((got.created_at, got.updated_at), (5, 9));
}

#[test]
fn get_of_missing_ids_is_empty() {
    let core = TokenizationCore::new();
    assert!(core.get_asset("nope").unwrap().is_none());
    assert!(core.get_wallet("nope").unwrap().is_none());
}

#[test]
fn create_asset_twice_overwrites() {
    let mut core = TokenizationCore::new();
    core.create_asset(asset("a1", AssetType::Equity, 10)).unwrap();
    core.create_asset(asset("a1", AssetType::Debt, 20)).unwrap();
    let got = core.get_asset("a1").unwrap().unwrap();
    assert_eq!(got.value, 20);
    assert_eq!(got.asset_type, AssetType::Debt);
}

#[test]
fn add_holds_once_and_value_grows() {
    let mut core = TokenizationCore::new();
    core.create_asset(asset("a1", AssetType::Equity, 30)).unwrap();
    core.create_asset(asset("a2", AssetType::Fund, 12)).unwrap();
    core.create_wallet(wallet("w")).unwrap();
    core.add_asset_to_wallet("w", "a1").unwrap();
    let before = core.get_wallet_value("w").unwrap();
    assert_eq!(before, 30);
    core.add_asset_to_wallet("w", "a2").unwrap();
    let w = core.get_wallet("w").unwrap().unwrap();
    assert_eq!(w.assets.iter().filter(|x| x.as_str() == "a2").count(), 1);
    assert_eq!(core.get_wallet_value("w").unwrap(), before + 12);
    assert_eq!(w.balance, 42);
}

#[test]
fn add_twice_is_a_duplicate_holding() {
    let mut core = TokenizationCore::new();
    core.create_asset(asset("a1", AssetType::Equity, 30)).unwrap();
    core.create_wallet(wallet("w")).unwrap();
    core.add_asset_to_wallet("w", "a1").unwrap();
    assert_eq!(core.add_asset_to_wallet("w", "a1"), Err(LedgerError::DuplicateHolding));
    let w = core.get_wallet("w").unwrap().unwrap();
    assert_eq!(w.assets.len(), 1);
    assert_eq!(w.balance, 30);
}

#[test]
fn add_checks_wallet_then_asset() {
    let mut core = TokenizationCore::new();
    assert_eq!(core.add_asset_to_wallet("w", "a"), Err(LedgerError::WalletNotFound));
    core.create_wallet(wallet("w")).unwrap();
    assert_eq!(core.add_asset_to_wallet("w", "a"), Err(LedgerError::AssetNotFound));
    let w = core.get_wallet("w").unwrap().unwrap();
    assert!(w.assets.is_empty());
    assert_eq!(w.balance, 0);
}

#[test]
fn remove_of_asset_not_held_leaves_wallet() {
    let mut core = TokenizationCore::new();
    core.create_asset(asset("a1", AssetType::Equity, 30)).unwrap();
    core.create_asset(asset("a2", AssetType::Equity, 5)).unwrap();
    core.create_wallet(wallet("w")).unwrap();
    core.add_asset_to_wallet("w", "a1").unwrap();
    assert_eq!(core.remove_asset_from_wallet("w", "a2"), Err(LedgerError::AssetNotHeld));
    let w = core.get_wallet("w").unwrap().unwrap();
    assert_eq!(w.assets, vec!["a1".to_string()]);
    assert_eq!(w.balance, 30);
    assert_eq!(core.remove_asset_from_wallet("nope", "a1"), Err(LedgerError::WalletNotFound));
}

#[test]
fn remove_uses_current_value() {
    let mut core = TokenizationCore::new();
    core.create_asset(asset("a1", AssetType::Equity, 30)).unwrap();
    core.create_asset(asset("a2", AssetType::Art, 7)).unwrap();
    core.create_wallet(wallet("w")).unwrap();
    core.add_asset_to_wallet("w", "a1").unwrap();
    core.add_asset_to_wallet("w", "a2").unwrap();
    core.update_asset("a1", asset("a1", AssetType::Equity, 50)).unwrap();
    core.remove_asset_from_wallet("w", "a1").unwrap();
    let w = core.get_wallet("w").unwrap().unwrap();
    assert_eq!(w.assets, vec!["a2".to_string()]);
    assert_eq!(w.balance, -13);
    assert_eq!(core.get_wallet_value("w").unwrap(), 7);
}

#[test]
fn update_of_missing_asset_creates_nothing() {
    let mut core = TokenizationCore::new();
    assert_eq!(core.update_asset("ghost", asset("ghost", AssetType::Equity, 1)), Err(LedgerError::AssetNotFound));
    assert!(core.get_asset("ghost").unwrap().is_none());
}

#[test]
fn delete_asset_and_value_skips_it() {
    let mut core = TokenizationCore::new();
    core.create_asset(asset("a1", AssetType::Equity, 30)).unwrap();
    core.create_asset(asset("a2", AssetType::Equity, 4)).unwrap();
    core.create_wallet(wallet("w")).unwrap();
    core.add_asset_to_wallet("w", "a1").unwrap();
    core.add_asset_to_wallet("w", "a2").unwrap();
    assert_eq!(core.delete_asset("a1"), Ok(()));
    assert_eq!(core.delete_asset("a1"), Err(LedgerError::AssetNotFound));
    assert_eq!(core.get_wallet_value("w").unwrap(), 4);
    let w = core.get_wallet("w").unwrap().unwrap();
    assert_eq!(w.assets.len(), 2);
    assert_eq!(core.get_wallet_value("nope"), Err(LedgerError::WalletNotFound));
}

#[test]
fn compliance_scenario() {
    let mut core = TokenizationCore::new();
    core.create_asset(asset("a1", AssetType::Equity, 50000)).unwrap();
    core.create_wallet(wallet("w1")).unwrap();
    assert!(core.add_asset_to_wallet("w1", "a1").is_ok());
    assert_eq!(core.get_wallet_value("w1").unwrap(), 50000);
    assert_eq!(core.perform_compliance_check("a1"), Ok(ComplianceStatus::Approved));
    assert_eq!(core.get_asset("a1").unwrap().unwrap().compliance_status, ComplianceStatus::Approved);
    assert_eq!(core.perform_compliance_check("missing"), Err(LedgerError::AssetNotFound));
}

#[test]
fn compliance_at_sets_time() {
    let mut core = TokenizationCore::new();
    let mut a = asset("a1", AssetType::Debt, 1);
    a.compliance_status = ComplianceStatus::Rejected;
    core.create_asset(a).unwrap();
    assert_eq!(core.perform_compliance_check_at("a1", 1234), Ok(ComplianceStatus::Approved));
    let got = core.get_asset("a1").unwrap().unwrap();
    assert_eq!(got.updated_at, 1234);
    assert_eq!(got.created_at, 0);
    assert_eq!(got.compliance_status, ComplianceStatus::Approved);
}

#[test]
fn assets_by_type() {
    let mut core = TokenizationCore::new();
    core.create_asset(asset("a1", AssetType::Equity, 1)).unwrap();
    core.create_asset(asset("a2", AssetType::Other("X".to_string()), 2)).unwrap();
    core.create_asset(asset("a3", AssetType::Equity, 3)).unwrap();
    core.create_asset(asset("a4", AssetType::Other("Y".to_string()), 4)).unwrap();
    let eq: Vec<String> = core.get_assets_by_type(AssetType::Equity).unwrap().into_iter().map(|a| a.id).collect();
    assert_eq!(eq, vec!["a1".to_string(), "a3".to_string()]);
    let x = core.get_assets_by_type(AssetType::Other("X".to_string())).unwrap();
    assert_eq!(x.len(), 1);
    assert_eq!(x[0].id, "a2");
    assert!(core.get_assets_by_type(AssetType::Art).unwrap().is_empty());
}

#[test]
fn duplicate_and_not_held_fail_at_extreme_balances() {
    let mut core = TokenizationCore::new();
    core.create_asset(asset("a1", AssetType::Equity, u64::MAX)).unwrap();
    let mut w = wallet("w");
    w.assets = vec!["a1".to_string()];
    w.balance = i128::MAX;
    core.create_wallet(w).unwrap();
    assert_eq!(core.add_asset_to_wallet("w", "a1"), Err(LedgerError::DuplicateHolding));
    let mut low = wallet("low");
    low.balance = i128::MIN;
    core.create_wallet(low).unwrap();
    assert_eq!(core.remove_asset_from_wallet("low", "a1"), Err(LedgerError::AssetNotHeld));
    assert_eq!(core.get_wallet("low").unwrap().unwrap().balance, i128::MIN);
}
