//! Records held by the ledger: assets, wallets and their categories, with the
//! mathematical views that the ledger's contracts speak of.
use std::collections::HashMap;
use vstd::prelude::*;

verus! {

/// Category of a tokenized asset; `Other` carries a free-text label.
#[derive(Debug, Clone)]
pub enum AssetType {
    Equity,
    Debt,
    RealEstate,
    Commodity,
    Fund,
    IntellectualProperty,
    Art,
    CarbonCredit,
    Other(String),
}

/// The view of an [`AssetType`]: the label of `Other` as a character sequence.
pub enum AssetTypeView {
    Equity,
    Debt,
    RealEstate,
    Commodity,
    Fund,
    IntellectualProperty,
    Art,
    CarbonCredit,
    Other(Seq<char>),
}

impl View for AssetType {
    type V = AssetTypeView;

    open spec fn view(&self) -> AssetTypeView {
        match self {
            AssetType::Equity => AssetTypeView::Equity,
            AssetType::Debt => AssetTypeView::Debt,
            AssetType::RealEstate => AssetTypeView::RealEstate,
            AssetType::Commodity => AssetTypeView::Commodity,
            AssetType::Fund => AssetTypeView::Fund,
            AssetType::IntellectualProperty => AssetTypeView::IntellectualProperty,
            AssetType::Art => AssetTypeView::Art,
            AssetType::CarbonCredit => AssetTypeView::CarbonCredit,
            AssetType::Other(s) => AssetTypeView::Other(s@),
        }
    }
}

impl AssetType {
    /// A detached copy of the category.
    pub fn duplicate(&self) -> (r: AssetType)
        ensures
            r@ == self@,
    {
        match self {
            AssetType::Equity => AssetType::Equity,
            AssetType::Debt => AssetType::Debt,
            AssetType::RealEstate => AssetType::RealEstate,
            AssetType::Commodity => AssetType::Commodity,
            AssetType::Fund => AssetType::Fund,
            AssetType::IntellectualProperty => AssetType::IntellectualProperty,
            AssetType::Art => AssetType::Art,
            AssetType::CarbonCredit => AssetType::CarbonCredit,
            AssetType::Other(s) => AssetType::Other(s.clone()),
        }
    }

    /// Whether two categories are the same (for `Other`, the same label).
    pub fn same_as(&self, other: &AssetType) -> (r: bool)
        ensures
            r == (self@ == other@),
    {
        match self {
            AssetType::Equity => match other {
                AssetType::Equity => true,
                _ => false,
            },
            AssetType::Debt => match other {
                AssetType::Debt => true,
                _ => false,
            },
            AssetType::RealEstate => match other {
                AssetType::RealEstate => true,
                _ => false,
            },
            AssetType::Commodity => match other {
                AssetType::Commodity => true,
                _ => false,
            },
            AssetType::Fund => match other {
                AssetType::Fund => true,
                _ => false,
            },
            AssetType::IntellectualProperty => match other {
                AssetType::IntellectualProperty => true,
                _ => false,
            },
            AssetType::Art => match other {
                AssetType::Art => true,
                _ => false,
            },
            AssetType::CarbonCredit => match other {
                AssetType::CarbonCredit => true,
                _ => false,
            },
            AssetType::Other(a) => match other {
                AssetType::Other(b) => a.eq(b),
                _ => false,
            },
        }
    }
}

impl PartialEq for AssetType {
    fn eq(&self, other: &AssetType) -> (r: bool) {
        self.same_as(other)
    }
}

impl vstd::std_specs::cmp::PartialEqSpecImpl for AssetType {
    open spec fn obeys_eq_spec() -> bool {
        true
    }

    open spec fn eq_spec(&self, other: &AssetType) -> bool {
        self@ == other@
    }
}

/// Compliance state of an asset.
#[derive(Debug, Clone, Copy, PartialEq, Eq, Structural)]
pub enum ComplianceStatus {
    Pending,
    Approved,
    Rejected,
    UnderReview,
}

/// Custody model of a wallet.
#[derive(Debug, Clone, Copy, PartialEq, Eq, Structural)]
pub enum WalletType {
    Custodial,
    NonCustodial,
    Hybrid,
}

/// A tokenized asset. `value` is a non-negative amount in the smallest
/// currency unit; timestamps are seconds since the Unix epoch.
#[derive(Debug, Clone)]
pub struct TokenizedAsset {
    pub id: String,
    pub name: String,
    pub asset_type: AssetType,
    pub value: u64,
    pub owner: String,
    pub metadata: HashMap<String, String>,
    pub compliance_status: ComplianceStatus,
    pub created_at: u64,
    pub updated_at: u64,
}

pub struct AssetView {
    pub id: Seq<char>,
    pub name: Seq<char>,
    pub asset_type: AssetTypeView,
    pub value: u64,
    pub owner: Seq<char>,
    pub metadata: Map<String, String>,
    pub compliance_status: ComplianceStatus,
    pub created_at: u64,
    pub updated_at: u64,
}

impl View for TokenizedAsset {
    type V = AssetView;

    open spec fn view(&self) -> AssetView {
        AssetView {
            id: self.id@,
            name: self.name@,
            asset_type: self.asset_type@,
            value: self.value,
            owner: self.owner@,
            metadata: self.metadata@,
            compliance_status: self.compliance_status,
            created_at: self.created_at,
            updated_at: self.updated_at,
        }
    }
}

impl TokenizedAsset {
    /// A detached copy of the record.
    pub fn duplicate(&self) -> (r: TokenizedAsset)
        ensures
            r@ == self@,
    {
        TokenizedAsset {
            id: self.id.clone(),
            name: self.name.clone(),
            asset_type: self.asset_type.duplicate(),
            value: self.value,
            owner: self.owner.clone(),
            metadata: self.metadata.clone(),
            compliance_status: self.compliance_status,
            created_at: self.created_at,
            updated_at: self.updated_at,
        }
    }
}

/// A wallet: the identifiers of the assets it holds, in the order they were
/// added, and a cached balance in the smallest currency unit.
#[derive(Debug, Clone)]
pub struct DigitalWallet {
    pub id: String,
    pub owner: String,
    pub assets: Vec<String>,
    pub balance: i128,
    pub wallet_type: WalletType,
    pub created_at: u64,
    pub updated_at: u64,
}

pub struct WalletView {
    pub id: Seq<char>,
    pub owner: Seq<char>,
    pub assets: Seq<Seq<char>>,
    pub balance: i128,
    pub wallet_type: WalletType,
    pub created_at: u64,
    pub updated_at: u64,
}

/// The character sequences of a list of strings.
pub open spec fn strings_view(v: Seq<String>) -> Seq<Seq<char>> {
    v.map_values(|s: String| s@)
}

impl View for DigitalWallet {
    type V = WalletView;

    open spec fn view(&self) -> WalletView {
        WalletView {
            id: self.id@,
            owner: self.owner@,
            assets: strings_view(self.assets@),
            balance: self.balance,
            wallet_type: self.wallet_type,
            created_at: self.created_at,
            updated_at: self.updated_at,
        }
    }
}

/// A detached copy of a list of strings.
pub fn copy_strings(v: &Vec<String>) -> (r: Vec<String>)
    ensures
        r@ == v@,
{
    let mut r: Vec<String> = Vec::new();
    let mut i: usize = 0;
    while i < v.len()
        invariant
            i <= v@.len(),
            r@ == v@.subrange(0, i as int),
        decreases v@.len() - i,
    {
        r.push(v[i].clone());
        i = i + 1;
    }
    assert(v@.subrange(0, v@.len() as int) =~= v@);
    r
}

impl DigitalWallet {
    /// A detached copy of the record.
    pub fn duplicate(&self) -> (r: DigitalWallet)
        ensures
            r@ == self@,
    {
        DigitalWallet {
            id: self.id.clone(),
            owner: self.owner.clone(),
            assets: copy_strings(&self.assets),
            balance: self.balance,
            wallet_type: self.wallet_type,
            created_at: self.created_at,
            updated_at: self.updated_at,
        }
    }
}

} // verus!
