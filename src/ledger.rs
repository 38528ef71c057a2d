//! The ledger: a store of assets and a store of wallets, with the operations
//! that keep holdings and cached balances in step with the assets.
use crate::model::{
    AssetTypeView, AssetType, AssetView, ComplianceStatus, DigitalWallet, TokenizedAsset,
    WalletView, strings_view,
};
use crate::table::Table;
use vstd::prelude::*;

verus! {

/// Why a ledger operation failed.
#[derive(Debug, Clone, Copy, PartialEq, Eq, Structural)]
pub enum LedgerError {
    AssetNotFound,
    WalletNotFound,
    DuplicateHolding,
    AssetNotHeld,
    /// The lock around a shared ledger was poisoned.
    LockFailure,
}

/// The state of a ledger: each store as a map from identifier to record.
pub struct LedgerView {
    pub assets: Map<Seq<char>, AssetView>,
    pub wallets: Map<Seq<char>, WalletView>,
}

/// The position of the first occurrence of `x` in `s`.
#[verifier::opaque]
pub open spec fn first_index(s: Seq<Seq<char>>, x: Seq<char>) -> int {
    choose|i: int| 0 <= i < s.len() && s[i] == x && forall|j: int| 0 <= j < i ==> s[j] != x
}

/// How many times `x` occurs in `s`.
pub open spec fn occurrences(s: Seq<Seq<char>>, x: Seq<char>) -> nat
    decreases s.len(),
{
    if s.len() == 0 {
        0
    } else {
        occurrences(s.drop_last(), x) + if s.last() == x {
            1nat
        } else {
            0nat
        }
    }
}

/// The sum of the current values of the held assets that still exist.
pub open spec fn held_value(assets: Map<Seq<char>, AssetView>, holdings: Seq<Seq<char>>) -> int
    decreases holdings.len(),
{
    if holdings.len() == 0 {
        0
    } else {
        held_value(assets, holdings.drop_last()) + if assets.contains_key(holdings.last()) {
            assets[holdings.last()].value as int
        } else {
            0
        }
    }
}

/// The records among `entries` whose category is `t`, in order.
pub open spec fn of_type(entries: Seq<(Seq<char>, AssetView)>, t: AssetTypeView) -> Seq<AssetView>
    decreases entries.len(),
{
    if entries.len() == 0 {
        Seq::empty()
    } else {
        let rest = of_type(entries.drop_last(), t);
        if entries.last().1.asset_type == t {
            rest.push(entries.last().1)
        } else {
            rest
        }
    }
}

/// `w` with `a` appended to its holdings and `value` added to its balance.
pub open spec fn with_holding(w: WalletView, a: Seq<char>, value: u64) -> WalletView {
    WalletView {
        id: w.id,
        owner: w.owner,
        assets: w.assets.push(a),
        balance: (w.balance + value) as i128,
        wallet_type: w.wallet_type,
        created_at: w.created_at,
        updated_at: w.updated_at,
    }
}

/// `w` with the first occurrence of `a` taken out of its holdings and
/// `value` taken off its balance.
pub open spec fn without_holding(w: WalletView, a: Seq<char>, value: u64) -> WalletView {
    WalletView {
        id: w.id,
        owner: w.owner,
        assets: w.assets.remove(first_index(w.assets, a)),
        balance: (w.balance - value) as i128,
        wallet_type: w.wallet_type,
        created_at: w.created_at,
        updated_at: w.updated_at,
    }
}

/// `a` approved, its update time set to `now`.
pub open spec fn approved(a: AssetView, now: u64) -> AssetView {
    AssetView {
        id: a.id,
        name: a.name,
        asset_type: a.asset_type,
        value: a.value,
        owner: a.owner,
        metadata: a.metadata,
        compliance_status: ComplianceStatus::Approved,
        created_at: a.created_at,
        updated_at: now,
    }
}

impl LedgerView {
    pub open spec fn create_asset(self, a: AssetView) -> LedgerView {
        LedgerView { assets: self.assets.insert(a.id, a), wallets: self.wallets }
    }

    pub open spec fn update_asset(self, id: Seq<char>, a: AssetView) -> Result<LedgerView, LedgerError> {
        if self.assets.contains_key(id) {
            Ok(LedgerView { assets: self.assets.insert(id, a), wallets: self.wallets })
        } else {
            Err(LedgerError::AssetNotFound)
        }
    }

    pub open spec fn delete_asset(self, id: Seq<char>) -> Result<LedgerView, LedgerError> {
        if self.assets.contains_key(id) {
            Ok(LedgerView { assets: self.assets.remove(id), wallets: self.wallets })
        } else {
            Err(LedgerError::AssetNotFound)
        }
    }

    pub open spec fn create_wallet(self, w: WalletView) -> LedgerView {
        LedgerView { assets: self.assets, wallets: self.wallets.insert(w.id, w) }
    }

    /// Checks, in order: the wallet exists, the asset exists, the wallet does
    /// not hold it yet; then appends it and adds its value to the balance.
    pub open spec fn add_asset_to_wallet(self, w: Seq<char>, a: Seq<char>) -> Result<LedgerView, LedgerError> {
        if !self.wallets.contains_key(w) {
            Err(LedgerError::WalletNotFound)
        } else if !self.assets.contains_key(a) {
            Err(LedgerError::AssetNotFound)
        } else if self.wallets[w].assets.contains(a) {
            Err(LedgerError::DuplicateHolding)
        } else {
            Ok(
                LedgerView {
                    assets: self.assets,
                    wallets: self.wallets.insert(w, with_holding(self.wallets[w], a, self.assets[a].value)),
                },
            )
        }
    }

    /// The balance that a successful `add_asset_to_wallet` computes fits.
    pub open spec fn add_fits(self, w: Seq<char>, a: Seq<char>) -> bool {
        self.wallets.contains_key(w) && self.assets.contains_key(a) && !self.wallets[w].assets.contains(a)
            ==> self.wallets[w].balance + self.assets[a].value <= i128::MAX
    }

    /// The current value of an asset, 0 for one that does not exist.
    pub open spec fn current_value(self, a: Seq<char>) -> u64 {
        if self.assets.contains_key(a) {
            self.assets[a].value
        } else {
            0
        }
    }

    /// Checks that the wallet exists and holds the asset; then takes it out
    /// and takes the asset's current value off the balance.
    pub open spec fn remove_asset_from_wallet(self, w: Seq<char>, a: Seq<char>) -> Result<LedgerView, LedgerError> {
        if !self.wallets.contains_key(w) {
            Err(LedgerError::WalletNotFound)
        } else if !self.wallets[w].assets.contains(a) {
            Err(LedgerError::AssetNotHeld)
        } else {
            Ok(
                LedgerView {
                    assets: self.assets,
                    wallets: self.wallets.insert(w, without_holding(self.wallets[w], a, self.current_value(a))),
                },
            )
        }
    }

    /// The balance that a successful `remove_asset_from_wallet` computes fits.
    pub open spec fn remove_fits(self, w: Seq<char>, a: Seq<char>) -> bool {
        self.wallets.contains_key(w) && self.wallets[w].assets.contains(a) ==> self.wallets[w].balance
            - self.current_value(a) >= i128::MIN
    }

    pub open spec fn wallet_value(self, w: Seq<char>) -> Result<int, LedgerError> {
        if self.wallets.contains_key(w) {
            Ok(held_value(self.assets, self.wallets[w].assets))
        } else {
            Err(LedgerError::WalletNotFound)
        }
    }

    pub open spec fn perform_compliance_check(self, id: Seq<char>, now: u64) -> Result<LedgerView, LedgerError> {
        if self.assets.contains_key(id) {
            Ok(LedgerView { assets: self.assets.insert(id, approved(self.assets[id], now)), wallets: self.wallets })
        } else {
            Err(LedgerError::AssetNotFound)
        }
    }
}

/// Relies on std::time::SystemTime::now, read as whole seconds since the Unix
/// epoch (0 for a clock set before it).
#[verifier::external_body]
fn unix_now_secs() -> (r: u64) {
    std::time::SystemTime::now().duration_since(std::time::UNIX_EPOCH).map(|d| d.as_secs()).unwrap_or(0)
}

/// Whether `s` occurs in `v`.
fn holds(v: &Vec<String>, s: &str) -> (r: bool)
    ensures
        r == strings_view(v@).contains(s@),
{
    match position(v, s) {
        Some(_) => true,
        None => false,
    }
}

/// The position of the first occurrence of `s` in `v`.
fn position(v: &Vec<String>, s: &str) -> (r: Option<usize>)
    ensures
        match r {
            Some(i) => i < v@.len() && strings_view(v@)[i as int] == s@ && first_index(
                strings_view(v@),
                s@,
            ) == i,
            None => !strings_view(v@).contains(s@),
        },
{
    let wanted = s.to_owned();
    let ghost sv = strings_view(v@);
    let mut i: usize = 0;
    while i < v.len()
        invariant
            wanted@ == s@,
            sv == strings_view(v@),
            i <= v@.len(),
            forall|j: int| 0 <= j < i ==> sv[j] != s@,
        decreases v@.len() - i,
    {
        if v[i].eq(&wanted) {
            assert(0 <= i < sv.len() && sv[i as int] == s@ && forall|j: int|
                0 <= j < i ==> sv[j] != s@);
            reveal(first_index);
            return Some(i);
        }
        i = i + 1;
    }
    None
}

/// Owns the asset store and the wallet store.
pub struct TokenizationCore {
    assets: Table<TokenizedAsset>,
    wallets: Table<DigitalWallet>,
}

impl View for TokenizationCore {
    type V = LedgerView;

    closed spec fn view(&self) -> LedgerView {
        LedgerView { assets: self.assets.view(), wallets: self.wallets.view() }
    }
}

impl TokenizationCore {
    pub closed spec fn wf(&self) -> bool {
        self.assets.wf() && self.wallets.wf()
    }

    /// The asset store's entries in the order in which their identifiers
    /// were first stored.
    pub closed spec fn asset_order(&self) -> Seq<(Seq<char>, AssetView)> {
        self.assets.ordered()
    }

    /// The ordered entries list each asset of the store once.
    pub proof fn lemma_asset_order(&self)
        requires
            self.wf(),
        ensures
            forall|i: int|
                0 <= i < self.asset_order().len() ==> self@.assets.contains_key(
                    #[trigger] self.asset_order()[i].0,
                ) && self@.assets[self.asset_order()[i].0] == self.asset_order()[i].1,
            forall|k: Seq<char>|
                #[trigger] self@.assets.contains_key(k) ==> exists|i: int|
                    0 <= i < self.asset_order().len() && self.asset_order()[i].0 == k,
            forall|i: int, j: int|
                0 <= i < self.asset_order().len() && 0 <= j < self.asset_order().len() && i != j
                    ==> #[trigger] self.asset_order()[i].0 != #[trigger] self.asset_order()[j].0,
    {
        self.assets.lemma_ordered();
        assert forall|k: Seq<char>| #[trigger] self@.assets.contains_key(k) implies exists|i: int|
            0 <= i < self.asset_order().len() && self.asset_order()[i].0 == k by {
            assert(self.assets.view().contains_key(k));
            let i = choose|i: int| 0 <= i < self.assets.ordered().len() && self.assets.ordered()[i].0 == k;
            assert(self.asset_order()[i].0 == k);
        }
    }

    pub fn new() -> (r: Self)
        ensures
            r.wf(),
            r@.assets == Map::<Seq<char>, AssetView>::empty(),
            r@.wallets == Map::<Seq<char>, WalletView>::empty(),
    {
        TokenizationCore { assets: Table::new(), wallets: Table::new() }
    }

    /// Stores `asset` under its identifier, replacing any record already
    /// there, and returns the identifier.
    pub fn create_asset(&mut self, asset: TokenizedAsset) -> (r: Result<String, LedgerError>)
        requires
            old(self).wf(),
        ensures
            final(self).wf(),
            final(self)@ == old(self)@.create_asset(asset@),
            r matches Ok(id) && id@ == asset@.id,
    {
        let id = asset.id.clone();
        self.assets.insert(asset.id.clone(), asset);
        Ok(id)
    }

    /// A detached copy of the asset stored under `asset_id`, if any.
    pub fn get_asset(&self, asset_id: &str) -> (r: Result<Option<TokenizedAsset>, LedgerError>)
        requires
            self.wf(),
        ensures
            match r {
                Ok(Some(a)) => self@.assets.contains_key(asset_id@) && a@ == self@.assets[asset_id@],
                Ok(None) => !self@.assets.contains_key(asset_id@),
                Err(_) => false,
            },
    {
        match self.assets.get(asset_id) {
            Some(a) => Ok(Some(a.duplicate())),
            None => Ok(None),
        }
    }

    /// Replaces the asset stored under `asset_id`; fails if there is none.
    pub fn update_asset(&mut self, asset_id: &str, updated_asset: TokenizedAsset) -> (r: Result<(), LedgerError>)
        requires
            old(self).wf(),
        ensures
            final(self).wf(),
            match old(self)@.update_asset(asset_id@, updated_asset@) {
                Ok(next) => r is Ok && final(self)@ == next,
                Err(e) => r == Err::<(), LedgerError>(e) && final(self)@ == old(self)@,
            },
    {
        if self.assets.contains_key(asset_id) {
            self.assets.insert(asset_id.to_owned(), updated_asset);
            Ok(())
        } else {
            Err(LedgerError::AssetNotFound)
        }
    }

    /// Removes the asset stored under `asset_id`; fails if there is none.
    /// Wallets that hold it keep its identifier.
    pub fn delete_asset(&mut self, asset_id: &str) -> (r: Result<(), LedgerError>)
        requires
            old(self).wf(),
        ensures
            final(self).wf(),
            match old(self)@.delete_asset(asset_id@) {
                Ok(next) => r is Ok && final(self)@ == next,
                Err(e) => r == Err::<(), LedgerError>(e) && final(self)@ == old(self)@,
            },
    {
        match self.assets.remove(asset_id) {
            Some(_) => Ok(()),
            None => Err(LedgerError::AssetNotFound),
        }
    }

    /// Stores `wallet` under its identifier, replacing any record already
    /// there, and returns the identifier.
    pub fn create_wallet(&mut self, wallet: DigitalWallet) -> (r: Result<String, LedgerError>)
        requires
            old(self).wf(),
        ensures
            final(self).wf(),
            final(self)@ == old(self)@.create_wallet(wallet@),
            r matches Ok(id) && id@ == wallet@.id,
    {
        let id = wallet.id.clone();
        self.wallets.insert(wallet.id.clone(), wallet);
        Ok(id)
    }

    /// A detached copy of the wallet stored under `wallet_id`, if any.
    pub fn get_wallet(&self, wallet_id: &str) -> (r: Result<Option<DigitalWallet>, LedgerError>)
        requires
            self.wf(),
        ensures
            match r {
                Ok(Some(w)) => self@.wallets.contains_key(wallet_id@) && w@ == self@.wallets[wallet_id@],
                Ok(None) => !self@.wallets.contains_key(wallet_id@),
                Err(_) => false,
            },
    {
        match self.wallets.get(wallet_id) {
            Some(w) => Ok(Some(w.duplicate())),
            None => Ok(None),
        }
    }

    /// Links an asset to a wallet and adds the asset's value to the
    /// wallet's balance. Nothing changes when it fails.
    pub fn add_asset_to_wallet(&mut self, wallet_id: &str, asset_id: &str) -> (r: Result<(), LedgerError>)
        requires
            old(self).wf(),
            old(self)@.add_fits(wallet_id@, asset_id@),
        ensures
            final(self).wf(),
            match old(self)@.add_asset_to_wallet(wallet_id@, asset_id@) {
                Ok(next) => r is Ok && final(self)@ == next,
                Err(e) => r == Err::<(), LedgerError>(e) && final(self)@ == old(self)@,
            },
    {
        let wallet = match self.wallets.get(wallet_id) {
            Some(w) => w,
            None => return Err(LedgerError::WalletNotFound),
        };
        let value = match self.assets.get(asset_id) {
            Some(a) => a.value,
            None => return Err(LedgerError::AssetNotFound),
        };
        if holds(&wallet.assets, asset_id) {
            return Err(LedgerError::DuplicateHolding);
        }
        let mut next = wallet.duplicate();
        let ghost before = next.assets@;
        next.assets.push(asset_id.to_owned());
        proof {
            assert(strings_view(next.assets@) =~= strings_view(before).push(asset_id@));
        }
        next.balance = next.balance + value as i128;
        self.wallets.insert(wallet_id.to_owned(), next);
        Ok(())
    }

    /// Unlinks an asset from a wallet and takes the asset's current value
    /// (0 if it no longer exists) off the wallet's balance. Nothing changes
    /// when it fails.
    pub fn remove_asset_from_wallet(&mut self, wallet_id: &str, asset_id: &str) -> (r: Result<(), LedgerError>)
        requires
            old(self).wf(),
            old(self)@.remove_fits(wallet_id@, asset_id@),
        ensures
            final(self).wf(),
            match old(self)@.remove_asset_from_wallet(wallet_id@, asset_id@) {
                Ok(next) => r is Ok && final(self)@ == next,
                Err(e) => r == Err::<(), LedgerError>(e) && final(self)@ == old(self)@,
            },
    {
        let wallet = match self.wallets.get(wallet_id) {
            Some(w) => w,
            None => return Err(LedgerError::WalletNotFound),
        };
        let index = match position(&wallet.assets, asset_id) {
            Some(i) => i,
            None => return Err(LedgerError::AssetNotHeld),
        };
        let value: u64 = match self.assets.get(asset_id) {
            Some(a) => a.value,
            None => 0,
        };
        let ghost w0 = wallet@;
        let mut next = wallet.duplicate();
        let ghost before = next.assets@;
        next.assets.remove(index);
        proof {
            assert(strings_view(next.assets@) =~= strings_view(before).remove(index as int));
            assert(value == old(self)@.current_value(asset_id@));
        }
        next.balance = next.balance - value as i128;
        assert(next@ == without_holding(w0, asset_id@, value));
        self.wallets.insert(wallet_id.to_owned(), next);
        Ok(())
    }

    /// Approves the asset and sets its update time to `now`.
    pub fn perform_compliance_check_at(&mut self, asset_id: &str, now: u64) -> (r: Result<ComplianceStatus, LedgerError>)
        requires
            old(self).wf(),
        ensures
            final(self).wf(),
            match old(self)@.perform_compliance_check(asset_id@, now) {
                Ok(next) => r == Ok::<ComplianceStatus, LedgerError>(ComplianceStatus::Approved) && final(self)@ == next,
                Err(e) => r == Err::<ComplianceStatus, LedgerError>(e) && final(self)@ == old(self)@,
            },
    {
        let mut next = match self.assets.get(asset_id) {
            Some(a) => a.duplicate(),
            None => return Err(LedgerError::AssetNotFound),
        };
        next.compliance_status = ComplianceStatus::Approved;
        next.updated_at = now;
        self.assets.insert(asset_id.to_owned(), next);
        Ok(ComplianceStatus::Approved)
    }

    /// Approves the asset and sets its update time to the current time.
    pub fn perform_compliance_check(&mut self, asset_id: &str) -> (r: Result<ComplianceStatus, LedgerError>)
        requires
            old(self).wf(),
        ensures
            final(self).wf(),
            match r {
                Ok(status) => status == ComplianceStatus::Approved && exists|now: u64|
                    old(self)@.perform_compliance_check(asset_id@, now) == Ok::<LedgerView, LedgerError>(final(self)@),
                Err(e) => e == LedgerError::AssetNotFound && !old(self)@.assets.contains_key(asset_id@)
                    && final(self)@ == old(self)@,
            },
    {
        let now = unix_now_secs();
        self.perform_compliance_check_at(asset_id, now)
    }

    /// The assets of the given category, in the store's order.
    pub fn get_assets_by_type(&self, asset_type: AssetType) -> (r: Result<Vec<TokenizedAsset>, LedgerError>)
        requires
            self.wf(),
        ensures
            r matches Ok(v) && v@.map_values(|a: TokenizedAsset| a@) == of_type(self.asset_order(), asset_type@),
    {
        let mut found: Vec<TokenizedAsset> = Vec::new();
        let mut i: usize = 0;
        while i < self.assets.len()
            invariant
                self.wf(),
                i <= self.asset_order().len(),
                found@.map_values(|a: TokenizedAsset| a@) == of_type(self.asset_order().subrange(0, i as int), asset_type@),
            decreases self.asset_order().len() - i,
        {
            let a = self.assets.value_at(i);
            let ghost prev = found@;
            proof {
                let o = self.asset_order();
                assert(o.subrange(0, i + 1).drop_last() =~= o.subrange(0, i as int));
            }
            if a.asset_type.same_as(&asset_type) {
                found.push(a.duplicate());
                assert(found@.map_values(|a: TokenizedAsset| a@) =~= prev.map_values(|a: TokenizedAsset| a@).push(a@));
            }
            i = i + 1;
        }
        assert(self.asset_order().subrange(0, i as int) =~= self.asset_order());
        Ok(found)
    }

    /// The sum of the current values of the assets that the wallet holds,
    /// skipping identifiers that no longer resolve.
    pub fn get_wallet_value(&self, wallet_id: &str) -> (r: Result<u128, LedgerError>)
        requires
            self.wf(),
        ensures
            match r {
                Ok(v) => self@.wallet_value(wallet_id@) == Ok::<int, LedgerError>(v as int),
                Err(e) => self@.wallet_value(wallet_id@) == Err::<int, LedgerError>(e),
            },
    {
        let wallet = match self.wallets.get(wallet_id) {
            Some(w) => w,
            None => return Err(LedgerError::WalletNotFound),
        };
        let ghost held = strings_view(wallet.assets@);
        let mut total: u128 = 0;
        let mut i: usize = 0;
        while i < wallet.assets.len()
            invariant
                self.wf(),
                held == strings_view(wallet.assets@),
                i <= held.len(),
                total == held_value(self@.assets, held.subrange(0, i as int)),
                total <= i * 0xffff_ffff_ffff_ffffu128,
            decreases held.len() - i,
        {
            let value: u64 = match self.assets.get(wallet.assets[i].as_str()) {
                Some(a) => a.value,
                None => 0,
            };
            proof {
                assert(held.subrange(0, i + 1).drop_last() =~= held.subrange(0, i as int));
                assert(held.subrange(0, i + 1).last() == wallet.assets@[i as int]@);
                assert(i < 0x1_0000_0000_0000_0000);
                assert(total + value <= (i + 1) * 0xffff_ffff_ffff_ffffu128) by (nonlinear_arith)
                    requires
                        total <= i * 0xffff_ffff_ffff_ffffu128,
                        value <= 0xffff_ffff_ffff_ffffu64,
                ;
                assert((i + 1) * 0xffff_ffff_ffff_ffffu128 <= 0x1_0000_0000_0000_0000 * 0xffff_ffff_ffff_ffffu128)
                    by (nonlinear_arith)
                    requires
                        i < 0x1_0000_0000_0000_0000,
                ;
            }
            total = total + value as u128;
            i = i + 1;
        }
        assert(held.subrange(0, i as int) =~= held);
        Ok(total)
    }
}

impl Default for TokenizationCore {
    fn default() -> (r: Self)
        ensures
            r.wf(),
            r@.assets == Map::<Seq<char>, AssetView>::empty(),
            r@.wallets == Map::<Seq<char>, WalletView>::empty(),
    {
        TokenizationCore::new()
    }
}

} // verus!
