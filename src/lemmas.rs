//! Laws that relate the ledger's operations to one another, stated over the
//! ledger's view.
use crate::ledger::{LedgerError, LedgerView, held_value, occurrences};
use crate::model::AssetView;
use vstd::prelude::*;

verus! {

/// An identifier that does not occur in a sequence is counted zero times.
pub proof fn lemma_absent_occurs_never(s: Seq<Seq<char>>, x: Seq<char>)
    requires
        !s.contains(x),
    ensures
        occurrences(s, x) == 0,
    decreases s.len(),
{
    if s.len() > 0 {
        assert(!s.drop_last().contains(x)) by {
            if s.drop_last().contains(x) {
                let i = choose|i: int| 0 <= i < s.drop_last().len() && s.drop_last()[i] == x;
                assert(s[i] == x);
            }
        }
        lemma_absent_occurs_never(s.drop_last(), x);
        assert(s[s.len() - 1] != x);
    }
}

/// Reading an asset right after creating it gives back the record created.
pub proof fn lemma_create_then_get(ledger: LedgerView, asset: AssetView)
    ensures
        ledger.create_asset(asset).assets.contains_key(asset.id),
        ledger.create_asset(asset).assets[asset.id] == asset,
{
}

/// After a successful link of asset `a` to wallet `w`, the wallet holds `a`
/// exactly once, and the wallet's value has grown by the value of `a`.
pub proof fn lemma_add_holds_once(ledger: LedgerView, w: Seq<char>, a: Seq<char>)
    requires
        ledger.add_asset_to_wallet(w, a) is Ok,
    ensures
        ({
            let next = ledger.add_asset_to_wallet(w, a)->Ok_0;
            &&& occurrences(next.wallets[w].assets, a) == 1
            &&& next.wallet_value(w) == Ok::<int, LedgerError>(
                held_value(ledger.assets, ledger.wallets[w].assets) + ledger.assets[a].value,
            )
            &&& ledger.wallet_value(w) == Ok::<int, LedgerError>(held_value(ledger.assets, ledger.wallets[w].assets))
        }),
{
    let s = ledger.wallets[w].assets;
    let next = ledger.add_asset_to_wallet(w, a)->Ok_0;
    assert(next.wallets[w].assets == s.push(a));
    assert(s.push(a).drop_last() =~= s);
    lemma_absent_occurs_never(s, a);
}

/// Linking the same asset to the same wallet a second time fails with
/// `DuplicateHolding` (so the holdings stay as the first link left them).
pub proof fn lemma_add_twice(ledger: LedgerView, w: Seq<char>, a: Seq<char>)
    requires
        ledger.add_asset_to_wallet(w, a) is Ok,
    ensures
        (ledger.add_asset_to_wallet(w, a)->Ok_0).add_asset_to_wallet(w, a) == Err::<LedgerView, LedgerError>(
            LedgerError::DuplicateHolding,
        ),
{
    let s = ledger.wallets[w].assets;
    let next = ledger.add_asset_to_wallet(w, a)->Ok_0;
    assert(next.wallets[w].assets[s.len() as int] == a);
}

/// Unlinking an asset that the wallet does not hold fails with
/// `AssetNotHeld` (so the wallet stays as it was).
pub proof fn lemma_remove_not_held(ledger: LedgerView, w: Seq<char>, a: Seq<char>)
    requires
        ledger.wallets.contains_key(w),
        !ledger.wallets[w].assets.contains(a),
    ensures
        ledger.remove_asset_from_wallet(w, a) == Err::<LedgerView, LedgerError>(LedgerError::AssetNotHeld),
{
}

/// Updating an identifier that has no asset fails with `AssetNotFound`
/// (so no record is created).
pub proof fn lemma_update_missing(ledger: LedgerView, id: Seq<char>, asset: AssetView)
    requires
        !ledger.assets.contains_key(id),
    ensures
        ledger.update_asset(id, asset) == Err::<LedgerView, LedgerError>(LedgerError::AssetNotFound),
{
}

} // verus!
