//! Asset identification for pools that pair the native asset with named
//! assets: a combined identifier that orders the native asset below every
//! named asset, and the conversions between the combined and the plain
//! form.
use core::cmp::Ordering;
use core::marker::PhantomData;
use vstd::prelude::*;

verus! {

/// Stores what liquidity-pool token a particular pool has.
#[derive(Clone, Copy, PartialEq, Eq, Debug)]
pub struct PoolInfo<PoolAssetId> {
    /// The liquidity pool's own asset.
    pub lp_token: PoolAssetId,
}

/// Conversion between a combined native-or-named asset identifier and a
/// plain asset identifier.
pub trait MultiAssetIdConverter<MultiAssetId, AssetId> {
    /// The identifier of the native asset.
    fn get_native() -> MultiAssetId;

    /// Extracts the plain asset identifier; the native asset has none.
    fn try_convert(asset: MultiAssetId) -> Result<AssetId, ()>;

    /// Wraps a plain asset identifier into the combined form.
    fn into_multiasset_id(asset: AssetId) -> MultiAssetId;
}

/// Either the native asset or a named asset.
#[derive(Clone, Copy, Debug)]
pub enum NativeOrAssetId<AssetId> {
    /// The native asset of the system.
    Native,
    /// A named asset.
    Asset(AssetId),
}

impl NativeOrAssetId<u32> {
    /// The ordering on combined identifiers: the native asset is lowest,
    /// named assets follow their identifiers.
    pub open spec fn spec_cmp(self, other: Self) -> Ordering {
        match (self, other) {
            (NativeOrAssetId::Native, NativeOrAssetId::Native) => Ordering::Equal,
            (NativeOrAssetId::Native, NativeOrAssetId::Asset(_)) => Ordering::Less,
            (NativeOrAssetId::Asset(_), NativeOrAssetId::Native) => Ordering::Greater,
            (NativeOrAssetId::Asset(x), NativeOrAssetId::Asset(y)) => if x < y {
                Ordering::Less
            } else if x == y {
                Ordering::Equal
            } else {
                Ordering::Greater
            },
        }
    }

    /// Compares two combined identifiers; the native asset is lowest.
    pub fn cmp(&self, other: &Self) -> (r: Ordering)
        ensures
            r == self.spec_cmp(*other),
    {
        match (self, other) {
            (NativeOrAssetId::Native, NativeOrAssetId::Native) => Ordering::Equal,
            (NativeOrAssetId::Native, NativeOrAssetId::Asset(_)) => Ordering::Less,
            (NativeOrAssetId::Asset(_), NativeOrAssetId::Native) => Ordering::Greater,
            (NativeOrAssetId::Asset(x), NativeOrAssetId::Asset(y)) => {
                if *x < *y {
                    Ordering::Less
                } else if *x == *y {
                    Ordering::Equal
                } else {
                    Ordering::Greater
                }
            },
        }
    }

    /// The partial ordering; combined identifiers are totally ordered, so
    /// this always answers.
    pub fn partial_cmp(&self, other: &Self) -> (r: Option<Ordering>)
        ensures
            r == Some(self.spec_cmp(*other)),
    {
        Some(self.cmp(other))
    }

    /// Whether two combined identifiers are the same asset.
    pub fn eq(&self, other: &Self) -> (r: bool)
        ensures
            r <==> self.spec_cmp(*other) == Ordering::Equal,
    {
        match self.cmp(other) {
            Ordering::Equal => true,
            _ => false,
        }
    }
}

/// The converter between `NativeOrAssetId<AssetId>` and `AssetId`.
pub struct NativeOrAssetIdConverter<AssetId> {
    _phantom: PhantomData<AssetId>,
}

impl<AssetId> MultiAssetIdConverter<NativeOrAssetId<AssetId>, AssetId> for NativeOrAssetIdConverter<
    AssetId,
> {
    fn get_native() -> (r: NativeOrAssetId<AssetId>)
        ensures
            r is Native,
    {
        NativeOrAssetId::Native
    }

    fn try_convert(asset: NativeOrAssetId<AssetId>) -> (r: Result<AssetId, ()>)
        ensures
            match asset {
                NativeOrAssetId::Asset(a) => r == Ok::<AssetId, ()>(a),
                NativeOrAssetId::Native => r == Err::<AssetId, ()>(()),
            },
    {
        match asset {
            NativeOrAssetId::Asset(a) => Ok(a),
            NativeOrAssetId::Native => Err(()),
        }
    }

    fn into_multiasset_id(asset: AssetId) -> (r: NativeOrAssetId<AssetId>)
        ensures
            r == NativeOrAssetId::Asset(asset),
    {
        NativeOrAssetId::Asset(asset)
    }
}

} // verus!
