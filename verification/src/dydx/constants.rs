//! The constants of signed orders that come with a StarkEx deployment: the table of
//! points of the Pedersen hash, the asset ids, and the expiration buffer.
use vstd::prelude::*;

use crate::dydx::crypto::{constant_points_valid, hash_bits, points_view};
use crate::dydx::ec_math::{field_prime, on_field, point_view, ECMath};
use crate::uint::Uint512;

verus! {

/// The constants that an order hash is computed with.
pub struct StarkConstants {
    /// The shift point, the generator, then the points for the bits of the first
    /// and of the second hashed element.
    pub constant_points: Vec<(Uint512, Uint512)>,
    /// The asset id of each market, in the order of `Markets::vector`.
    pub asset_ids: Vec<Uint512>,
    /// The asset id of USD collateral on the main network.
    pub usd_asset_id_mainnet: Uint512,
    /// The asset id of USD collateral on the test network.
    pub usd_asset_id_testnet: Uint512,
    /// The hours by which a signature outlives the expiration of its order.
    pub expiration_buffer_hours: u64,
}

impl StarkConstants {
    /// A table of points on the field for both hashed elements, and a distinct
    /// asset id for every market.
    pub open spec fn valid(&self) -> bool {
        &&& constant_points_valid(points_view(self.constant_points@))
        &&& self.asset_ids@.len() == 37
        &&& self.distinct_ids()
    }

    /// No two markets share an asset id.
    pub open spec fn distinct_ids(&self) -> bool {
        forall|i: int, j: int|
            0 <= i < j < self.asset_ids@.len() ==> #[trigger] self.asset_ids@[i]@
                != #[trigger] self.asset_ids@[j]@
    }

    /// The affine coordinates of the table of points.
    pub open spec fn table(&self) -> Seq<(nat, nat)> {
        points_view(self.constant_points@)
    }

    /// The asset id of USD collateral on the chosen network.
    pub open spec fn usd_id(&self, testnet: bool) -> nat {
        if testnet {
            self.usd_asset_id_testnet@
        } else {
            self.usd_asset_id_mainnet@
        }
    }

    /// The asset id of USD collateral on the chosen network.
    pub fn usd_asset_id(&self, testnet: bool) -> (r: Uint512)
        ensures
            r@ == self.usd_id(testnet),
    {
        if testnet {
            self.usd_asset_id_testnet
        } else {
            self.usd_asset_id_mainnet
        }
    }

    /// Whether the constants can be used: see `valid`.
    pub fn check(&self) -> (r: bool)
        ensures
            r == self.valid(),
    {
        if self.asset_ids.len() != 37 || self.constant_points.len() < 2 + 2 * 252 {
            return false;
        }
        let m = self.asset_ids.len();
        let mut i: usize = 0;
        while i < m
            invariant
                m == self.asset_ids@.len(),
                i <= m,
                forall|a: int, b: int|
                    0 <= a < b < m && a < i ==> #[trigger] self.asset_ids@[a]@
                        != #[trigger] self.asset_ids@[b]@,
            decreases m - i,
        {
            let mut j: usize = i + 1;
            while j < m
                invariant
                    m == self.asset_ids@.len(),
                    i < m,
                    i < j <= m,
                    forall|a: int, b: int|
                        0 <= a < b < m && a < i ==> #[trigger] self.asset_ids@[a]@
                            != #[trigger] self.asset_ids@[b]@,
                    forall|b: int| i < b < j ==> self.asset_ids@[i as int]@ != #[trigger] self.asset_ids@[b]@,
                decreases m - j,
            {
                if self.asset_ids[i].is_equal(&self.asset_ids[j]) {
                    return false;
                }
                j = j + 1;
            }
            i = i + 1;
        }
        let modulus = ECMath::field_prime_value();
        let n = self.constant_points.len();
        let mut i: usize = 0;
        while i < n
            invariant
                n == self.constant_points@.len(),
                i <= n,
                modulus@ == field_prime(),
                forall|j: int| 0 <= j < i ==> on_field(#[trigger] point_view(self.constant_points@[j])),
            decreases n - i,
        {
            let point = self.constant_points[i];
            if !modulus.is_greater(&point.0) || !modulus.is_greater(&point.1) {
                proof {
                    assert(points_view(self.constant_points@)[i as int] == point_view(point));
                }
                return false;
            }
            i = i + 1;
        }
        proof {
            assert forall|j: int| 0 <= j < self.table().len() implies on_field(
                #[trigger] self.table()[j],
            ) by {
                assert(self.table()[j] == point_view(self.constant_points@[j]));
            }
            assert(hash_bits() == 252);
        }
        true
    }
}

} // verus!
