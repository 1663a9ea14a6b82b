use vstd::prelude::*;
use coordinate_transformer::ZoomLv;
use dashmap::DashMap;
use fxhash::FxHasher;
use indexmap::IndexSet;
use std::hash::BuildHasherDefault;

verus! {

/// `dashmap::DashMap`, the sharded hash map that the hash stores, the surface and
/// the tiled voxelizer hold. What it holds is told by the trusted functions of
/// the module that holds it.
#[verifier::external_type_specification]
#[verifier::external_body]
#[verifier::reject_recursive_types(K)]
#[verifier::reject_recursive_types(V)]
#[verifier::reject_recursive_types(S)]
pub struct ExDashMap<K, V, S>(DashMap<K, V, S>);

/// `indexmap::IndexSet`, the set that keeps its items in the order of insertion.
#[verifier::external_type_specification]
#[verifier::external_body]
#[verifier::reject_recursive_types(T)]
#[verifier::reject_recursive_types(S)]
pub struct ExIndexSet<T, S>(IndexSet<T, S>);

/// `fxhash::FxHasher`, the hasher of both.
#[verifier::external_type_specification]
#[verifier::external_body]
pub struct ExFxHasher(FxHasher);

/// `std::hash::BuildHasherDefault`, which makes the hashers.
#[verifier::external_type_specification]
#[verifier::external_body]
#[verifier::reject_recursive_types(H)]
pub struct ExBuildHasherDefault<H>(BuildHasherDefault<H>);

/// `coordinate_transformer::ZoomLv`, the zoom level of a tile pyramid: one of
/// its levels from `Lv0` to `Lv24`.
#[verifier::external_type_specification]
pub struct ExZoomLv(ZoomLv);

} // verus!
