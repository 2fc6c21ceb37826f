use vstd::prelude::*;
use ic_stable_structures::memory_manager::{MemoryId, MemoryManager, VirtualMemory};
use ic_stable_structures::{DefaultMemoryImpl, StableBTreeMap};

verus! {

/// The durable page region: the single persistent byte area that survives
/// process restarts. Opaque here; the ordered map recorded in each of its
/// sub-regions is reflected by `region_part`.
#[verifier::external_body]
pub struct Region {
    mem: DefaultMemoryImpl,
}

/// The entries of the ordered map recorded in sub-region `id` of region `r`,
/// as a map from keys to encoded records.
pub uninterp spec fn region_part(r: Region, id: u8) -> Map<u64, Seq<u8>>;

/// True of a region whose layout this library's partitioner can attach to:
/// fresh regions and regions previously written through this layer.
pub uninterp spec fn region_wf(r: Region) -> bool;

/// The region partitioner: carves one durable region into disjoint,
/// independently growable sub-regions identified by small integer ids.
#[verifier::external_body]
pub struct Partitioner {
    mgr: MemoryManager<DefaultMemoryImpl>,
    base: DefaultMemoryImpl,
}

/// The entries recorded in sub-region `id` of the region behind `p`.
pub uninterp spec fn partitioner_part(p: Partitioner, id: u8) -> Map<u64, Seq<u8>>;

/// The sub-region ids whose handles are currently handed out. While a handle
/// is outstanding the partitioner's record of that sub-region may be stale,
/// so an id can be taken at most once before its handle comes back.
pub uninterp spec fn partitioner_taken(p: Partitioner) -> Set<u8>;

/// A ghost identity of the partitioner: which underlying manager the value
/// stands for. It is unchanged by taking and returning handles, and every
/// handle records the identity of the partitioner that issued it, so a
/// handle can only be returned to that partitioner.
pub uninterp spec fn partitioner_token(p: Partitioner) -> int;

/// The identity of the partitioner that issued this handle, and the
/// sub-region id the handle views.
pub uninterp spec fn sub_origin(s: SubRegion) -> (int, u8);

/// The identity of the partitioner whose sub-region backs this store, and
/// that sub-region's id.
pub uninterp spec fn store_origin(b: ByteStore) -> (int, u8);

/// A handle to one sub-region of a partitioned durable region.
#[verifier::external_body]
pub struct SubRegion {
    mem: VirtualMemory<DefaultMemoryImpl>,
}

/// The entries of the ordered map recorded in the sub-region behind `s`.
pub uninterp spec fn sub_entries(s: SubRegion) -> Map<u64, Seq<u8>>;

/// One ordered persistent map of encoded records under unsigned 64-bit keys,
/// backed by one sub-region.
#[verifier::external_body]
pub struct ByteStore {
    map: StableBTreeMap<u64, Vec<u8>, VirtualMemory<DefaultMemoryImpl>>,
}

/// The entries the byte store holds.
pub uninterp spec fn store_entries(b: ByteStore) -> Map<u64, Seq<u8>>;

/// The id of the primary sub-region a service carves out of its region.
pub const PRIMARY_SUB_REGION: u8 = 0;

/// The id of the secondary sub-region, where a service keeps a second map.
pub const SECONDARY_SUB_REGION: u8 = 1;

/// The contents of a sub-region nothing has been written to.
pub open spec fn empty_bytes_map() -> Map<u64, Seq<u8>> {
    Map::empty()
}

/// Relies on `VectorMemory::default`: a freshly allocated in-memory region,
/// empty on every host, so the two sub-regions this library uses record no
/// entries yet.
#[verifier::external_body]
fn region_new() -> (r: Region)
    ensures
        region_wf(r),
        region_part(r, PRIMARY_SUB_REGION) == empty_bytes_map(),
        region_part(r, SECONDARY_SUB_REGION) == empty_bytes_map(),
{
    Region { mem: ic_stable_structures::VectorMemory::default() }
}

/// A fresh, empty region: the in-memory substitute for the durable page
/// region, for hosts without persistent memory and for tests. For the
/// process's one persistent region, use `attached_region`.
pub fn fresh_region() -> (r: Region)
    ensures
        region_wf(r),
        region_part(r, PRIMARY_SUB_REGION) == empty_bytes_map(),
        region_part(r, SECONDARY_SUB_REGION) == empty_bytes_map(),
{
    region_new()
}

/// Relies on `DefaultMemoryImpl::default`: a handle onto the process's one
/// default memory region, persistent where the host persists it (then it
/// holds whatever this layer last wrote, not reformatted). Nothing is
/// claimed of its contents: a caller reattaching a service after a restart
/// trusts, at that service's `init`, that the stored layout is the one this
/// layer maintains, and must not attach two services to this one region.
#[verifier::external_body]
pub fn attached_region() -> (r: Region)
    ensures
        region_wf(r),
{
    Region { mem: DefaultMemoryImpl::default() }
}

/// Relies on `MemoryManager::init`: attaches to the region without
/// reformatting it, so every sub-region keeps the entries already recorded.
#[verifier::external_body]
pub(crate) fn partitioner_attach(r: Region) -> (p: Partitioner)
    requires
        region_wf(r),
    ensures
        partitioner_taken(p) == Set::<u8>::empty(),
        partitioner_part(p, PRIMARY_SUB_REGION) == region_part(r, PRIMARY_SUB_REGION),
        partitioner_part(p, SECONDARY_SUB_REGION) == region_part(r, SECONDARY_SUB_REGION),
{
    let base = r.mem.clone();
    Partitioner { mgr: MemoryManager::init(r.mem), base }
}

/// Relies on `MemoryManager::get` and `MemoryId::new`: the returned handle is
/// a view over the one sub-region with this id; distinct ids never overlap,
/// and growing one sub-region never alters another.
#[verifier::external_body]
pub(crate) fn partitioner_take(p: &mut Partitioner, id: u8) -> (s: SubRegion)
    requires
        id < 255,
        !partitioner_taken(*old(p)).contains(id),
    ensures
        partitioner_taken(*final(p)) == partitioner_taken(*old(p)).insert(id),
        partitioner_token(*final(p)) == partitioner_token(*old(p)),
        partitioner_part(*final(p), PRIMARY_SUB_REGION) == partitioner_part(
            *old(p),
            PRIMARY_SUB_REGION,
        ),
        partitioner_part(*final(p), SECONDARY_SUB_REGION) == partitioner_part(
            *old(p),
            SECONDARY_SUB_REGION,
        ),
        sub_entries(s) == partitioner_part(*old(p), id),
        sub_origin(s) == (partitioner_token(*old(p)), id),
{
    SubRegion { mem: p.mgr.get(MemoryId::new(id)) }
}

/// Returns a sub-region handle to the partitioner it was taken from: the
/// origin precondition admits no other partitioner's handle. The handle
/// shares the partitioner's storage, so nothing needs to move; the
/// partitioner's record of that sub-region becomes current again.
#[verifier::external_body]
pub(crate) fn partitioner_put_back(p: &mut Partitioner, id: u8, s: SubRegion)
    requires
        partitioner_taken(*old(p)).contains(id),
        sub_origin(s) == (partitioner_token(*old(p)), id),
    ensures
        partitioner_taken(*final(p)) == partitioner_taken(*old(p)).remove(id),
        partitioner_token(*final(p)) == partitioner_token(*old(p)),
        partitioner_part(*final(p), id) == sub_entries(s),
        id != PRIMARY_SUB_REGION ==> partitioner_part(*final(p), PRIMARY_SUB_REGION)
            == partitioner_part(*old(p), PRIMARY_SUB_REGION),
        id != SECONDARY_SUB_REGION ==> partitioner_part(*final(p), SECONDARY_SUB_REGION)
            == partitioner_part(*old(p), SECONDARY_SUB_REGION),
{
    let _ = s;
}

/// Relies on `MemoryManager::into_memory`: hands back the underlying durable
/// region; with every sub-region handle returned, each sub-region's recorded
/// entries are exactly what the partitioner last saw.
#[verifier::external_body]
pub(crate) fn partitioner_detach(p: Partitioner) -> (r: Region)
    requires
        partitioner_taken(p) == Set::<u8>::empty(),
    ensures
        region_wf(r),
        region_part(r, PRIMARY_SUB_REGION) == partitioner_part(p, PRIMARY_SUB_REGION),
        region_part(r, SECONDARY_SUB_REGION) == partitioner_part(p, SECONDARY_SUB_REGION),
{
    let base = p.base;
    match p.mgr.into_memory() {
        Some(mem) => Region { mem },
        None => Region { mem: base },
    }
}

/// Relies on `StableBTreeMap::init`: loads the map already recorded in the
/// sub-region, or creates an empty one where the sub-region is fresh.
#[verifier::external_body]
pub(crate) fn store_attach(s: SubRegion) -> (b: ByteStore)
    ensures
        store_entries(b) == sub_entries(s),
        store_entries(b).dom().finite(),
        store_origin(b) == sub_origin(s),
{
    ByteStore { map: StableBTreeMap::init(s.mem) }
}

/// Relies on `StableBTreeMap::into_memory`: hands back the sub-region handle;
/// the sub-region records exactly the store's entries.
#[verifier::external_body]
pub(crate) fn store_detach(b: ByteStore) -> (s: SubRegion)
    ensures
        sub_entries(s) == store_entries(b),
        sub_origin(s) == store_origin(b),
{
    SubRegion { mem: b.map.into_memory() }
}

/// Relies on `StableBTreeMap::get`: point lookup.
#[verifier::external_body]
pub(crate) fn store_get(b: &ByteStore, key: u64) -> (r: Option<Vec<u8>>)
    ensures
        match r {
            Some(v) => store_entries(*b).dom().contains(key) && v@ == store_entries(*b)[key],
            None => !store_entries(*b).dom().contains(key),
        },
{
    b.map.get(&key)
}

/// Relies on `StableBTreeMap::insert`: inserts or overwrites the entry under
/// the key and returns the previous record there, if any.
#[verifier::external_body]
pub(crate) fn store_insert(b: &mut ByteStore, key: u64, value: Vec<u8>) -> (prev: Option<Vec<u8>>)
    ensures
        store_entries(*final(b)) == store_entries(*old(b)).insert(key, value@),
        store_origin(*final(b)) == store_origin(*old(b)),
        match prev {
            Some(v) => store_entries(*old(b)).dom().contains(key) && v@ == store_entries(*old(b))[key],
            None => !store_entries(*old(b)).dom().contains(key),
        },
{
    b.map.insert(key, value)
}

/// Relies on `StableBTreeMap::remove`: deletes the entry under the key and
/// returns it, if any.
#[verifier::external_body]
pub(crate) fn store_remove(b: &mut ByteStore, key: u64) -> (prev: Option<Vec<u8>>)
    ensures
        store_entries(*final(b)) == store_entries(*old(b)).remove(key),
        store_origin(*final(b)) == store_origin(*old(b)),
        match prev {
            Some(v) => store_entries(*old(b)).dom().contains(key) && v@ == store_entries(*old(b))[key],
            None => !store_entries(*old(b)).dom().contains(key),
        },
{
    b.map.remove(&key)
}

/// Relies on `StableBTreeMap::len`: the number of live entries.
#[verifier::external_body]
pub(crate) fn store_len(b: &ByteStore) -> (n: u64)
    ensures
        n == store_entries(*b).dom().len(),
{
    b.map.len()
}

/// True when `out` lists the entries of `m`: ascending keys, each entry of
/// `m` exactly once.
pub open spec fn lists_entries(out: Seq<(u64, Vec<u8>)>, m: Map<u64, Seq<u8>>) -> bool {
    &&& forall|i: int, j: int| 0 <= i < j < out.len() ==> out[i].0 < out[j].0
    &&& forall|i: int|
        0 <= i < out.len() ==> m.dom().contains(out[i].0) && out[i].1@ == m[out[i].0]
    &&& forall|k: u64|
        m.dom().contains(k) ==> exists|i: int| 0 <= i < out.len() && out[i].0 == k
}

/// Relies on `StableBTreeMap::iter`: yields the entries in ascending key
/// order, each key exactly once.
#[verifier::external_body]
pub(crate) fn store_entries_vec(b: &ByteStore) -> (out: Vec<(u64, Vec<u8>)>)
    ensures
        lists_entries(out@, store_entries(*b)),
{
    b.map.iter().map(|e| e.into_pair()).collect()
}

} // verus!
