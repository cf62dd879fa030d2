//! Per-zone network address allocation.
//!
//! Each zone is a block of IPv4 addresses given by a base address and a
//! prefix length. The first address of the block is the network address,
//! the second is the gateway and the last is the broadcast address; the
//! addresses in between form the pool handed out to realms.
use vstd::prelude::*;
use crate::text::str_eq;

verus! {

/// Why an allocator operation failed.
#[derive(PartialEq, Eq, Structural, Clone, Copy, Debug)]
pub enum NetworkError {
    /// No zone of that name is configured.
    ZoneUnknown,
    /// Every address of the zone's pool is held.
    PoolExhausted,
    /// The requested address is held by another realm.
    AddressInUse,
    /// The requested address is not in the zone's pool.
    OutOfRange,
}

/// The shape of a zone: its first address and its number of addresses.
pub struct ZoneShape {
    pub base: nat,
    pub prefix: nat,
    pub size: nat,
}

/// What the allocator holds: the configured zones by name, and the address
/// held by each (zone, realm) pair.
pub struct AllocatorModel {
    pub zones: Map<Seq<char>, ZoneShape>,
    pub held: Map<(Seq<char>, Seq<char>), u32>,
}

/// 2 to the power `n`.
pub open spec fn two_pow(n: nat) -> nat
    decreases n,
{
    if n == 0 { 1 } else { 2 * two_pow((n - 1) as nat) }
}

/// The number of addresses that fit in an IPv4 address space.
pub open spec fn address_space() -> nat {
    0x1_0000_0000
}

/// Whether `a` is an address that a zone of this shape may hand out.
pub open spec fn in_pool(z: ZoneShape, a: nat) -> bool {
    z.base + 2 <= a && a + 1 < z.base + z.size
}

/// The gateway address of a zone of this shape.
pub open spec fn gateway_of(z: ZoneShape) -> nat {
    z.base + 1
}

impl AllocatorModel {
    /// Whether some realm holds `a` in `zone`.
    pub open spec fn in_use(self, zone: Seq<char>, a: nat) -> bool {
        exists|r: Seq<char>| #[trigger]
            self.held.contains_key((zone, r)) && self.held[(zone, r)] == a
    }

    /// Whether `a` is the lowest address of the zone's pool that nobody holds.
    pub open spec fn is_lowest_free(self, zone: Seq<char>, a: nat) -> bool {
        &&& in_pool(self.zones[zone], a)
        &&& !self.in_use(zone, a)
        &&& forall|b: nat| in_pool(self.zones[zone], b) && b < a ==> #[trigger] self.in_use(zone, b)
    }

    /// Whether every address of the zone's pool is held.
    pub open spec fn exhausted(self, zone: Seq<char>) -> bool {
        forall|b: nat| in_pool(self.zones[zone], b) ==> #[trigger] self.in_use(zone, b)
    }

    /// The state after `realm` takes `a` in `zone`, giving up what it held there.
    pub open spec fn with_held(self, zone: Seq<char>, realm: Seq<char>, a: u32) -> Self {
        AllocatorModel { zones: self.zones, held: self.held.insert((zone, realm), a) }
    }

    /// The state after `realm` gives up what it held in `zone`.
    pub open spec fn without(self, zone: Seq<char>, realm: Seq<char>) -> Self {
        AllocatorModel { zones: self.zones, held: self.held.remove((zone, realm)) }
    }

    /// The lowest free address of the zone's pool, where there is one.
    pub open spec fn lowest_free(self, zone: Seq<char>) -> u32 {
        choose|a: u32| self.is_lowest_free(zone, a as nat)
    }

    /// What `allocate_address_for` returns, and the state it leaves.
    pub open spec fn allocate(self, zone: Seq<char>, realm: Seq<char>) -> (Result<u32, NetworkError>, Self) {
        if !self.zones.contains_key(zone) {
            (Err(NetworkError::ZoneUnknown), self)
        } else if self.held.contains_key((zone, realm)) {
            (Ok(self.held[(zone, realm)]), self)
        } else if self.exhausted(zone) {
            (Err(NetworkError::PoolExhausted), self)
        } else {
            (Ok(self.lowest_free(zone)), self.with_held(zone, realm, self.lowest_free(zone)))
        }
    }

    /// What `allocate_reserved` returns, and the state it leaves.
    pub open spec fn reserve(self, zone: Seq<char>, realm: Seq<char>, a: u32) -> (Result<u32, NetworkError>, Self) {
        if !self.zones.contains_key(zone) {
            (Err(NetworkError::ZoneUnknown), self)
        } else if !in_pool(self.zones[zone], a as nat) {
            (Err(NetworkError::OutOfRange), self)
        } else if self.held.contains_key((zone, realm)) && self.held[(zone, realm)] == a {
            (Ok(a), self)
        } else if self.in_use(zone, a as nat) {
            (Err(NetworkError::AddressInUse), self)
        } else {
            (Ok(a), self.with_held(zone, realm, a))
        }
    }

    proof fn lemma_lowest_free_unique(self, zone: Seq<char>, a: nat)
        requires
            self.is_lowest_free(zone, a),
            a < address_space(),
        ensures
            self.lowest_free(zone) == a,
            !self.exhausted(zone),
    {
        let x = a as u32;
        assert(self.is_lowest_free(zone, x as nat));
        let c = self.lowest_free(zone);
        assert(self.is_lowest_free(zone, c as nat));
        if (c as nat) < a {
            assert(self.in_use(zone, c as nat));
        } else if (c as nat) > a {
            assert(self.in_use(zone, a));
        }
    }

    /// The allocator's invariant: zones fit the address space and have room
    /// for a pool, every held address is in its zone's pool, and no address
    /// is held twice within a zone.
    pub open spec fn inv(self) -> bool {
        &&& forall|z: Seq<char>| #[trigger] self.zones.contains_key(z)
            ==> self.zones[z].size >= 4 && self.zones[z].base + self.zones[z].size <= address_space()
                && self.zones[z].prefix <= 30
        &&& forall|k: (Seq<char>, Seq<char>)| #[trigger] self.held.contains_key(k)
            ==> self.zones.contains_key(k.0) && in_pool(self.zones[k.0], self.held[k] as nat)
        &&& forall|z: Seq<char>, r1: Seq<char>, r2: Seq<char>|
            #[trigger] self.held.contains_key((z, r1)) && #[trigger] self.held.contains_key((z, r2))
                && r1 != r2 ==> self.held[(z, r1)] != self.held[(z, r2)]
    }
}

/// The map built from a sequence of key and value pairs, later pairs winning.
pub open spec fn pairs_map<K, V>(s: Seq<(K, V)>) -> Map<K, V>
    decreases s.len(),
{
    if s.len() == 0 {
        Map::empty()
    } else {
        pairs_map(s.drop_last()).insert(s.last().0, s.last().1)
    }
}

/// Whether no key occurs twice in a sequence of pairs.
pub open spec fn unique_keys<K, V>(s: Seq<(K, V)>) -> bool {
    forall|i: int, j: int| 0 <= i < j < s.len() ==> #[trigger] s[i].0 != #[trigger] s[j].0
}

proof fn lemma_two_pow_bound(k: nat)
    requires
        k <= 32,
    ensures
        two_pow(k) <= address_space(),
        k < 32 ==> two_pow(k) * 2 <= address_space(),
    decreases 32 - k,
{
    if k < 32 {
        lemma_two_pow_bound(k + 1);
        assert(two_pow(k + 1) == 2 * two_pow(k));
    } else {
        reveal_with_fuel(two_pow, 33);
    }
}

proof fn lemma_two_pow_at_least_four(k: nat)
    requires
        k >= 2,
    ensures
        two_pow(k) >= 4,
    decreases k,
{
    if k > 2 {
        lemma_two_pow_at_least_four((k - 1) as nat);
    } else {
        reveal_with_fuel(two_pow, 3);
    }
}

proof fn lemma_pairs_map<K, V>(s: Seq<(K, V)>)
    requires
        unique_keys(s),
    ensures
        forall|i: int| 0 <= i < s.len() ==> #[trigger] pairs_map(s).contains_key(s[i].0)
            && pairs_map(s)[s[i].0] == s[i].1,
        forall|k: K| #[trigger] pairs_map(s).contains_key(k) ==> exists|i: int| 0 <= i < s.len() && s[i].0 == k,
    decreases s.len(),
{
    if s.len() > 0 {
        let p = s.drop_last();
        assert(unique_keys(p));
        lemma_pairs_map(p);
        assert forall|i: int| 0 <= i < s.len() implies #[trigger] pairs_map(s).contains_key(s[i].0)
            && pairs_map(s)[s[i].0] == s[i].1 by {
            if i < s.len() - 1 {
                assert(p[i] == s[i]);
                assert(pairs_map(p).contains_key(p[i].0));
                assert(s[i].0 != s.last().0);
            }
        }
        assert forall|k: K| #[trigger] pairs_map(s).contains_key(k) implies exists|i: int|
            0 <= i < s.len() && s[i].0 == k by {
            if k != s.last().0 {
                assert(pairs_map(p).contains_key(k));
                let i = choose|i: int| 0 <= i < p.len() && p[i].0 == k;
                assert(s[i] == p[i]);
            } else {
                assert(s[s.len() - 1].0 == k);
            }
        }
    }
}

/// Every allocator operation keeps the invariant, so within a zone no two
/// realms ever hold the same address, whatever sequence of allocations,
/// reservations and releases the serialised callers make.
pub proof fn law_operations_keep_invariant(m: AllocatorModel, zone: Seq<char>, realm: Seq<char>, a: u32)
    requires
        m.inv(),
    ensures
        m.allocate(zone, realm).1.inv(),
        m.reserve(zone, realm, a).1.inv(),
        m.without(zone, realm).inv(),
{
    if m.zones.contains_key(zone) && !m.held.contains_key((zone, realm)) && !m.exhausted(zone) {
        let b = choose|b: nat| in_pool(m.zones[zone], b) && !m.in_use(zone, b);
        lemma_lowest_exists(m, zone, b);
        lemma_insert_keeps_inv(m, zone, realm, m.lowest_free(zone));
    }
    if m.zones.contains_key(zone) && in_pool(m.zones[zone], a as nat) && !m.in_use(zone, a as nat) {
        lemma_insert_keeps_inv(m, zone, realm, a);
    }
    let w = m.without(zone, realm);
    assert forall|k: (Seq<char>, Seq<char>)| #[trigger] w.held.contains_key(k) implies
        w.zones.contains_key(k.0) && in_pool(w.zones[k.0], w.held[k] as nat) by {
        assert(m.held.contains_key(k));
    }
    assert forall|z: Seq<char>, r1: Seq<char>, r2: Seq<char>|
        #[trigger] w.held.contains_key((z, r1)) && #[trigger] w.held.contains_key((z, r2)) && r1 != r2
        implies w.held[(z, r1)] != w.held[(z, r2)] by {
        assert(m.held.contains_key((z, r1)) && m.held.contains_key((z, r2)));
    }
}

proof fn lemma_insert_keeps_inv(m: AllocatorModel, zone: Seq<char>, realm: Seq<char>, a: u32)
    requires
        m.inv(),
        m.zones.contains_key(zone),
        in_pool(m.zones[zone], a as nat),
        !m.in_use(zone, a as nat),
    ensures
        m.with_held(zone, realm, a).inv(),
{
    let w = m.with_held(zone, realm, a);
    assert forall|k: (Seq<char>, Seq<char>)| #[trigger] w.held.contains_key(k) implies
        w.zones.contains_key(k.0) && in_pool(w.zones[k.0], w.held[k] as nat) by {
        if k != (zone, realm) {
            assert(m.held.contains_key(k));
        }
    }
    assert forall|z: Seq<char>, r1: Seq<char>, r2: Seq<char>|
        #[trigger] w.held.contains_key((z, r1)) && #[trigger] w.held.contains_key((z, r2)) && r1 != r2
        implies w.held[(z, r1)] != w.held[(z, r2)] by {
        if (z, r1) == (zone, realm) {
            assert(m.held.contains_key((z, r2)));
        } else if (z, r2) == (zone, realm) {
            assert(m.held.contains_key((z, r1)));
        } else {
            assert(m.held.contains_key((z, r1)) && m.held.contains_key((z, r2)));
        }
    }
}

/// Where some pool address is free, the lowest free address exists.
proof fn lemma_lowest_exists(m: AllocatorModel, zone: Seq<char>, b: nat)
    requires
        m.inv(),
        m.zones.contains_key(zone),
        in_pool(m.zones[zone], b),
        !m.in_use(zone, b),
    ensures
        m.is_lowest_free(zone, m.lowest_free(zone) as nat),
    decreases b,
{
    let z = m.zones[zone];
    if exists|c: nat| in_pool(z, c) && c < b && !m.in_use(zone, c) {
        let c = choose|c: nat| in_pool(z, c) && c < b && !m.in_use(zone, c);
        lemma_lowest_exists(m, zone, c);
    } else {
        assert(b < address_space());
        let x = b as u32;
        assert(m.is_lowest_free(zone, x as nat));
    }
}

/// No address is held by two realms of one zone: what any number of
/// distinct realms hold in a zone is pairwise distinct.
pub proof fn law_no_address_held_twice(m: AllocatorModel, zone: Seq<char>, r1: Seq<char>, r2: Seq<char>)
    requires
        m.inv(),
        r1 != r2,
        m.held.contains_key((zone, r1)),
        m.held.contains_key((zone, r2)),
    ensures
        m.held[(zone, r1)] != m.held[(zone, r2)],
{
}

/// Allocating twice in a row for the same realm returns the same address,
/// and the second call changes nothing.
pub proof fn law_allocate_idempotent(m: AllocatorModel, zone: Seq<char>, realm: Seq<char>)
    requires
        m.inv(),
        m.allocate(zone, realm).0 is Ok,
    ensures
        m.allocate(zone, realm).1.allocate(zone, realm) == m.allocate(zone, realm),
{
}

/// Two distinct realms that allocate in the same zone one after the other
/// get different addresses.
pub proof fn law_distinct_realms_get_distinct_addresses(
    m: AllocatorModel,
    zone: Seq<char>,
    r1: Seq<char>,
    r2: Seq<char>,
)
    requires
        m.inv(),
        r1 != r2,
        m.allocate(zone, r1).0 is Ok,
        m.allocate(zone, r1).1.allocate(zone, r2).0 is Ok,
    ensures
        m.allocate(zone, r1).0 != m.allocate(zone, r1).1.allocate(zone, r2).0,
{
    law_operations_keep_invariant(m, zone, r1, 0);
    let m1 = m.allocate(zone, r1).1;
    law_operations_keep_invariant(m1, zone, r2, 0);
    let m2 = m1.allocate(zone, r2).1;
    assert(m2.held.contains_key((zone, r1)));
    assert(m2.held.contains_key((zone, r2)));
    assert(m2.held[(zone, r1)] == m1.held[(zone, r1)]);
}

/// Reserving an address fails with `AddressInUse` where another realm holds
/// it, succeeds where the realm itself holds it, and succeeds where it is a
/// free address of the pool.
pub proof fn law_reservation_conflict(
    m: AllocatorModel,
    zone: Seq<char>,
    holder: Seq<char>,
    realm: Seq<char>,
    a: u32,
)
    requires
        m.inv(),
        m.zones.contains_key(zone),
    ensures
        holder != realm && m.held.contains_key((zone, holder)) && m.held[(zone, holder)] == a
            ==> m.reserve(zone, realm, a).0 == Err::<u32, NetworkError>(NetworkError::AddressInUse),
        m.held.contains_key((zone, realm)) && m.held[(zone, realm)] == a
            ==> m.reserve(zone, realm, a) == (Ok::<u32, NetworkError>(a), m),
        in_pool(m.zones[zone], a as nat) && !m.in_use(zone, a as nat)
            ==> m.reserve(zone, realm, a).0 == Ok::<u32, NetworkError>(a),
{
    if holder != realm && m.held.contains_key((zone, holder)) && m.held[(zone, holder)] == a {
        assert(m.in_use(zone, a as nat));
        if m.held.contains_key((zone, realm)) {
            assert(m.held[(zone, realm)] != a);
        }
    }
}

/// After a realm releases its address, another realm can reserve it.
pub proof fn law_free_then_reserve(
    m: AllocatorModel,
    zone: Seq<char>,
    realm: Seq<char>,
    other: Seq<char>,
)
    requires
        m.inv(),
        m.held.contains_key((zone, realm)),
        realm != other,
    ensures
        m.without(zone, realm).reserve(zone, other, m.held[(zone, realm)]) == (
            Ok::<u32, NetworkError>(m.held[(zone, realm)]),
            m.without(zone, realm).with_held(zone, other, m.held[(zone, realm)]),
        ),
{
    let a = m.held[(zone, realm)];
    let w = m.without(zone, realm);
    assert(m.zones.contains_key(zone));
    assert(!w.in_use(zone, a as nat)) by {
        assert forall|r: Seq<char>| !(#[trigger] w.held.contains_key((zone, r)) && w.held[(zone, r)] == a) by {
            if w.held.contains_key((zone, r)) {
                assert(m.held.contains_key((zone, r)));
            }
        }
    }
}

struct ZoneConfig {
    name: String,
    base: u32,
    prefix: u32,
    size: u64,
}

struct Allocation {
    zone: String,
    realm: String,
    addr: u32,
}

/// The address allocator for all zones.
pub struct NetworkAllocator {
    zones: Vec<ZoneConfig>,
    allocations: Vec<Allocation>,
}

spec fn al(s: Seq<Allocation>) -> Seq<((Seq<char>, Seq<char>), u32)> {
    s.map_values(|a: Allocation| alloc_pair(a))
}

spec fn zs(s: Seq<ZoneConfig>) -> Seq<(Seq<char>, ZoneShape)> {
    s.map_values(|z: ZoneConfig| zone_pair(z))
}

spec fn zone_pair(z: ZoneConfig) -> (Seq<char>, ZoneShape) {
    (z.name@, ZoneShape { base: z.base as nat, prefix: z.prefix as nat, size: z.size as nat })
}

spec fn alloc_pair(a: Allocation) -> ((Seq<char>, Seq<char>), u32) {
    ((a.zone@, a.realm@), a.addr)
}

impl View for NetworkAllocator {
    type V = AllocatorModel;

    closed spec fn view(&self) -> AllocatorModel {
        AllocatorModel {
            zones: pairs_map(zs(self.zones@)),
            held: pairs_map(al(self.allocations@)),
        }
    }
}

impl NetworkAllocator {
    /// The well-formedness of the allocator.
    pub closed spec fn wf(&self) -> bool {
        &&& unique_keys(zs(self.zones@))
        &&& unique_keys(al(self.allocations@))
        &&& self@.inv()
    }

    proof fn lemma_view(&self)
        requires
            unique_keys(zs(self.zones@)),
            unique_keys(al(self.allocations@)),
        ensures
            forall|i: int| 0 <= i < self.zones.len() ==> #[trigger] self@.zones.contains_key(
                self.zones@[i].name@) && self@.zones[self.zones@[i].name@] == (ZoneShape {
                base: self.zones@[i].base as nat,
                prefix: self.zones@[i].prefix as nat,
                size: self.zones@[i].size as nat,
            }),
            forall|z: Seq<char>| #[trigger] self@.zones.contains_key(z) ==> exists|i: int|
                0 <= i < self.zones.len() && self.zones@[i].name@ == z,
            forall|i: int| 0 <= i < self.allocations.len() ==> #[trigger] self@.held.contains_key(
                (self.allocations@[i].zone@, self.allocations@[i].realm@)) && self@.held[(
            self.allocations@[i].zone@, self.allocations@[i].realm@)] == self.allocations@[i].addr,
            forall|k: (Seq<char>, Seq<char>)| #[trigger] self@.held.contains_key(k) ==> exists|i: int|
                0 <= i < self.allocations.len() && self.allocations@[i].zone@ == k.0
                    && self.allocations@[i].realm@ == k.1,
    {
        let zs = zs(self.zones@);
        let al = al(self.allocations@);
        lemma_pairs_map(zs);
        lemma_pairs_map(al);
        assert forall|i: int| 0 <= i < self.zones.len() implies #[trigger] self@.zones.contains_key(
            self.zones@[i].name@) && self@.zones[self.zones@[i].name@] == (ZoneShape {
            base: self.zones@[i].base as nat,
            prefix: self.zones@[i].prefix as nat,
            size: self.zones@[i].size as nat,
        }) by {
            assert(zs[i] == zone_pair(self.zones@[i]));
            assert(pairs_map(zs).contains_key(zs[i].0));
        }
        assert forall|z: Seq<char>| #[trigger] self@.zones.contains_key(z) implies exists|i: int|
            0 <= i < self.zones.len() && self.zones@[i].name@ == z by {
            assert(pairs_map(zs).contains_key(z));
            let i = choose|i: int| 0 <= i < zs.len() && zs[i].0 == z;
            assert(zs[i] == zone_pair(self.zones@[i]));
        }
        assert forall|i: int| 0 <= i < self.allocations.len() implies #[trigger] self@.held.contains_key(
            (self.allocations@[i].zone@, self.allocations@[i].realm@)) && self@.held[(
        self.allocations@[i].zone@, self.allocations@[i].realm@)] == self.allocations@[i].addr by {
            assert(al[i] == alloc_pair(self.allocations@[i]));
            assert(pairs_map(al).contains_key(al[i].0));
        }
        assert forall|k: (Seq<char>, Seq<char>)| #[trigger] self@.held.contains_key(k) implies exists|
            i: int|
            0 <= i < self.allocations.len() && self.allocations@[i].zone@ == k.0
                && self.allocations@[i].realm@ == k.1 by {
            assert(pairs_map(al).contains_key(k));
            let i = choose|i: int| 0 <= i < al.len() && al[i].0 == k;
            assert(al[i] == alloc_pair(self.allocations@[i]));
        }
    }

    /// A well-formed allocator keeps the model's invariant.
    pub proof fn lemma_wf(&self)
        requires
            self.wf(),
        ensures
            self@.inv(),
    {
    }

    /// An allocator with no zones.
    pub fn new() -> (r: NetworkAllocator)
        ensures
            r.wf(),
            r@.zones == Map::<Seq<char>, ZoneShape>::empty(),
            r@.held == Map::<(Seq<char>, Seq<char>), u32>::empty(),
    {
        let r = NetworkAllocator { zones: Vec::new(), allocations: Vec::new() };
        assert(zs(r.zones@) =~= Seq::empty());
        assert(al(r.allocations@) =~= Seq::empty());
        r
    }
}

impl NetworkAllocator {
    /// Adds a zone whose block starts at `base` and has a prefix of
    /// `prefix` bits. Returns false, and changes nothing, where a zone of
    /// that name exists, the prefix leaves no room for a pool (over 30), or
    /// the block runs past the end of the address space.
    pub fn add_zone(&mut self, name: &str, base: u32, prefix: u32) -> (ok: bool)
        requires
            old(self).wf(),
        ensures
            final(self).wf(),
            ok == (!old(self)@.zones.contains_key(name@) && prefix <= 30 && base as nat + two_pow(
                (32 - prefix) as nat) <= address_space()),
            ok ==> final(self)@ == (AllocatorModel {
                zones: old(self)@.zones.insert(
                    name@,
                    ZoneShape {
                        base: base as nat,
                        prefix: prefix as nat,
                        size: two_pow((32 - prefix) as nat),
                    },
                ),
                held: old(self)@.held,
            }),
            !ok ==> final(self)@ == old(self)@,
    {
        if prefix > 30 {
            return false;
        }
        if self.find_zone(name).is_some() {
            return false;
        }
        let bits = 32 - prefix;
        let mut size: u64 = 1;
        let mut k: u32 = 0;
        while k < bits
            invariant
                k <= bits <= 32,
                size == two_pow(k as nat),
            decreases bits - k,
        {
            proof {
                lemma_two_pow_bound(k as nat);
            }
            size = size * 2;
            k = k + 1;
        }
        proof {
            lemma_two_pow_bound(k as nat);
        }
        if base as u64 + size > 0x1_0000_0000 {
            return false;
        }
        proof {
            self.lemma_view();
            lemma_two_pow_at_least_four(bits as nat);
        }
        let ghost before = zs(self.zones@);
        let ghost old_model = self@;
        self.zones.push(ZoneConfig { name: name.to_owned(), base, prefix, size });
        assert(zs(self.zones@) =~= before.push(
            (name@, ZoneShape { base: base as nat, prefix: prefix as nat, size: size as nat }),
        ));
        assert(zs(self.zones@).drop_last() =~= before);
        assert forall|i: int, j: int| 0 <= i < j < zs(self.zones@).len() implies
            #[trigger] zs(self.zones@)[i].0 != #[trigger] zs(self.zones@)[j].0 by {
            if j == before.len() {
                assert(old_model.zones.contains_key(before[i].0));
            }
        }
        assert(self@.held == old_model.held);
        assert(self@.inv());
        true
    }

    /// The gateway address of `zone`.
    pub fn gateway(&self, zone: &str) -> (r: Result<u32, NetworkError>)
        requires
            self.wf(),
        ensures
            self@.zones.contains_key(zone@) ==> r == Ok::<u32, NetworkError>(
                gateway_of(self@.zones[zone@]) as u32) && gateway_of(self@.zones[zone@]) < address_space(),
            !self@.zones.contains_key(zone@) ==> r == Err::<u32, NetworkError>(NetworkError::ZoneUnknown),
    {
        match self.find_zone(zone) {
            Some(i) => Ok(self.zones[i].base + 1),
            None => Err(NetworkError::ZoneUnknown),
        }
    }

    /// The prefix length of `zone`.
    pub fn prefix(&self, zone: &str) -> (r: Result<u32, NetworkError>)
        requires
            self.wf(),
        ensures
            self@.zones.contains_key(zone@) ==> r == Ok::<u32, NetworkError>(self@.zones[zone@].prefix as u32),
            !self@.zones.contains_key(zone@) ==> r == Err::<u32, NetworkError>(NetworkError::ZoneUnknown),
    {
        match self.find_zone(zone) {
            Some(i) => Ok(self.zones[i].prefix),
            None => Err(NetworkError::ZoneUnknown),
        }
    }

    /// The address that `realm` holds in `zone`, if any.
    pub fn address_of(&self, zone: &str, realm: &str) -> (r: Option<u32>)
        requires
            self.wf(),
        ensures
            r == (if self@.held.contains_key((zone@, realm@)) {
                Some(self@.held[(zone@, realm@)])
            } else {
                None
            }),
    {
        match self.find_allocation(zone, realm) {
            Some(i) => Some(self.allocations[i].addr),
            None => None,
        }
    }

    /// Gives `realm` an address in `zone`: the one it already holds there,
    /// or else the lowest free address of the zone's pool.
    pub fn allocate_address_for(&mut self, zone: &str, realm: &str) -> (r: Result<u32, NetworkError>)
        requires
            old(self).wf(),
        ensures
            final(self).wf(),
            (r, final(self)@) == old(self)@.allocate(zone@, realm@),
    {
        let zi = match self.find_zone(zone) {
            Some(i) => i,
            None => return Err(NetworkError::ZoneUnknown),
        };
        if let Some(i) = self.find_allocation(zone, realm) {
            return Ok(self.allocations[i].addr);
        }
        let base = self.zones[zi].base as u64;
        let end = base + self.zones[zi].size - 1;
        let ghost shape = self@.zones[zone@];
        let mut a: u64 = base + 2;
        while a < end
            invariant
                self.wf(),
                self@ == old(self)@,
                !self@.held.contains_key((zone@, realm@)),
                self@.zones.contains_key(zone@),
                shape == self@.zones[zone@],
                base == shape.base,
                end + 1 == shape.base + shape.size,
                shape.base + shape.size <= address_space(),
                base + 2 <= a,
                forall|b: nat| in_pool(shape, b) && b < a ==> #[trigger] self@.in_use(zone@, b),
            decreases end - a,
        {
            if !self.addr_in_use(zone, a as u32) {
                let ghost m = self@;
                proof {
                    m.lemma_lowest_free_unique(zone@, a as nat);
                }
                self.push_allocation(zone, realm, a as u32);
                return Ok(a as u32);
            }
            a = a + 1;
        }
        Err(NetworkError::PoolExhausted)
    }

    /// Gives `realm` the address `a` in `zone`, where nobody else holds it.
    pub fn allocate_reserved(&mut self, zone: &str, realm: &str, a: u32) -> (r: Result<u32, NetworkError>)
        requires
            old(self).wf(),
        ensures
            final(self).wf(),
            (r, final(self)@) == old(self)@.reserve(zone@, realm@, a),
    {
        let zi = match self.find_zone(zone) {
            Some(i) => i,
            None => return Err(NetworkError::ZoneUnknown),
        };
        let base = self.zones[zi].base as u64;
        if !((a as u64) >= base + 2 && (a as u64) + 1 < base + self.zones[zi].size) {
            return Err(NetworkError::OutOfRange);
        }
        if let Some(i) = self.find_allocation(zone, realm) {
            if self.allocations[i].addr == a {
                return Ok(a);
            }
        }
        if self.addr_in_use(zone, a) {
            return Err(NetworkError::AddressInUse);
        }
        let ghost m = self@;
        self.remove_allocation(zone, realm);
        assert forall|r: Seq<char>| !(#[trigger] self@.held.contains_key((zone@, r)) && self@.held[(zone@, r)] == a) by {
            if self@.held.contains_key((zone@, r)) {
                assert(m.held.contains_key((zone@, r)));
            }
        }
        self.push_allocation(zone, realm, a);
        assert(self@.held =~= m.held.insert((zone@, realm@), a));
        Ok(a)
    }

    /// Releases what `realm` holds in `zone`; nothing happens where it holds
    /// nothing there.
    pub fn free_allocation_for(&mut self, zone: &str, realm: &str)
        requires
            old(self).wf(),
        ensures
            final(self).wf(),
            final(self)@ == old(self)@.without(zone@, realm@),
    {
        self.remove_allocation(zone, realm);
    }

    fn find_zone(&self, zone: &str) -> (r: Option<usize>)
        requires
            self.wf(),
        ensures
            r is None <==> !self@.zones.contains_key(zone@),
            r matches Some(i) ==> i < self.zones.len() && self.zones@[i as int].name@ == zone@
                && self@.zones[zone@] == (ZoneShape {
                base: self.zones@[i as int].base as nat,
                prefix: self.zones@[i as int].prefix as nat,
                size: self.zones@[i as int].size as nat,
            }),
    {
        proof {
            self.lemma_view();
        }
        let mut i: usize = 0;
        while i < self.zones.len()
            invariant
                self.wf(),
                i <= self.zones.len(),
                forall|j: int| 0 <= j < i ==> self.zones@[j].name@ != zone@,
            decreases self.zones.len() - i,
        {
            if str_eq(self.zones[i].name.as_str(), zone) {
                proof {
                    self.lemma_view();
                }
                return Some(i);
            }
            i = i + 1;
        }
        None
    }

    fn find_allocation(&self, zone: &str, realm: &str) -> (r: Option<usize>)
        requires
            self.wf(),
        ensures
            r is None <==> !self@.held.contains_key((zone@, realm@)),
            r matches Some(i) ==> i < self.allocations.len()
                && self.allocations@[i as int].zone@ == zone@
                && self.allocations@[i as int].realm@ == realm@
                && self@.held[(zone@, realm@)] == self.allocations@[i as int].addr,
    {
        proof {
            self.lemma_view();
        }
        let mut i: usize = 0;
        while i < self.allocations.len()
            invariant
                self.wf(),
                i <= self.allocations.len(),
                forall|j: int| 0 <= j < i ==> (self.allocations@[j].zone@, self.allocations@[j].realm@)
                    != (zone@, realm@),
            decreases self.allocations.len() - i,
        {
            if str_eq(self.allocations[i].zone.as_str(), zone) && str_eq(
                self.allocations[i].realm.as_str(),
                realm,
            ) {
                proof {
                    self.lemma_view();
                }
                return Some(i);
            }
            i = i + 1;
        }
        None
    }

    /// Whether some realm holds `a` in `zone`.
    fn addr_in_use(&self, zone: &str, a: u32) -> (r: bool)
        requires
            self.wf(),
        ensures
            r == self@.in_use(zone@, a as nat),
    {
        proof {
            self.lemma_view();
        }
        let mut i: usize = 0;
        while i < self.allocations.len()
            invariant
                self.wf(),
                i <= self.allocations.len(),
                forall|j: int| 0 <= j < i ==> !(self.allocations@[j].zone@ == zone@
                    && self.allocations@[j].addr == a),
            decreases self.allocations.len() - i,
        {
            if self.allocations[i].addr == a && str_eq(self.allocations[i].zone.as_str(), zone) {
                let ghost r = self.allocations@[i as int].realm@;
                proof {
                    self.lemma_view();
                }
                assert(self@.held.contains_key((zone@, r)));
                return true;
            }
            i = i + 1;
        }
        assert forall|r: Seq<char>| !(#[trigger] self@.held.contains_key((zone@, r))
            && self@.held[(zone@, r)] == a) by {
            if self@.held.contains_key((zone@, r)) {
                let k = (zone@, r);
                let j = choose|j: int| 0 <= j < self.allocations.len() && self.allocations@[j].zone@ == k.0
                    && self.allocations@[j].realm@ == k.1;
                assert(self@.held.contains_key((self.allocations@[j].zone@, self.allocations@[j].realm@)));
            }
        }
        false
    }

    /// Records that `realm` holds `a` in `zone`; the pair must be new.
    fn push_allocation(&mut self, zone: &str, realm: &str, a: u32)
        requires
            old(self).wf(),
            !old(self)@.held.contains_key((zone@, realm@)),
            old(self)@.zones.contains_key(zone@),
            in_pool(old(self)@.zones[zone@], a as nat),
            !old(self)@.in_use(zone@, a as nat),
        ensures
            final(self).wf(),
            final(self)@ == old(self)@.with_held(zone@, realm@, a),
    {
        proof {
            self.lemma_view();
        }
        let ghost before = al(self.allocations@);
        let entry = Allocation { zone: zone.to_owned(), realm: realm.to_owned(), addr: a };
        self.allocations.push(entry);
        assert(al(self.allocations@) =~= before.push(((zone@, realm@), a)));
        assert(al(self.allocations@).drop_last() =~= before);
        assert(unique_keys(al(self.allocations@))) by {
            assert forall|i: int, j: int| 0 <= i < j < al(self.allocations@).len() implies
                #[trigger] al(self.allocations@)[i].0 != #[trigger] al(self.allocations@)[j].0 by {
                if j == before.len() {
                    assert(old(self)@.held.contains_key(before[i].0));
                }
            }
        }
        let ghost m = self@;
        assert(m.held =~= old(self)@.held.insert((zone@, realm@), a));
        assert(m.zones == old(self)@.zones);
        assert(m.inv()) by {
            assert forall|z: Seq<char>, r1: Seq<char>, r2: Seq<char>|
                #[trigger] m.held.contains_key((z, r1)) && #[trigger] m.held.contains_key((z, r2))
                    && r1 != r2 implies m.held[(z, r1)] != m.held[(z, r2)] by {
                if (z, r1) == (zone@, realm@) {
                    assert(old(self)@.held.contains_key((z, r2)));
                } else if (z, r2) == (zone@, realm@) {
                    assert(old(self)@.held.contains_key((z, r1)));
                }
            }
        }
    }

    /// Removes the entry of `realm` in `zone`, if there is one.
    fn remove_allocation(&mut self, zone: &str, realm: &str)
        requires
            old(self).wf(),
        ensures
            final(self).wf(),
            final(self)@ == old(self)@.without(zone@, realm@),
    {
        proof {
            self.lemma_view();
        }
        let ghost k = (zone@, realm@);
        let ghost olds = al(self.allocations@);
        let mut out: Vec<Allocation> = Vec::new();
        let mut i: usize = 0;
        assert(olds.take(0) =~= Seq::empty());
        assert(al(out@) =~= Seq::empty());
        assert(pairs_map(al(out@)) =~= pairs_map(olds.take(0)).remove(k));
        while i < self.allocations.len()
            invariant
                self.wf(),
                olds == al(self.allocations@),
                k == (zone@, realm@),
                i <= self.allocations.len(),
                pairs_map(al(out@)) == pairs_map(olds.take(i as int)).remove(k),
                unique_keys(al(out@)),
                forall|j: int| 0 <= j < out.len() ==> exists|m: int| 0 <= m < i && #[trigger] al(out@)[j].0 == olds[m].0,
            decreases self.allocations.len() - i,
        {
            let ghost prev = al(out@);
            let a = &self.allocations[i];
            assert(olds[i as int] == alloc_pair(self.allocations@[i as int]));
            assert(olds.take(i + 1).drop_last() =~= olds.take(i as int));
            if !(str_eq(a.zone.as_str(), zone) && str_eq(a.realm.as_str(), realm)) {
                let entry = Allocation { zone: a.zone.clone(), realm: a.realm.clone(), addr: a.addr };
                out.push(entry);
                assert(al(out@) =~= prev.push(olds[i as int]));
                assert(al(out@).drop_last() =~= prev);
                assert(pairs_map(al(out@)) =~= pairs_map(olds.take(i + 1)).remove(k));
                assert forall|x: int, y: int| 0 <= x < y < al(out@).len() implies
                    #[trigger] al(out@)[x].0 != #[trigger] al(out@)[y].0 by {
                    if y == prev.len() {
                        let m = choose|m: int| 0 <= m < i && #[trigger] prev[x].0 == olds[m].0;
                        assert(al(out@)[x] == prev[x]);
                    } else {
                        assert(al(out@)[x] == prev[x]);
                        assert(al(out@)[y] == prev[y]);
                    }
                }
                assert forall|j: int| 0 <= j < out.len() implies exists|m: int| 0 <= m < i + 1 && #[trigger] al(out@)[j].0 == olds[m].0 by {
                    if j < prev.len() {
                        assert(al(out@)[j] == prev[j]);
                        let m = choose|m: int| 0 <= m < i && #[trigger] prev[j].0 == olds[m].0;
                        assert(al(out@)[j].0 == olds[m].0);
                    } else {
                        assert(al(out@)[j].0 == olds[i as int].0);
                    }
                }
            } else {
                assert(pairs_map(al(out@)) =~= pairs_map(olds.take(i + 1)).remove(k));
            }
            i = i + 1;
        }
        assert(olds.take(i as int) =~= olds);
        let ghost before = self@;
        self.allocations = out;
        assert(self@.held =~= before.held.remove(k));
        assert(self@ == before.without(zone@, realm@));
    }
}

} // verus!
