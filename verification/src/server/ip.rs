use crate::common::ipv4::Ipv4Address;
use std::collections::VecDeque;
use vstd::arithmetic::power2::pow2;
use vstd::prelude::*;

verus! {

/// Number of addresses in a subnet with the given prefix length.
pub open spec fn subnet_size(prefix: u8) -> nat {
    pow2((32 - prefix) as nat)
}

/// Whether a pool can be built for this subnet: the prefix is between 1 and
/// 32 and the subnet's last client address fits in 32 bits.
pub open spec fn valid_subnet(base: u32, prefix: u8) -> bool {
    &&& 1 <= prefix <= 32
    &&& base + subnet_size(prefix) - 2 <= u32::MAX
}

/// Whether `v` may be handed to a client: it is neither the subnet's network
/// address (`base`), nor its gateway (`base + 1`), nor its broadcast address
/// (the last one).
pub open spec fn is_client_address(base: u32, prefix: u8, v: u32) -> bool {
    base + 2 <= v <= base + subnet_size(prefix) - 2
}

/// The client addresses of a subnet in increasing order.
pub open spec fn client_addresses(base: u32, prefix: u8) -> Seq<Ipv4Address> {
    let n = if subnet_size(prefix) >= 3 { (subnet_size(prefix) - 3) as nat } else { 0 };
    Seq::new(n, |k: int| Ipv4Address { value: (base + 2 + k) as u32 })
}

/// Pool of the addresses of a subnet that are free to be assigned to clients.
pub struct IpPool {
    pub subnet_base: Ipv4Address,
    pub subnet_prefix: u8,
    available: VecDeque<Ipv4Address>,
}

/// What a pool holds: its subnet and its free addresses, in the order they
/// will be handed out.
pub struct PoolState {
    pub base: u32,
    pub prefix: u8,
    pub available: Seq<Ipv4Address>,
}

impl PoolState {
    /// The pool holds only client addresses of its subnet, each at most once.
    pub open spec fn wf(&self) -> bool {
        &&& self.available.no_duplicates()
        &&& forall|k: int|
            0 <= k < self.available.len() ==> is_client_address(
                self.base,
                self.prefix,
                #[trigger] self.available[k].value,
            )
    }
}

impl View for IpPool {
    type V = PoolState;

    closed spec fn view(&self) -> PoolState {
        PoolState {
            base: self.subnet_base.value,
            prefix: self.subnet_prefix,
            available: self.available@,
        }
    }
}

impl IpPool {
    /// Whether a pool can be built for the subnet `base/prefix`.
    pub fn subnet_fits(base: Ipv4Address, prefix: u8) -> (ok: bool)
        ensures
            ok == valid_subnet(base.value, prefix),
            ok == (1 <= prefix <= 32 && base.value + pow2((32 - prefix) as nat) - 2 <= u32::MAX),
    {
        if prefix < 1 || prefix > 32 {
            return false;
        }
        let host_bits: u64 = 32 - prefix as u64;
        proof {
            vstd::bits::lemma_u64_pow2_no_overflow(host_bits as nat);
            vstd::bits::lemma_u64_shl_is_mul(1, host_bits);
        }
        let size: u64 = 1u64 << host_bits;
        assert(size == subnet_size(prefix));
        proof {
            vstd::arithmetic::power2::lemma2_to64();
            if host_bits < 31 {
                vstd::arithmetic::power2::lemma_pow2_strictly_increases(host_bits as nat, 31);
            }
        }
        assert(size <= 0x8000_0000);
        base.value as u64 + size <= 0xffff_ffffu64 + 2
    }

    /// A pool holding every client address of the subnet, lowest first.
    pub fn new(subnet_base: Ipv4Address, subnet_prefix: u8) -> (pool: Self)
        requires
            valid_subnet(subnet_base.value, subnet_prefix),
        ensures
            pool@.base == subnet_base.value,
            pool@.prefix == subnet_prefix,
            pool@.available == client_addresses(subnet_base.value, subnet_prefix),
            pool@.wf(),
    {
        let base_u32 = subnet_base.value;
        let host_bits: u32 = 32 - subnet_prefix as u32;
        proof {
            vstd::bits::lemma_u32_pow2_no_overflow(host_bits as nat);
            vstd::bits::lemma_u32_shl_is_mul(1, host_bits);
        }
        let num_addrs: u32 = 1u32 << host_bits;
        assert(num_addrs == subnet_size(subnet_prefix));
        let ghost n = if subnet_size(subnet_prefix) >= 3 {
            (subnet_size(subnet_prefix) - 3) as nat
        } else {
            0
        };
        let mut queue: VecDeque<Ipv4Address> = VecDeque::new();
        let end: u32 = num_addrs - 1;
        let mut i: u32 = 2;
        while i < end
            invariant
                2 <= i,
                i == 2 || i <= end,
                num_addrs == subnet_size(subnet_prefix),
                end == num_addrs - 1,
                base_u32 + num_addrs - 2 <= u32::MAX,
                queue@ =~= Seq::new(
                    (i - 2) as nat,
                    |k: int| Ipv4Address { value: (base_u32 + 2 + k) as u32 },
                ),
            decreases end - i,
        {
            queue.push_back(Ipv4Address { value: base_u32 + i });
            i += 1;
        }
        assert(num_addrs >= 3 ==> i == end);
        assert(num_addrs < 3 ==> i == 2);
        let pool = IpPool { subnet_base, subnet_prefix, available: queue };
        assert(pool@.available =~= client_addresses(base_u32, subnet_prefix));
        proof {
            let s = pool@.available;
            assert forall|a: int, b: int| 0 <= a < s.len() && 0 <= b < s.len() && a != b implies s[a]
                != s[b] by {}
        }
        pool
    }

    /// The subnet's network address.
    pub fn base(&self) -> (base: Ipv4Address)
        ensures
            base.value == self@.base,
    {
        self.subnet_base
    }

    /// The subnet's prefix length.
    pub fn prefix(&self) -> (prefix: u8)
        ensures
            prefix == self@.prefix,
    {
        self.subnet_prefix
    }

    /// The address of the server itself: the subnet's gateway, `base + 1`.
    pub fn server_ip(&self) -> (ip: Ipv4Address)
        requires
            self@.base < u32::MAX,
        ensures
            ip.value == self@.base + 1,
    {
        let base_u32 = self.subnet_base.value;
        Ipv4Address { value: base_u32 + 1 }
    }

    /// Takes the first free address, if any.
    pub fn allocate(&mut self) -> (ip: Option<Ipv4Address>)
        ensures
            final(self)@.base == old(self)@.base,
            final(self)@.prefix == old(self)@.prefix,
            old(self)@.available.len() == 0 ==> {
                &&& ip is None
                &&& final(self)@.available == old(self)@.available
            },
            old(self)@.available.len() > 0 ==> {
                &&& ip == Some(old(self)@.available[0])
                &&& final(self)@.available == old(self)@.available.drop_first()
            },
            old(self)@.wf() ==> final(self)@.wf(),
            old(self)@.wf() ==> (ip matches Some(a) ==> {
                &&& is_client_address(old(self)@.base, old(self)@.prefix, a.value)
                &&& !final(self)@.available.contains(a)
            }),
    {
        let ip = self.available.pop_front();
        proof {
            let s = old(self)@.available;
            if s.len() > 0 && old(self)@.wf() {
                let t = s.drop_first();
                assert(is_client_address(old(self)@.base, old(self)@.prefix, s[0].value));
                assert forall|k: int| 0 <= k < t.len() implies t[k] != s[0] by {
                    assert(t[k] == s[k + 1]);
                }
                assert forall|k: int| 0 <= k < t.len() implies is_client_address(
                    old(self)@.base,
                    old(self)@.prefix,
                    #[trigger] t[k].value,
                ) by {
                    assert(t[k] == s[k + 1]);
                }
            }
        }
        ip
    }

    /// Returns an address to the pool, behind every free address.
    pub fn release(&mut self, ip: Ipv4Address)
        ensures
            final(self)@.base == old(self)@.base,
            final(self)@.prefix == old(self)@.prefix,
            final(self)@.available == old(self)@.available.push(ip),
            old(self)@.wf() && is_client_address(old(self)@.base, old(self)@.prefix, ip.value)
                && !old(self)@.available.contains(ip) ==> final(self)@.wf(),
    {
        self.available.push_back(ip);
        proof {
            let s = old(self)@.available;
            let t = s.push(ip);
            if old(self)@.wf() && is_client_address(old(self)@.base, old(self)@.prefix, ip.value)
                && !s.contains(ip) {
                assert forall|k: int| 0 <= k < t.len() implies is_client_address(
                    old(self)@.base,
                    old(self)@.prefix,
                    #[trigger] t[k].value,
                ) by {
                    if k < s.len() {
                        assert(t[k] == s[k]);
                    }
                }
                assert forall|a: int, b: int| 0 <= a < t.len() && 0 <= b < t.len() && a != b implies t[a]
                    != t[b] by {
                    if a == s.len() && b < s.len() {
                        assert(t[b] == s[b]);
                    } else if b == s.len() && a < s.len() {
                        assert(t[a] == s[a]);
                    }
                }
            }
        }
    }
}

/// An address handed to a client is never the subnet's network address, the
/// server's own address, nor the broadcast address.
pub proof fn lemma_client_address_not_reserved(base: u32, prefix: u8, v: u32)
    requires
        is_client_address(base, prefix, v),
    ensures
        v != base,
        v != base + 1,
        v != base + subnet_size(prefix) - 1,
{
}

/// A fresh pool for a subnet whose prefix length is at most 30 offers every
/// address of the subnet but three.
pub proof fn lemma_fresh_pool_capacity(base: u32, prefix: u8)
    requires
        valid_subnet(base, prefix),
        prefix <= 30,
    ensures
        client_addresses(base, prefix).len() == subnet_size(prefix) - 3,
{
    vstd::arithmetic::power2::lemma2_to64();
    if 32 - prefix > 2 {
        vstd::arithmetic::power2::lemma_pow2_strictly_increases(2, (32 - prefix) as nat);
    }
}

/// Taking the first address and giving it back leaves the pool with the same
/// addresses (the returned one now last), and keeps it well formed.
pub proof fn lemma_allocate_release_same_addresses(state: PoolState)
    requires
        state.wf(),
        state.available.len() > 0,
    ensures
        state.available.drop_first().push(state.available[0]).to_multiset()
            == state.available.to_multiset(),
        (PoolState {
            base: state.base,
            prefix: state.prefix,
            available: state.available.drop_first().push(state.available[0]),
        }).wf(),
{
    broadcast use vstd::seq_lib::group_to_multiset_ensures;

    let s = state.available;
    let t = s.drop_first();
    let u = t.push(s[0]);
    assert(s =~= seq![s[0]] + t);
    vstd::seq_lib::lemma_multiset_commutative(seq![s[0]], t);
    assert(seq![s[0]] =~= Seq::<Ipv4Address>::empty().push(s[0]));
    assert(u =~= t + seq![s[0]]);
    assert forall|k: int| 0 <= k < u.len() implies is_client_address(
        state.base,
        state.prefix,
        #[trigger] u[k].value,
    ) by {
        if k < t.len() {
            assert(u[k] == s[k + 1]);
        } else {
            assert(u[k] == s[0]);
        }
    }
    assert forall|a: int, b: int| 0 <= a < u.len() && 0 <= b < u.len() && a != b implies u[a]
        != u[b] by {
        let ia = if a < t.len() { a + 1 } else { 0 };
        let ib = if b < t.len() { b + 1 } else { 0 };
        assert(u[a] == s[ia]);
        assert(u[b] == s[ib]);
    }
}

/// A call made on a pool: `allocate`, or `release` of an address.
pub enum PoolOp {
    Allocate,
    Release(Ipv4Address),
}

/// A pool together with the addresses it has handed out and not yet got back.
pub struct Allocation {
    pub pool: PoolState,
    pub held: Seq<Ipv4Address>,
}

/// The pool is well formed, and each client address is either free or held,
/// never both and never held twice.
pub open spec fn allocation_ok(a: Allocation) -> bool {
    &&& a.pool.wf()
    &&& a.held.no_duplicates()
    &&& forall|k: int|
        0 <= k < a.held.len() ==> is_client_address(a.pool.base, a.pool.prefix, #[trigger] a.held[k].value)
    &&& forall|k: int| 0 <= k < a.held.len() ==> !a.pool.available.contains(#[trigger] a.held[k])
}

/// The effect of one call, as the contracts of `allocate` and `release` give it.
pub open spec fn pool_step(a: Allocation, op: PoolOp) -> Allocation {
    match op {
        PoolOp::Allocate => if a.pool.available.len() == 0 {
            a
        } else {
            Allocation {
                pool: PoolState {
                    base: a.pool.base,
                    prefix: a.pool.prefix,
                    available: a.pool.available.drop_first(),
                },
                held: a.held.push(a.pool.available[0]),
            }
        },
        PoolOp::Release(ip) => Allocation {
            pool: PoolState {
                base: a.pool.base,
                prefix: a.pool.prefix,
                available: a.pool.available.push(ip),
            },
            held: a.held.remove(a.held.index_of(ip)),
        },
    }
}

/// Whether a call is one the law speaks of: only held addresses are released.
pub open spec fn op_allowed(a: Allocation, op: PoolOp) -> bool {
    match op {
        PoolOp::Allocate => true,
        PoolOp::Release(ip) => a.held.contains(ip),
    }
}

/// The state after a sequence of calls.
pub open spec fn pool_run(a: Allocation, ops: Seq<PoolOp>) -> Allocation
    decreases ops.len(),
{
    if ops.len() == 0 {
        a
    } else {
        pool_run(pool_step(a, ops[0]), ops.drop_first())
    }
}

/// Whether every call of a sequence is allowed in the state it is made in.
pub open spec fn ops_allowed(a: Allocation, ops: Seq<PoolOp>) -> bool
    decreases ops.len(),
{
    ops.len() == 0 || (op_allowed(a, ops[0]) && ops_allowed(pool_step(a, ops[0]), ops.drop_first()))
}

/// A fresh pool for `base/prefix`, with nothing handed out.
pub open spec fn fresh_allocation(base: u32, prefix: u8) -> Allocation {
    Allocation {
        pool: PoolState { base, prefix, available: client_addresses(base, prefix) },
        held: Seq::empty(),
    }
}

/// One allowed call keeps the allocation consistent.
pub proof fn lemma_pool_step_ok(a: Allocation, op: PoolOp)
    requires
        allocation_ok(a),
        op_allowed(a, op),
    ensures
        allocation_ok(pool_step(a, op)),
{
    let s = a.pool.available;
    let h = a.held;
    let b = pool_step(a, op);
    match op {
        PoolOp::Allocate => {
            if s.len() > 0 {
                let t = s.drop_first();
                let x = s[0];
                assert forall|k: int| 0 <= k < t.len() implies is_client_address(
                    a.pool.base,
                    a.pool.prefix,
                    #[trigger] t[k].value,
                ) by {
                    assert(t[k] == s[k + 1]);
                }
                assert forall|i: int, j: int| 0 <= i < t.len() && 0 <= j < t.len() && i != j implies t[i]
                    != t[j] by {
                    assert(t[i] == s[i + 1]);
                    assert(t[j] == s[j + 1]);
                }
                assert(is_client_address(a.pool.base, a.pool.prefix, s[0].value));
                let g = h.push(x);
                assert forall|k: int| 0 <= k < h.len() implies h[k] != x by {
                    assert(!s.contains(h[k]));
                }
                assert forall|i: int, j: int| 0 <= i < g.len() && 0 <= j < g.len() && i != j implies g[i]
                    != g[j] by {
                    if i < h.len() && j < h.len() {
                        assert(g[i] == h[i] && g[j] == h[j]);
                    } else if i < h.len() {
                        assert(g[i] == h[i]);
                    } else if j < h.len() {
                        assert(g[j] == h[j]);
                    }
                }
                assert forall|k: int| 0 <= k < g.len() implies is_client_address(
                    a.pool.base,
                    a.pool.prefix,
                    #[trigger] g[k].value,
                ) by {
                    if k < h.len() {
                        assert(g[k] == h[k]);
                    }
                }
                assert forall|k: int| 0 <= k < g.len() implies !t.contains(#[trigger] g[k]) by {
                    if t.contains(g[k]) {
                        let m = choose|m: int| 0 <= m < t.len() && t[m] == g[k];
                        assert(t[m] == s[m + 1]);
                        if k < h.len() {
                            assert(g[k] == h[k]);
                            assert(s.contains(h[k]));
                        } else {
                            assert(g[k] == s[0]);
                        }
                    }
                }
            }
        },
        PoolOp::Release(ip) => {
            let i = h.index_of(ip);
            assert(0 <= i < h.len() && h[i] == ip);
            let g = h.remove(i);
            let t = s.push(ip);
            assert(is_client_address(a.pool.base, a.pool.prefix, ip.value));
            assert(!s.contains(ip));
            assert forall|k: int| 0 <= k < g.len() implies g[k] == h[if k < i { k } else { k + 1 }] by {}
            assert forall|k: int| 0 <= k < t.len() implies is_client_address(
                a.pool.base,
                a.pool.prefix,
                #[trigger] t[k].value,
            ) by {
                if k < s.len() {
                    assert(t[k] == s[k]);
                }
            }
            assert forall|x: int, y: int| 0 <= x < t.len() && 0 <= y < t.len() && x != y implies t[x]
                != t[y] by {
                if x < s.len() && y < s.len() {
                    assert(t[x] == s[x] && t[y] == s[y]);
                } else if x < s.len() {
                    assert(t[x] == s[x]);
                } else if y < s.len() {
                    assert(t[y] == s[y]);
                }
            }
            assert forall|x: int, y: int| 0 <= x < g.len() && 0 <= y < g.len() && x != y implies g[x]
                != g[y] by {
                let xi = if x < i { x } else { x + 1 };
                let yi = if y < i { y } else { y + 1 };
                assert(g[x] == h[xi]);
                assert(g[y] == h[yi]);
            }
            assert forall|k: int| 0 <= k < g.len() implies is_client_address(
                a.pool.base,
                a.pool.prefix,
                #[trigger] g[k].value,
            ) by {
                let ki = if k < i { k } else { k + 1 };
                assert(g[k] == h[ki]);
            }
            assert forall|k: int| 0 <= k < g.len() implies !t.contains(#[trigger] g[k]) by {
                let ki = if k < i { k } else { k + 1 };
                assert(g[k] == h[ki]);
                assert(ki != i);
                assert(h[ki] != ip);
                if t.contains(g[k]) {
                    let m = choose|m: int| 0 <= m < t.len() && t[m] == g[k];
                    if m < s.len() {
                        assert(t[m] == s[m]);
                        assert(s.contains(h[ki]));
                    }
                }
            }
        },
    }
}

/// Address allocation over any sequence of calls on a fresh pool, where only
/// held addresses are released: the pool never holds an address twice, and
/// the next address `allocate` hands out is a client address of the subnet
/// (not its network, gateway or broadcast address) that no client holds.
pub proof fn lemma_allocation_sequence(base: u32, prefix: u8, ops: Seq<PoolOp>)
    requires
        valid_subnet(base, prefix),
        ops_allowed(fresh_allocation(base, prefix), ops),
    ensures
        allocation_ok(pool_run(fresh_allocation(base, prefix), ops)),
        pool_run(fresh_allocation(base, prefix), ops).pool.available.no_duplicates(),
        ({
            let a = pool_run(fresh_allocation(base, prefix), ops);
            a.pool.available.len() > 0 ==> {
                &&& !a.held.contains(a.pool.available[0])
                &&& is_client_address(base, prefix, a.pool.available[0].value)
                &&& a.pool.available[0].value != base
                &&& a.pool.available[0].value != base + 1
                &&& a.pool.available[0].value != base + subnet_size(prefix) - 1
            }
        }),
{
    let start = fresh_allocation(base, prefix);
    let s = start.pool.available;
    assert forall|i: int, j: int| 0 <= i < s.len() && 0 <= j < s.len() && i != j implies s[i]
        != s[j] by {}
    lemma_run_ok(start, ops);
    let a = pool_run(start, ops);
    assert(a.pool.base == base && a.pool.prefix == prefix) by {
        lemma_run_keeps_subnet(start, ops);
    }
    if a.pool.available.len() > 0 {
        let x = a.pool.available[0];
        assert(is_client_address(base, prefix, x.value));
        if a.held.contains(x) {
            let k = choose|k: int| 0 <= k < a.held.len() && a.held[k] == x;
            assert(!a.pool.available.contains(a.held[k]));
        }
    }
}

/// Calls never change a pool's subnet.
proof fn lemma_run_keeps_subnet(a: Allocation, ops: Seq<PoolOp>)
    ensures
        pool_run(a, ops).pool.base == a.pool.base,
        pool_run(a, ops).pool.prefix == a.pool.prefix,
    decreases ops.len(),
{
    if ops.len() > 0 {
        lemma_run_keeps_subnet(pool_step(a, ops[0]), ops.drop_first());
    }
}

/// Allowed calls keep an allocation consistent.
proof fn lemma_run_ok(a: Allocation, ops: Seq<PoolOp>)
    requires
        allocation_ok(a),
        ops_allowed(a, ops),
    ensures
        allocation_ok(pool_run(a, ops)),
    decreases ops.len(),
{
    if ops.len() > 0 {
        lemma_pool_step_ok(a, ops[0]);
        lemma_run_ok(pool_step(a, ops[0]), ops.drop_first());
    }
}

/// A pool can be built exactly for the prefixes from 1 to 32 whose last
/// client address, `base + 2^(32 - prefix) - 2`, fits in 32 bits.
pub proof fn lemma_valid_subnet_exactly(base: u32, prefix: u8)
    ensures
        valid_subnet(base, prefix) <==> (1 <= prefix <= 32 && base + pow2((32 - prefix) as nat) - 2
            <= u32::MAX),
{
}

} // verus!
