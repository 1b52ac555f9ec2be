//! Network addresses and prefixes.
use vstd::prelude::*;
use vstd::arithmetic::power2::*;
use crate::vecmap::Key;

verus! {

/// An IPv4 address, as the integer that its four octets spell.
pub type Ipv4Addr = u32;

/// An IP address, as the integer that its octets spell.
#[derive(Clone, Copy, PartialEq, Eq, Structural, Hash, Debug)]
pub enum IpAddr {
    V4(u32),
    V6(u128),
}

/// An IP address and a port.
#[derive(Clone, Copy, PartialEq, Eq, Structural, Hash, Debug)]
pub struct SocketAddr {
    pub ip: IpAddr,
    pub port: u16,
}

/// An address prefix: the leading `mask` bits of `addr`.
#[derive(Clone, Copy, PartialEq, Eq, Structural, Hash, Debug)]
pub struct IpNet {
    pub addr: IpAddr,
    pub mask: u8,
}

impl Key for IpAddr {
    type Id = IpAddr;

    open spec fn id(self) -> IpAddr {
        self
    }

    fn same(&self, other: &Self) -> (r: bool) {
        *self == *other
    }
}

impl Key for SocketAddr {
    type Id = SocketAddr;

    open spec fn id(self) -> SocketAddr {
        self
    }

    fn same(&self, other: &Self) -> (r: bool) {
        *self == *other
    }
}

/// The `n` octets that spell `x`, the most significant one first.
pub open spec fn be_octets(x: nat, n: nat) -> Seq<u8>
    decreases n,
{
    if n == 0 {
        Seq::empty()
    } else {
        be_octets(x / 256, (n - 1) as nat).push((x % 256) as u8)
    }
}

/// The integer that the octets `s` spell.
pub open spec fn be_value(s: Seq<u8>) -> nat
    decreases s.len(),
{
    if s.len() == 0 {
        0
    } else {
        be_value(s.drop_last()) * 256 + s.last() as nat
    }
}

/// 256 to the power of `n`.
pub open spec fn pow256(n: nat) -> nat
    decreases n,
{
    if n == 0 {
        1
    } else {
        256 * pow256((n - 1) as nat)
    }
}

pub proof fn lemma_octets_len(x: nat, n: nat)
    ensures
        be_octets(x, n).len() == n,
    decreases n,
{
    if n > 0 {
        lemma_octets_len(x / 256, (n - 1) as nat);
    }
}

/// Reading the octets of an integer gives the integer back, if it fits.
pub proof fn lemma_octets_value(x: nat, n: nat)
    requires
        x < pow256(n),
    ensures
        be_value(be_octets(x, n)) == x,
    decreases n,
{
    if n > 0 {
        assert(x / 256 < pow256((n - 1) as nat));
        lemma_octets_value(x / 256, (n - 1) as nat);
        let s = be_octets(x, n);
        assert(s.drop_last() =~= be_octets(x / 256, (n - 1) as nat));
    }
}

pub proof fn lemma_value_bound(s: Seq<u8>)
    ensures
        be_value(s) < pow256(s.len()),
    decreases s.len(),
{
    if s.len() > 0 {
        lemma_value_bound(s.drop_last());
    }
}

pub proof fn lemma_pow256()
    ensures
        pow256(4) == 0x1_0000_0000,
        pow256(16) == 0x1_0000_0000_0000_0000_0000_0000_0000_0000,
{
    reveal_with_fuel(pow256, 17);
}

fn octets_of(x: u128, n: usize) -> (r: Vec<u8>)
    requires
        n <= 16,
    ensures
        r@ == be_octets(x as nat, n as nat),
{
    let mut v: Vec<u8> = Vec::new();
    let mut rest: u128 = x;
    let mut i: usize = 0;
    assert(be_octets(x as nat, n as nat) + v@ =~= be_octets(x as nat, n as nat));
    while i < n
        invariant
            i <= n,
            be_octets(rest as nat, (n - i) as nat) + v@ == be_octets(x as nat, n as nat),
        decreases n - i,
    {
        let ghost before = v@;
        let b: u8 = (rest % 256) as u8;
        v.insert(0, b);
        proof {
            assert(be_octets(rest as nat, (n - i) as nat) + before =~= be_octets(
                rest as nat / 256,
                (n - i - 1) as nat,
            ) + v@);
        }
        rest = rest / 256;
        i += 1;
    }
    assert(be_octets(rest as nat, 0) + v@ =~= v@);
    v
}

/// Whether `a` is an IPv4-mapped IPv6 address, which carries an IPv4 address in its low 32 bits:
/// its leading 80 bits are zero and the next 16 are one.
pub open spec fn embeds_ipv4(a: u128) -> bool {
    a / 0x1_0000_0000 == 0xffff
}

/// An IPv4-mapped IPv6 address as the IPv4 address that it carries; any other address as it is.
pub open spec fn unembedded(a: IpAddr) -> IpAddr {
    match a {
        IpAddr::V4(_) => a,
        IpAddr::V6(x) => if embeds_ipv4(x) {
            IpAddr::V4((x % 0x1_0000_0000) as u32)
        } else {
            a
        },
    }
}

impl IpAddr {
    /// The number of octets of the address.
    pub open spec fn width(self) -> nat {
        match self {
            IpAddr::V4(_) => 4,
            IpAddr::V6(_) => 16,
        }
    }

    /// The address as an integer.
    pub open spec fn value(self) -> nat {
        match self {
            IpAddr::V4(x) => x as nat,
            IpAddr::V6(x) => x as nat,
        }
    }

    /// The octets of the address, in network order.
    pub open spec fn spec_octets(self) -> Seq<u8> {
        be_octets(self.value(), self.width())
    }

    /// The octets of the address, in network order.
    pub fn octets(&self) -> (r: Vec<u8>)
        ensures
            r@ == self.spec_octets(),
            r@.len() == self.width(),
    {
        proof {
            lemma_octets_len(self.value(), self.width());
        }
        match self {
            IpAddr::V4(x) => octets_of(*x as u128, 4),
            IpAddr::V6(x) => octets_of(*x, 16),
        }
    }

    /// The unspecified IPv4 address.
    pub fn unspecified() -> (r: IpAddr)
        ensures
            r == IpAddr::V4(0),
    {
        IpAddr::V4(0)
    }

    /// The IPv4 address that the first four octets of `octets` spell.
    pub fn from_v4_octets(octets: &Vec<u8>) -> (r: IpAddr)
        requires
            octets@.len() >= 4,
        ensures
            r == IpAddr::V4(be_value(octets@.take(4)) as u32),
            be_value(octets@.take(4)) <= u32::MAX,
    {
        IpAddr::V4(value_of(octets, 4) as u32)
    }

    /// The IPv6 address that the first sixteen octets of `octets` spell.
    pub fn from_v6_octets(octets: &Vec<u8>) -> (r: IpAddr)
        requires
            octets@.len() >= 16,
        ensures
            r == IpAddr::V6(be_value(octets@.take(16)) as u128),
            be_value(octets@.take(16)) <= u128::MAX,
    {
        IpAddr::V6(value_of(octets, 16))
    }
}

fn value_of(octets: &Vec<u8>, n: usize) -> (r: u128)
    requires
        n == 4 || n == 16,
        octets@.len() >= n,
    ensures
        r == be_value(octets@.take(n as int)),
        n == 4 ==> r <= u32::MAX,
{
    let mut x: u128 = 0;
    let mut i: usize = 0;
    proof {
        lemma_pow256();
        assert(octets@.take(0).len() == 0);
    }
    while i < n
        invariant
            i <= n,
            n == 4 || n == 16,
            n <= octets@.len(),
            x == be_value(octets@.take(i as int)),
            pow256(4) == 0x1_0000_0000,
            pow256(16) == 0x1_0000_0000_0000_0000_0000_0000_0000_0000,
        decreases n - i,
    {
        let b: u8 = octets[i];
        proof {
            let t = octets@.take(i + 1);
            assert(t.drop_last() =~= octets@.take(i as int));
            assert(be_value(t) == x * 256 + b);
            lemma_value_bound(t);
            lemma_pow256_mono((i + 1) as nat, n as nat);
        }
        x = x * 256 + b as u128;
        i += 1;
    }
    proof {
        lemma_value_bound(octets@.take(n as int));
    }
    x
}

proof fn lemma_pow256_mono(a: nat, b: nat)
    requires
        a <= b,
    ensures
        pow256(a) <= pow256(b),
    decreases b,
{
    if a < b {
        lemma_pow256_mono(a, (b - 1) as nat);
    }
}

impl SocketAddr {
    /// The address without its port. An IPv4-mapped IPv6 address becomes the IPv4 address that it
    /// carries.
    pub fn to_ipaddr(&self) -> (r: IpAddr)
        ensures
            r == unembedded(self.ip),
    {
        match self.ip {
            IpAddr::V4(x) => IpAddr::V4(x),
            IpAddr::V6(x) => {
                let high: u128 = x / 0x1_0000_0000;
                if high == 0xffff {
                    IpAddr::V4((x % 0x1_0000_0000) as u32)
                } else {
                    IpAddr::V6(x)
                }
            },
        }
    }
}

/// Whether the leading `mask` bits of the `bits`-bit integers `x` and `y` agree.
pub open spec fn same_prefix(x: nat, y: nat, mask: nat, bits: nat) -> bool {
    mask >= bits && x == y || mask < bits && x / pow2((bits - mask) as nat) == y / pow2(
        (bits - mask) as nat,
    )
}

fn shared_prefix(x: u128, y: u128, mask: u8, bits: u8) -> (r: bool)
    requires
        bits <= 128,
    ensures
        r == same_prefix(x as nat, y as nat, mask as nat, bits as nat),
{
    if mask >= bits {
        return x == y;
    }
    let mut a: u128 = x;
    let mut b: u128 = y;
    let mut left: u8 = bits - mask;
    while left > 0
        invariant
            left <= bits - mask,
            mask < bits,
            (a as nat / pow2(left as nat) == b as nat / pow2(left as nat)) == same_prefix(
                x as nat,
                y as nat,
                mask as nat,
                bits as nat,
            ),
        decreases left,
    {
        proof {
            let p = pow2((left - 1) as nat);
            lemma_pow2_pos((left - 1) as nat);
            lemma_pow2_unfold(left as nat);
            vstd::arithmetic::div_mod::lemma_div_denominator(a as int, 2, p as int);
            vstd::arithmetic::div_mod::lemma_div_denominator(b as int, 2, p as int);
        }
        a = a / 2;
        b = b / 2;
        left = left - 1;
    }
    proof {
        lemma2_to64();
        assert(a as nat / 1 == a && b as nat / 1 == b);
    }
    a == b
}

impl IpNet {
    /// Whether this is an IPv6 prefix.
    pub open spec fn spec_is_v6(self) -> bool {
        self.addr is V6
    }

    /// Whether `a` lies in this prefix.
    pub open spec fn covers(self, a: IpAddr) -> bool {
        match (self.addr, a) {
            (IpAddr::V4(x), IpAddr::V4(y)) => same_prefix(x as nat, y as nat, self.mask as nat, 32),
            (IpAddr::V6(x), IpAddr::V6(y)) => same_prefix(
                x as nat,
                y as nat,
                self.mask as nat,
                128,
            ),
            _ => false,
        }
    }

    /// The mask is no longer than the address.
    pub open spec fn valid(self) -> bool {
        self.mask <= 8 * self.addr.width()
    }

    /// Whether this is an IPv6 prefix.
    pub fn is_v6(&self) -> (r: bool)
        ensures
            r == self.spec_is_v6(),
    {
        match self.addr {
            IpAddr::V4(_) => false,
            IpAddr::V6(_) => true,
        }
    }

    /// Whether `a` lies in this prefix.
    pub fn contains(&self, a: IpAddr) -> (r: bool)
        ensures
            r == self.covers(a),
    {
        match self.addr {
            IpAddr::V4(x) => match a {
                IpAddr::V4(y) => shared_prefix(x as u128, y as u128, self.mask, 32),
                IpAddr::V6(_) => false,
            },
            IpAddr::V6(x) => match a {
                IpAddr::V4(_) => false,
                IpAddr::V6(y) => shared_prefix(x, y, self.mask, 128),
            },
        }
    }
}

/// Every prefix covers its own address, and the prefix of no bits every address of its kind.
pub proof fn law_prefix_covers(net: IpNet, a: IpAddr)
    ensures
        net.covers(net.addr),
        net.mask == 0 && (net.addr is V4 == a is V4) ==> net.covers(a),
{
    if net.mask == 0 {
        lemma_pow2_bits();
        if let IpAddr::V4(y) = a {
            assert(y as nat / pow2(32) == 0);
        }
        if let IpAddr::V4(x) = net.addr {
            assert(x as nat / pow2(32) == 0);
        }
        if let IpAddr::V6(y) = a {
            assert(y as nat / pow2(128) == 0);
        }
        if let IpAddr::V6(x) = net.addr {
            assert(x as nat / pow2(128) == 0);
        }
    }
}

proof fn lemma_pow2_bits()
    ensures
        pow2(32) == 0x1_0000_0000,
        pow2(128) == 0x1_0000_0000_0000_0000_0000_0000_0000_0000,
{
    lemma2_to64();
    lemma_pow2_adds(64, 64);
}

/// A prefix covers exactly the addresses of its kind from the first to the last that share its
/// leading bits, as many as the bits behind the mask can count. With a mask as long as the address
/// it covers its own address alone.
pub proof fn law_prefix_is_a_range(net: IpNet, a: IpAddr)
    requires
        net.mask <= 8 * net.addr.width(),
    ensures
        ({
            let size = pow2((8 * net.addr.width() - net.mask) as nat) as int;
            let first = net.addr.value() - net.addr.value() as int % size;
            net.covers(a) == ((net.addr is V4) == (a is V4) && first <= a.value() < first + size)
        }),
{
    let size = pow2((8 * net.addr.width() - net.mask) as nat) as int;
    let x = net.addr.value() as int;
    let y = a.value() as int;
    lemma_pow2_pos((8 * net.addr.width() - net.mask) as nat);
    lemma2_to64();
    vstd::arithmetic::div_mod::lemma_fundamental_div_mod(x, size);
    vstd::arithmetic::div_mod::lemma_fundamental_div_mod(y, size);
    vstd::arithmetic::div_mod::lemma_mod_bound(x, size);
    vstd::arithmetic::div_mod::lemma_mod_bound(y, size);
    let first = x - x % size;
    if first <= y < first + size {
        vstd::arithmetic::div_mod::lemma_fundamental_div_mod_converse(
            y,
            size,
            x / size,
            y - first,
        );
    }
    if x / size == y / size {
        assert(y == first + y % size);
    }
    if net.mask == 8 * net.addr.width() {
        assert(size == 1);
        assert(x % 1 == 0);
    }
}

/// Of the IPv6 addresses exactly those of `::ffff:0:0/96` become IPv4 addresses, and those count up
/// from zero. All other addresses stay what they are.
pub proof fn law_unembedded(a: IpAddr)
    ensures
        match a {
            IpAddr::V4(_) => unembedded(a) == a,
            IpAddr::V6(x) => if 0xffff_0000_0000 <= x <= 0xffff_ffff_ffff {
                unembedded(a) is V4 && unembedded(a).value() == x - 0xffff_0000_0000
            } else {
                unembedded(a) == a
            },
        },
{
}

/// The octets of an address stand with the most significant first: each is what is left of the
/// address when the ones behind it are cut off, up to 256.
pub proof fn law_octets(a: IpAddr, i: int)
    requires
        0 <= i < a.width(),
    ensures
        a.spec_octets().len() == a.width(),
        a.spec_octets()[i] == a.value() / pow256((a.width() - 1 - i) as nat) % 256,
{
    lemma_octets_len(a.value(), a.width());
    lemma_octet(a.value(), a.width(), i);
}

proof fn lemma_octet(x: nat, n: nat, i: int)
    requires
        0 <= i < n,
    ensures
        be_octets(x, n)[i] == x / pow256((n - 1 - i) as nat) % 256,
    decreases n,
{
    lemma_octets_len(x / 256, (n - 1) as nat);
    if i == n - 1 {
        assert(pow256(0) == 1);
        vstd::arithmetic::div_mod::lemma_div_basics_2(x as int);
    } else {
        lemma_octet(x / 256, (n - 1) as nat, i);
        let p = pow256((n - 2 - i) as nat);
        lemma_pow256_mono(0, (n - 2 - i) as nat);
        vstd::arithmetic::div_mod::lemma_div_denominator(x as int, 256, p as int);
        assert(pow256((n - 1 - i) as nat) == 256 * p);
    }
}

/// An IPv4 address has 4 octets and is its number, and an IPv6 address has 16.
pub proof fn law_kinds_of_addresses(a: IpAddr, mask: u8)
    ensures
        match a {
            IpAddr::V4(x) => a.width() == 4 && a.value() == x && (IpNet {
                addr: a,
                mask,
            }).valid() == (mask <= 32) && !(IpNet { addr: a, mask }).spec_is_v6(),
            IpAddr::V6(x) => a.width() == 16 && a.value() == x && (IpNet {
                addr: a,
                mask,
            }).valid() == (mask <= 128) && (IpNet { addr: a, mask }).spec_is_v6(),
        },
{
}

} // verus!
