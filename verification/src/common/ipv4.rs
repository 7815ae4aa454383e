use vstd::prelude::*;

verus! {

/// An IPv4 address, held as its 32-bit value (the first octet is the most
/// significant byte).
#[derive(Clone, Copy, Debug, PartialEq, Eq, Structural)]
pub struct Ipv4Address {
    pub value: u32,
}

/// The value of the address `a.b.c.d`.
pub open spec fn value_of_octets(a: u8, b: u8, c: u8, d: u8) -> int {
    a as int * 0x1000000 + b as int * 0x10000 + c as int * 0x100 + d as int
}

/// The four octets of an address value, most significant first.
pub open spec fn octets_of(v: u32) -> Seq<u8> {
    seq![
        (v / 0x1000000) as u8,
        ((v / 0x10000) % 0x100) as u8,
        ((v / 0x100) % 0x100) as u8,
        (v % 0x100) as u8,
    ]
}

/// Reading the octets of a value back gives the value.
pub proof fn lemma_octets_value(v: u32)
    ensures
        value_of_octets(octets_of(v)[0], octets_of(v)[1], octets_of(v)[2], octets_of(v)[3]) == v,
{
    assert(v == (v / 0x1000000) * 0x1000000 + ((v / 0x10000) % 0x100) * 0x10000 + ((v / 0x100)
        % 0x100) * 0x100 + v % 0x100) by (nonlinear_arith);
}

/// The octets of the value of `a.b.c.d` are `a, b, c, d`.
pub proof fn lemma_value_octets(a: u8, b: u8, c: u8, d: u8)
    ensures
        0 <= value_of_octets(a, b, c, d) <= u32::MAX,
        octets_of(value_of_octets(a, b, c, d) as u32) == seq![a, b, c, d],
{
    let v = value_of_octets(a, b, c, d);
    assert(0 <= v <= u32::MAX);
    assert(v / 0x1000000 == a) by (nonlinear_arith)
        requires v == a as int * 0x1000000 + b as int * 0x10000 + c as int * 0x100 + d as int,
            a <= 255, b <= 255, c <= 255, d <= 255;
    assert((v / 0x10000) % 0x100 == b) by (nonlinear_arith)
        requires v == a as int * 0x1000000 + b as int * 0x10000 + c as int * 0x100 + d as int,
            a <= 255, b <= 255, c <= 255, d <= 255;
    assert((v / 0x100) % 0x100 == c) by (nonlinear_arith)
        requires v == a as int * 0x1000000 + b as int * 0x10000 + c as int * 0x100 + d as int,
            a <= 255, b <= 255, c <= 255, d <= 255;
    assert(v % 0x100 == d) by (nonlinear_arith)
        requires v == a as int * 0x1000000 + b as int * 0x10000 + c as int * 0x100 + d as int,
            a <= 255, b <= 255, c <= 255, d <= 255;
    assert(octets_of(v as u32) =~= seq![a, b, c, d]);
}

impl Ipv4Address {
    /// The address `a.b.c.d`.
    pub fn from_octets(a: u8, b: u8, c: u8, d: u8) -> (addr: Self)
        ensures
            addr.value == value_of_octets(a, b, c, d),
            octets_of(addr.value) == seq![a, b, c, d],
    {
        proof {
            lemma_value_octets(a, b, c, d);
        }
        let v: u32 = (a as u32) * 0x1000000 + (b as u32) * 0x10000 + (c as u32) * 0x100
            + (d as u32);
        Ipv4Address { value: v }
    }

    /// The four octets of the address, most significant first.
    pub fn octets(&self) -> (o: [u8; 4])
        ensures
            o@ == octets_of(self.value),
    {
        let v = self.value;
        let o = [
            (v / 0x1000000) as u8,
            ((v / 0x10000) % 0x100) as u8,
            ((v / 0x100) % 0x100) as u8,
            (v % 0x100) as u8,
        ];
        assert(o@ =~= octets_of(v));
        o
    }
}

} // verus!
