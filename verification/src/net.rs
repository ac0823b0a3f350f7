//! Network addresses as plain values, and the text forms that `std` prints for
//! them: dotted decimal for IPv4, RFC 5952 for IPv6.
use vstd::prelude::*;
use vstd::string::StringExecFns;
use crate::text::{decimal_text, hex_text, push_decimal, push_hex};

verus! {

/// An IPv4 address, as its four octets (most significant first).
#[derive(Clone, Copy, Debug, PartialEq, Eq)]
pub struct Ipv4Address {
    pub octets: [u8; 4],
}

/// An IPv6 address, as its eight 16-bit groups (most significant first).
#[derive(Clone, Copy, Debug, PartialEq, Eq)]
pub struct Ipv6Address {
    pub segments: [u16; 8],
}

/// An IPv4 or IPv6 address.
#[derive(Clone, Copy, Debug, PartialEq, Eq)]
pub enum IpAddress {
    V4(Ipv4Address),
    V6(Ipv6Address),
}

/// An IP address together with a port.
#[derive(Clone, Copy, Debug, PartialEq, Eq)]
pub struct SocketAddress {
    pub ip: IpAddress,
    pub port: u16,
}

/// An IPv6 address together with a port.
#[derive(Clone, Copy, Debug, PartialEq, Eq)]
pub struct SocketAddressV6 {
    pub ip: Ipv6Address,
    pub port: u16,
}

/// Dotted-decimal text of four octets: `a.b.c.d`.
pub open spec fn ipv4_text(o: Seq<u8>) -> Seq<char> {
    decimal_text(o[0] as nat) + seq!['.'] + decimal_text(o[1] as nat) + seq!['.']
        + decimal_text(o[2] as nat) + seq!['.'] + decimal_text(o[3] as nat)
}

/// Hexadecimal groups joined by `:`.
pub open spec fn groups_text(s: Seq<u16>) -> Seq<char>
    decreases s.len(),
{
    if s.len() == 0 {
        seq![]
    } else if s.len() == 1 {
        hex_text(s[0] as nat)
    } else {
        groups_text(s.drop_last()) + seq![':'] + hex_text(s.last() as nat)
    }
}

/// How many zero groups follow one another from index `i` on.
pub open spec fn zeros_from(s: Seq<u16>, i: int) -> nat
    decreases s.len() - i,
{
    if 0 <= i < s.len() && s[i] == 0 {
        1 + zeros_from(s, i + 1)
    } else {
        0
    }
}

/// Start and length of the longest run of zero groups at or after `i`; of runs
/// of equal length, the first.
pub open spec fn longest_zero_run(s: Seq<u16>, i: int) -> (int, nat)
    decreases s.len() - i,
{
    if i >= s.len() {
        (s.len() as int, 0)
    } else {
        let rest = longest_zero_run(s, i + 1);
        if zeros_from(s, i) >= rest.1 {
            (i, zeros_from(s, i))
        } else {
            rest
        }
    }
}

/// Whether eight groups are an IPv4-mapped address `::ffff:a.b.c.d`.
pub open spec fn is_ipv4_mapped(s: Seq<u16>) -> bool {
    &&& s[0] == 0 && s[1] == 0 && s[2] == 0 && s[3] == 0 && s[4] == 0
    &&& s[5] == 0xffff
}

/// The four octets held in the last two groups.
pub open spec fn embedded_ipv4(s: Seq<u16>) -> Seq<u8> {
    seq![(s[6] / 256) as u8, (s[6] % 256) as u8, (s[7] / 256) as u8, (s[7] % 256) as u8]
}

/// RFC 5952 text of eight groups: an IPv4-mapped address as `::ffff:` and dotted
/// decimal; otherwise lower-case hexadecimal groups, the longest run of two or
/// more zero groups (the first of equal runs) written as `::`.
pub open spec fn ipv6_text(s: Seq<u16>) -> Seq<char> {
    if is_ipv4_mapped(s) {
        seq![':', ':', 'f', 'f', 'f', 'f', ':'] + ipv4_text(embedded_ipv4(s))
    } else {
        let run = longest_zero_run(s, 0);
        if run.1 > 1 {
            groups_text(s.subrange(0, run.0)) + seq![':', ':'] + groups_text(
                s.subrange(run.0 + run.1, s.len() as int),
            )
        } else {
            groups_text(s)
        }
    }
}

/// Text of an address and a port joined by `sep`.
pub open spec fn with_port(addr: Seq<char>, sep: char, port: u16) -> Seq<char> {
    addr + seq![sep] + decimal_text(port as nat)
}

impl View for Ipv4Address {
    type V = Seq<u8>;

    open spec fn view(&self) -> Seq<u8> {
        self.octets@
    }
}

impl View for Ipv6Address {
    type V = Seq<u16>;

    open spec fn view(&self) -> Seq<u16> {
        self.segments@
    }
}

/// Appends `s` to `out` (`s` holds one character).
fn push_char_str(out: &mut String, s: &str)
    ensures
        final(out)@ == old(out)@ + s@,
{
    out.append(s);
}

/// A zero run never reaches past the end of the groups.
proof fn lemma_zeros_from_bound(s: Seq<u16>, i: int)
    requires
        0 <= i <= s.len(),
    ensures
        i + zeros_from(s, i) <= s.len(),
        forall|k: int| i <= k < i + zeros_from(s, i) ==> s[k] == 0,
    decreases s.len() - i,
{
    if i < s.len() && s[i] == 0 {
        lemma_zeros_from_bound(s, i + 1);
    }
}

/// The longest zero run lies inside the groups.
proof fn lemma_longest_run_bound(s: Seq<u16>, i: int)
    requires
        0 <= i <= s.len(),
    ensures
        i <= longest_zero_run(s, i).0,
        longest_zero_run(s, i).0 + longest_zero_run(s, i).1 <= s.len(),
    decreases s.len() - i,
{
    if i < s.len() {
        lemma_longest_run_bound(s, i + 1);
        lemma_zeros_from_bound(s, i);
    }
}

impl Ipv4Address {
    /// The address `a.b.c.d`.
    pub fn new(a: u8, b: u8, c: u8, d: u8) -> (addr: Ipv4Address)
        ensures
            addr@ == seq![a, b, c, d],
    {
        let addr = Ipv4Address { octets: [a, b, c, d] };
        assert(addr@ =~= seq![a, b, c, d]);
        addr
    }

    /// The unspecified address `0.0.0.0`.
    pub fn unspecified() -> (addr: Ipv4Address)
        ensures
            addr@ == seq![0u8, 0u8, 0u8, 0u8],
    {
        Ipv4Address::new(0, 0, 0, 0)
    }

    /// Appends the dotted-decimal text of the address to `out`.
    pub fn push_text(&self, out: &mut String)
        ensures
            final(out)@ == old(out)@ + ipv4_text(self@),
    {
        proof {
            reveal_strlit(".");
            assert("."@ =~= seq!['.']);
        }
        push_decimal(out, self.octets[0] as u16);
        push_char_str(out, ".");
        push_decimal(out, self.octets[1] as u16);
        push_char_str(out, ".");
        push_decimal(out, self.octets[2] as u16);
        push_char_str(out, ".");
        push_decimal(out, self.octets[3] as u16);
        assert(final(out)@ =~= old(out)@ + ipv4_text(self@));
    }

    /// The dotted-decimal text of the address, as `std` displays it.
    pub fn to_text(&self) -> (s: String)
        ensures
            s@ == ipv4_text(self@),
    {
        let mut s = String::new();
        self.push_text(&mut s);
        assert(s@ =~= ipv4_text(self@));
        s
    }
}

impl Ipv6Address {
    /// The address with the given eight groups.
    pub fn from_segments(segments: [u16; 8]) -> (addr: Ipv6Address)
        ensures
            addr@ == segments@,
    {
        Ipv6Address { segments }
    }

    /// Appends the groups `lo..hi` in hexadecimal, joined by `:`, to `out`.
    fn push_groups(&self, out: &mut String, lo: usize, hi: usize)
        requires
            lo <= hi <= 8,
        ensures
            final(out)@ == old(out)@ + groups_text(self@.subrange(lo as int, hi as int)),
    {
        proof {
            reveal_strlit(":");
            assert(":"@ =~= seq![':']);
        }
        let ghost start = out@;
        let mut i = lo;
        assert(self@.subrange(lo as int, lo as int) =~= Seq::<u16>::empty());
        while i < hi
            invariant
                lo <= i <= hi <= 8,
                self@.len() == 8,
                out@ == start + groups_text(self@.subrange(lo as int, i as int)),
                ":"@ == seq![':'],
            decreases hi - i,
        {
            let ghost before = self@.subrange(lo as int, i as int);
            let ghost after = self@.subrange(lo as int, i + 1);
            assert(after.drop_last() =~= before);
            assert(after.last() == self.segments[i as int]);
            if i > lo {
                push_char_str(out, ":");
                push_hex(out, self.segments[i]);
                assert(groups_text(after) == groups_text(before) + seq![':'] + hex_text(
                    after.last() as nat,
                ));
            } else {
                push_hex(out, self.segments[i]);
                assert(groups_text(before) =~= Seq::<char>::empty());
                assert(groups_text(after) == hex_text(after[0] as nat));
            }
            assert(out@ =~= start + groups_text(after));
            i = i + 1;
        }
    }

    /// Start and length of the longest run of zero groups, the first of equal runs.
    fn longest_zero_run(&self) -> (run: (usize, usize))
        ensures
            run.0 as int == longest_zero_run(self@, 0).0,
            run.1 as nat == longest_zero_run(self@, 0).1,
            run.0 + run.1 <= 8,
    {
        let mut best_start: usize = 8;
        let mut best_len: usize = 0;
        let mut zeros: usize = 0;
        let mut i: usize = 8;
        while i > 0
            invariant
                i <= 8,
                self@.len() == 8,
                zeros as nat == zeros_from(self@, i as int),
                zeros <= 8 - i,
                (best_start as int, best_len as nat) == longest_zero_run(self@, i as int),
            decreases i,
        {
            i = i - 1;
            if self.segments[i] == 0 {
                zeros = zeros + 1;
            } else {
                zeros = 0;
            }
            if zeros >= best_len {
                best_start = i;
                best_len = zeros;
            }
        }
        proof { lemma_longest_run_bound(self@, 0); }
        (best_start, best_len)
    }

    /// Appends the RFC 5952 text of the address to `out`.
    pub fn push_text(&self, out: &mut String)
        ensures
            final(out)@ == old(out)@ + ipv6_text(self@),
    {
        let s = &self.segments;
        if s[0] == 0 && s[1] == 0 && s[2] == 0 && s[3] == 0 && s[4] == 0 && s[5] == 0xffff {
            proof { reveal_strlit("::ffff:"); }
            out.append("::ffff:");
            let v4 = Ipv4Address::new(
                (s[6] / 256) as u8,
                (s[6] % 256) as u8,
                (s[7] / 256) as u8,
                (s[7] % 256) as u8,
            );
            v4.push_text(out);
            assert(v4@ =~= embedded_ipv4(self@));
            assert(final(out)@ =~= old(out)@ + ipv6_text(self@));
        } else {
            let (start, len) = self.longest_zero_run();
            if len > 1 {
                proof { reveal_strlit("::"); }
                self.push_groups(out, 0, start);
                out.append("::");
                self.push_groups(out, start + len, 8);
                assert(final(out)@ =~= old(out)@ + ipv6_text(self@));
            } else {
                self.push_groups(out, 0, 8);
                assert(self@.subrange(0, 8) =~= self@);
            }
        }
    }

    /// The RFC 5952 text of the address, as `std` displays it.
    pub fn to_text(&self) -> (s: String)
        ensures
            s@ == ipv6_text(self@),
    {
        let mut s = String::new();
        self.push_text(&mut s);
        assert(s@ =~= ipv6_text(self@));
        s
    }
}

impl IpAddress {
    /// The text of the address as `std` displays it.
    pub open spec fn spec_text(self) -> Seq<char> {
        match self {
            IpAddress::V4(a) => ipv4_text(a@),
            IpAddress::V6(a) => ipv6_text(a@),
        }
    }

    /// The text of the address as `std` displays it.
    pub fn to_text(&self) -> (s: String)
        ensures
            s@ == self.spec_text(),
    {
        match self {
            IpAddress::V4(a) => a.to_text(),
            IpAddress::V6(a) => a.to_text(),
        }
    }
}

} // verus!
