//! IPv4 addresses and CIDR blocks: parsing, formatting, masks and
//! containment.
use vstd::prelude::*;
use crate::text::{
    digit_char, digit_value, has_char, join_spec, lemma_split_join,
    all_digits, concat_chars, dec_chars, dec_string, dec_value, find_char, first_index,
    is_digit, is_first_index, parse_unsigned, parse_unsigned_spec, split_chars, split_spec,
    sub_chars, views,
};

verus! {

/// An IPv4 network in CIDR notation, the address held in host byte order.
#[derive(Clone, Copy, Debug, PartialEq, Eq, Structural)]
pub struct Cidr {
    pub network: u32,
    pub prefix: u8,
}

// ---------------------------------------------------------------------------
// Specifications
// ---------------------------------------------------------------------------
/// One dotted-decimal component as `Ipv4Addr::from_str` accepts it: one to
/// three digits, no leading zero, at most 255.
pub open spec fn octet_ok(p: Seq<char>) -> bool {
    &&& 1 <= p.len() <= 3
    &&& all_digits(p)
    &&& (p.len() == 1 || p[0] != '0')
    &&& dec_value(p) <= 255
}

pub open spec fn octets_value(a: nat, b: nat, c: nat, d: nat) -> nat {
    a * 16777216 + b * 65536 + c * 256 + d
}

/// `Ipv4Addr::from_str` followed by `u32::from`.
pub open spec fn parse_ipv4_spec(s: Seq<char>) -> Option<u32> {
    let parts = split_spec(s, '.');
    if parts.len() == 4 && octet_ok(parts[0]) && octet_ok(parts[1]) && octet_ok(parts[2])
        && octet_ok(parts[3]) {
        Some(
            octets_value(
                dec_value(parts[0]),
                dec_value(parts[1]),
                dec_value(parts[2]),
                dec_value(parts[3]),
            ) as u32,
        )
    } else {
        None
    }
}

/// `Ipv4Addr`'s `Display`: the four octets in decimal, joined by dots.
pub open spec fn format_ipv4_spec(ip: u32) -> Seq<char> {
    dec_chars((ip / 16777216) as nat) + seq!['.'] + dec_chars(((ip / 65536) % 256) as nat) + seq![
        '.',
    ] + dec_chars(((ip / 256) % 256) as nat) + seq!['.'] + dec_chars((ip % 256) as nat)
}

/// A block written as `Ipv4Addr`'s `Display` form, `/` and the prefix length.
pub open spec fn format_cidr_spec(c: Cidr) -> Seq<char> {
    format_ipv4_spec(c.network) + seq!['/'] + dec_chars(c.prefix as nat)
}

/// The network mask of a prefix length (`prefix_mask`).
pub open spec fn mask_spec(p: u8) -> u32 {
    if p == 0 {
        0
    } else {
        (0xFFFF_FFFFu32 << ((32 - p) as u32)) as u32
    }
}

/// The number of addresses in a block of the given prefix length.
pub open spec fn block_spec(p: u8) -> u32 {
    (1u32 << ((32 - p) as u32)) as u32
}

/// `parse_cidr`: `ADDRESS/PREFIX` split at the first `/`, the prefix a
/// `u8` of at most 32.
pub open spec fn parse_cidr_spec(s: Seq<char>) -> Option<Cidr> {
    match first_index(s, '/') {
        None => None,
        Some(k) => {
            match (parse_ipv4_spec(s.take(k)), parse_unsigned_spec(s.skip(k + 1), 255)) {
                (Some(ip), Some(p)) => if p <= 32 {
                    Some(Cidr { network: ip, prefix: p as u8 })
                } else {
                    None
                },
                _ => None,
            }
        },
    }
}

pub open spec fn normalize_spec(c: Cidr) -> Cidr {
    Cidr { network: c.network & mask_spec(c.prefix), prefix: c.prefix }
}

/// The block holds the address.
pub open spec fn in_block(c: Cidr, ip: u32) -> bool {
    ip & mask_spec(c.prefix) == c.network
}

/// A block whose network address has no bits below its prefix.
pub open spec fn normalized(c: Cidr) -> bool {
    c.prefix <= 32 && c.network & mask_spec(c.prefix) == c.network
}

// ---------------------------------------------------------------------------
// Lemmas on masks
// ---------------------------------------------------------------------------
/// The mask of a prefix is all ones shifted left by the host bits.
pub proof fn lemma_mask_shape(p: u8)
    requires
        p <= 32,
    ensures
        mask_spec(p) == (0xFFFF_FFFFu32 << ((32 - p) as u32)) as u32,
{
    if p == 0 {
        assert((0xFFFF_FFFFu32 << 32u32) == 0u32) by (bit_vector);
    }
}

/// Masking twice with the same mask changes nothing.
pub proof fn lemma_mask_idempotent(x: u32, p: u8)
    ensures
        (x & mask_spec(p)) & mask_spec(p) == x & mask_spec(p),
{
    let m = mask_spec(p);
    assert((x & m) & m == x & m) by (bit_vector);
}

/// The decimal form of a number reads back as the number: digits only, no
/// leading zero, at most three digits below 1000.
pub proof fn lemma_dec_chars_reads_back(n: nat)
    ensures
        dec_value(dec_chars(n)) == n,
        all_digits(dec_chars(n)),
        dec_chars(n).len() >= 1,
        n >= 10 ==> dec_chars(n)[0] != '0',
        n < 10 ==> dec_chars(n).len() == 1,
        n < 100 ==> dec_chars(n).len() <= 2,
        n < 1000 ==> dec_chars(n).len() <= 3,
    decreases n,
{
    if n < 10 {
        assert(digit_value(digit_char(n)) == n);
        assert(dec_chars(n).drop_last() =~= Seq::<char>::empty());
        assert(dec_value(dec_chars(n)) == dec_value(Seq::<char>::empty()) * 10 + digit_value(
            digit_char(n),
        ));
    } else {
        lemma_dec_chars_reads_back(n / 10);
        let d = dec_chars(n / 10);
        let c = digit_char(n % 10);
        assert(digit_value(c) == n % 10);
        assert(dec_chars(n) == d.push(c));
        assert(d.push(c).drop_last() =~= d);
        assert(dec_value(dec_chars(n)) == dec_value(d) * 10 + digit_value(c));
        assert((n / 10) * 10 + n % 10 == n) by (nonlinear_arith);
        assert(dec_chars(n)[0] == d[0]);
        if n / 10 < 10 {
            assert(d[0] == digit_char(n / 10));
            assert(digit_value(d[0]) == n / 10);
        }
    }
}

/// A number up to `max` in decimal parses back as itself.
pub proof fn lemma_dec_chars_parses(n: nat, max: nat)
    requires
        n <= max,
    ensures
        parse_unsigned_spec(dec_chars(n), max) == Some(n),
{
    lemma_dec_chars_reads_back(n);
    assert(is_digit(dec_chars(n)[0]));
}

/// The decimal form of a number up to 255 is a valid address component.
proof fn lemma_octet_ok(n: nat)
    requires
        n <= 255,
    ensures
        octet_ok(dec_chars(n)),
        !has_char(dec_chars(n), '.'),
        dec_value(dec_chars(n)) == n,
{
    lemma_dec_chars_reads_back(n);
    if has_char(dec_chars(n), '.') {
        let k = choose|k: int| 0 <= k < dec_chars(n).len() && dec_chars(n)[k] == '.';
        assert(is_digit(dec_chars(n)[k]));
    }
}

/// Dotted decimal holds only digits and dots.
pub proof fn lemma_format_ipv4_chars(ip: u32)
    ensures
        forall|i: int|
            0 <= i < format_ipv4_spec(ip).len() ==> is_digit(#[trigger] format_ipv4_spec(ip)[i])
                || format_ipv4_spec(ip)[i] == '.',
{
    let a = dec_chars((ip / 16777216) as nat);
    let b = dec_chars(((ip / 65536) % 256) as nat);
    let c = dec_chars(((ip / 256) % 256) as nat);
    let d = dec_chars((ip % 256) as nat);
    lemma_dec_chars_reads_back((ip / 16777216) as nat);
    lemma_dec_chars_reads_back(((ip / 65536) % 256) as nat);
    lemma_dec_chars_reads_back(((ip / 256) % 256) as nat);
    lemma_dec_chars_reads_back((ip % 256) as nat);
    let f = format_ipv4_spec(ip);
    assert forall|i: int| 0 <= i < f.len() implies is_digit(#[trigger] f[i]) || f[i] == '.' by {
        let la = a.len() as int;
        let lb = b.len() as int;
        let lc = c.len() as int;
        if i < la {
            assert(f[i] == a[i]);
        } else if i == la {
        } else if i < la + 1 + lb {
            assert(f[i] == b[i - la - 1]);
        } else if i == la + 1 + lb {
        } else if i < la + 2 + lb + lc {
            assert(f[i] == c[i - la - 2 - lb]);
        } else if i == la + 2 + lb + lc {
        } else {
            assert(f[i] == d[i - la - 3 - lb - lc]);
        }
    }
}

/// An address written in dotted decimal parses back as the same address.
pub proof fn lemma_ipv4_round_trip(ip: u32)
    ensures
        parse_ipv4_spec(format_ipv4_spec(ip)) == Some(ip),
{
    let a = (ip / 16777216) as nat;
    let b = ((ip / 65536) % 256) as nat;
    let c = ((ip / 256) % 256) as nat;
    let d = (ip % 256) as nat;
    lemma_octet_ok(a);
    lemma_octet_ok(b);
    lemma_octet_ok(c);
    lemma_octet_ok(d);
    let list = seq![dec_chars(a), dec_chars(b), dec_chars(c), dec_chars(d)];
    assert forall|i: int| 0 <= i < list.len() implies !has_char(#[trigger] list[i], '.') by {}
    lemma_split_join(list, '.');
    assert(list.drop_last().drop_last().drop_last() =~= seq![dec_chars(a)]);
    assert(list.drop_last().drop_last() =~= seq![dec_chars(a), dec_chars(b)]);
    assert(list.drop_last() =~= seq![dec_chars(a), dec_chars(b), dec_chars(c)]);
    assert(join_spec(list, '.') =~= format_ipv4_spec(ip)) by {
        reveal_with_fuel(join_spec, 4);
    }
    assert(octets_value(a, b, c, d) == ip) by (nonlinear_arith)
        requires
            a == ip / 16777216,
            b == (ip / 65536) % 256,
            c == (ip / 256) % 256,
            d == ip % 256,
    ;
}

/// A block written out parses back as the same block.
pub proof fn lemma_cidr_round_trip(c: Cidr)
    requires
        c.prefix <= 32,
    ensures
        parse_cidr_spec(format_cidr_spec(c)) == Some(c),
{
    let s = format_cidr_spec(c);
    let f = format_ipv4_spec(c.network);
    let p = dec_chars(c.prefix as nat);
    lemma_format_ipv4_chars(c.network);
    lemma_dec_chars_parses(c.prefix as nat, 255);
    lemma_ipv4_round_trip(c.network);
    let k = f.len() as int;
    assert forall|j: int| 0 <= j < k implies s[j] != '/' by {
        assert(s[j] == f[j]);
    }
    assert(s[k] == '/');
    assert(first_index(s, '/') == Some(k)) by {
        let m = choose|i: int| 0 <= i < s.len() && s[i] == '/' && forall|j: int| 0 <= j < i ==> s[j] != '/';
        if m < k {
            assert(s[m] == f[m]);
        } else if m > k {
            assert(s[k] != '/');
        }
    }
    assert(s.take(k) =~= f);
    assert(s.skip(k + 1) =~= p);
}

// ---------------------------------------------------------------------------
// Executable functions
// ---------------------------------------------------------------------------
/// `Ipv4Addr::from_str`, as the address in host byte order.
pub fn parse_ipv4(s: &[char]) -> (r: Option<u32>)
    ensures
        r == parse_ipv4_spec(s@),
{
    let parts = split_chars(s, '.');
    if parts.len() != 4 {
        return None;
    }
    let mut vals: Vec<u64> = Vec::new();
    let mut i: usize = 0;
    while i < 4
        invariant
            parts.len() == 4,
            views(parts@) == split_spec(s@, '.'),
            i <= 4,
            vals.len() == i,
            forall|j: int| 0 <= j < i ==> octet_ok(#[trigger] views(parts@)[j]) && vals@[j]
                == dec_value(views(parts@)[j]),
        decreases 4 - i,
    {
        let p = &parts[i];
        assert(views(parts@)[i as int] == p@);
        if p.len() < 1 || p.len() > 3 || (p.len() > 1 && p[0] == '0') || p[0] == '+' {
            assert(p@.len() > 0 && p@[0] == '+' ==> !is_digit(p@[0]));
            assert(!octet_ok(views(parts@)[i as int]));
            return None;
        }
        let v = parse_unsigned(p, 255);
        match v {
            None => {
                assert(!octet_ok(views(parts@)[i as int]));
                return None;
            },
            Some(x) => {
                assert(octet_ok(views(parts@)[i as int]));
                vals.push(x);
            },
        }
        i = i + 1;
    }
    assert(octet_ok(views(parts@)[0]));
    assert(octet_ok(views(parts@)[1]));
    assert(octet_ok(views(parts@)[2]));
    assert(octet_ok(views(parts@)[3]));
    let v = vals[0] * 16777216 + vals[1] * 65536 + vals[2] * 256 + vals[3];
    Some(v as u32)
}

/// `Ipv4Addr`'s `Display` for the address `ip` (host byte order).
pub fn format_ipv4(ip: u32) -> (r: Vec<char>)
    ensures
        r@ == format_ipv4_spec(ip),
{
    let dot: Vec<char> = vec!['.'];
    let a = dec_string((ip / 16777216) as u64);
    let b = dec_string(((ip / 65536) % 256) as u64);
    let c = dec_string(((ip / 256) % 256) as u64);
    let d = dec_string((ip % 256) as u64);
    let r1 = concat_chars(&a, &dot);
    let r2 = concat_chars(&r1, &b);
    let r3 = concat_chars(&r2, &dot);
    let r4 = concat_chars(&r3, &c);
    let r5 = concat_chars(&r4, &dot);
    let r6 = concat_chars(&r5, &d);
    assert(dot@ == seq!['.']);
    r6
}

/// The network mask of a prefix length.
pub fn prefix_mask(prefix: u8) -> (m: u32)
    requires
        prefix <= 32,
    ensures
        m == mask_spec(prefix),
{
    if prefix == 0 {
        0
    } else {
        u32::MAX << (32 - prefix)
    }
}

/// The number of addresses in a block (`1 << (32 - prefix)`).
pub fn block_size(prefix: u8) -> (b: u32)
    requires
        1 <= prefix <= 32,
    ensures
        b == block_spec(prefix),
{
    1u32 << (32 - prefix)
}

/// Clears the host bits of a block's network address.
pub fn normalize_cidr(cidr: Cidr) -> (r: Cidr)
    requires
        cidr.prefix <= 32,
    ensures
        r == normalize_spec(cidr),
        normalized(r),
{
    proof {
        lemma_mask_idempotent(cidr.network, cidr.prefix);
    }
    Cidr { network: cidr.network & prefix_mask(cidr.prefix), prefix: cidr.prefix }
}

/// Parses `ADDRESS/PREFIX`.
pub fn parse_cidr(value: &[char]) -> (r: Option<Cidr>)
    ensures
        r == parse_cidr_spec(value@),
        r matches Some(c) ==> c.prefix <= 32,
{
    match find_char(value, '/') {
        None => {
            assert(first_index(value@, '/') is None);
            None
        },
        Some(k) => {
            assert(is_first_index(value@, '/', k as int));
            assert(first_index(value@, '/') == Some(k as int));
            let ip_part = sub_chars(value, 0, k);
            let prefix_part = sub_chars(value, k + 1, value.len());
            assert(ip_part@ == value@.take(k as int));
            assert(prefix_part@ == value@.skip(k + 1));
            match (parse_ipv4(&ip_part), parse_unsigned(&prefix_part, 255)) {
                (Some(ip), Some(p)) => {
                    if p <= 32 {
                        Some(Cidr { network: ip, prefix: p as u8 })
                    } else {
                        None
                    }
                },
                _ => None,
            }
        },
    }
}

/// Whether any of the blocks holds the address.
pub fn cidr_contains_any(ip: u32, cidrs: &[Cidr]) -> (r: bool)
    requires
        forall|i: int| 0 <= i < cidrs.len() ==> (#[trigger] cidrs@[i]).prefix <= 32,
    ensures
        r == exists|i: int| 0 <= i < cidrs.len() && in_block(#[trigger] cidrs@[i], ip),
{
    let mut i: usize = 0;
    while i < cidrs.len()
        invariant
            i <= cidrs.len(),
            forall|k: int| 0 <= k < cidrs.len() ==> (#[trigger] cidrs@[k]).prefix <= 32,
            forall|j: int| 0 <= j < i ==> !in_block(#[trigger] cidrs@[j], ip),
        decreases cidrs.len() - i,
    {
        let c = cidrs[i];
        if ip & prefix_mask(c.prefix) == c.network {
            assert(in_block(cidrs@[i as int], ip));
            return true;
        }
        i = i + 1;
    }
    false
}

} // verus!
