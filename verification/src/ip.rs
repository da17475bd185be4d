//! IP address text: parsing addresses out of a query label and rendering
//! them into answer text.
//!
//! A DNS label cannot hold '.' or ':', so an address inside a label is
//! written with dashes: an IPv4 address as its four decimal octets
//! ("192-0-2-130") and an IPv6 address as its eight hexadecimal groups
//! ("2001-db8-0-0-0-0-0-1"), case-insensitively. Rendered answer text uses
//! the conventional forms: dotted decimal for IPv4, and for IPv6 lowercase
//! hex groups with the leftmost longest run of two or more zero groups
//! compressed to "::".

use vstd::prelude::*;
use crate::text::{all_digits, dec_str, dec_val, lemma_vec_u8_deep_view, parse_u64, parses_u64,
    split_bytes, split_on, DOT};
use crate::types::IpAddress;

verus! {

broadcast use lemma_vec_u8_deep_view;

/// The separator of address parts inside a label: the byte of '-'.
pub const DASH: u8 = 45;

/// The separator of rendered IPv6 groups: the byte of ':'.
pub const COLON: u8 = 58;

// ---------------------------------------------------------------------------
// IPv4
// ---------------------------------------------------------------------------

/// One decimal octet: nonempty, all digits, value at most 255.
pub open spec fn valid_octet(p: Seq<u8>) -> bool {
    p.len() > 0 && all_digits(p) && dec_val(p) <= 255
}

/// The address value of four parsed octet strings.
pub open spec fn v4_of_octets(parts: Seq<Seq<u8>>) -> u32 {
    (dec_val(parts[0]) * 0x1000000 + dec_val(parts[1]) * 0x10000 + dec_val(parts[2]) * 0x100
        + dec_val(parts[3])) as u32
}

/// An IPv4 address label: exactly four dash-separated decimal octets.
pub open spec fn parse_v4(s: Seq<u8>) -> Option<u32> {
    let parts = split_bytes(s, DASH);
    if parts.len() == 4 && (forall|i: int| 0 <= i < 4 ==> valid_octet(#[trigger] parts[i])) {
        Some(v4_of_octets(parts))
    } else {
        None
    }
}

/// Reads one octet part; rejects anything that is not a decimal number of
/// value at most 255.
fn parse_octet(p: &Vec<u8>) -> (r: Option<u32>)
    ensures
        valid_octet(p@) ==> r == Some((dec_val(p@) as u32)),
        !valid_octet(p@) ==> r is None,
{
    match parse_u64(p) {
        Some(v) => {
            if v <= 255 {
                Some(v as u32)
            } else {
                None
            }
        },
        None => {
            proof {
                if valid_octet(p@) {
                    assert(parses_u64(p@));
                }
            }
            None
        },
    }
}

/// Parses a dash-separated IPv4 address label.
pub fn parse_v4_label(s: &Vec<u8>) -> (r: Option<u32>)
    ensures
        r == parse_v4(s@),
{
    let parts = split_on(s, DASH);
    if parts.len() != 4 {
        return None;
    }
    let o0 = parse_octet(&parts[0]);
    let o1 = parse_octet(&parts[1]);
    let o2 = parse_octet(&parts[2]);
    let o3 = parse_octet(&parts[3]);
    proof {
        assert(parts.deep_view()[0] == parts@[0]@);
        assert(parts.deep_view()[1] == parts@[1]@);
        assert(parts.deep_view()[2] == parts@[2]@);
        assert(parts.deep_view()[3] == parts@[3]@);
    }
    match (o0, o1, o2, o3) {
        (Some(a), Some(b), Some(c), Some(d)) => {
            let v = a * 0x1000000 + b * 0x10000 + c * 0x100 + d;
            Some(v)
        },
        _ => None,
    }
}

/// The dotted-decimal rendering of an IPv4 address.
pub open spec fn v4_text(a: u32) -> Seq<u8> {
    dec_str((a >> 24) as nat) + seq![DOT] + dec_str(((a >> 16) & 0xff) as nat) + seq![DOT]
        + dec_str(((a >> 8) & 0xff) as nat) + seq![DOT] + dec_str((a & 0xff) as nat)
}

/// Renders an IPv4 address in dotted decimal.
pub fn v4_bytes(a: u32) -> (r: Vec<u8>)
    ensures
        r@ == v4_text(a),
{
    let mut r = crate::text::dec_bytes((a >> 24) as u64);
    r.push(DOT);
    let mut p1 = crate::text::dec_bytes(((a >> 16) & 0xff) as u64);
    r.append(&mut p1);
    r.push(DOT);
    let mut p2 = crate::text::dec_bytes(((a >> 8) & 0xff) as u64);
    r.append(&mut p2);
    r.push(DOT);
    let mut p3 = crate::text::dec_bytes((a & 0xff) as u64);
    r.append(&mut p3);
    proof {
        assert(r@ =~= v4_text(a));
    }
    r
}

// ---------------------------------------------------------------------------
// Hexadecimal groups
// ---------------------------------------------------------------------------

/// Whether `c` is a hexadecimal digit, either case.
pub open spec fn is_hex_digit(c: u8) -> bool {
    (('0' as u8) <= c && c <= ('9' as u8)) || (('a' as u8) <= c && c <= ('f' as u8)) || (('A'
        as u8) <= c && c <= ('F' as u8))
}

/// The value of one hexadecimal digit.
pub open spec fn hex_digit_val(c: u8) -> nat {
    if ('0' as u8) <= c && c <= ('9' as u8) {
        (c - ('0' as u8)) as nat
    } else if ('a' as u8) <= c && c <= ('f' as u8) {
        (c - ('a' as u8) + 10) as nat
    } else {
        (c - ('A' as u8) + 10) as nat
    }
}

/// Whether every byte of `s` is a hexadecimal digit.
pub open spec fn all_hex(s: Seq<u8>) -> bool {
    forall|i: int| 0 <= i < s.len() ==> is_hex_digit(#[trigger] s[i])
}

/// The value of a hex-digit string, most significant digit first.
pub open spec fn hex_val(s: Seq<u8>) -> nat
    decreases s.len(),
{
    if s.len() == 0 {
        0
    } else {
        hex_val(s.take(s.len() - 1)) * 16 + hex_digit_val(s.last())
    }
}

/// One IPv6 group: one to four hex digits.
pub open spec fn valid_group(p: Seq<u8>) -> bool {
    1 <= p.len() <= 4 && all_hex(p)
}

proof fn lemma_pow16_values()
    ensures
        pow16(0) == 1,
        pow16(1) == 0x10,
        pow16(2) == 0x100,
        pow16(3) == 0x1000,
        pow16(4) == 0x10000,
{
    assert(pow16(0) == 1);
    assert(pow16(1) == 0x10);
    assert(pow16(2) == 0x100);
    assert(pow16(3) == 0x1000);
    assert(pow16(4) == 0x10000);
}

proof fn lemma_hex_val_bound(s: Seq<u8>)
    requires
        s.len() <= 4,
        all_hex(s),
    ensures
        hex_val(s) < 0x10000,
{
    lemma_hex_val_small(s, 4);
    lemma_pow16_values();
}

proof fn lemma_hex_val_small(s: Seq<u8>, k: nat)
    requires
        s.len() <= k,
        all_hex(s),
    ensures
        hex_val(s) < pow16(k),
    decreases s.len(),
{
    if s.len() == 0 {
        lemma_pow16_pos(k);
    } else {
        let t = s.take(s.len() - 1);
        assert(all_hex(t));
        lemma_hex_val_small(t, (k - 1) as nat);
        assert(hex_digit_val(s.last()) < 16);
        assert(hex_val(s) < pow16(k)) by (nonlinear_arith)
            requires
                hex_val(s) == hex_val(s.take(s.len() - 1)) * 16 + hex_digit_val(s.last()),
                hex_val(s.take(s.len() - 1)) < pow16((k - 1) as nat),
                hex_digit_val(s.last()) < 16,
                pow16(k) == 16 * pow16((k - 1) as nat),
        ;
    }
}

pub open spec fn pow16(n: nat) -> nat
    decreases n,
{
    if n == 0 {
        1
    } else {
        16 * pow16((n - 1) as nat)
    }
}

proof fn lemma_pow16_pos(n: nat)
    ensures
        pow16(n) >= 1,
    decreases n,
{
    if n > 0 {
        lemma_pow16_pos((n - 1) as nat);
    }
}

/// Reads one group part; rejects anything but one to four hex digits.
fn parse_group(p: &Vec<u8>) -> (r: Option<u16>)
    ensures
        valid_group(p@) ==> r == Some((hex_val(p@) as u16)),
        !valid_group(p@) ==> r is None,
{
    if p.len() == 0 || p.len() > 4 {
        return None;
    }
    let mut acc: u16 = 0;
    let mut i: usize = 0;
    while i < p.len()
        invariant
            i <= p@.len(),
            p@.len() <= 4,
            all_hex(p@.take(i as int)),
            acc == hex_val(p@.take(i as int)),
            acc < 0x1000 || i == p@.len(),
        decreases p@.len() - i,
    {
        let c = p[i];
        let d: u16;
        if ('0' as u8) <= c && c <= ('9' as u8) {
            d = (c - ('0' as u8)) as u16;
        } else if ('a' as u8) <= c && c <= ('f' as u8) {
            d = (c - ('a' as u8) + 10) as u16;
        } else if ('A' as u8) <= c && c <= ('F' as u8) {
            d = (c - ('A' as u8) + 10) as u16;
        } else {
            proof {
                assert(!all_hex(p@));
            }
            return None;
        }
        proof {
            assert(p@.take(i + 1).take(i as int) =~= p@.take(i as int));
            assert(p@.take(i + 1).last() == c);
            assert(d == hex_digit_val(c));
            assert(all_hex(p@.take(i + 1)));
            lemma_hex_val_small(p@.take(i as int), 3);
            lemma_pow16_values();
            if (i as int) + 1 < p@.len() {
                lemma_hex_val_small(p@.take(i + 1), 3);
            }
        }
        acc = acc * 16 + d;
        i += 1;
    }
    proof {
        assert(p@.take(p@.len() as int) =~= p@);
    }
    Some(acc)
}

/// The address value of eight parsed group strings, most significant first.
pub open spec fn v6_value(parts: Seq<Seq<u8>>) -> nat
    decreases parts.len(),
{
    if parts.len() == 0 {
        0
    } else {
        v6_value(parts.drop_last()) * 0x10000 + hex_val(parts.last())
    }
}

/// An IPv6 address label: exactly eight dash-separated hex groups.
pub open spec fn parse_v6(s: Seq<u8>) -> Option<u128> {
    let parts = split_bytes(s, DASH);
    if parts.len() == 8 && (forall|i: int| 0 <= i < 8 ==> valid_group(#[trigger] parts[i])) {
        Some((v6_value(parts) as u128))
    } else {
        None
    }
}

/// Powers of 65536, the weight of one more leading group.
pub open spec fn pow65536(n: nat) -> nat
    decreases n,
{
    if n == 0 {
        1
    } else {
        0x10000 * pow65536((n - 1) as nat)
    }
}

proof fn lemma_pow65536_values()
    ensures
        pow65536(7) == 0x10000000000000000000000000000,
        pow65536(8) == 0x100000000000000000000000000000000,
{
    assert(pow65536(0) == 1);
    assert(pow65536(1) == 0x10000);
    assert(pow65536(2) == 0x100000000);
    assert(pow65536(3) == 0x1000000000000);
    assert(pow65536(4) == 0x10000000000000000);
    assert(pow65536(5) == 0x100000000000000000000);
    assert(pow65536(6) == 0x1000000000000000000000000);
    assert(pow65536(7) == 0x10000000000000000000000000000);
    assert(pow65536(8) == 0x100000000000000000000000000000000);
}

proof fn lemma_pow65536_pos(n: nat)
    ensures
        pow65536(n) >= 1,
    decreases n,
{
    if n > 0 {
        lemma_pow65536_pos((n - 1) as nat);
    }
}

proof fn lemma_pow65536_mono(a: nat, b: nat)
    requires
        a <= b,
    ensures
        pow65536(a) <= pow65536(b),
    decreases b,
{
    if a < b {
        lemma_pow65536_mono(a, (b - 1) as nat);
        lemma_pow65536_pos((b - 1) as nat);
    }
}

/// Parses a dash-separated IPv6 address label.
#[verifier::rlimit(50)]
pub fn parse_v6_label(s: &Vec<u8>) -> (r: Option<u128>)
    ensures
        r == parse_v6(s@),
{
    let parts = split_on(s, DASH);
    if parts.len() != 8 {
        return None;
    }
    let ghost gparts = parts.deep_view();
    let mut acc: u128 = 0;
    let mut i: usize = 0;
    while i < 8
        invariant
            i <= 8,
            parts@.len() == 8,
            gparts == parts.deep_view(),
            gparts == split_bytes(s@, DASH),
            forall|j: int| 0 <= j < i ==> valid_group(#[trigger] gparts[j]),
            acc == v6_value(gparts.take(i as int)),
            acc < pow65536(i as nat),
        decreases 8 - i,
    {
        proof {
            assert(gparts[i as int] == parts@[i as int]@);
        }
        match parse_group(&parts[i]) {
            Some(g) => {
                proof {
                    assert(valid_group(gparts[i as int]));
                    lemma_hex_val_bound(gparts[i as int]);
                    assert(pow65536((i + 1) as nat) == 0x10000 * pow65536(i as nat));
                    lemma_pow65536_mono((i + 1) as nat, 8);
                    lemma_pow65536_values();
                    assert(acc * 0x10000 + g < pow65536((i + 1) as nat)) by (nonlinear_arith)
                        requires
                            acc < pow65536(i as nat),
                            g < 0x10000,
                            pow65536((i + 1) as nat) == 0x10000 * pow65536(i as nat),
                    ;
                    assert(gparts.take(i + 1).drop_last() =~= gparts.take(i as int));
                    assert(gparts.take(i + 1).last() == gparts[i as int]);
                }
                acc = acc * 0x10000 + (g as u128);
                i += 1;
            },
            None => {
                proof {
                    assert(!valid_group(parts@[i as int]@));
                    assert(gparts[i as int] == parts@[i as int]@);
                    assert(gparts == split_bytes(s@, DASH));
                    assert(!valid_group(split_bytes(s@, DASH)[i as int]));
                }
                return None;
            },
        }
    }
    proof {
        assert(gparts.take(8) =~= gparts);
    }
    Some(acc)
}

// ---------------------------------------------------------------------------
// IPv6 rendering
// ---------------------------------------------------------------------------

/// The lowercase hex digit character of a value below sixteen.
pub open spec fn hex_char(n: u8) -> u8 {
    if n < 10 {
        (('0' as u8) + n) as u8
    } else {
        (('a' as u8) + n - 10) as u8
    }
}

/// The lowercase hex digit characters of `g`, most significant first, with
/// no leading zeros.
pub open spec fn hex_str(g: u16) -> Seq<u8>
    decreases g,
{
    if g < 16 {
        seq![hex_char(g as u8)]
    } else {
        hex_str(g / 16).push(hex_char((g % 16) as u8))
    }
}

fn hex_char_of(n: u8) -> (r: u8)
    requires
        n < 16,
    ensures
        r == hex_char(n),
{
    if n < 10 {
        ('0' as u8) + n
    } else {
        ('a' as u8) + n - 10
    }
}

/// Renders one group in lowercase hex without leading zeros.
fn hex_bytes(g: u16) -> (r: Vec<u8>)
    ensures
        r@ == hex_str(g),
{
    let mut r: Vec<u8> = Vec::new();
    proof {
        assert(g / 4096 < 16 && g / 256 < 256 && g / 16 < 4096) by (bit_vector);
        assert((g / 256) / 16 == g / 4096 && (g / 16) / 16 == g / 256) by (bit_vector);
        assert((g / 256) % 16 == (g / 256) % 16 && g % 16 < 16) by (bit_vector);
        assert(g >= 256 ==> g / 16 >= 16) by (bit_vector);
        assert(g >= 4096 ==> g / 256 >= 16) by (bit_vector);
        assert(g >= 16 ==> g / 16 < 4096) by (bit_vector);
        assert((g / 16) % 16 < 16 && (g / 256) % 16 < 16) by (bit_vector);
    }
    if g >= 4096 {
        r.push(hex_char_of((g / 4096) as u8));
    }
    if g >= 256 {
        r.push(hex_char_of(((g / 256) % 16) as u8));
    }
    if g >= 16 {
        r.push(hex_char_of(((g / 16) % 16) as u8));
    }
    r.push(hex_char_of((g % 16) as u8));
    proof {
        if g < 16 {
            assert(r@ =~= hex_str(g));
        } else if g < 256 {
            assert(hex_str(g / 16) == seq![hex_char((g / 16) as u8)]);
            assert((g / 16) % 16 == g / 16) by (bit_vector)
                requires
                    g < 256,
            ;
            assert(r@ =~= hex_str(g));
        } else if g < 4096 {
            assert(hex_str(g / 256) == seq![hex_char((g / 256) as u8)]);
            assert((g / 256) % 16 == g / 256) by (bit_vector)
                requires
                    g < 4096,
            ;
            assert(hex_str(g / 16) == hex_str(g / 256).push(hex_char(((g / 16) % 16) as u8)));
            assert(r@ =~= hex_str(g));
        } else {
            assert(hex_str(g / 4096) == seq![hex_char((g / 4096) as u8)]);
            assert(hex_str(g / 256) == hex_str(g / 4096).push(hex_char(((g / 256) % 16) as u8)));
            assert(hex_str(g / 16) == hex_str(g / 256).push(hex_char(((g / 16) % 16) as u8)));
            assert(r@ =~= hex_str(g));
        }
    }
    r
}

/// The eight 16-bit groups of an IPv6 address, most significant first.
pub open spec fn groups_of(a: u128) -> Seq<u16> {
    Seq::new(8, |i: int| (((a >> (((7 - i) * 16) as u128)) & 0xffff) as u16))
}

/// The length of the run of zero groups starting at `i`.
pub open spec fn run_at(gs: Seq<u16>, i: int) -> int
    decreases gs.len() - i when 0 <= i <= gs.len()
{
    if i >= gs.len() || gs[i] != 0 {
        0
    } else {
        1 + run_at(gs, i + 1)
    }
}

/// The start of the leftmost longest zero run at or after `i`; the sequence
/// length when everything from `i` on is nonzero.
pub open spec fn best_start(gs: Seq<u16>, i: int) -> int
    decreases gs.len() - i when 0 <= i <= gs.len()
{
    if i >= gs.len() {
        gs.len() as int
    } else {
        let b = best_start(gs, i + 1);
        if run_at(gs, i) >= run_at(gs, b) {
            i
        } else {
            b
        }
    }
}

proof fn lemma_run_at_bound(gs: Seq<u16>, i: int)
    requires
        0 <= i <= gs.len(),
    ensures
        0 <= run_at(gs, i) <= gs.len() - i,
    decreases gs.len() - i,
{
    if i < gs.len() && gs[i] == 0 {
        lemma_run_at_bound(gs, i + 1);
    }
}

proof fn lemma_best_start_bound(gs: Seq<u16>, i: int)
    requires
        0 <= i <= gs.len(),
    ensures
        i <= best_start(gs, i) <= gs.len(),
    decreases gs.len() - i,
{
    if i < gs.len() {
        lemma_best_start_bound(gs, i + 1);
    }
}

/// Groups joined with ':' separators.
pub open spec fn joined(gs: Seq<u16>) -> Seq<u8>
    decreases gs.len(),
{
    if gs.len() == 0 {
        Seq::<u8>::empty()
    } else if gs.len() == 1 {
        hex_str(gs[0])
    } else {
        hex_str(gs[0]) + seq![COLON] + joined(gs.skip(1))
    }
}

proof fn lemma_joined_snoc(gs: Seq<u16>)
    requires
        gs.len() >= 1,
    ensures
        gs.len() == 1 ==> joined(gs) == hex_str(gs[0]),
        gs.len() >= 2 ==> joined(gs) == joined(gs.drop_last()) + seq![COLON] + hex_str(gs.last()),
    decreases gs.len(),
{
    if gs.len() == 2 {
        assert(gs.skip(1) =~= seq![gs[1]]);
        assert(gs.drop_last() =~= seq![gs[0]]);
        assert(joined(gs.skip(1)) == hex_str(gs[1]));
        assert(joined(gs.drop_last()) == hex_str(gs[0]));
        assert(joined(gs) == hex_str(gs[0]) + seq![COLON] + joined(gs.skip(1)));
        assert(joined(gs) =~= joined(gs.drop_last()) + seq![COLON] + hex_str(gs.last()));
    } else if gs.len() > 2 {
        let t = gs.skip(1);
        lemma_joined_snoc(t);
        let h0 = hex_str(gs[0]);
        let x = joined(gs.drop_last().skip(1));
        let hl = hex_str(gs.last());
        assert(t.last() == gs.last());
        assert(t.drop_last() =~= gs.drop_last().skip(1));
        assert(joined(t) == x + seq![COLON] + hl);
        assert(joined(gs) == h0 + seq![COLON] + joined(t));
        assert(gs.drop_last()[0] == gs[0]);
        assert(gs.drop_last().len() >= 2);
        assert(joined(gs.drop_last()) == h0 + seq![COLON] + x);
        assert(h0 + seq![COLON] + (x + seq![COLON] + hl) =~= (h0 + seq![COLON] + x) + seq![COLON]
            + hl);
        assert(joined(gs) == joined(gs.drop_last()) + seq![COLON] + hex_str(gs.last()));
    }
}

/// The conventional lowercase rendering of an IPv6 address: eight hex groups
/// joined with ':', with the leftmost longest run of two or more zero groups
/// compressed to "::".
pub open spec fn v6_text(a: u128) -> Seq<u8> {
    let gs = groups_of(a);
    let s = best_start(gs, 0);
    let l = run_at(gs, s);
    if l >= 2 {
        joined(gs.take(s)) + seq![COLON, COLON] + joined(gs.skip(s + l))
    } else {
        joined(gs)
    }
}

/// Renders an IPv6 address.
pub fn v6_bytes(a: u128) -> (r: Vec<u8>)
    ensures
        r@ == v6_text(a),
{
    let mut gs: Vec<u16> = Vec::new();
    gs.push(((a >> 112) & 0xffff) as u16);
    gs.push(((a >> 96) & 0xffff) as u16);
    gs.push(((a >> 80) & 0xffff) as u16);
    gs.push(((a >> 64) & 0xffff) as u16);
    gs.push(((a >> 48) & 0xffff) as u16);
    gs.push(((a >> 32) & 0xffff) as u16);
    gs.push(((a >> 16) & 0xffff) as u16);
    gs.push((a & 0xffff) as u16);
    let ghost ggs = groups_of(a);
    proof {
        assert(a & 0xffff == (a >> (0 as u128)) & 0xffff) by (bit_vector);
        assert(gs@ =~= ggs);
    }
    let mut i: usize = 8;
    let mut best: usize = 8;
    let mut best_run: usize = 0;
    let mut run_next: usize = 0;
    while i > 0
        invariant
            i <= 8,
            gs@ == ggs,
            ggs.len() == 8,
            best == best_start(ggs, i as int),
            best <= 8,
            best_run == run_at(ggs, best as int),
            best_run <= 8,
            run_next == run_at(ggs, i as int),
            run_next <= 8,
        decreases i,
    {
        proof {
            lemma_best_start_bound(ggs, i as int);
            lemma_run_at_bound(ggs, i - 1);
        }
        i -= 1;
        let run_i: usize = if gs[i] != 0 {
            0
        } else {
            1 + run_next
        };
        proof {
            assert(run_i == run_at(ggs, i as int));
        }
        if run_i >= best_run {
            best = i;
            best_run = run_i;
        }
        run_next = run_i;
    }
    let s = best;
    let l = best_run;
    proof {
        lemma_best_start_bound(ggs, 0);
        lemma_run_at_bound(ggs, s as int);
    }
    let mut out: Vec<u8> = Vec::new();
    if l >= 2 {
        let mut k: usize = 0;
        while k < s
            invariant
                k <= s,
                s <= 8,
                gs@ == ggs,
                ggs.len() == 8,
                out@ == joined(ggs.take(k as int)),
            decreases s - k,
        {
            if k > 0 {
                out.push(COLON);
            }
            let mut h = hex_bytes(gs[k]);
            out.append(&mut h);
            proof {
                let t = ggs.take(k + 1);
                lemma_joined_snoc(t);
                assert(t.drop_last() =~= ggs.take(k as int));
                assert(t.last() == ggs[k as int]);
                assert(out@ =~= joined(ggs.take(k + 1)));
            }
            k += 1;
        }
        out.push(COLON);
        out.push(COLON);
        let base = s + l;
        let ghost left = joined(ggs.take(s as int)) + seq![COLON, COLON];
        proof {
            assert(out@ =~= left + joined(ggs.subrange(base as int, base as int)));
            assert(ggs.subrange(base as int, base as int) =~= Seq::<u16>::empty());
        }
        let mut k: usize = base;
        while k < 8
            invariant
                base <= k <= 8,
                gs@ == ggs,
                ggs.len() == 8,
                left == joined(ggs.take(s as int)) + seq![COLON, COLON],
                out@ == left + joined(ggs.subrange(base as int, k as int)),
            decreases 8 - k,
        {
            if k > base {
                out.push(COLON);
            }
            let mut h = hex_bytes(gs[k]);
            out.append(&mut h);
            proof {
                let t = ggs.subrange(base as int, k + 1);
                lemma_joined_snoc(t);
                assert(t.drop_last() =~= ggs.subrange(base as int, k as int));
                assert(t.last() == ggs[k as int]);
                assert(out@ =~= left + joined(ggs.subrange(base as int, k + 1)));
            }
            k += 1;
        }
        proof {
            assert(ggs.subrange(base as int, 8) =~= ggs.skip(s + l));
            assert(out@ =~= v6_text(a));
        }
    } else {
        let mut k: usize = 0;
        while k < 8
            invariant
                k <= 8,
                gs@ == ggs,
                ggs.len() == 8,
                out@ == joined(ggs.take(k as int)),
            decreases 8 - k,
        {
            if k > 0 {
                out.push(COLON);
            }
            let mut h = hex_bytes(gs[k]);
            out.append(&mut h);
            proof {
                let t = ggs.take(k + 1);
                lemma_joined_snoc(t);
                assert(t.drop_last() =~= ggs.take(k as int));
                assert(t.last() == ggs[k as int]);
                assert(out@ =~= joined(ggs.take(k + 1)));
            }
            k += 1;
        }
        proof {
            assert(ggs.take(8) =~= ggs);
        }
    }
    out
}

// ---------------------------------------------------------------------------
// Address labels of either family
// ---------------------------------------------------------------------------

/// An address label: four dash-separated decimal octets are IPv4, eight
/// dash-separated hex groups are IPv6, anything else is rejected.
pub open spec fn parse_ip(s: Seq<u8>) -> Option<IpAddress> {
    if parse_v4(s) is Some {
        Some(IpAddress::V4(parse_v4(s)->0))
    } else if parse_v6(s) is Some {
        Some(IpAddress::V6(parse_v6(s)->0))
    } else {
        None
    }
}

/// Parses an address label of either family.
pub fn parse_ip_label(s: &Vec<u8>) -> (r: Option<IpAddress>)
    ensures
        r == parse_ip(s@),
{
    match parse_v4_label(s) {
        Some(a) => Some(IpAddress::V4(a)),
        None => {
            match parse_v6_label(s) {
                Some(a) => Some(IpAddress::V6(a)),
                None => None,
            }
        },
    }
}

/// The conventional rendering of an address of either family.
pub open spec fn ip_text(a: IpAddress) -> Seq<u8> {
    match a {
        IpAddress::V4(v) => v4_text(v),
        IpAddress::V6(v) => v6_text(v),
    }
}

/// Renders an address of either family.
pub fn ip_bytes(a: IpAddress) -> (r: Vec<u8>)
    ensures
        r@ == ip_text(a),
{
    match a {
        IpAddress::V4(v) => v4_bytes(v),
        IpAddress::V6(v) => v6_bytes(v),
    }
}

} // verus!
