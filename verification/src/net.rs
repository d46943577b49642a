//! IP addresses and their text form.

use vstd::prelude::*;
use vstd::string::*;
use crate::text::{dec_str, push_char, push_dec};

verus! {

broadcast use vstd::string::group_string_axioms;

/// An IP address: four octets, or eight 16-bit segments.
#[derive(Debug, Clone, Copy, PartialEq, Eq)]
pub enum IpAddr {
    V4([u8; 4]),
    V6([u16; 8]),
}

impl IpAddr {
    pub open spec fn spec_is_ipv4(self) -> bool {
        self is V4
    }

    pub fn is_ipv4(&self) -> (r: bool)
        ensures
            r == self.spec_is_ipv4(),
    {
        match self {
            IpAddr::V4(_) => true,
            IpAddr::V6(_) => false,
        }
    }
}

/// Dotted-decimal form `a.b.c.d`.
pub open spec fn v4_text(a: u8, b: u8, c: u8, d: u8) -> Seq<char> {
    dec_str(a as nat) + seq!['.'] + dec_str(b as nat) + seq!['.'] + dec_str(c as nat) + seq!['.'] + dec_str(
        d as nat,
    )
}

pub open spec fn hex_digit(d: nat) -> char {
    if d < 10 {
        (d + '0' as int) as char
    } else {
        (d - 10 + 'a' as int) as char
    }
}

/// Lower-case hexadecimal form of `n`, without leading zeros.
pub open spec fn hex_str(n: nat) -> Seq<char>
    decreases n,
{
    if n < 16 {
        seq![hex_digit(n)]
    } else {
        hex_str(n / 16).push(hex_digit(n % 16))
    }
}

/// Segments in hexadecimal, separated by colons.
pub open spec fn segments_text(s: Seq<u16>) -> Seq<char>
    decreases s.len(),
{
    if s.len() == 0 {
        Seq::empty()
    } else if s.len() == 1 {
        hex_str(s[0] as nat)
    } else {
        segments_text(s.drop_last()) + seq![':'] + hex_str(s.last() as nat)
    }
}

/// The number of consecutive zero segments starting at `i`.
pub open spec fn zero_run(s: Seq<u16>, i: int) -> nat
    decreases s.len() - i,
{
    if 0 <= i < s.len() && s[i] == 0 {
        1 + zero_run(s, i + 1)
    } else {
        0
    }
}

/// The longest zero run starting at or after `i`.
pub open spec fn longest_zero_run(s: Seq<u16>, i: int) -> nat
    decreases s.len() - i,
{
    if 0 <= i < s.len() {
        let here = zero_run(s, i);
        let later = longest_zero_run(s, i + 1);
        if here >= later {
            here
        } else {
            later
        }
    } else {
        0
    }
}

/// The first position at or after `i` where a zero run of length `n` starts.
pub open spec fn first_run_of(s: Seq<u16>, n: nat, i: int) -> int
    decreases s.len() - i,
{
    if 0 <= i < s.len() {
        if zero_run(s, i) == n {
            i
        } else {
            first_run_of(s, n, i + 1)
        }
    } else {
        s.len() as int
    }
}

/// RFC 5952 form of an IPv6 address: IPv4-mapped addresses as `::ffff:a.b.c.d`; otherwise the
/// first longest run of two or more zero segments shortened to `::`.
pub open spec fn v6_text(s: Seq<u16>) -> Seq<char> {
    if s[0] == 0 && s[1] == 0 && s[2] == 0 && s[3] == 0 && s[4] == 0 && s[5] == 0xffff {
        "::ffff:"@ + v4_text((s[6] / 256) as u8, (s[6] % 256) as u8, (s[7] / 256) as u8, (s[7] % 256) as u8)
    } else {
        let n = longest_zero_run(s, 0);
        if n > 1 {
            let st = first_run_of(s, n, 0);
            segments_text(s.take(st)) + seq![':', ':'] + segments_text(s.skip(st + n))
        } else {
            segments_text(s)
        }
    }
}

/// The text form of an address.
pub open spec fn ip_text(ip: IpAddr) -> Seq<char> {
    match ip {
        IpAddr::V4(o) => v4_text(o[0], o[1], o[2], o[3]),
        IpAddr::V6(s) => v6_text(s@),
    }
}

fn push_hex(s: &mut String, n: u16)
    ensures
        final(s)@ == old(s)@ + hex_str(n as nat),
    decreases n,
{
    if n >= 16 {
        push_hex(s, n / 16);
    }
    let d: u16 = n % 16;
    let c: char = if d == 0 { '0' } else if d == 1 { '1' } else if d == 2 { '2' } else if d == 3 {
        '3'
    } else if d == 4 { '4' } else if d == 5 { '5' } else if d == 6 { '6' } else if d == 7 {
        '7'
    } else if d == 8 { '8' } else if d == 9 { '9' } else if d == 10 { 'a' } else if d == 11 {
        'b'
    } else if d == 12 { 'c' } else if d == 13 { 'd' } else if d == 14 { 'e' } else { 'f' };
    push_char(s, c);
    proof {
        assert(c == hex_digit(d as nat));
        if n >= 16 {
            assert(hex_str(n as nat) == hex_str((n / 16) as nat).push(hex_digit((n % 16) as nat)));
        } else {
            assert(hex_str(n as nat) == seq![hex_digit(n as nat)]);
        }
    }
}

fn push_v4(s: &mut String, a: u8, b: u8, c: u8, d: u8)
    ensures
        final(s)@ == old(s)@ + v4_text(a, b, c, d),
{
    push_dec(s, a as u64);
    push_char(s, '.');
    push_dec(s, b as u64);
    push_char(s, '.');
    push_dec(s, c as u64);
    push_char(s, '.');
    push_dec(s, d as u64);
    assert(final(s)@ =~= old(s)@ + v4_text(a, b, c, d));
}

/// Appends `segments_text(seg[from..to])`.
fn push_segments(s: &mut String, seg: &[u16; 8], from: usize, to: usize)
    requires
        from <= to <= 8,
    ensures
        final(s)@ == old(s)@ + segments_text(seg@.subrange(from as int, to as int)),
{
    let ghost start = old(s)@;
    let mut i = from;
    assert(seg@.subrange(from as int, from as int) =~= Seq::<u16>::empty());
    while i < to
        invariant
            from <= i <= to <= 8,
            s@ == start + segments_text(seg@.subrange(from as int, i as int)),
        decreases to - i,
    {
        if i > from {
            push_char(s, ':');
        }
        push_hex(s, seg[i]);
        proof {
            let t = seg@.subrange(from as int, i + 1);
            assert(t.drop_last() =~= seg@.subrange(from as int, i as int));
            if i == from {
                assert(segments_text(seg@.subrange(from as int, i as int)) =~= Seq::<char>::empty());
            }
        }
        assert(s@ =~= start + segments_text(seg@.subrange(from as int, i + 1)));
        i = i + 1;
    }
}

proof fn lemma_zero_run_step(s: Seq<u16>, i: int)
    requires
        0 <= i < s.len(),
    ensures
        zero_run(s, i) == (if s[i] == 0 { 1 + zero_run(s, i + 1) } else { 0 }),
{
}

/// The zero run at each position.
fn zero_runs(seg: &[u16; 8]) -> (r: [usize; 8])
    ensures
        forall|i: int| 0 <= i < 8 ==> r@[i] == zero_run(seg@, i),
{
    let mut r: [usize; 8] = [0; 8];
    let mut i: usize = 8;
    while i > 0
        invariant
            i <= 8,
            forall|k: int| i <= k < 8 ==> r@[k] == zero_run(seg@, k),
            forall|k: int| i <= k < 8 ==> r@[k] <= 8 - k,
        decreases i,
    {
        i = i - 1;
        proof {
            lemma_zero_run_step(seg@, i as int);
            assert(zero_run(seg@, 8) == 0);
        }
        let v: usize = if seg[i] == 0 {
            if i == 7 { 1 } else { 1 + r[i + 1] }
        } else {
            0
        };
        r[i] = v;
    }
    r
}

fn push_v6(s: &mut String, seg: &[u16; 8])
    ensures
        final(s)@ == old(s)@ + v6_text(seg@),
{
    if seg[0] == 0 && seg[1] == 0 && seg[2] == 0 && seg[3] == 0 && seg[4] == 0 && seg[5] == 0xffff {
        s.append("::ffff:");
        push_v4(s, (seg[6] / 256) as u8, (seg[6] % 256) as u8, (seg[7] / 256) as u8, (seg[7] % 256) as u8);
        assert(final(s)@ =~= old(s)@ + v6_text(seg@));
        return;
    }
    let runs = zero_runs(seg);
    // the longest run, scanning from the end
    let mut best: usize = 0;
    let mut i: usize = 8;
    while i > 0
        invariant
            i <= 8,
            forall|k: int| 0 <= k < 8 ==> runs@[k] == zero_run(seg@, k),
            best == longest_zero_run(seg@, i as int),
        decreases i,
    {
        i = i - 1;
        if runs[i] >= best {
            best = runs[i];
        }
    }
    if best > 1 {
        // the first position where a run of that length starts
        let mut st: usize = 8;
        let mut j: usize = 8;
        while j > 0
            invariant
                j <= 8,
                forall|k: int| 0 <= k < 8 ==> runs@[k] == zero_run(seg@, k),
                st == first_run_of(seg@, best as nat, j as int),
            decreases j,
        {
            j = j - 1;
            if runs[j] == best {
                st = j;
            }
        }
        proof {
            lemma_first_run_bounds(seg@, best as nat, 0);
            lemma_longest_attained(seg@, 0);
            let k = choose|k: int| 0 <= k < 8 && zero_run(seg@, k) == best;
            lemma_first_run_found(seg@, best as nat, 0, k);
        }
        push_segments(s, seg, 0, st);
        push_char(s, ':');
        push_char(s, ':');
        push_segments(s, seg, st + best, 8);
        assert(seg@.subrange(0, st as int) =~= seg@.take(st as int));
        assert(seg@.subrange(st + best, 8) =~= seg@.skip(st + best));
        assert(final(s)@ =~= old(s)@ + v6_text(seg@));
    } else {
        push_segments(s, seg, 0, 8);
        assert(seg@.subrange(0, 8) =~= seg@);
        assert(final(s)@ =~= old(s)@ + v6_text(seg@));
    }
}

proof fn lemma_zero_run_bound(s: Seq<u16>, i: int)
    requires
        0 <= i <= s.len(),
    ensures
        i + zero_run(s, i) <= s.len(),
    decreases s.len() - i,
{
    if i < s.len() && s[i] == 0 {
        lemma_zero_run_bound(s, i + 1);
    }
}

proof fn lemma_first_run_bounds(s: Seq<u16>, n: nat, i: int)
    requires
        0 <= i <= s.len(),
        n > 0,
    ensures
        first_run_of(s, n, i) == s.len() || (i <= first_run_of(s, n, i) && first_run_of(s, n, i) + n
            <= s.len()),
    decreases s.len() - i,
{
    if i < s.len() {
        if zero_run(s, i) == n {
            lemma_zero_run_bound(s, i);
        } else {
            lemma_first_run_bounds(s, n, i + 1);
        }
    }
}

proof fn lemma_longest_attained(s: Seq<u16>, i: int)
    requires
        0 <= i,
    ensures
        longest_zero_run(s, i) > 0 ==> exists|k: int| i <= k < s.len() && zero_run(s, k) == longest_zero_run(s, i),
    decreases s.len() - i,
{
    if i < s.len() {
        lemma_longest_attained(s, i + 1);
    }
}

proof fn lemma_first_run_found(s: Seq<u16>, n: nat, i: int, k: int)
    requires
        0 <= i <= k < s.len(),
        zero_run(s, k) == n,
    ensures
        first_run_of(s, n, i) < s.len(),
    decreases k - i,
{
    if zero_run(s, i) != n {
        lemma_first_run_found(s, n, i + 1, k);
    }
}

impl IpAddr {
    /// The text form of the address.
    pub fn to_string(&self) -> (r: String)
        ensures
            r@ == ip_text(*self),
    {
        let mut s = String::new();
        match self {
            IpAddr::V4(o) => push_v4(&mut s, o[0], o[1], o[2], o[3]),
            IpAddr::V6(seg) => push_v6(&mut s, seg),
        }
        assert(s@ =~= ip_text(*self));
        s
    }
}

} // verus!
