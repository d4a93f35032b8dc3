//! Protocol Buffers wire encoding: base-128 varints, field keys, length-delimited
//! records and the skipping of unknown fields and groups.
//!
//! The decoder follows the usual protobuf rules: a varint has at most ten bytes
//! and the tenth may only carry the top bit of a 64-bit value; a key must fit in
//! 32 bits, name a wire type from 0 to 5 and a field number of at least 1; an
//! unknown field is skipped, and every skip and nested message consumes one unit
//! of a recursion budget that a top-level decode starts at 100.

use vstd::prelude::*;
use vstd::slice::{slice_subrange, slice_to_vec};
use vstd::utf8::{decode_utf8, encode_utf8, valid_utf8};

verus! {

/// Budget a top-level decode starts with: how deep messages and groups may nest.
pub const RECURSION_BUDGET: u32 = 100;

/// The input is not a well-formed encoding of the expected message.
#[derive(Clone, Copy, Debug, PartialEq, Eq)]
pub struct DecodeError;

// ---------------------------------------------------------------------------
// Varints
// ---------------------------------------------------------------------------

/// The little-endian base-128 encoding of `v`: seven bits per byte, the high
/// bit set on every byte but the last.
pub open spec fn varint_bytes(v: u64) -> Seq<u8>
    decreases v,
{
    if v < 128 {
        seq![v as u8]
    } else {
        seq![(v % 128 + 128) as u8] + varint_bytes(v / 128)
    }
}

/// The number of bytes of the varint that starts at index `i` of `s`, when the
/// bytes before `i` all continue it.
pub open spec fn varint_end(s: Seq<u8>, i: nat) -> Option<nat>
    decreases 10 - i,
{
    if i >= 10 || i >= s.len() {
        None
    } else if s[i as int] < 128 {
        if i == 9 && s[i as int] >= 2 {
            None
        } else {
            Some(i + 1)
        }
    } else {
        varint_end(s, i + 1)
    }
}

/// The value that the low seven bits of the first `n` bytes of `s` spell.
pub open spec fn varint_value(s: Seq<u8>, n: nat) -> nat
    decreases n,
{
    if n == 0 || s.len() == 0 {
        0
    } else {
        (s[0] % 128) as nat + 128 * varint_value(s.drop_first(), (n - 1) as nat)
    }
}

pub open spec fn pow128(n: nat) -> nat
    decreases n,
{
    if n == 0 {
        1
    } else {
        128 * pow128((n - 1) as nat)
    }
}

/// The varint at the start of `s`, with the number of bytes it takes.
pub open spec fn parse_varint(s: Seq<u8>) -> Option<(u64, nat)> {
    match varint_end(s, 0) {
        Some(n) => Some((varint_value(s, n) as u64, n)),
        None => None,
    }
}

proof fn lemma_pow128_pos(n: nat)
    ensures
        pow128(n) >= 1,
    decreases n,
{
    if n > 0 {
        lemma_pow128_pos((n - 1) as nat);
    }
}

proof fn lemma_varint_value_step(s: Seq<u8>, n: nat)
    requires
        n < s.len(),
    ensures
        varint_value(s, n + 1) == varint_value(s, n) + (s[n as int] % 128) as nat * pow128(n),
    decreases n,
{
    let b = (s[n as int] % 128) as nat;
    if n == 0 {
        assert(varint_value(s, 1) == (s[0] % 128) as nat + 128 * varint_value(s.drop_first(), 0));
        assert(pow128(0) == 1);
        assert(varint_value(s, 0) == 0);
    } else {
        let ds = s.drop_first();
        let m = (n - 1) as nat;
        lemma_varint_value_step(ds, m);
        assert(ds[m as int] == s[n as int]);
        assert(varint_value(ds, m + 1) == varint_value(ds, m) + b * pow128(m));
        assert(m + 1 == n);
        assert(varint_value(s, n + 1) == (s[0] % 128) as nat + 128 * varint_value(ds, n));
        assert(varint_value(s, n) == (s[0] % 128) as nat + 128 * varint_value(ds, m));
        assert(pow128(n) == 128 * pow128(m));
        assert(128 * (b * pow128(m)) == b * pow128(n)) by (nonlinear_arith)
            requires
                pow128(n) == 128 * pow128(m),
        ;
    }
}

proof fn lemma_varint_value_bound(s: Seq<u8>, n: nat)
    requires
        n <= s.len(),
    ensures
        varint_value(s, n) < pow128(n),
    decreases n,
{
    if n > 0 {
        lemma_varint_value_bound(s, (n - 1) as nat);
        lemma_varint_value_step(s, (n - 1) as nat);
        let x = varint_value(s, (n - 1) as nat);
        let b = (s[n - 1] % 128) as nat;
        let m = pow128((n - 1) as nat);
        assert(x + b * m < 128 * m) by (nonlinear_arith)
            requires
                x < m,
                b <= 127,
        ;
    }
}

/// Every byte before the end of a well-formed varint has its high bit set.
proof fn lemma_varint_end_props(s: Seq<u8>, i: nat)
    requires
        varint_end(s, i) is Some,
        forall|j: int| 0 <= j < i ==> s[j] >= 128,
        i <= 10,
    ensures
        ({
            let n = varint_end(s, i)->Some_0;
            &&& i < n <= 10
            &&& n <= s.len()
            &&& s[n - 1] < 128
            &&& forall|j: int| 0 <= j < n - 1 ==> s[j] >= 128
            &&& n == 10 ==> s[9] < 2
        }),
    decreases 10 - i,
{
    if s[i as int] >= 128 {
        lemma_varint_end_props(s, i + 1);
    }
}

/// A well-formed varint never exceeds 64 bits.
pub proof fn lemma_parse_varint_fits(s: Seq<u8>)
    requires
        varint_end(s, 0) is Some,
    ensures
        varint_value(s, varint_end(s, 0)->Some_0) <= u64::MAX,
        1 <= varint_end(s, 0)->Some_0 <= 10,
        varint_end(s, 0)->Some_0 <= s.len(),
{
    lemma_varint_end_props(s, 0);
    let n = varint_end(s, 0)->Some_0;
    if n < 10 {
        lemma_varint_value_bound(s, n);
        lemma_pow128_le(n, 9);
        lemma_pow128_nine();
    } else {
        lemma_varint_value_bound(s, 9);
        lemma_varint_value_step(s, 9);
        lemma_pow128_nine();
    }
}

proof fn lemma_pow128_nine()
    ensures
        pow128(9) == 0x8000_0000_0000_0000,
{
    reveal_with_fuel(pow128, 10);
}

proof fn lemma_pow128_le(a: nat, b: nat)
    requires
        a <= b,
    ensures
        pow128(a) <= pow128(b),
    decreases b,
{
    if a < b {
        lemma_pow128_le(a, (b - 1) as nat);
        lemma_pow128_pos((b - 1) as nat);
    }
}

/// The encoding of `v` is a well-formed varint that decodes back to `v`,
/// whatever follows it.
pub proof fn lemma_varint_round_trip(v: u64, rest: Seq<u8>)
    ensures
        parse_varint(varint_bytes(v) + rest) == Some((v, varint_bytes(v).len())),
        1 <= varint_bytes(v).len() <= 10,
{
    assert(pow128(0) == 1);
    assert(v * pow128(0) == v);
    lemma_varint_end_of_bytes(Seq::empty(), v, rest);
    assert(Seq::<u8>::empty() + varint_bytes(v) + rest =~= varint_bytes(v) + rest);
    lemma_varint_value_of_bytes(v, rest);
}

proof fn lemma_varint_value_of_bytes(v: u64, rest: Seq<u8>)
    ensures
        varint_value(varint_bytes(v) + rest, varint_bytes(v).len()) == v,
        varint_bytes(v).len() >= 1,
    decreases v,
{
    let s = varint_bytes(v) + rest;
    if v < 128 {
        assert(s[0] == v as u8);
        assert(varint_value(s, 1) == (s[0] % 128) as nat + 128 * varint_value(s.drop_first(), 0));
    } else {
        let w = v / 128;
        lemma_varint_value_of_bytes(w, rest);
        assert(s.drop_first() =~= varint_bytes(w) + rest);
        assert(s[0] == (v % 128 + 128) as u8);
        let n = varint_bytes(v).len();
        assert(n == 1 + varint_bytes(w).len());
        assert(varint_value(s, n) == (s[0] % 128) as nat + 128 * varint_value(
            s.drop_first(),
            (n - 1) as nat,
        ));
    }
}

/// Scanning a varint whose first bytes `p` all continue it.
proof fn lemma_varint_end_of_bytes(p: Seq<u8>, v: u64, rest: Seq<u8>)
    requires
        p.len() <= 9,
        forall|j: int| 0 <= j < p.len() ==> p[j] >= 128,
        v * pow128(p.len()) <= u64::MAX,
    ensures
        varint_end(p + varint_bytes(v) + rest, p.len()) == Some(p.len() + varint_bytes(v).len()),
        p.len() + varint_bytes(v).len() <= 10,
    decreases v,
{
    let i = p.len();
    let s = p + varint_bytes(v) + rest;
    lemma_pow128_pos(i);
    if v < 128 {
        assert(s[i as int] == v as u8);
        if i == 9 {
            lemma_pow128_nine();
            assert(v < 2) by (nonlinear_arith)
                requires
                    v * 0x8000_0000_0000_0000 <= u64::MAX,
            ;
        }
    } else {
        let w = v / 128;
        let b = (v % 128 + 128) as u8;
        assert(s[i as int] == b);
        assert(i < 9) by {
            if i == 9 {
                lemma_pow128_nine();
                assert(false) by (nonlinear_arith)
                    requires
                        v * 0x8000_0000_0000_0000 <= u64::MAX,
                        v >= 128,
                ;
            }
        }
        let p2 = p.push(b);
        assert(w * pow128(i + 1) <= u64::MAX) by {
            assert(pow128(i + 1) == 128 * pow128(i));
            let m = pow128(i);
            assert(w * (128 * m) <= v * m) by (nonlinear_arith)
                requires
                    w == v / 128,
                    m >= 1,
            ;
        }
        lemma_varint_end_of_bytes(p2, w, rest);
        assert(p2 + varint_bytes(w) + rest =~= s);
    }
}

/// Appends the varint encoding of `v`.
pub fn put_varint(out: &mut Vec<u8>, v: u64)
    ensures
        final(out)@ == old(out)@ + varint_bytes(v),
{
    let ghost start = out@;
    let mut x = v;
    while x >= 128
        invariant
            start + varint_bytes(v) == out@ + varint_bytes(x),
        decreases x,
    {
        let ghost before = out@;
        let b = (x % 128 + 128) as u8;
        out.push(b);
        assert(varint_bytes(x) == seq![b] + varint_bytes(x / 128));
        assert(before + varint_bytes(x) =~= out@ + varint_bytes(x / 128));
        x = x / 128;
    }
    let ghost before = out@;
    out.push(x as u8);
    assert(varint_bytes(x) == seq![x as u8]);
    assert(out@ =~= before + varint_bytes(x));
}

/// Reads the varint that starts at `pos`, giving its value and the position
/// just after it.
pub fn read_varint(s: &[u8], pos: usize) -> (r: Option<(u64, usize)>)
    requires
        pos <= s@.len(),
    ensures
        match parse_varint(s@.subrange(pos as int, s@.len() as int)) {
            Some((v, n)) => r matches Some((w, e)) && w == v && e == pos + n && pos < e <= s@.len(),
            None => r is None,
        },
{
    let ghost t = s@.subrange(pos as int, s@.len() as int);
    proof {
        if varint_end(t, 0) is Some {
            lemma_parse_varint_fits(t);
        }
    }
    let mut value: u64 = 0;
    let mut mult: u64 = 1;
    let mut i: usize = 0;
    proof {
        assert(pow128(0) == 1);
    }
    while i < 10
        invariant
            i <= 9,
            pos <= s@.len(),
            t == s@.subrange(pos as int, s@.len() as int),
            value as nat == varint_value(t, i as nat),
            i <= t.len(),
            mult as nat == pow128(i as nat),
            varint_end(t, 0) == varint_end(t, i as nat),
            forall|j: int| 0 <= j < i ==> t[j] >= 128,
        decreases 10 - i,
    {
        if i >= s.len() - pos {
            assert(varint_end(t, i as nat) is None);
            return None;
        }
        let b = s[pos + i];
        assert(b == t[i as int]);
        proof {
            lemma_varint_value_step(t, i as nat);
            lemma_varint_value_bound(t, (i + 1) as nat);
            if i < 9 {
                lemma_pow128_le((i + 1) as nat, 9);
            }
            lemma_pow128_nine();
        }
        if b < 128 {
            if i == 9 && b >= 2 {
                return None;
            }
            proof {
                if i == 9 {
                    lemma_varint_value_bound(t, 9);
                    assert(value + b as nat * mult < 0x1_0000_0000_0000_0000) by (nonlinear_arith)
                        requires
                            value < 0x8000_0000_0000_0000,
                            mult == 0x8000_0000_0000_0000,
                            b < 2,
                    ;
                }
            }
            value = value + (b as u64) * mult;
            return Some((value, pos + i + 1));
        }
        if i == 9 {
            assert(varint_end(t, 10) is None);
            assert(varint_end(t, 9) == varint_end(t, 10));
            return None;
        }
        value = value + ((b - 128) as u64) * mult;
        proof {
            assert(pow128((i + 1) as nat) == 128 * pow128(i as nat));
        }
        mult = mult * 128;
        i = i + 1;
    }
    None
}

// ---------------------------------------------------------------------------
// Field records
// ---------------------------------------------------------------------------

/// What one field record carries. Values of the fixed-width and group wire
/// types are only ever skipped, so only their kind is kept.
pub enum WireValue {
    Varint(u64),
    Fixed64,
    LengthDelimited(Vec<u8>),
    Group,
    Fixed32,
}

pub enum WireValueModel {
    Varint(u64),
    Fixed64,
    LengthDelimited(Seq<u8>),
    Group,
    Fixed32,
}

impl View for WireValue {
    type V = WireValueModel;

    open spec fn view(&self) -> WireValueModel {
        match self {
            WireValue::Varint(v) => WireValueModel::Varint(*v),
            WireValue::Fixed64 => WireValueModel::Fixed64,
            WireValue::LengthDelimited(b) => WireValueModel::LengthDelimited(b@),
            WireValue::Group => WireValueModel::Group,
            WireValue::Fixed32 => WireValueModel::Fixed32,
        }
    }
}

/// One decoded field record: its number and its value.
pub struct Field {
    pub number: u32,
    pub value: WireValue,
}

pub struct FieldModel {
    pub number: u32,
    pub value: WireValueModel,
}

impl View for Field {
    type V = FieldModel;

    open spec fn view(&self) -> FieldModel {
        FieldModel { number: self.number, value: self.value@ }
    }
}

/// A key is well formed when it fits in 32 bits, names a wire type from 0 to 5
/// and a field number of at least 1.
pub open spec fn key_ok(key: u64) -> bool {
    key <= 0xffff_ffff && key % 8 <= 5 && key / 8 >= 1
}

/// A value of wire type varint, 64-bit, length-delimited or 32-bit at the start
/// of `s`, with the number of bytes it takes.
pub open spec fn scalar_value(s: Seq<u8>, wire_type: u64) -> Option<(WireValueModel, nat)> {
    if wire_type == 0 {
        match parse_varint(s) {
            Some((v, n)) => Some((WireValueModel::Varint(v), n)),
            None => None,
        }
    } else if wire_type == 1 {
        if s.len() >= 8 {
            Some((WireValueModel::Fixed64, 8))
        } else {
            None
        }
    } else if wire_type == 2 {
        match parse_varint(s) {
            Some((len, n)) => if len <= s.len() - n {
                Some(
                    (
                        WireValueModel::LengthDelimited(s.subrange(n as int, n + len)),
                        (n + len) as nat,
                    ),
                )
            } else {
                None
            },
            None => None,
        }
    } else if wire_type == 5 {
        if s.len() >= 4 {
            Some((WireValueModel::Fixed32, 4))
        } else {
            None
        }
    } else {
        None
    }
}

/// The length of a group body, up to and including the end-group key that
/// closes group `number`. Skipping the group takes one unit of the budget `d`,
/// and each record inside it is skipped with the budget `d - 1`.
pub open spec fn group_len(s: Seq<u8>, number: u32, d: nat) -> Option<nat>
    decreases s.len(),
{
    if d == 0 {
        None
    } else {
        match parse_varint(s) {
            None => None,
            Some((key, n)) => {
                proof {
                    lemma_parse_varint_fits(s);
                }
                if !key_ok(key) {
                    None
                } else if key % 8 == 4 {
                    if key / 8 == number as u64 {
                        Some(n)
                    } else {
                        None
                    }
                } else {
                    let rest = s.subrange(n as int, s.len() as int);
                    let inner = if key % 8 == 3 {
                        group_len(rest, (key / 8) as u32, (d - 1) as nat)
                    } else if d == 1 {
                        None
                    } else {
                        match scalar_value(rest, key % 8) {
                            Some((_, m)) => Some(m),
                            None => None,
                        }
                    };
                    match inner {
                        None => None,
                        Some(m) => if m <= rest.len() {
                            match group_len(
                                rest.subrange(m as int, rest.len() as int),
                                number,
                                d,
                            ) {
                                Some(k) => Some(n + m + k),
                                None => None,
                            }
                        } else {
                            None
                        },
                    }
                }
            },
        }
    }
}

/// The field record at the start of `s`, with the number of bytes it takes.
pub open spec fn parse_field(s: Seq<u8>, d: nat) -> Option<(FieldModel, nat)> {
    match parse_varint(s) {
        None => None,
        Some((key, n)) => {
            if !key_ok(key) || key % 8 == 4 {
                None
            } else {
                let rest = s.subrange(n as int, s.len() as int);
                let number = (key / 8) as u32;
                if key % 8 == 3 {
                    match group_len(rest, number, d) {
                        Some(m) => Some(
                            (FieldModel { number, value: WireValueModel::Group }, n + m),
                        ),
                        None => None,
                    }
                } else {
                    match scalar_value(rest, key % 8) {
                        Some((v, m)) => Some((FieldModel { number, value: v }, n + m)),
                        None => None,
                    }
                }
            }
        },
    }
}

/// All field records of `s`, in order, when `s` is a sequence of well-formed
/// records.
pub open spec fn parse_fields(s: Seq<u8>, d: nat) -> Option<Seq<FieldModel>>
    decreases s.len(),
{
    if s.len() == 0 {
        Some(Seq::empty())
    } else {
        match parse_field(s, d) {
            None => None,
            Some((f, n)) => {
                proof {
                    lemma_parse_field_len(s, d);
                }
                match parse_fields(s.subrange(n as int, s.len() as int), d) {
                    Some(fs) => Some(seq![f] + fs),
                    None => None,
                }
            },
        }
    }
}

pub proof fn lemma_scalar_value_len(s: Seq<u8>, wire_type: u64)
    ensures
        scalar_value(s, wire_type) matches Some((_, m)) ==> 1 <= m <= s.len(),
{
    if parse_varint(s) is Some {
        lemma_parse_varint_fits(s);
    }
}

pub proof fn lemma_group_len(s: Seq<u8>, number: u32, d: nat)
    ensures
        group_len(s, number, d) matches Some(m) ==> 1 <= m <= s.len(),
    decreases s.len(),
{
    if d > 0 && parse_varint(s) is Some {
        lemma_parse_varint_fits(s);
        let (key, n) = parse_varint(s)->Some_0;
        if key_ok(key) && key % 8 != 4 {
            let rest = s.subrange(n as int, s.len() as int);
            if key % 8 == 3 {
                lemma_group_len(rest, (key / 8) as u32, (d - 1) as nat);
            } else {
                lemma_scalar_value_len(rest, key % 8);
            }
            let inner = if key % 8 == 3 {
                group_len(rest, (key / 8) as u32, (d - 1) as nat)
            } else if d == 1 {
                None
            } else {
                match scalar_value(rest, key % 8) {
                    Some((_, m)) => Some(m),
                    None => None,
                }
            };
            if let Some(m) = inner {
                if m <= rest.len() {
                    lemma_group_len(rest.subrange(m as int, rest.len() as int), number, d);
                }
            }
        }
    }
}

pub proof fn lemma_parse_field_len(s: Seq<u8>, d: nat)
    ensures
        parse_field(s, d) matches Some((_, n)) ==> 1 <= n <= s.len(),
{
    if parse_varint(s) is Some {
        lemma_parse_varint_fits(s);
        let (key, n) = parse_varint(s)->Some_0;
        let rest = s.subrange(n as int, s.len() as int);
        lemma_group_len(rest, (key / 8) as u32, d);
        lemma_scalar_value_len(rest, key % 8);
    }
}

proof fn lemma_subrange_shift(s: Seq<u8>, pos: int, n: int)
    requires
        0 <= pos <= s.len(),
        0 <= n <= s.len() - pos,
    ensures
        s.subrange(pos, s.len() as int).subrange(n, s.len() - pos) =~= s.subrange(
            pos + n,
            s.len() as int,
        ),
{
}

/// Reads a value of wire type varint, 64-bit, length-delimited or 32-bit at
/// `pos`, giving it with the position just after it.
pub fn read_scalar_value(s: &[u8], pos: usize, wire_type: u64) -> (r: Option<(WireValue, usize)>)
    requires
        pos <= s@.len(),
    ensures
        match scalar_value(s@.subrange(pos as int, s@.len() as int), wire_type) {
            Some((v, m)) => r matches Some((w, e)) && w@ == v && e == pos + m,
            None => r is None,
        },
{
    let ghost t = s@.subrange(pos as int, s@.len() as int);
    if wire_type == 0 {
        match read_varint(s, pos) {
            Some((v, e)) => Some((WireValue::Varint(v), e)),
            None => None,
        }
    } else if wire_type == 1 {
        if s.len() - pos >= 8 {
            Some((WireValue::Fixed64, pos + 8))
        } else {
            None
        }
    } else if wire_type == 2 {
        match read_varint(s, pos) {
            Some((len, p)) => {
                proof {
                    lemma_parse_varint_fits(t);
                }
                if len <= (s.len() - p) as u64 {
                    let end = p + len as usize;
                    let body = slice_to_vec(slice_subrange(s, p, end));
                    assert(body@ =~= t.subrange((p - pos) as int, (p - pos) + len));
                    Some((WireValue::LengthDelimited(body), end))
                } else {
                    None
                }
            },
            None => None,
        }
    } else if wire_type == 5 {
        if s.len() - pos >= 4 {
            Some((WireValue::Fixed32, pos + 4))
        } else {
            None
        }
    } else {
        None
    }
}

/// Skips the body of group `number` that starts at `pos`, giving the position
/// just after its end-group key.
pub fn skip_group(s: &[u8], pos: usize, number: u32, d: u32) -> (r: Option<usize>)
    requires
        pos <= s@.len(),
    ensures
        match group_len(s@.subrange(pos as int, s@.len() as int), number, d as nat) {
            Some(m) => r matches Some(e) && e == pos + m,
            None => r is None,
        },
    decreases s@.len() - pos,
{
    let ghost t = s@.subrange(pos as int, s@.len() as int);
    if d == 0 {
        return None;
    }
    let (key, p1) = match read_varint(s, pos) {
        Some(x) => x,
        None => return None,
    };
    proof {
        lemma_parse_varint_fits(t);
        lemma_subrange_shift(s@, pos as int, (p1 - pos) as int);
    }
    if !(key <= 0xffff_ffff && key % 8 <= 5 && key / 8 >= 1) {
        return None;
    }
    if key % 8 == 4 {
        if key / 8 == number as u64 {
            return Some(p1);
        } else {
            return None;
        }
    }
    let ghost rest = t.subrange((p1 - pos) as int, t.len() as int);
    let p2 = if key % 8 == 3 {
        match skip_group(s, p1, (key / 8) as u32, d - 1) {
            Some(p) => p,
            None => return None,
        }
    } else if d == 1 {
        return None;
    } else {
        match read_scalar_value(s, p1, key % 8) {
            Some((_, p)) => p,
            None => return None,
        }
    };
    proof {
        lemma_group_len(rest, (key / 8) as u32, (d - 1) as nat);
        lemma_scalar_value_len(rest, key % 8);
        lemma_subrange_shift(s@, p1 as int, (p2 - p1) as int);
        lemma_subrange_shift(s@, pos as int, (p2 - pos) as int);
        assert(rest.subrange((p2 - p1) as int, rest.len() as int) =~= s@.subrange(
            p2 as int,
            s@.len() as int,
        ));
    }
    let r = skip_group(s, p2, number, d);
    proof {
        lemma_group_len(s@.subrange(p2 as int, s@.len() as int), number, d as nat);
    }
    r
}

/// Reads the field record at `pos`, giving it with the position just after it.
pub fn read_field(s: &[u8], pos: usize, d: u32) -> (r: Option<(Field, usize)>)
    requires
        pos <= s@.len(),
    ensures
        match parse_field(s@.subrange(pos as int, s@.len() as int), d as nat) {
            Some((f, n)) => r matches Some((g, e)) && g@ == f && e == pos + n,
            None => r is None,
        },
{
    let ghost t = s@.subrange(pos as int, s@.len() as int);
    let (key, p1) = match read_varint(s, pos) {
        Some(x) => x,
        None => return None,
    };
    proof {
        lemma_parse_varint_fits(t);
        lemma_subrange_shift(s@, pos as int, (p1 - pos) as int);
    }
    if !(key <= 0xffff_ffff && key % 8 <= 5 && key / 8 >= 1) || key % 8 == 4 {
        return None;
    }
    let number = (key / 8) as u32;
    if key % 8 == 3 {
        match skip_group(s, p1, number, d) {
            Some(p) => {
                proof {
                    lemma_group_len(
                        t.subrange((p1 - pos) as int, t.len() as int),
                        number,
                        d as nat,
                    );
                }
                Some((Field { number, value: WireValue::Group }, p))
            },
            None => None,
        }
    } else {
        match read_scalar_value(s, p1, key % 8) {
            Some((v, p)) => Some((Field { number, value: v }, p)),
            None => None,
        }
    }
}

pub open spec fn fields_view(fs: Seq<Field>) -> Seq<FieldModel> {
    fs.map_values(|f: Field| f@)
}

/// Reads every field record of `s`.
pub fn read_fields(s: &[u8], d: u32) -> (r: Option<Vec<Field>>)
    ensures
        match parse_fields(s@, d as nat) {
            Some(fs) => r matches Some(v) && fields_view(v@) == fs,
            None => r is None,
        },
{
    let mut out: Vec<Field> = Vec::new();
    let mut pos: usize = 0;
    assert(s@.subrange(0, s@.len() as int) =~= s@);
    assert(fields_view(out@) =~= Seq::<FieldModel>::empty());
    while pos < s.len()
        invariant
            pos <= s@.len(),
            parse_fields(s@, d as nat) == match parse_fields(
                s@.subrange(pos as int, s@.len() as int),
                d as nat,
            ) {
                Some(rest) => Some(fields_view(out@) + rest),
                None => None,
            },
        decreases s@.len() - pos,
    {
        let ghost t = s@.subrange(pos as int, s@.len() as int);
        proof {
            lemma_parse_field_len(t, d as nat);
        }
        match read_field(s, pos, d) {
            None => {
                return None;
            },
            Some((f, p)) => {
                proof {
                    lemma_subrange_shift(s@, pos as int, (p - pos) as int);
                }
                let ghost old_out = out@;
                let ghost fv = f@;
                out.push(f);
                assert(fields_view(out@) =~= fields_view(old_out) + seq![fv]);
                proof {
                    let tail = s@.subrange(p as int, s@.len() as int);
                    if let Some(rest) = parse_fields(tail, d as nat) {
                        assert(fields_view(old_out) + (seq![fv] + rest) =~= fields_view(out@)
                            + rest);
                    }
                }
                pos = p;
            },
        }
    }
    assert(s@.subrange(pos as int, s@.len() as int) =~= Seq::<u8>::empty());
    assert(fields_view(out@) + Seq::<FieldModel>::empty() =~= fields_view(out@));
    Some(out)
}

// ---------------------------------------------------------------------------
// Encoding field records
// ---------------------------------------------------------------------------

/// Largest field number whose key still fits in 32 bits.
pub const MAX_FIELD_NUMBER: u32 = 0x1fff_ffff;

pub open spec fn key_bytes(number: u32, wire_type: u64) -> Seq<u8> {
    varint_bytes((number * 8 + wire_type) as u64)
}

/// The encoding of one record of wire type varint or length-delimited.
pub open spec fn field_bytes(f: FieldModel) -> Seq<u8> {
    match f.value {
        WireValueModel::Varint(v) => key_bytes(f.number, 0) + varint_bytes(v),
        WireValueModel::LengthDelimited(b) => key_bytes(f.number, 2) + varint_bytes(
            b.len() as u64,
        ) + b,
        _ => Seq::empty(),
    }
}

pub open spec fn fields_bytes(fs: Seq<FieldModel>) -> Seq<u8>
    decreases fs.len(),
{
    if fs.len() == 0 {
        Seq::empty()
    } else {
        field_bytes(fs[0]) + fields_bytes(fs.drop_first())
    }
}

/// A record this encoder writes: a valid field number and a varint or a
/// length-delimited value of representable length.
pub open spec fn field_encodable(f: FieldModel) -> bool {
    &&& 1 <= f.number <= MAX_FIELD_NUMBER
    &&& match f.value {
        WireValueModel::Varint(_) => true,
        WireValueModel::LengthDelimited(b) => b.len() <= u64::MAX,
        _ => false,
    }
}

pub open spec fn all_encodable(fs: Seq<FieldModel>) -> bool {
    forall|i: int| 0 <= i < fs.len() ==> field_encodable(#[trigger] fs[i])
}

pub proof fn lemma_fields_bytes_append(a: Seq<FieldModel>, b: Seq<FieldModel>)
    ensures
        fields_bytes(a + b) == fields_bytes(a) + fields_bytes(b),
    decreases a.len(),
{
    if a.len() == 0 {
        assert(a + b =~= b);
        assert(Seq::<u8>::empty() + fields_bytes(b) =~= fields_bytes(b));
    } else {
        lemma_fields_bytes_append(a.drop_first(), b);
        assert((a + b).drop_first() =~= a.drop_first() + b);
        assert((a + b)[0] == a[0]);
        assert(field_bytes(a[0]) + (fields_bytes(a.drop_first()) + fields_bytes(b))
            =~= field_bytes(a[0]) + fields_bytes(a.drop_first()) + fields_bytes(b));
    }
}

/// An encoded record parses back to itself, whatever follows it.
pub proof fn lemma_parse_field_bytes(f: FieldModel, rest: Seq<u8>, d: nat)
    requires
        field_encodable(f),
    ensures
        parse_field(field_bytes(f) + rest, d) == Some((f, field_bytes(f).len())),
{
    match f.value {
        WireValueModel::Varint(v) => lemma_parse_varint_field(f.number, v, rest, d),
        WireValueModel::LengthDelimited(b) => lemma_parse_bytes_field(f.number, b, rest, d),
        _ => {},
    }
}

proof fn lemma_key_round_trip(number: u32, wt: u64, after: Seq<u8>)
    requires
        1 <= number <= MAX_FIELD_NUMBER,
        wt <= 5,
    ensures
        ({
            let key = (number * 8 + wt) as u64;
            &&& parse_varint(key_bytes(number, wt) + after) == Some((key, key_bytes(number, wt).len()))
            &&& key_ok(key)
            &&& key % 8 == wt
            &&& (key / 8) as u32 == number
            &&& (key_bytes(number, wt) + after).subrange(
                key_bytes(number, wt).len() as int,
                (key_bytes(number, wt) + after).len() as int,
            ) == after
        }),
{
    let key = (number * 8 + wt) as u64;
    lemma_varint_round_trip(key, after);
    let kb = key_bytes(number, wt);
    assert((kb + after).subrange(kb.len() as int, (kb + after).len() as int) =~= after);
}

proof fn lemma_parse_varint_field(number: u32, v: u64, rest: Seq<u8>, d: nat)
    requires
        1 <= number <= MAX_FIELD_NUMBER,
    ensures
        ({
            let f = FieldModel { number, value: WireValueModel::Varint(v) };
            parse_field(field_bytes(f) + rest, d) == Some((f, field_bytes(f).len()))
        }),
{
    let f = FieldModel { number, value: WireValueModel::Varint(v) };
    let body = varint_bytes(v) + rest;
    lemma_key_round_trip(number, 0, body);
    assert(field_bytes(f) + rest =~= key_bytes(number, 0) + body);
    lemma_varint_round_trip(v, rest);
}

proof fn lemma_parse_bytes_field(number: u32, b: Seq<u8>, rest: Seq<u8>, d: nat)
    requires
        1 <= number <= MAX_FIELD_NUMBER,
        b.len() <= u64::MAX,
    ensures
        ({
            let f = FieldModel { number, value: WireValueModel::LengthDelimited(b) };
            parse_field(field_bytes(f) + rest, d) == Some((f, field_bytes(f).len()))
        }),
{
    let f = FieldModel { number, value: WireValueModel::LengthDelimited(b) };
    let lb = varint_bytes(b.len() as u64);
    let body = lb + (b + rest);
    lemma_key_round_trip(number, 2, body);
    assert(field_bytes(f) + rest =~= key_bytes(number, 2) + body);
    lemma_varint_round_trip(b.len() as u64, b + rest);
    assert(body.subrange(lb.len() as int, (lb.len() + b.len()) as int) =~= b);
}

/// A sequence of encoded records parses back to the same records.
pub proof fn lemma_parse_fields_bytes(fs: Seq<FieldModel>, d: nat)
    requires
        all_encodable(fs),
    ensures
        parse_fields(fields_bytes(fs), d) == Some(fs),
    decreases fs.len(),
{
    if fs.len() > 0 {
        let f = fs[0];
        let tail = fs.drop_first();
        assert(field_encodable(fs[0]));
        assert(all_encodable(tail)) by {
            assert forall|i: int| 0 <= i < tail.len() implies field_encodable(
                #[trigger] tail[i],
            ) by {
                assert(tail[i] == fs[i + 1]);
            }
        }
        lemma_parse_fields_bytes(tail, d);
        lemma_parse_field_bytes(f, fields_bytes(tail), d);
        let s = fields_bytes(fs);
        assert(s == field_bytes(f) + fields_bytes(tail));
        let n = field_bytes(f).len();
        assert(s.len() > 0) by {
            lemma_parse_field_len(s, d);
        }
        assert(s.subrange(n as int, s.len() as int) =~= fields_bytes(tail));
        assert(seq![f] + tail =~= fs);
    } else {
        assert(fields_bytes(fs) =~= Seq::<u8>::empty());
    }
}

/// Appends the key of field `number` with the given wire type.
pub fn put_key(out: &mut Vec<u8>, number: u32, wire_type: u64)
    requires
        1 <= number <= MAX_FIELD_NUMBER,
        wire_type <= 5,
    ensures
        final(out)@ == old(out)@ + key_bytes(number, wire_type),
{
    put_varint(out, (number as u64) * 8 + wire_type);
}

/// Appends a varint record.
pub fn put_varint_field(out: &mut Vec<u8>, number: u32, v: u64)
    requires
        1 <= number <= MAX_FIELD_NUMBER,
    ensures
        final(out)@ == old(out)@ + field_bytes(
            FieldModel { number, value: WireValueModel::Varint(v) },
        ),
{
    let ghost start = out@;
    put_key(out, number, 0);
    put_varint(out, v);
    assert(out@ =~= start + (key_bytes(number, 0) + varint_bytes(v)));
}

/// Appends a length-delimited record.
pub fn put_bytes_field(out: &mut Vec<u8>, number: u32, b: &[u8])
    requires
        1 <= number <= MAX_FIELD_NUMBER,
    ensures
        final(out)@ == old(out)@ + field_bytes(
            FieldModel { number, value: WireValueModel::LengthDelimited(b@) },
        ),
{
    let ghost start = out@;
    put_key(out, number, 2);
    put_varint(out, b.len() as u64);
    out.extend_from_slice(b);
    assert(out@ =~= start + (key_bytes(number, 2) + varint_bytes(b@.len() as u64) + b@));
}

// ---------------------------------------------------------------------------
// Field kinds of the message schemas
// ---------------------------------------------------------------------------

pub open spec fn varint_record(number: u32, v: u64) -> FieldModel {
    FieldModel { number, value: WireValueModel::Varint(v) }
}

pub open spec fn bytes_record(number: u32, b: Seq<u8>) -> FieldModel {
    FieldModel { number, value: WireValueModel::LengthDelimited(b) }
}

/// An optional `int32` or enumeration field: sign-extended to 64 bits.
pub open spec fn opt_i32_records(number: u32, v: Option<i32>) -> Seq<FieldModel> {
    match v {
        Some(x) => seq![varint_record(number, x as u64)],
        None => Seq::empty(),
    }
}

/// An optional `int64` field.
pub open spec fn opt_i64_records(number: u32, v: Option<i64>) -> Seq<FieldModel> {
    match v {
        Some(x) => seq![varint_record(number, x as u64)],
        None => Seq::empty(),
    }
}

/// An optional `uint32` field.
pub open spec fn opt_u32_records(number: u32, v: Option<u32>) -> Seq<FieldModel> {
    match v {
        Some(x) => seq![varint_record(number, x as u64)],
        None => Seq::empty(),
    }
}

/// An optional `bool` field: 1 for true, 0 for false.
pub open spec fn opt_bool_records(number: u32, v: Option<bool>) -> Seq<FieldModel> {
    match v {
        Some(x) => seq![
            varint_record(
                number,
                if x {
                    1
                } else {
                    0
                },
            ),
        ],
        None => Seq::empty(),
    }
}

/// An optional `string` field: its UTF-8 bytes.
pub open spec fn opt_str_records(number: u32, v: Option<Seq<char>>) -> Seq<FieldModel> {
    match v {
        Some(x) => seq![bytes_record(number, encode_utf8(x))],
        None => Seq::empty(),
    }
}

/// An optional `bytes` field, or an optional embedded message given its encoding.
pub open spec fn opt_bytes_records(number: u32, v: Option<Seq<u8>>) -> Seq<FieldModel> {
    match v {
        Some(x) => seq![bytes_record(number, x)],
        None => Seq::empty(),
    }
}

/// A required `bytes` field or required message: always written.
pub open spec fn req_bytes_records(number: u32, v: Seq<u8>) -> Seq<FieldModel> {
    seq![bytes_record(number, v)]
}

/// A repeated embedded message, given the encoding of each element.
pub open spec fn rep_bytes_records(number: u32, v: Seq<Seq<u8>>) -> Seq<FieldModel> {
    v.map_values(|b: Seq<u8>| bytes_record(number, b))
}

/// The concatenated varints of a packed repeated field.
pub open spec fn packed_bytes(vs: Seq<u64>) -> Seq<u8>
    decreases vs.len(),
{
    if vs.len() == 0 {
        Seq::empty()
    } else {
        varint_bytes(vs[0]) + packed_bytes(vs.drop_first())
    }
}

/// A packed repeated numeric field: nothing when empty, else one record.
pub open spec fn packed_records(number: u32, vs: Seq<u64>) -> Seq<FieldModel> {
    if vs.len() == 0 {
        Seq::empty()
    } else {
        seq![bytes_record(number, packed_bytes(vs))]
    }
}

pub open spec fn i32s_as_u64(vs: Seq<i32>) -> Seq<u64> {
    vs.map_values(|x: i32| x as u64)
}

pub open spec fn i64s_as_u64(vs: Seq<i64>) -> Seq<u64> {
    vs.map_values(|x: i64| x as u64)
}

/// The varints of a packed body, when it is a sequence of well-formed varints.
pub open spec fn packed_values(b: Seq<u8>) -> Option<Seq<u64>>
    decreases b.len(),
{
    if b.len() == 0 {
        Some(Seq::empty())
    } else {
        match parse_varint(b) {
            None => None,
            Some((v, n)) => {
                proof {
                    lemma_parse_varint_fits(b);
                }
                match packed_values(b.subrange(n as int, b.len() as int)) {
                    Some(vs) => Some(seq![v] + vs),
                    None => None,
                }
            },
        }
    }
}

/// The values a repeated numeric field gains from one record: one varint, or
/// every varint of a packed body.
pub open spec fn repeated_values(w: WireValueModel) -> Option<Seq<u64>> {
    match w {
        WireValueModel::Varint(v) => Some(seq![v]),
        WireValueModel::LengthDelimited(b) => packed_values(b),
        _ => None,
    }
}

pub open spec fn varint_of(w: WireValueModel) -> Option<u64> {
    match w {
        WireValueModel::Varint(v) => Some(v),
        _ => None,
    }
}

pub open spec fn payload_of(w: WireValueModel) -> Option<Seq<u8>> {
    match w {
        WireValueModel::LengthDelimited(b) => Some(b),
        _ => None,
    }
}

/// A `string` value: its bytes must be valid UTF-8.
pub open spec fn string_of(w: WireValueModel) -> Option<Seq<char>> {
    match w {
        WireValueModel::LengthDelimited(b) => if valid_utf8(b) {
            Some(decode_utf8(b))
        } else {
            None
        },
        _ => None,
    }
}

pub open spec fn opt_str_view(v: Option<String>) -> Option<Seq<char>> {
    match v {
        Some(s) => Some(s@),
        None => None,
    }
}

pub open spec fn opt_bytes_view(v: Option<Vec<u8>>) -> Option<Seq<u8>> {
    match v {
        Some(b) => Some(b@),
        None => None,
    }
}

pub proof fn lemma_fields_bytes_single(f: FieldModel)
    ensures
        fields_bytes(seq![f]) == field_bytes(f),
{
    assert(seq![f].drop_first() =~= Seq::<FieldModel>::empty());
    assert(fields_bytes(Seq::<FieldModel>::empty()) == Seq::<u8>::empty());
    assert(field_bytes(f) + Seq::<u8>::empty() =~= field_bytes(f));
}

pub proof fn lemma_fields_bytes_empty()
    ensures
        fields_bytes(Seq::empty()) == Seq::<u8>::empty(),
{
}

pub proof fn lemma_i32_round_trip(x: i32)
    ensures
        (x as u64) as i32 == x,
{
    assert((x as u64) as i32 == x) by (bit_vector);
}

pub proof fn lemma_i64_round_trip(x: i64)
    ensures
        (x as u64) as i64 == x,
{
    assert((x as u64) as i64 == x) by (bit_vector);
}

pub proof fn lemma_u32_round_trip(x: u32)
    ensures
        (x as u64) as u32 == x,
{
}

pub proof fn lemma_string_round_trip(c: Seq<char>)
    ensures
        string_of(WireValueModel::LengthDelimited(encode_utf8(c))) == Some(c),
{
    vstd::utf8::encode_utf8_valid_utf8(c);
    vstd::utf8::encode_utf8_decode_utf8(c);
}

pub proof fn lemma_packed_round_trip(vs: Seq<u64>)
    ensures
        packed_values(packed_bytes(vs)) == Some(vs),
    decreases vs.len(),
{
    if vs.len() > 0 {
        let tail = vs.drop_first();
        lemma_packed_round_trip(tail);
        lemma_varint_round_trip(vs[0], packed_bytes(tail));
        let b = packed_bytes(vs);
        let n = varint_bytes(vs[0]).len();
        assert(b.subrange(n as int, b.len() as int) =~= packed_bytes(tail));
        assert(seq![vs[0]] + tail =~= vs);
    } else {
        assert(packed_bytes(vs) =~= Seq::<u8>::empty());
    }
}

pub proof fn lemma_rep_bytes_records_push(number: u32, v: Seq<Seq<u8>>, b: Seq<u8>)
    ensures
        rep_bytes_records(number, v.push(b)) == rep_bytes_records(number, v) + seq![
            bytes_record(number, b),
        ],
{
    assert(rep_bytes_records(number, v.push(b)) =~= rep_bytes_records(number, v) + seq![
        bytes_record(number, b),
    ]);
}

// --- writing fields --------------------------------------------------------

pub fn put_opt_i32(out: &mut Vec<u8>, number: u32, v: Option<i32>)
    requires
        1 <= number <= MAX_FIELD_NUMBER,
    ensures
        final(out)@ == old(out)@ + fields_bytes(opt_i32_records(number, v)),
{
    proof {
        lemma_fields_bytes_empty();
    }
    if let Some(x) = v {
        put_varint_field(out, number, x as u64);
        proof {
            lemma_fields_bytes_single(varint_record(number, x as u64));
        }
    } else {
        assert(old(out)@ + Seq::<u8>::empty() =~= old(out)@);
    }
}

pub fn put_opt_i64(out: &mut Vec<u8>, number: u32, v: Option<i64>)
    requires
        1 <= number <= MAX_FIELD_NUMBER,
    ensures
        final(out)@ == old(out)@ + fields_bytes(opt_i64_records(number, v)),
{
    proof {
        lemma_fields_bytes_empty();
    }
    if let Some(x) = v {
        put_varint_field(out, number, x as u64);
        proof {
            lemma_fields_bytes_single(varint_record(number, x as u64));
        }
    } else {
        assert(old(out)@ + Seq::<u8>::empty() =~= old(out)@);
    }
}

pub fn put_opt_u32(out: &mut Vec<u8>, number: u32, v: Option<u32>)
    requires
        1 <= number <= MAX_FIELD_NUMBER,
    ensures
        final(out)@ == old(out)@ + fields_bytes(opt_u32_records(number, v)),
{
    proof {
        lemma_fields_bytes_empty();
    }
    if let Some(x) = v {
        put_varint_field(out, number, x as u64);
        proof {
            lemma_fields_bytes_single(varint_record(number, x as u64));
        }
    } else {
        assert(old(out)@ + Seq::<u8>::empty() =~= old(out)@);
    }
}

pub fn put_opt_bool(out: &mut Vec<u8>, number: u32, v: Option<bool>)
    requires
        1 <= number <= MAX_FIELD_NUMBER,
    ensures
        final(out)@ == old(out)@ + fields_bytes(opt_bool_records(number, v)),
{
    proof {
        lemma_fields_bytes_empty();
    }
    if let Some(x) = v {
        let n: u64 = if x {
            1
        } else {
            0
        };
        put_varint_field(out, number, n);
        proof {
            lemma_fields_bytes_single(varint_record(number, n));
        }
    } else {
        assert(old(out)@ + Seq::<u8>::empty() =~= old(out)@);
    }
}

pub fn put_opt_bytes(out: &mut Vec<u8>, number: u32, v: &Option<Vec<u8>>)
    requires
        1 <= number <= MAX_FIELD_NUMBER,
    ensures
        final(out)@ == old(out)@ + fields_bytes(opt_bytes_records(number, opt_bytes_view(*v))),
{
    proof {
        lemma_fields_bytes_empty();
    }
    match v {
        Some(b) => {
            put_bytes_field(out, number, b.as_slice());
            proof {
                lemma_fields_bytes_single(bytes_record(number, b@));
            }
        },
        None => {
            assert(old(out)@ + Seq::<u8>::empty() =~= old(out)@);
        },
    }
}

pub fn put_opt_str(out: &mut Vec<u8>, number: u32, v: &Option<String>)
    requires
        1 <= number <= MAX_FIELD_NUMBER,
    ensures
        final(out)@ == old(out)@ + fields_bytes(opt_str_records(number, opt_str_view(*v))),
{
    proof {
        lemma_fields_bytes_empty();
    }
    match v {
        Some(s) => {
            let b = s.as_str().as_bytes();
            put_bytes_field(out, number, b);
            proof {
                lemma_fields_bytes_single(bytes_record(number, b@));
            }
        },
        None => {
            assert(old(out)@ + Seq::<u8>::empty() =~= old(out)@);
        },
    }
}

pub fn put_req_bytes(out: &mut Vec<u8>, number: u32, v: &Vec<u8>)
    requires
        1 <= number <= MAX_FIELD_NUMBER,
    ensures
        final(out)@ == old(out)@ + fields_bytes(req_bytes_records(number, v@)),
{
    put_bytes_field(out, number, v.as_slice());
    proof {
        lemma_fields_bytes_single(bytes_record(number, v@));
    }
}

/// Appends a packed repeated field from the 64-bit images of its values.
pub fn put_packed(out: &mut Vec<u8>, number: u32, vs: &Vec<u64>)
    requires
        1 <= number <= MAX_FIELD_NUMBER,
    ensures
        final(out)@ == old(out)@ + fields_bytes(packed_records(number, vs@)),
{
    proof {
        lemma_fields_bytes_empty();
    }
    if vs.len() == 0 {
        assert(old(out)@ + Seq::<u8>::empty() =~= old(out)@);
        return;
    }
    let mut body: Vec<u8> = Vec::new();
    let mut i: usize = 0;
    assert(vs@.skip(0) =~= vs@);
    assert(body@ + packed_bytes(vs@) =~= packed_bytes(vs@));
    while i < vs.len()
        invariant
            i <= vs@.len(),
            body@ + packed_bytes(vs@.skip(i as int)) == packed_bytes(vs@),
        decreases vs@.len() - i,
    {
        let ghost before = body@;
        put_varint(&mut body, vs[i]);
        proof {
            let rest = vs@.skip(i as int);
            assert(rest.drop_first() =~= vs@.skip(i + 1));
            assert(rest[0] == vs@[i as int]);
            assert(before + (varint_bytes(vs@[i as int]) + packed_bytes(vs@.skip(i + 1)))
                =~= body@ + packed_bytes(vs@.skip(i + 1)));
        }
        i = i + 1;
    }
    assert(vs@.skip(i as int) =~= Seq::<u64>::empty());
    assert(body@ =~= body@ + Seq::<u8>::empty());
    put_bytes_field(out, number, body.as_slice());
    proof {
        lemma_fields_bytes_single(bytes_record(number, body@));
    }
}

pub fn i32s_to_u64(vs: &Vec<i32>) -> (r: Vec<u64>)
    ensures
        r@ == i32s_as_u64(vs@),
{
    let mut r: Vec<u64> = Vec::new();
    let mut i: usize = 0;
    while i < vs.len()
        invariant
            i <= vs@.len(),
            r@ =~= i32s_as_u64(vs@.take(i as int)),
        decreases vs@.len() - i,
    {
        r.push(vs[i] as u64);
        assert(vs@.take(i + 1) =~= vs@.take(i as int).push(vs@[i as int]));
        i = i + 1;
    }
    assert(vs@.take(i as int) =~= vs@);
    r
}

pub fn i64s_to_u64(vs: &Vec<i64>) -> (r: Vec<u64>)
    ensures
        r@ == i64s_as_u64(vs@),
{
    let mut r: Vec<u64> = Vec::new();
    let mut i: usize = 0;
    while i < vs.len()
        invariant
            i <= vs@.len(),
            r@ =~= i64s_as_u64(vs@.take(i as int)),
        decreases vs@.len() - i,
    {
        r.push(vs[i] as u64);
        assert(vs@.take(i + 1) =~= vs@.take(i as int).push(vs@[i as int]));
        i = i + 1;
    }
    assert(vs@.take(i as int) =~= vs@);
    r
}

// --- reading field values --------------------------------------------------

pub fn wire_i32(w: &WireValue) -> (r: Result<i32, DecodeError>)
    ensures
        match varint_of(w@) {
            Some(v) => r == Ok::<i32, DecodeError>(v as i32),
            None => r is Err,
        },
{
    match w {
        WireValue::Varint(v) => Ok(*v as i32),
        _ => Err(DecodeError),
    }
}

pub fn wire_i64(w: &WireValue) -> (r: Result<i64, DecodeError>)
    ensures
        match varint_of(w@) {
            Some(v) => r == Ok::<i64, DecodeError>(v as i64),
            None => r is Err,
        },
{
    match w {
        WireValue::Varint(v) => Ok(*v as i64),
        _ => Err(DecodeError),
    }
}

pub fn wire_u32(w: &WireValue) -> (r: Result<u32, DecodeError>)
    ensures
        match varint_of(w@) {
            Some(v) => r == Ok::<u32, DecodeError>(v as u32),
            None => r is Err,
        },
{
    match w {
        WireValue::Varint(v) => Ok(*v as u32),
        _ => Err(DecodeError),
    }
}

pub fn wire_bool(w: &WireValue) -> (r: Result<bool, DecodeError>)
    ensures
        match varint_of(w@) {
            Some(v) => r == Ok::<bool, DecodeError>(v != 0),
            None => r is Err,
        },
{
    match w {
        WireValue::Varint(v) => Ok(*v != 0),
        _ => Err(DecodeError),
    }
}

pub fn wire_bytes(w: &WireValue) -> (r: Result<Vec<u8>, DecodeError>)
    ensures
        match payload_of(w@) {
            Some(b) => r matches Ok(v) && v@ == b,
            None => r is Err,
        },
{
    match w {
        WireValue::LengthDelimited(b) => Ok(slice_to_vec(b.as_slice())),
        _ => Err(DecodeError),
    }
}

pub fn wire_string(w: &WireValue) -> (r: Result<String, DecodeError>)
    ensures
        match string_of(w@) {
            Some(c) => r matches Ok(v) && v@ == c,
            None => r is Err,
        },
{
    match w {
        WireValue::LengthDelimited(b) => {
            match crate::primitives::string_from_utf8(slice_to_vec(b.as_slice())) {
                Some(s) => {
                    proof {
                        vstd::utf8::encode_utf8_decode_utf8(s@);
                    }
                    Ok(s)
                },
                None => Err(DecodeError),
            }
        },
        _ => Err(DecodeError),
    }
}

/// Reads every varint of a packed body.
pub fn read_packed(b: &[u8]) -> (r: Option<Vec<u64>>)
    ensures
        match packed_values(b@) {
            Some(vs) => r matches Some(v) && v@ == vs,
            None => r is None,
        },
{
    let mut out: Vec<u64> = Vec::new();
    let mut pos: usize = 0;
    assert(b@.subrange(0, b@.len() as int) =~= b@);
    while pos < b.len()
        invariant
            pos <= b@.len(),
            packed_values(b@) == match packed_values(b@.subrange(pos as int, b@.len() as int)) {
                Some(rest) => Some(out@ + rest),
                None => None,
            },
        decreases b@.len() - pos,
    {
        let ghost t = b@.subrange(pos as int, b@.len() as int);
        match read_varint(b, pos) {
            None => {
                return None;
            },
            Some((v, p)) => {
                proof {
                    lemma_parse_varint_fits(t);
                    lemma_subrange_shift(b@, pos as int, (p - pos) as int);
                }
                let ghost old_out = out@;
                out.push(v);
                proof {
                    if let Some(rest) = packed_values(b@.subrange(p as int, b@.len() as int)) {
                        assert(old_out + (seq![v] + rest) =~= out@ + rest);
                    }
                }
                pos = p;
            },
        }
    }
    assert(b@.subrange(pos as int, b@.len() as int) =~= Seq::<u8>::empty());
    assert(out@ + Seq::<u64>::empty() =~= out@);
    Some(out)
}

/// The values one record adds to a repeated numeric field.
pub fn wire_repeated(w: &WireValue) -> (r: Result<Vec<u64>, DecodeError>)
    ensures
        match repeated_values(w@) {
            Some(vs) => r matches Ok(v) && v@ == vs,
            None => r is Err,
        },
{
    match w {
        WireValue::Varint(v) => {
            let mut out = Vec::new();
            out.push(*v);
            assert(out@ =~= seq![*v]);
            Ok(out)
        },
        WireValue::LengthDelimited(b) => match read_packed(b.as_slice()) {
            Some(vs) => Ok(vs),
            None => Err(DecodeError),
        },
        _ => Err(DecodeError),
    }
}

pub open spec fn u64s_as_i32(vs: Seq<u64>) -> Seq<i32> {
    vs.map_values(|x: u64| x as i32)
}

pub open spec fn u64s_as_i64(vs: Seq<u64>) -> Seq<i64> {
    vs.map_values(|x: u64| x as i64)
}

/// Appends the 32-bit truncations of `vs`.
pub fn extend_i32(dst: &mut Vec<i32>, vs: &Vec<u64>)
    ensures
        final(dst)@ == old(dst)@ + u64s_as_i32(vs@),
{
    let ghost start = dst@;
    let mut i: usize = 0;
    while i < vs.len()
        invariant
            i <= vs@.len(),
            dst@ =~= start + u64s_as_i32(vs@.take(i as int)),
        decreases vs@.len() - i,
    {
        dst.push(vs[i] as i32);
        assert(vs@.take(i + 1) =~= vs@.take(i as int).push(vs@[i as int]));
        i = i + 1;
    }
    assert(vs@.take(i as int) =~= vs@);
}

/// Appends the 64-bit signed images of `vs`.
pub fn extend_i64(dst: &mut Vec<i64>, vs: &Vec<u64>)
    ensures
        final(dst)@ == old(dst)@ + u64s_as_i64(vs@),
{
    let ghost start = dst@;
    let mut i: usize = 0;
    while i < vs.len()
        invariant
            i <= vs@.len(),
            dst@ =~= start + u64s_as_i64(vs@.take(i as int)),
        decreases vs@.len() - i,
    {
        dst.push(vs[i] as i64);
        assert(vs@.take(i + 1) =~= vs@.take(i as int).push(vs@[i as int]));
        i = i + 1;
    }
    assert(vs@.take(i as int) =~= vs@);
}

pub proof fn lemma_i32s_round_trip(vs: Seq<i32>)
    ensures
        u64s_as_i32(i32s_as_u64(vs)) == vs,
{
    assert forall|i: int| 0 <= i < vs.len() implies u64s_as_i32(i32s_as_u64(vs))[i] == vs[i] by {
        lemma_i32_round_trip(vs[i]);
    }
    assert(u64s_as_i32(i32s_as_u64(vs)) =~= vs);
}

pub proof fn lemma_i64s_round_trip(vs: Seq<i64>)
    ensures
        u64s_as_i64(i64s_as_u64(vs)) == vs,
{
    assert forall|i: int| 0 <= i < vs.len() implies u64s_as_i64(i64s_as_u64(vs))[i] == vs[i] by {
        lemma_i64_round_trip(vs[i]);
    }
    assert(u64s_as_i64(i64s_as_u64(vs)) =~= vs);
}


/// What a failed decode reads as.
pub open spec fn decode_error_text() -> Seq<char> {
    "failed to decode Protobuf message"@
}

impl DecodeError {
    /// The error as a sentence.
    pub fn describe(&self) -> (r: String)
        ensures
            r@ == decode_error_text(),
    {
        String::from_str("failed to decode Protobuf message")
    }
}

} // verus!
