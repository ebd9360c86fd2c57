//! The data-file format: a compact JSON document over the store, written
//! and read by verified code. The serializer emits exactly one canonical
//! form; the parser reads that form back, and parsing what was
//! serialized is proved to return the original store.
//!
//! The strictness is deliberate: the parser accepts the canonical
//! compact form this serializer writes (fields in declaration order, no
//! insignificant whitespace, with the optional fallback-secret and
//! theme-index fields allowed to be absent and every string escape
//! understood). Data files are written only by this program, in that
//! one form; a hand-reformatted file fails closed with a parse error,
//! whose message surfaces the text, rather than being half-understood.

use vstd::prelude::*;

verus! {

// ---------------------------------------------------------------------
// Characters and digits
// ---------------------------------------------------------------------

pub open spec fn is_digit(c: char) -> bool {
    '0' <= c && c <= '9'
}

pub open spec fn digit_val(c: char) -> int {
    c as u32 - '0' as u32
}

pub open spec fn digit_char(d: int) -> char {
    ((d + 48) as u8) as char
}

/// Lowercase hex digit for a value below 16.
pub open spec fn hex_char(d: int) -> char {
    if d < 10 {
        digit_char(d)
    } else {
        ((d - 10 + 97) as u8) as char
    }
}

pub open spec fn hex_val(c: char) -> int {
    if is_digit(c) {
        digit_val(c)
    } else if 'a' <= c && c <= 'f' {
        c as u32 - 'a' as u32 + 10
    } else {
        c as u32 - 'A' as u32 + 10
    }
}

pub open spec fn is_hex_digit(c: char) -> bool {
    is_digit(c) || ('a' <= c && c <= 'f') || ('A' <= c && c <= 'F')
}

// ---------------------------------------------------------------------
// Serialization: numbers
// ---------------------------------------------------------------------

/// The usual decimal writing of `n`, no sign, no leading zeros.
pub open spec fn ser_nat(n: nat) -> Seq<char>
    decreases n,
{
    if n < 10 {
        seq![digit_char(n as int)]
    } else {
        ser_nat(n / 10) + seq![digit_char((n % 10) as int)]
    }
}

/// Append the decimal writing of `n`.
pub fn push_u64(out: &mut Vec<char>, n: u64)
    ensures
        final(out)@ == old(out)@ + ser_nat(n as nat),
    decreases n,
{
    if n < 10 {
        out.push((n as u8 + 48) as char);
        proof {
            assert(out@ =~= old(out)@ + ser_nat(n as nat));
        }
    } else {
        push_u64(out, n / 10);
        out.push(((n % 10) as u8 + 48) as char);
        proof {
            assert(out@ =~= old(out)@ + ser_nat(n as nat));
        }
    }
}

// ---------------------------------------------------------------------
// Parsing: numbers
// ---------------------------------------------------------------------

/// Greedy digit run with an accumulator, the value read so far.
pub open spec fn sp_digits(s: Seq<char>, pos: int, acc: nat) -> (nat, int)
    decreases s.len() - pos,
{
    if 0 <= pos < s.len() && is_digit(s[pos]) {
        sp_digits(s, pos + 1, acc * 10 + digit_val(s[pos]) as nat)
    } else {
        (acc, pos)
    }
}

/// A JSON non-negative integer fitting u64: either a lone `0`, or a
/// nonzero digit starting a maximal digit run whose value fits.
pub open spec fn sp_u64(s: Seq<char>, pos: int) -> Option<(u64, int)> {
    if 0 <= pos < s.len() && is_digit(s[pos]) {
        if s[pos] == '0' {
            Some((0u64, pos + 1))
        } else {
            let (v, end) = sp_digits(s, pos, 0);
            if v <= u64::MAX {
                Some((v as u64, end))
            } else {
                None
            }
        }
    } else {
        None
    }
}

/// The accumulated value only grows as more digits are read, and the end
/// position never moves backwards.
proof fn lemma_sp_digits_grows(s: Seq<char>, pos: int, acc: nat)
    ensures
        sp_digits(s, pos, acc).0 >= acc,
        sp_digits(s, pos, acc).1 >= pos,
    decreases s.len() - pos,
{
    if 0 <= pos < s.len() && is_digit(s[pos]) {
        let acc2 = acc * 10 + digit_val(s[pos]) as nat;
        assert(acc2 >= acc) by (nonlinear_arith)
            requires
                acc2 == acc * 10 + digit_val(s[pos]),
                digit_val(s[pos]) >= 0,
        ;
        lemma_sp_digits_grows(s, pos + 1, acc2);
    }
}

/// Read a u64 at `pos`: a lone `0`, or a maximal digit run; fails on a
/// value over `u64::MAX`, on a leading zero, or on anything that does
/// not start with a digit.
pub fn parse_u64(s: &Vec<char>, pos: usize) -> (r: Option<(u64, usize)>)
    requires
        pos <= s@.len(),
    ensures
        match r {
            Some((v, end)) => sp_u64(s@, pos as int) == Some((v, end as int)) && pos < end <= s@.len(),
            None => sp_u64(s@, pos as int) is None,
        },
{
    if pos >= s.len() || !(s[pos] >= '0' && s[pos] <= '9') {
        return None;
    }
    if s[pos] == '0' {
        return Some((0, pos + 1));
    }
    let mut acc: u64 = 0;
    let mut i: usize = pos;
    loop
        invariant
            pos <= i <= s@.len(),
            pos < s@.len(),
            is_digit(s@[pos as int]),
            s@[pos as int] != '0',
            sp_digits(s@, pos as int, 0) == sp_digits(s@, i as int, acc as nat),
            i > pos || (i == pos && acc == 0),
        decreases s@.len() - i,
    {
        if i >= s.len() || !(s[i] >= '0' && s[i] <= '9') {
            proof {
                assert(sp_digits(s@, i as int, acc as nat) == (acc as nat, i as int));
            }
            return Some((acc, i));
        }
        let d: u64 = (s[i] as u32 - 48) as u64;
        if acc > (u64::MAX - d) / 10 {
            proof {
                let (v, _) = sp_digits(s@, pos as int, 0);
                lemma_sp_digits_grows(s@, i + 1, (acc * 10 + d) as nat);
                assert(acc * 10 + d > u64::MAX) by (nonlinear_arith)
                    requires
                        acc > (u64::MAX - d) / 10,
                        0 <= d <= 9,
                        acc >= 0,
                ;
                assert(v > u64::MAX);
            }
            return None;
        }
        proof {
            assert(acc * 10 + d <= u64::MAX) by (nonlinear_arith)
                requires
                    acc <= (u64::MAX - d) / 10,
                    0 <= d <= 9,
                    acc >= 0,
            ;
        }
        acc = acc * 10 + d;
        i += 1;
    }
}

// ---------------------------------------------------------------------
// Round trip: numbers
// ---------------------------------------------------------------------

/// Powers of ten.
pub open spec fn pow10(k: nat) -> nat
    decreases k,
{
    if k == 0 {
        1
    } else {
        10 * pow10((k - 1) as nat)
    }
}

/// The value of a digit block, most significant first.
pub open spec fn val_digits(d: Seq<char>) -> nat
    decreases d.len(),
{
    if d.len() == 0 {
        0
    } else {
        val_digits(d.drop_last()) * 10 + digit_val(d.last()) as nat
    }
}

proof fn lemma_ser_nat_digits(n: nat)
    ensures
        ser_nat(n).len() >= 1,
        forall|i: int| 0 <= i < ser_nat(n).len() ==> is_digit(#[trigger] ser_nat(n)[i]),
        n > 0 ==> ser_nat(n)[0] != '0',
        n == 0 ==> ser_nat(n) == seq!['0'],
        val_digits(ser_nat(n)) == n,
    decreases n,
{
    if n < 10 {
        assert(digit_val(digit_char(n as int)) == n);
        assert(ser_nat(n).drop_last() =~= Seq::<char>::empty());
        assert(val_digits(Seq::<char>::empty()) == 0);
        assert(val_digits(ser_nat(n)) == digit_val(digit_char(n as int)) as nat);
    } else {
        lemma_ser_nat_digits(n / 10);
        vstd::arithmetic::div_mod::lemma_fundamental_div_mod(n as int, 10);
        assert(ser_nat(n) == ser_nat(n / 10) + seq![digit_char((n % 10) as int)]);
        assert(ser_nat(n).drop_last() =~= ser_nat(n / 10));
        assert(ser_nat(n).last() == digit_char((n % 10) as int));
        assert(digit_val(digit_char((n % 10) as int)) == n % 10);
        assert(n / 10 > 0);
        assert(ser_nat(n)[0] == ser_nat(n / 10)[0]);
    }
}

/// Peeling the first digit off a block: its value is that digit scaled
/// by the remaining width plus the rest.
proof fn lemma_val_digits_first(d: Seq<char>)
    requires
        d.len() >= 1,
        forall|i: int| 0 <= i < d.len() ==> is_digit(#[trigger] d[i]),
    ensures
        val_digits(d) == digit_val(d[0]) * pow10((d.len() - 1) as nat) + val_digits(
            d.subrange(1, d.len() as int),
        ),
    decreases d.len(),
{
    if d.len() == 1 {
        assert(d.drop_last() =~= Seq::<char>::empty());
        assert(d.subrange(1, 1) =~= Seq::<char>::empty());
        assert(val_digits(Seq::<char>::empty()) == 0);
        assert(val_digits(d) == digit_val(d.last()) as nat);
        assert(pow10((d.len() - 1) as nat) == 1);
        assert(digit_val(d[0]) * pow10((d.len() - 1) as nat) == digit_val(d[0]))
            by (nonlinear_arith)
            requires
                pow10((d.len() - 1) as nat) == 1,
        ;
    } else {
        let rest = d.subrange(1, d.len() as int);
        lemma_val_digits_first(d.drop_last());
        assert(d.drop_last()[0] == d[0]);
        assert(d.drop_last().subrange(1, d.drop_last().len() as int) =~= rest.drop_last());
        assert(rest.last() == d.last());
        let k = (d.len() - 2) as nat;
        let dl: nat = digit_val(d.last()) as nat;
        let d0: nat = digit_val(d[0]) as nat;
        assert(val_digits(d) == val_digits(d.drop_last()) * 10 + dl);
        assert(val_digits(d.drop_last()) == d0 * pow10(k) + val_digits(rest.drop_last()));
        assert((d0 * pow10(k) + val_digits(rest.drop_last())) * 10 + dl == d0 * (10 * pow10(k)) + (
        val_digits(rest.drop_last()) * 10 + dl)) by (nonlinear_arith);
        assert(pow10((d.len() - 1) as nat) == 10 * pow10(k));
        assert(val_digits(rest) == val_digits(rest.drop_last()) * 10 + digit_val(rest.last()) as nat);
        assert(d0 * (10 * pow10(k)) == digit_val(d[0]) * pow10((d.len() - 1) as nat));
        assert(val_digits(d) == digit_val(d[0]) * pow10((d.len() - 1) as nat) + val_digits(rest));
    }
}

/// Reading a digit block followed by a non-digit accumulates its value.
proof fn lemma_sp_digits_block(s: Seq<char>, pos: int, d: Seq<char>, acc: nat)
    requires
        0 <= pos,
        pos + d.len() <= s.len(),
        s.subrange(pos, pos + d.len() as int) == d,
        forall|i: int| 0 <= i < d.len() ==> is_digit(#[trigger] d[i]),
        pos + d.len() == s.len() || !is_digit(s[pos + d.len()]),
    ensures
        sp_digits(s, pos, acc) == ((acc * pow10(d.len()) + val_digits(d)) as nat, pos + d.len()),
    decreases d.len(),
{
    if d.len() == 0 {
        assert(sp_digits(s, pos, acc) == (acc, pos));
        assert(acc * 1 == acc) by (nonlinear_arith);
    } else {
        assert(s[pos] == d[0]);
        let rest = d.subrange(1, d.len() as int);
        assert(s.subrange(pos + 1, pos + 1 + rest.len() as int) =~= rest);
        let acc2 = (acc * 10 + digit_val(d[0])) as nat;
        assert(sp_digits(s, pos, acc) == sp_digits(s, pos + 1, acc2));
        lemma_sp_digits_block(s, pos + 1, rest, acc2);
        lemma_val_digits_first(d);
        let k = (d.len() - 1) as nat;
        assert((acc * 10 + digit_val(d[0])) * pow10(k) + val_digits(rest) == acc * (10 * pow10(k))
            + (digit_val(d[0]) * pow10(k) + val_digits(rest))) by (nonlinear_arith);
        assert(pow10(d.len()) == 10 * pow10(k));
    }
}

/// Parsing the decimal writing of a u64, followed by a non-digit,
/// returns exactly that value.
pub proof fn lemma_parse_ser_u64(s: Seq<char>, pos: int, n: u64)
    requires
        0 <= pos,
        pos + ser_nat(n as nat).len() <= s.len(),
        s.subrange(pos, pos + ser_nat(n as nat).len() as int) == ser_nat(n as nat),
        pos + ser_nat(n as nat).len() == s.len() || !is_digit(
            s[pos + ser_nat(n as nat).len()],
        ),
    ensures
        sp_u64(s, pos) == Some((n, pos + ser_nat(n as nat).len())),
{
    lemma_ser_nat_digits(n as nat);
    let l = ser_nat(n as nat).len() as int;
    assert(s[pos] == ser_nat(n as nat)[0]);
    if n == 0 {
        assert(s[pos] == '0');
    } else {
        assert(s[pos] != '0');
        lemma_sp_digits_block(s, pos, ser_nat(n as nat), 0);
        assert(0 * pow10(ser_nat(n as nat).len()) == 0) by (nonlinear_arith);
    }
}


// ---------------------------------------------------------------------
// Serialization: strings
// ---------------------------------------------------------------------

/// The escape of one code point inside a JSON string: quote and
/// backslash escaped, the named controls short-escaped, the other
/// controls hex-escaped, everything else written as itself.
pub open spec fn esc_char(c: char) -> Seq<char> {
    if c == '"' {
        seq!['\\', '"']
    } else if c == '\\' {
        seq!['\\', '\\']
    } else if c == '\u{8}' {
        seq!['\\', 'b']
    } else if c == '\u{9}' {
        seq!['\\', 't']
    } else if c == '\u{a}' {
        seq!['\\', 'n']
    } else if c == '\u{c}' {
        seq!['\\', 'f']
    } else if c == '\u{d}' {
        seq!['\\', 'r']
    } else if (c as u32) < 0x20 {
        seq!['\\', 'u', '0', '0', hex_char(c as u32 as int / 16), hex_char(c as u32 as int % 16)]
    } else {
        seq![c]
    }
}

/// The body of a JSON string: each code point escaped, in order.
pub open spec fn ser_str_body(s: Seq<char>) -> Seq<char>
    decreases s.len(),
{
    if s.len() == 0 {
        Seq::empty()
    } else {
        esc_char(s[0]) + ser_str_body(s.drop_first())
    }
}

/// A whole JSON string, quotes included.
pub open spec fn ser_string(s: Seq<char>) -> Seq<char> {
    seq!['"'] + ser_str_body(s) + seq!['"']
}

proof fn lemma_ser_str_body_push(s: Seq<char>, c: char)
    ensures
        ser_str_body(s.push(c)) == ser_str_body(s) + esc_char(c),
    decreases s.len(),
{
    if s.len() == 0 {
        assert(s.push(c)[0] == c);
        assert(s.push(c).drop_first() =~= Seq::<char>::empty());
        assert(ser_str_body(Seq::<char>::empty()) == Seq::<char>::empty());
        assert(ser_str_body(s.push(c)) =~= esc_char(c));
        assert(ser_str_body(s) + esc_char(c) =~= esc_char(c));
    } else {
        assert(s.push(c).drop_first() =~= s.drop_first().push(c));
        lemma_ser_str_body_push(s.drop_first(), c);
        assert(s.push(c)[0] == s[0]);
        assert(ser_str_body(s.push(c)) == esc_char(s[0]) + (ser_str_body(s.drop_first())
            + esc_char(c)));
        assert(esc_char(s[0]) + (ser_str_body(s.drop_first()) + esc_char(c)) =~= (esc_char(s[0])
            + ser_str_body(s.drop_first())) + esc_char(c));
    }
}

/// Append the whole JSON string form of `s`, quotes included.
pub fn push_string(out: &mut Vec<char>, s: &Vec<char>)
    ensures
        final(out)@ == old(out)@ + ser_string(s@),
{
    out.push('"');
    proof {
        assert(s@.subrange(0, 0) =~= Seq::<char>::empty());
        assert(ser_str_body(Seq::<char>::empty()) == Seq::<char>::empty());
        assert(out@ =~= old(out)@ + seq!['"'] + ser_str_body(s@.subrange(0, 0)));
    }
    let mut i: usize = 0;
    while i < s.len()
        invariant
            i <= s@.len(),
            out@ == old(out)@ + seq!['"'] + ser_str_body(s@.subrange(0, i as int)),
        decreases s@.len() - i,
    {
        let c = s[i];
        let ghost out0 = out@;
        if c == '"' {
            out.push('\\');
            out.push('"');
        } else if c == '\\' {
            out.push('\\');
            out.push('\\');
        } else if c == '\u{8}' {
            out.push('\\');
            out.push('b');
        } else if c == '\u{9}' {
            out.push('\\');
            out.push('t');
        } else if c == '\u{a}' {
            out.push('\\');
            out.push('n');
        } else if c == '\u{c}' {
            out.push('\\');
            out.push('f');
        } else if c == '\u{d}' {
            out.push('\\');
            out.push('r');
        } else if (c as u32) < 0x20 {
            let v = c as u32;
            out.push('\\');
            out.push('u');
            out.push('0');
            out.push('0');
            out.push(hex_digit_char((v / 16) as u8));
            out.push(hex_digit_char((v % 16) as u8));
        } else {
            out.push(c);
        }
        proof {
            assert(out@ =~= out0 + esc_char(c));
            lemma_ser_str_body_push(s@.subrange(0, i as int), c);
            assert(s@.subrange(0, i + 1) =~= s@.subrange(0, i as int).push(c));
            assert(out@ =~= old(out)@ + seq!['"'] + ser_str_body(s@.subrange(0, i + 1)));
        }
        i += 1;
    }
    out.push('"');
    proof {
        assert(s@.subrange(0, s@.len() as int) =~= s@);
        assert(out@ =~= old(out)@ + ser_string(s@));
    }
}

/// The lowercase hex digit for a value below 16.
fn hex_digit_char(d: u8) -> (r: char)
    requires
        d < 16,
    ensures
        r == hex_char(d as int),
{
    if d < 10 {
        (d + 48) as char
    } else {
        (d - 10 + 97) as char
    }
}

// ---------------------------------------------------------------------
// Parsing: strings
// ---------------------------------------------------------------------

/// The code point a short escape stands for, if the letter is one.
pub open spec fn esc_short(e: char) -> Option<char> {
    if e == '"' {
        Some('"')
    } else if e == '\\' {
        Some('\\')
    } else if e == '/' {
        Some('/')
    } else if e == 'b' {
        Some('\u{8}')
    } else if e == 't' {
        Some('\u{9}')
    } else if e == 'n' {
        Some('\u{a}')
    } else if e == 'f' {
        Some('\u{c}')
    } else if e == 'r' {
        Some('\u{d}')
    } else {
        None
    }
}

pub open spec fn is_hex4(s: Seq<char>, pos: int) -> bool {
    &&& is_hex_digit(s[pos])
    &&& is_hex_digit(s[pos + 1])
    &&& is_hex_digit(s[pos + 2])
    &&& is_hex_digit(s[pos + 3])
}

pub open spec fn hex4(s: Seq<char>, pos: int) -> int {
    hex_val(s[pos]) * 4096 + hex_val(s[pos + 1]) * 256 + hex_val(s[pos + 2]) * 16 + hex_val(
        s[pos + 3],
    )
}

/// A Unicode scalar value: what a `char` may hold.
pub open spec fn is_scalar_val(v: int) -> bool {
    (0 <= v < 0xD800) || (0xE000 <= v <= 0x10FFFF)
}

/// The rest of a JSON string after the opening quote: plain code points,
/// short escapes, hex escapes (with surrogate pairs), up to the closing
/// quote. Raw control characters are refused.
pub open spec fn sp_str_body(s: Seq<char>, pos: int) -> Option<(Seq<char>, int)>
    decreases s.len() - pos,
{
    if pos < 0 || pos >= s.len() {
        None
    } else if s[pos] == '"' {
        Some((Seq::empty(), pos + 1))
    } else if s[pos] == '\\' {
        if pos + 2 > s.len() {
            None
        } else if s[pos + 1] == 'u' {
            if pos + 6 <= s.len() && is_hex4(s, pos + 2) {
                let v = hex4(s, pos + 2);
                if is_scalar_val(v) {
                    match sp_str_body(s, pos + 6) {
                        Some((rest, end)) => Some((seq![(v as u32) as char] + rest, end)),
                        None => None,
                    }
                } else if 0xD800 <= v < 0xDC00 {
                    if pos + 12 <= s.len() && s[pos + 6] == '\\' && s[pos + 7] == 'u' && is_hex4(
                        s,
                        pos + 8,
                    ) {
                        let w = hex4(s, pos + 8);
                        if 0xDC00 <= w < 0xE000 {
                            let u = 0x10000 + (v - 0xD800) * 0x400 + (w - 0xDC00);
                            match sp_str_body(s, pos + 12) {
                                Some((rest, end)) => Some((seq![(u as u32) as char] + rest, end)),
                                None => None,
                            }
                        } else {
                            None
                        }
                    } else {
                        None
                    }
                } else {
                    None
                }
            } else {
                None
            }
        } else {
            match esc_short(s[pos + 1]) {
                Some(c) => match sp_str_body(s, pos + 2) {
                    Some((rest, end)) => Some((seq![c] + rest, end)),
                    None => None,
                },
                None => None,
            }
        }
    } else if (s[pos] as u32) < 0x20 {
        None
    } else {
        match sp_str_body(s, pos + 1) {
            Some((rest, end)) => Some((seq![s[pos]] + rest, end)),
            None => None,
        }
    }
}

/// A whole JSON string at `pos`, quotes included.
pub open spec fn sp_string(s: Seq<char>, pos: int) -> Option<(Seq<char>, int)> {
    if 0 <= pos < s.len() && s[pos] == '"' {
        sp_str_body(s, pos + 1)
    } else {
        None
    }
}

/// Relies on `char::from_u32`: `Some` exactly for a Unicode scalar value
/// (not a surrogate, at most 0x10FFFF), holding that value.
#[verifier::external_body]
fn char_from_u32(v: u32) -> (r: Option<char>)
    ensures
        r matches Some(c) ==> c as u32 == v,
        r is Some <==> is_scalar_val(v as int),
{
    char::from_u32(v)
}

fn hex_val_exec(c: char) -> (r: Option<u32>)
    ensures
        match r {
            Some(v) => is_hex_digit(c) && v == hex_val(c) && v < 16,
            None => !is_hex_digit(c),
        },
{
    let v = c as u32;
    if v >= 48 && v <= 57 {
        Some(v - 48)
    } else if v >= 97 && v <= 102 {
        Some(v - 97 + 10)
    } else if v >= 65 && v <= 70 {
        Some(v - 65 + 10)
    } else {
        None
    }
}

/// Four hex digits at `pos`, as a value below 0x10000.
fn hex4_exec(s: &Vec<char>, pos: usize) -> (r: Option<u32>)
    requires
        pos + 4 <= s@.len(),
    ensures
        match r {
            Some(v) => is_hex4(s@, pos as int) && v == hex4(s@, pos as int) && v < 0x10000,
            None => !is_hex4(s@, pos as int),
        },
{
    let n = s.len();
    let a = match hex_val_exec(s[pos]) {
        Some(v) => v,
        None => {
            return None;
        },
    };
    let b = match hex_val_exec(s[pos + 1]) {
        Some(v) => v,
        None => {
            return None;
        },
    };
    let c = match hex_val_exec(s[pos + 2]) {
        Some(v) => v,
        None => {
            return None;
        },
    };
    let d = match hex_val_exec(s[pos + 3]) {
        Some(v) => v,
        None => {
            return None;
        },
    };
    Some(a * 4096 + b * 256 + c * 16 + d)
}

/// A successful string-body parse always advances and stays in bounds.
proof fn lemma_sp_str_body_bounds(s: Seq<char>, pos: int)
    ensures
        match sp_str_body(s, pos) {
            Some((rest, end)) => pos < end <= s.len(),
            None => true,
        },
    decreases s.len() - pos,
{
    if pos < 0 || pos >= s.len() {
    } else if s[pos] == '"' {
    } else if s[pos] == '\\' {
        if pos + 2 > s.len() {
        } else if s[pos + 1] == 'u' {
            if pos + 6 <= s.len() && is_hex4(s, pos + 2) {
                let v = hex4(s, pos + 2);
                if is_scalar_val(v) {
                    lemma_sp_str_body_bounds(s, pos + 6);
                } else if 0xD800 <= v < 0xDC00 {
                    if pos + 12 <= s.len() && s[pos + 6] == '\\' && s[pos + 7] == 'u' && is_hex4(
                        s,
                        pos + 8,
                    ) {
                        lemma_sp_str_body_bounds(s, pos + 12);
                    }
                }
            }
        } else {
            lemma_sp_str_body_bounds(s, pos + 2);
        }
    } else {
        lemma_sp_str_body_bounds(s, pos + 1);
    }
}

/// One consumed code point extends the accumulated prefix.
proof fn lemma_str_step(
    s: Seq<char>,
    start: int,
    i: int,
    k: int,
    ch: char,
    acc0: Seq<char>,
    acc1: Seq<char>,
)
    requires
        acc1 == acc0.push(ch),
        k >= 1,
        (match sp_str_body(s, i) {
            Some((rest, end)) => sp_str_body(s, start) == Some((acc0 + rest, end)),
            None => sp_str_body(s, start) is None,
        }),
        (match sp_str_body(s, i + k) {
            Some((rest, end)) => sp_str_body(s, i) == Some((seq![ch] + rest, end)),
            None => sp_str_body(s, i) is None,
        }),
    ensures
        (match sp_str_body(s, i + k) {
            Some((rest, end)) => sp_str_body(s, start) == Some((acc1 + rest, end)) && i + k <= end
                <= s.len(),
            None => sp_str_body(s, start) is None,
        }),
{
    match sp_str_body(s, i + k) {
        Some((rest, end)) => {
            assert(sp_str_body(s, i) == Some((seq![ch] + rest, end)));
            assert(sp_str_body(s, start) == Some((acc0 + (seq![ch] + rest), end)));
            assert(acc0 + (seq![ch] + rest) =~= acc1 + rest);
            lemma_sp_str_body_bounds(s, i + k);
        },
        None => {},
    }
}

/// Read a whole JSON string at `pos`, quotes included.
pub fn parse_string(s: &Vec<char>, pos: usize) -> (r: Option<(Vec<char>, usize)>)
    requires
        pos <= s@.len(),
    ensures
        match r {
            Some((t, end)) => sp_string(s@, pos as int) == Some((t@, end as int)) && pos < end
                <= s@.len(),
            None => sp_string(s@, pos as int) is None,
        },
{
    if pos >= s.len() || s[pos] != '"' {
        return None;
    }
    let mut acc: Vec<char> = Vec::new();
    let mut i: usize = pos + 1;
    proof {
        lemma_sp_str_body_bounds(s@, pos + 1);
        match sp_str_body(s@, pos + 1) {
            Some((rest, end)) => {
                assert(Seq::<char>::empty() + rest =~= rest);
            },
            None => {},
        }
    }
    loop
        invariant
            pos < s@.len(),
            s@[pos as int] == '"',
            pos + 1 <= i <= s@.len(),
            match sp_str_body(s@, i as int) {
                Some((rest, end)) => sp_str_body(s@, pos + 1) == Some((acc@ + rest, end)) && i
                    <= end <= s@.len(),
                None => sp_str_body(s@, pos + 1) is None,
            },
        decreases s@.len() - i,
    {
        if i >= s.len() {
            return None;
        }
        let c = s[i];
        if c == '"' {
            proof {
                assert(sp_str_body(s@, i as int) == Some((Seq::<char>::empty(), i + 1)));
                assert(acc@ + Seq::<char>::empty() =~= acc@);
            }
            return Some((acc, i + 1));
        } else if c == '\\' {
            if s.len() - i < 2 {
                return None;
            }
            let e = s[i + 1];
            if e == 'u' {
                if s.len() - i < 6 {
                    return None;
                }
                let v = match hex4_exec(s, i + 2) {
                    Some(v) => v,
                    None => {
                        return None;
                    },
                };
                match char_from_u32(v) {
                    Some(ch) => {
                        let ghost acc0 = acc@;
                        proof {
                            vstd::utf8::char_u32_cast(ch, v);
                            assert(match sp_str_body(s@, i + 6) {
                                Some((rest, end)) => sp_str_body(s@, i as int) == Some(
                                    (seq![ch] + rest, end),
                                ),
                                None => sp_str_body(s@, i as int) is None,
                            });
                        }
                        acc.push(ch);
                        proof {
                            lemma_str_step(s@, pos + 1, i as int, 6, ch, acc0, acc@);
                        }
                        i += 6;
                    },
                    None => {
                        if !(v >= 0xD800 && v < 0xDC00) {
                            return None;
                        }
                        if s.len() - i < 12 || s[i + 6] != '\\' || s[i + 7] != 'u' {
                            return None;
                        }
                        let w = match hex4_exec(s, i + 8) {
                            Some(w) => w,
                            None => {
                                return None;
                            },
                        };
                        if !(w >= 0xDC00 && w < 0xE000) {
                            return None;
                        }
                        let u: u32 = 0x10000 + (v - 0xD800) * 0x400 + (w - 0xDC00);
                        let ch = match char_from_u32(u) {
                            Some(ch) => ch,
                            None => {
                                return None;
                            },
                        };
                        let ghost acc0 = acc@;
                        proof {
                            vstd::utf8::char_u32_cast(ch, u);
                            assert(match sp_str_body(s@, i + 12) {
                                Some((rest, end)) => sp_str_body(s@, i as int) == Some(
                                    (seq![ch] + rest, end),
                                ),
                                None => sp_str_body(s@, i as int) is None,
                            });
                        }
                        acc.push(ch);
                        proof {
                            lemma_str_step(s@, pos + 1, i as int, 12, ch, acc0, acc@);
                        }
                        i += 12;
                    },
                }
            } else {
                let dec: char = if e == '"' {
                    '"'
                } else if e == '\\' {
                    '\\'
                } else if e == '/' {
                    '/'
                } else if e == 'b' {
                    '\u{8}'
                } else if e == 't' {
                    '\u{9}'
                } else if e == 'n' {
                    '\u{a}'
                } else if e == 'f' {
                    '\u{c}'
                } else if e == 'r' {
                    '\u{d}'
                } else {
                    return None;
                };
                let ghost acc0 = acc@;
                proof {
                    assert(esc_short(s@[i + 1]) == Some(dec));
                    assert(match sp_str_body(s@, i + 2) {
                        Some((rest, end)) => sp_str_body(s@, i as int) == Some(
                            (seq![dec] + rest, end),
                        ),
                        None => sp_str_body(s@, i as int) is None,
                    });
                }
                acc.push(dec);
                proof {
                    lemma_str_step(s@, pos + 1, i as int, 2, dec, acc0, acc@);
                }
                i += 2;
            }
        } else if (c as u32) < 0x20 {
            return None;
        } else {
            let ghost acc0 = acc@;
            proof {
                assert(match sp_str_body(s@, i + 1) {
                    Some((rest, end)) => sp_str_body(s@, i as int) == Some((seq![c] + rest, end)),
                    None => sp_str_body(s@, i as int) is None,
                });
            }
            acc.push(c);
            proof {
                lemma_str_step(s@, pos + 1, i as int, 1, c, acc0, acc@);
            }
            i += 1;
        }
    }
}

// ---------------------------------------------------------------------
// Round trip: strings
// ---------------------------------------------------------------------

proof fn lemma_hex_char_val(d: int)
    requires
        0 <= d < 16,
    ensures
        is_hex_digit(hex_char(d)),
        hex_val(hex_char(d)) == d,
{
}

/// Parsing the serialized body of `t` followed by a closing quote gives
/// back exactly `t`.
proof fn lemma_parse_ser_str_body(s: Seq<char>, pos: int, t: Seq<char>)
    requires
        0 <= pos,
        pos + ser_str_body(t).len() + 1 <= s.len(),
        s.subrange(pos, pos + ser_str_body(t).len() + 1) == ser_str_body(t) + seq!['"'],
    ensures
        sp_str_body(s, pos) == Some((t, pos + ser_str_body(t).len() + 1)),
    decreases t.len(),
{
    let bl = ser_str_body(t).len() as int;
    let sub = s.subrange(pos, pos + bl + 1);
    if t.len() == 0 {
        assert(sub[0] == s[pos]);
        assert((ser_str_body(t) + seq!['"'])[0] == '"');
        assert(s[pos] == '"');
    } else {
        let c = t[0];
        let e = esc_char(c);
        let t2 = t.drop_first();
        let bl2 = ser_str_body(t2).len() as int;
        assert(ser_str_body(t) == e + ser_str_body(t2));
        let pos2 = pos + e.len() as int;
        assert forall|k: int| 0 <= k < bl + 1 implies s[pos + k] == (ser_str_body(t)
            + seq!['"'])[k] by {
            assert(sub[k] == s[pos + k]);
        }
        assert forall|k: int| 0 <= k < bl2 + 1 implies s.subrange(pos2, pos2 + bl2 + 1)[k] == (
        ser_str_body(t2) + seq!['"'])[k] by {
            assert(s.subrange(pos2, pos2 + bl2 + 1)[k] == s[pos2 + k]);
            assert(s[pos2 + k] == (ser_str_body(t) + seq!['"'])[e.len() + k]);
            if k < bl2 {
                assert((ser_str_body(t) + seq!['"'])[e.len() + k] == ser_str_body(t)[e.len() + k]);
                assert(ser_str_body(t)[e.len() + k] == ser_str_body(t2)[k]);
                assert((ser_str_body(t2) + seq!['"'])[k] == ser_str_body(t2)[k]);
            } else {
                assert((ser_str_body(t) + seq!['"'])[e.len() + k] == '"');
                assert((ser_str_body(t2) + seq!['"'])[k] == '"');
            }
        }
        assert(s.subrange(pos2, pos2 + bl2 + 1) =~= ser_str_body(t2) + seq!['"']);
        lemma_parse_ser_str_body(s, pos2, t2);
        assert forall|k: int| 0 <= k < e.len() implies s[pos + k] == e[k] by {
            assert(s[pos + k] == (ser_str_body(t) + seq!['"'])[k]);
            assert((ser_str_body(t) + seq!['"'])[k] == ser_str_body(t)[k]);
            assert(ser_str_body(t)[k] == (e + ser_str_body(t2))[k]);
        }
        if c == '"' || c == '\\' {
            assert(s[pos] == '\\');
            assert(esc_short(s[pos + 1]) == Some(c));
        } else if c == '\u{8}' || c == '\u{9}' || c == '\u{a}' || c == '\u{c}' || c
            == '\u{d}' {
            assert(s[pos] == '\\');
            assert(esc_short(s[pos + 1]) == Some(c));
        } else if (c as u32) < 0x20 {
            assert(s[pos] == '\\' && s[pos + 1] == 'u' && s[pos + 2] == '0' && s[pos + 3] == '0');
            let hi = c as u32 as int / 16;
            let lo = c as u32 as int % 16;
            lemma_hex_char_val(hi);
            lemma_hex_char_val(lo);
            assert(s[pos + 4] == hex_char(hi) && s[pos + 5] == hex_char(lo));
            assert(is_hex4(s, pos + 2));
            assert(hex_val('0') == 0);
            assert(hex4(s, pos + 2) == hi * 16 + lo);
            vstd::arithmetic::div_mod::lemma_fundamental_div_mod(c as u32 as int, 16);
            assert(hex4(s, pos + 2) == c as u32 as int);
            assert(is_scalar_val(c as u32 as int));
            vstd::utf8::char_u32_cast(c, c as u32);
            assert((c as u32) as char == c);
        } else {
            assert(e == seq![c]);
            assert(e[0] == c);
            assert(s[pos + 0] == e[0]);
            assert(s[pos] == c);
            assert(!((c as u32) < 0x20));
        }
        assert(sp_str_body(s, pos) == Some((seq![c] + t2, pos + bl + 1)));
        assert(seq![c] + t2 =~= t);
    }
}

/// Parsing a serialized string gives back exactly the original.
pub proof fn lemma_parse_ser_string(s: Seq<char>, pos: int, t: Seq<char>)
    requires
        0 <= pos,
        pos + ser_string(t).len() <= s.len(),
        s.subrange(pos, pos + ser_string(t).len() as int) == ser_string(t),
    ensures
        sp_string(s, pos) == Some((t, pos + ser_string(t).len())),
{
    let l = ser_string(t).len() as int;
    let bl = ser_str_body(t).len() as int;
    assert(ser_string(t) == seq!['"'] + ser_str_body(t) + seq!['"']);
    assert forall|k: int| 0 <= k < l implies s[pos + k] == ser_string(t)[k] by {
        assert(s.subrange(pos, pos + l)[k] == s[pos + k]);
    }
    assert(ser_string(t)[0] == '"');
    assert(s[pos] == '"');
    assert forall|k: int| 0 <= k < bl + 1 implies s.subrange(pos + 1, pos + 1 + bl + 1)[k] == (
    ser_str_body(t) + seq!['"'])[k] by {
        assert(s.subrange(pos + 1, pos + 1 + bl + 1)[k] == s[pos + 1 + k]);
        assert(s[pos + 1 + k] == ser_string(t)[1 + k]);
        assert(ser_string(t)[1 + k] == ((seq!['"'] + ser_str_body(t)) + seq!['"'])[1 + k]);
        if k < bl {
            assert(((seq!['"'] + ser_str_body(t)) + seq!['"'])[1 + k] == (seq!['"'] + ser_str_body(
                t,
            ))[1 + k]);
            assert((seq!['"'] + ser_str_body(t))[1 + k] == ser_str_body(t)[k]);
            assert((ser_str_body(t) + seq!['"'])[k] == ser_str_body(t)[k]);
        } else {
            assert(((seq!['"'] + ser_str_body(t)) + seq!['"'])[1 + k] == '"');
            assert((ser_str_body(t) + seq!['"'])[k] == '"');
        }
    }
    assert(s.subrange(pos + 1, pos + 1 + bl + 1) =~= ser_str_body(t) + seq!['"']);
    lemma_parse_ser_str_body(s, pos + 1, t);
}


// ---------------------------------------------------------------------
// Serialization: records and the document
// ---------------------------------------------------------------------

/// The canonical byte-array form: decimal values between brackets.
pub open spec fn ser_byte_rest(b: Seq<u8>) -> Seq<char>
    decreases b.len(),
{
    if b.len() == 0 {
        Seq::empty()
    } else {
        seq![','] + ser_nat(b[0] as nat) + ser_byte_rest(b.drop_first())
    }
}

pub open spec fn ser_bytes(b: Seq<u8>) -> Seq<char> {
    if b.len() == 0 {
        seq!['[', ']']
    } else {
        seq!['['] + ser_nat(b[0] as nat) + ser_byte_rest(b.drop_first()) + seq![']']
    }
}

pub open spec fn ser_alg(a: crate::totp::TotpAlgorithm) -> Seq<char> {
    match a {
        crate::totp::TotpAlgorithm::Sha1 => "\"SHA1\""@,
        crate::totp::TotpAlgorithm::Sha256 => "\"SHA256\""@,
        crate::totp::TotpAlgorithm::Sha512 => "\"SHA512\""@,
    }
}

/// One password record: name and secret text; the tombstone is never
/// persisted.
pub open spec fn ser_pass_rec(p: crate::store::PasswordView) -> Seq<char> {
    "{\"name\":"@ + ser_string(p.name) + ",\"password\":"@ + ser_string(p.password) + "}"@
}

/// The fixed tail of one TOTP record: the code parameters under the
/// data key.
pub open spec fn ser_totp_fields(t: crate::totp::TotpCodeView) -> Seq<char> {
    ",\"data\":{\"algorithm\":"@ + ser_alg(t.algorithm) + ",\"digits\":"@ + ser_nat(
        t.digits as nat,
    ) + ",\"skew\":"@ + ser_nat(t.skew as nat) + ",\"step\":"@ + ser_nat(t.step as nat)
        + ",\"secret\":"@ + ser_bytes(t.secret) + "}}"@
}

/// One TOTP record: name, the verbatim fallback text when one is kept,
/// and the code parameters; cache and tombstone are never persisted.
pub open spec fn ser_totp_rec(t: crate::totp::TotpCodeView) -> Seq<char> {
    "{\"name\":"@ + ser_string(t.name) + (match t.raw_secret {
        Some(raw) => ",\"raw_secret\":"@ + ser_string(raw),
        None => Seq::empty(),
    }) + ser_totp_fields(t)
}

pub open spec fn ser_pass_list_rest(l: Seq<crate::store::PasswordView>) -> Seq<char>
    decreases l.len(),
{
    if l.len() == 0 {
        Seq::empty()
    } else {
        seq![','] + ser_pass_rec(l[0]) + ser_pass_list_rest(l.drop_first())
    }
}

pub open spec fn ser_pass_list(l: Seq<crate::store::PasswordView>) -> Seq<char> {
    if l.len() == 0 {
        seq!['[', ']']
    } else {
        seq!['['] + ser_pass_rec(l[0]) + ser_pass_list_rest(l.drop_first()) + seq![']']
    }
}

pub open spec fn ser_totp_list_rest(l: Seq<crate::totp::TotpCodeView>) -> Seq<char>
    decreases l.len(),
{
    if l.len() == 0 {
        Seq::empty()
    } else {
        seq![','] + ser_totp_rec(l[0]) + ser_totp_list_rest(l.drop_first())
    }
}

pub open spec fn ser_totp_list(l: Seq<crate::totp::TotpCodeView>) -> Seq<char> {
    if l.len() == 0 {
        seq!['[', ']']
    } else {
        seq!['['] + ser_totp_rec(l[0]) + ser_totp_list_rest(l.drop_first()) + seq![']']
    }
}

/// The whole data file: both record lists and the theme index.
pub open spec fn ser_store(v: crate::store::PasswordsView) -> Seq<char> {
    "{\"pass\":"@ + ser_pass_list(v.pass) + ",\"totp\":"@ + ser_totp_list(v.totp)
        + ",\"ui_colour\":"@ + ser_nat(v.ui_colour as nat) + "}"@
}

/// Append every code point of a literal.
fn push_lit(out: &mut Vec<char>, lit: &str)
    ensures
        final(out)@ == old(out)@ + lit@,
{
    let l = crate::text::str_to_chars(lit);
    let mut i: usize = 0;
    while i < l.len()
        invariant
            i <= l@.len(),
            l@ == lit@,
            out@ == old(out)@ + l@.subrange(0, i as int),
        decreases l@.len() - i,
    {
        out.push(l[i]);
        proof {
            assert(out@ =~= old(out)@ + l@.subrange(0, i + 1));
        }
        i += 1;
    }
    proof {
        assert(l@.subrange(0, l@.len() as int) =~= l@);
    }
}

fn push_bytes(out: &mut Vec<char>, b: &Vec<u8>)
    ensures
        final(out)@ == old(out)@ + ser_bytes(b@),
{
    out.push('[');
    let mut i: usize = 0;
    while i < b.len()
        invariant
            i <= b@.len(),
            out@ == old(out)@ + seq!['['] + (if i == 0 {
                Seq::<char>::empty()
            } else {
                ser_nat(b@[0] as nat) + ser_byte_done(b@, i as int)
            }),
        decreases b@.len() - i,
    {
        if i > 0 {
            out.push(',');
        }
        push_u64(out, b[i] as u64);
        proof {
            if i == 0 {
                assert(ser_byte_done(b@, 1) == Seq::<char>::empty());
                assert(out@ =~= old(out)@ + seq!['['] + (ser_nat(b@[0] as nat) + ser_byte_done(
                    b@,
                    1,
                )));
            } else {
                assert(ser_byte_done(b@, i + 1) == ser_byte_done(b@, i as int) + seq![',']
                    + ser_nat(b@[i as int] as nat));
                assert(out@ =~= old(out)@ + seq!['['] + (ser_nat(b@[0] as nat) + ser_byte_done(
                    b@,
                    i + 1,
                )));
            }
        }
        i += 1;
    }
    out.push(']');
    proof {
        if b@.len() == 0 {
            assert(out@ =~= old(out)@ + ser_bytes(b@));
        } else {
            lemma_ser_byte_done_full(b@, b@.len() as int);
            assert(b@.subrange(b@.len() as int, b@.len() as int) =~= Seq::<u8>::empty());
            assert(ser_byte_rest(Seq::<u8>::empty()) == Seq::<char>::empty());
            assert(ser_byte_done(b@, b@.len() as int) + Seq::<char>::empty() =~= ser_byte_done(
                b@,
                b@.len() as int,
            ));
            assert(b@.subrange(1, b@.len() as int) =~= b@.drop_first());
            assert(ser_byte_done(b@, b@.len() as int) == ser_byte_rest(b@.drop_first()));
            assert(out@ =~= old(out)@ + ser_bytes(b@));
        }
    }
}

/// The serialized form of the bytes before `i`, each after the first
/// with its leading comma, the first value itself excluded.
pub open spec fn ser_byte_done(b: Seq<u8>, i: int) -> Seq<char>
    decreases i,
{
    if i <= 1 {
        Seq::empty()
    } else {
        ser_byte_done(b, i - 1) + seq![','] + ser_nat(b[i - 1] as nat)
    }
}

/// What has been written so far plus what remains is the whole rest
/// form.
proof fn lemma_ser_byte_done_full(b: Seq<u8>, i: int)
    requires
        1 <= i <= b.len(),
    ensures
        ser_byte_done(b, i) + ser_byte_rest(b.subrange(i, b.len() as int)) == ser_byte_rest(
            b.subrange(1, b.len() as int),
        ),
    decreases i,
{
    if i == 1 {
        assert(ser_byte_done(b, 1) + ser_byte_rest(b.subrange(1, b.len() as int)) =~= ser_byte_rest(
            b.subrange(1, b.len() as int),
        ));
    } else {
        lemma_ser_byte_done_full(b, i - 1);
        let sufp = b.subrange(i - 1, b.len() as int);
        assert(sufp[0] == b[i - 1]);
        assert(sufp.drop_first() =~= b.subrange(i, b.len() as int));
        assert(ser_byte_rest(sufp) == seq![','] + ser_nat(b[i - 1] as nat) + ser_byte_rest(
            b.subrange(i, b.len() as int),
        ));
        assert(ser_byte_done(b, i) + ser_byte_rest(b.subrange(i, b.len() as int)) =~= ser_byte_done(
            b,
            i - 1,
        ) + ser_byte_rest(sufp));
    }
}


/// Append one password record.
fn push_pass_rec(out: &mut Vec<char>, p: &crate::store::Password)
    ensures
        final(out)@ == old(out)@ + ser_pass_rec(p@),
{
    push_lit(out, "{\"name\":");
    push_string(out, &p.name);
    push_lit(out, ",\"password\":");
    push_string(out, &p.password);
    push_lit(out, "}");
    proof {
        assert(out@ =~= old(out)@ + ser_pass_rec(p@));
    }
}

/// Append one TOTP record.
#[verifier::rlimit(60)]
fn push_totp_rec(out: &mut Vec<char>, t: &crate::totp::TotpCode)
    ensures
        final(out)@ == old(out)@ + ser_totp_rec(t@),
{
    push_lit(out, "{\"name\":");
    push_string(out, &t.name);
    match &t.raw_secret {
        Some(raw) => {
            push_lit(out, ",\"raw_secret\":");
            push_string(out, raw);
        },
        None => {},
    }
    push_lit(out, ",\"data\":{\"algorithm\":");
    match t.algorithm {
        crate::totp::TotpAlgorithm::Sha1 => push_lit(out, "\"SHA1\""),
        crate::totp::TotpAlgorithm::Sha256 => push_lit(out, "\"SHA256\""),
        crate::totp::TotpAlgorithm::Sha512 => push_lit(out, "\"SHA512\""),
    }
    push_lit(out, ",\"digits\":");
    push_u64(out, t.digits as u64);
    push_lit(out, ",\"skew\":");
    push_u64(out, t.skew as u64);
    push_lit(out, ",\"step\":");
    push_u64(out, t.step);
    push_lit(out, ",\"secret\":");
    push_bytes(out, &t.secret);
    push_lit(out, "}}");
    proof {
        assert(out@ =~= old(out)@ + ser_totp_rec(t@));
    }
}

/// The serialized password records before `i`, each after the first
/// with its leading comma, the first record itself excluded.
pub open spec fn ser_pass_done(l: Seq<crate::store::PasswordView>, i: int) -> Seq<char>
    decreases i,
{
    if i <= 1 {
        Seq::empty()
    } else {
        ser_pass_done(l, i - 1) + seq![','] + ser_pass_rec(l[i - 1])
    }
}

proof fn lemma_ser_pass_done_full(l: Seq<crate::store::PasswordView>, i: int)
    requires
        1 <= i <= l.len(),
    ensures
        ser_pass_done(l, i) + ser_pass_list_rest(l.subrange(i, l.len() as int))
            == ser_pass_list_rest(l.subrange(1, l.len() as int)),
    decreases i,
{
    if i == 1 {
        assert(ser_pass_done(l, 1) + ser_pass_list_rest(l.subrange(1, l.len() as int))
            =~= ser_pass_list_rest(l.subrange(1, l.len() as int)));
    } else {
        lemma_ser_pass_done_full(l, i - 1);
        let sufp = l.subrange(i - 1, l.len() as int);
        assert(sufp[0] == l[i - 1]);
        assert(sufp.drop_first() =~= l.subrange(i, l.len() as int));
        assert(ser_pass_list_rest(sufp) == seq![','] + ser_pass_rec(l[i - 1]) + ser_pass_list_rest(
            l.subrange(i, l.len() as int),
        ));
        assert(ser_pass_done(l, i) + ser_pass_list_rest(l.subrange(i, l.len() as int))
            =~= ser_pass_done(l, i - 1) + ser_pass_list_rest(sufp));
    }
}

fn push_pass_list(out: &mut Vec<char>, l: &Vec<crate::store::Password>)
    ensures
        final(out)@ == old(out)@ + ser_pass_list(
            Seq::new(l@.len(), |k: int| l@[k]@),
        ),
{
    let ghost lv = Seq::new(l@.len(), |k: int| l@[k]@);
    out.push('[');
    let mut i: usize = 0;
    while i < l.len()
        invariant
            i <= l@.len(),
            lv == Seq::new(l@.len(), |k: int| l@[k]@),
            out@ == old(out)@ + seq!['['] + (if i == 0 {
                Seq::<char>::empty()
            } else {
                ser_pass_rec(lv[0]) + ser_pass_done(lv, i as int)
            }),
        decreases l@.len() - i,
    {
        if i > 0 {
            out.push(',');
        }
        push_pass_rec(out, &l[i]);
        proof {
            assert(l@[i as int]@ == lv[i as int]);
            if i == 0 {
                assert(ser_pass_done(lv, 1) == Seq::<char>::empty());
                assert(out@ =~= old(out)@ + seq!['['] + (ser_pass_rec(lv[0]) + ser_pass_done(
                    lv,
                    1,
                )));
            } else {
                assert(ser_pass_done(lv, i + 1) == ser_pass_done(lv, i as int) + seq![',']
                    + ser_pass_rec(lv[i as int]));
                assert(out@ =~= old(out)@ + seq!['['] + (ser_pass_rec(lv[0]) + ser_pass_done(
                    lv,
                    i + 1,
                )));
            }
        }
        i += 1;
    }
    out.push(']');
    proof {
        if lv.len() == 0 {
            assert(out@ =~= old(out)@ + ser_pass_list(lv));
        } else {
            lemma_ser_pass_done_full(lv, lv.len() as int);
            assert(lv.subrange(lv.len() as int, lv.len() as int)
                =~= Seq::<crate::store::PasswordView>::empty());
            assert(ser_pass_list_rest(Seq::<crate::store::PasswordView>::empty())
                == Seq::<char>::empty());
            assert(ser_pass_done(lv, lv.len() as int) + Seq::<char>::empty() =~= ser_pass_done(
                lv,
                lv.len() as int,
            ));
            assert(lv.subrange(1, lv.len() as int) =~= lv.drop_first());
            assert(ser_pass_done(lv, lv.len() as int) == ser_pass_list_rest(lv.drop_first()));
            assert(out@ =~= old(out)@ + ser_pass_list(lv));
        }
    }
}

/// The serialized TOTP records before `i`, as for passwords.
pub open spec fn ser_totp_done(l: Seq<crate::totp::TotpCodeView>, i: int) -> Seq<char>
    decreases i,
{
    if i <= 1 {
        Seq::empty()
    } else {
        ser_totp_done(l, i - 1) + seq![','] + ser_totp_rec(l[i - 1])
    }
}

proof fn lemma_ser_totp_done_full(l: Seq<crate::totp::TotpCodeView>, i: int)
    requires
        1 <= i <= l.len(),
    ensures
        ser_totp_done(l, i) + ser_totp_list_rest(l.subrange(i, l.len() as int))
            == ser_totp_list_rest(l.subrange(1, l.len() as int)),
    decreases i,
{
    if i == 1 {
        assert(ser_totp_done(l, 1) + ser_totp_list_rest(l.subrange(1, l.len() as int))
            =~= ser_totp_list_rest(l.subrange(1, l.len() as int)));
    } else {
        lemma_ser_totp_done_full(l, i - 1);
        let sufp = l.subrange(i - 1, l.len() as int);
        assert(sufp[0] == l[i - 1]);
        assert(sufp.drop_first() =~= l.subrange(i, l.len() as int));
        assert(ser_totp_list_rest(sufp) == seq![','] + ser_totp_rec(l[i - 1]) + ser_totp_list_rest(
            l.subrange(i, l.len() as int),
        ));
        assert(ser_totp_done(l, i) + ser_totp_list_rest(l.subrange(i, l.len() as int))
            =~= ser_totp_done(l, i - 1) + ser_totp_list_rest(sufp));
    }
}

#[verifier::rlimit(60)]
fn push_totp_list(out: &mut Vec<char>, l: &Vec<crate::totp::TotpCode>)
    ensures
        final(out)@ == old(out)@ + ser_totp_list(
            Seq::new(l@.len(), |k: int| l@[k]@),
        ),
{
    let ghost lv = Seq::new(l@.len(), |k: int| l@[k]@);
    out.push('[');
    let mut i: usize = 0;
    while i < l.len()
        invariant
            i <= l@.len(),
            lv == Seq::new(l@.len(), |k: int| l@[k]@),
            out@ == old(out)@ + seq!['['] + (if i == 0 {
                Seq::<char>::empty()
            } else {
                ser_totp_rec(lv[0]) + ser_totp_done(lv, i as int)
            }),
        decreases l@.len() - i,
    {
        if i > 0 {
            out.push(',');
        }
        push_totp_rec(out, &l[i]);
        proof {
            assert(l@[i as int]@ == lv[i as int]);
            if i == 0 {
                assert(ser_totp_done(lv, 1) == Seq::<char>::empty());
                assert(out@ =~= old(out)@ + seq!['['] + (ser_totp_rec(lv[0]) + ser_totp_done(
                    lv,
                    1,
                )));
            } else {
                assert(ser_totp_done(lv, i + 1) == ser_totp_done(lv, i as int) + seq![',']
                    + ser_totp_rec(lv[i as int]));
                assert(out@ =~= old(out)@ + seq!['['] + (ser_totp_rec(lv[0]) + ser_totp_done(
                    lv,
                    i + 1,
                )));
            }
        }
        i += 1;
    }
    out.push(']');
    proof {
        if lv.len() == 0 {
            assert(out@ =~= old(out)@ + ser_totp_list(lv));
        } else {
            lemma_ser_totp_done_full(lv, lv.len() as int);
            assert(lv.subrange(lv.len() as int, lv.len() as int)
                =~= Seq::<crate::totp::TotpCodeView>::empty());
            assert(ser_totp_list_rest(Seq::<crate::totp::TotpCodeView>::empty())
                == Seq::<char>::empty());
            assert(ser_totp_done(lv, lv.len() as int) + Seq::<char>::empty() =~= ser_totp_done(
                lv,
                lv.len() as int,
            ));
            assert(lv.subrange(1, lv.len() as int) =~= lv.drop_first());
            assert(ser_totp_done(lv, lv.len() as int) == ser_totp_list_rest(lv.drop_first()));
            assert(out@ =~= old(out)@ + ser_totp_list(lv));
        }
    }
}

/// The whole data file as code points, in the one canonical form.
pub fn serialize_store(store: &crate::store::Passwords) -> (r: Vec<char>)
    ensures
        r@ == ser_store(store@),
{
    let mut out: Vec<char> = Vec::new();
    push_lit(&mut out, "{\"pass\":");
    push_pass_list(&mut out, &store.pass);
    push_lit(&mut out, ",\"totp\":");
    push_totp_list(&mut out, &store.totp);
    push_lit(&mut out, ",\"ui_colour\":");
    push_u64(&mut out, store.ui_colour as u64);
    push_lit(&mut out, "}");
    proof {
        assert(out@ =~= ser_store(store@));
    }
    out
}


// ---------------------------------------------------------------------
// Parsing: records and the document
// ---------------------------------------------------------------------

/// A fixed literal at `pos`.
pub open spec fn sp_lit(s: Seq<char>, pos: int, lit: Seq<char>) -> Option<int> {
    if 0 <= pos && pos + lit.len() <= s.len() && s.subrange(pos, pos + lit.len() as int) == lit {
        Some(pos + lit.len() as int)
    } else {
        None
    }
}

/// Match a fixed literal at `pos`.
fn expect_str(s: &Vec<char>, pos: usize, lit: &str) -> (r: Option<usize>)
    requires
        pos <= s@.len(),
    ensures
        match r {
            Some(end) => sp_lit(s@, pos as int, lit@) == Some(end as int) && pos <= end
                <= s@.len(),
            None => sp_lit(s@, pos as int, lit@) is None,
        },
{
    let l = crate::text::str_to_chars(lit);
    if s.len() - pos < l.len() {
        return None;
    }
    let sn = s.len();
    let n = l.len();
    let mut k: usize = 0;
    while k < n
        invariant
            k <= n,
            n == l@.len(),
            l@ == lit@,
            sn == s@.len(),
            pos + n <= sn,
            forall|j: int| 0 <= j < k ==> s@[pos + j] == l@[j],
        decreases n - k,
    {
        if s[pos + k] != l[k] {
            proof {
                if s@.subrange(pos as int, pos + n) == lit@ {
                    assert(s@.subrange(pos as int, pos + n)[k as int] == lit@[k as int]);
                }
            }
            return None;
        }
        k += 1;
    }
    proof {
        assert(s@.subrange(pos as int, pos + n) =~= lit@);
    }
    Some(pos + n)
}

/// The remaining byte values of an array, the opening bracket and first
/// value already read.
pub open spec fn sp_byte_rest(s: Seq<char>, pos: int, acc: Seq<u8>) -> Option<(Seq<u8>, int)>
    decreases s.len() - pos,
{
    if pos < 0 || pos >= s.len() {
        None
    } else if s[pos] == ']' {
        Some((acc, pos + 1))
    } else if s[pos] == ',' {
        match sp_u64(s, pos + 1) {
            Some((v, end)) => if v <= 255 && pos + 1 < end <= s.len() {
                sp_byte_rest(s, end, acc.push(v as u8))
            } else {
                None
            },
            None => None,
        }
    } else {
        None
    }
}

/// A JSON array of byte values.
pub open spec fn sp_bytes(s: Seq<char>, pos: int) -> Option<(Seq<u8>, int)> {
    if !(0 <= pos < s.len()) || s[pos] != '[' {
        None
    } else if pos + 1 < s.len() && s[pos + 1] == ']' {
        Some((Seq::empty(), pos + 2))
    } else {
        match sp_u64(s, pos + 1) {
            Some((v, end)) => if v <= 255 && pos + 1 < end <= s.len() {
                sp_byte_rest(s, end, seq![v as u8])
            } else {
                None
            },
            None => None,
        }
    }
}

/// Read a JSON array of byte values.
pub fn parse_bytes(s: &Vec<char>, pos: usize) -> (r: Option<(Vec<u8>, usize)>)
    requires
        pos <= s@.len(),
    ensures
        match r {
            Some((b, end)) => sp_bytes(s@, pos as int) == Some((b@, end as int)) && pos < end
                <= s@.len(),
            None => sp_bytes(s@, pos as int) is None,
        },
{
    if pos >= s.len() || s[pos] != '[' {
        return None;
    }
    if pos + 1 < s.len() && s[pos + 1] == ']' {
        return Some((Vec::new(), pos + 2));
    }
    let (v0, mut i) = match parse_u64(s, pos + 1) {
        Some((v, end)) => (v, end),
        None => {
            return None;
        },
    };
    if v0 > 255 {
        return None;
    }
    let mut acc: Vec<u8> = Vec::new();
    acc.push(v0 as u8);
    proof {
        assert(acc@ =~= seq![v0 as u8]);
    }
    loop
        invariant
            pos + 1 < i <= s@.len(),
            sp_bytes(s@, pos as int) == sp_byte_rest(s@, i as int, acc@),
        decreases s@.len() - i,
    {
        if i >= s.len() {
            return None;
        }
        if s[i] == ']' {
            return Some((acc, i + 1));
        }
        if s[i] != ',' {
            return None;
        }
        let (v, end) = match parse_u64(s, i + 1) {
            Some((v, end)) => (v, end),
            None => {
                return None;
            },
        };
        if v > 255 {
            return None;
        }
        acc.push(v as u8);
        i = end;
    }
}

/// The algorithm name, in quotes.
pub open spec fn sp_alg(s: Seq<char>, pos: int) -> Option<(crate::totp::TotpAlgorithm, int)> {
    if sp_lit(s, pos, "\"SHA1\""@) is Some {
        Some((crate::totp::TotpAlgorithm::Sha1, sp_lit(s, pos, "\"SHA1\""@)->Some_0))
    } else if sp_lit(s, pos, "\"SHA256\""@) is Some {
        Some((crate::totp::TotpAlgorithm::Sha256, sp_lit(s, pos, "\"SHA256\""@)->Some_0))
    } else if sp_lit(s, pos, "\"SHA512\""@) is Some {
        Some((crate::totp::TotpAlgorithm::Sha512, sp_lit(s, pos, "\"SHA512\""@)->Some_0))
    } else {
        None
    }
}

fn parse_alg(s: &Vec<char>, pos: usize) -> (r: Option<(crate::totp::TotpAlgorithm, usize)>)
    requires
        pos <= s@.len(),
    ensures
        match r {
            Some((a, end)) => sp_alg(s@, pos as int) == Some((a, end as int)) && pos <= end
                <= s@.len(),
            None => sp_alg(s@, pos as int) is None,
        },
{
    if let Some(end) = expect_str(s, pos, "\"SHA1\"") {
        return Some((crate::totp::TotpAlgorithm::Sha1, end));
    }
    if let Some(end) = expect_str(s, pos, "\"SHA256\"") {
        return Some((crate::totp::TotpAlgorithm::Sha256, end));
    }
    if let Some(end) = expect_str(s, pos, "\"SHA512\"") {
        return Some((crate::totp::TotpAlgorithm::Sha512, end));
    }
    None
}

/// One password record; the parsed record carries no tombstone.
pub open spec fn sp_pass_rec(s: Seq<char>, pos: int) -> Option<(crate::store::PasswordView, int)> {
    match sp_lit(s, pos, "{\"name\":"@) {
        Some(p1) => match sp_string(s, p1) {
            Some((name, p2)) => match sp_lit(s, p2, ",\"password\":"@) {
                Some(p3) => match sp_string(s, p3) {
                    Some((password, p4)) => if p4 < s.len() && s[p4] == '}' {
                        Some(
                            (
                                crate::store::PasswordView { name, password, delete: false },
                                p4 + 1,
                            ),
                        )
                    } else {
                        None
                    },
                    None => None,
                },
                None => None,
            },
            None => None,
        },
        None => None,
    }
}

pub fn parse_pass_rec(s: &Vec<char>, pos: usize) -> (r: Option<(crate::store::Password, usize)>)
    requires
        pos <= s@.len(),
    ensures
        match r {
            Some((p, end)) => sp_pass_rec(s@, pos as int) == Some((p@, end as int)) && pos < end
                <= s@.len(),
            None => sp_pass_rec(s@, pos as int) is None,
        },
{
    let p1 = match expect_str(s, pos, "{\"name\":") {
        Some(p) => p,
        None => {
            return None;
        },
    };
    let (name, p2) = match parse_string(s, p1) {
        Some(r) => r,
        None => {
            return None;
        },
    };
    let p3 = match expect_str(s, p2, ",\"password\":") {
        Some(p) => p,
        None => {
            return None;
        },
    };
    let (password, p4) = match parse_string(s, p3) {
        Some(r) => r,
        None => {
            return None;
        },
    };
    if p4 < s.len() && s[p4] == '}' {
        Some((crate::store::Password { name, password, delete: false }, p4 + 1))
    } else {
        None
    }
}

/// One TOTP record; the parsed record carries no cache and no tombstone.
pub open spec fn sp_totp_rec(s: Seq<char>, pos: int) -> Option<(crate::totp::TotpCodeView, int)> {
    match sp_lit(s, pos, "{\"name\":"@) {
        Some(p1) => match sp_string(s, p1) {
            Some((name, p2)) => {
                let (raw_secret, p3) = (match sp_lit(s, p2, ",\"raw_secret\":"@) {
                    Some(q1) => match sp_string(s, q1) {
                        Some((raw, q2)) => (Some(Some(raw)), q2),
                        None => (None, p2),
                    },
                    None => (Some(None), p2),
                });
                if raw_secret is None {
                    None
                } else {
                    let raw = raw_secret->Some_0;
                    match sp_lit(s, p3, ",\"data\":{\"algorithm\":"@) {
                        Some(p4) => match sp_alg(s, p4) {
                            Some((algorithm, p5)) => match sp_lit(s, p5, ",\"digits\":"@) {
                                Some(p6) => match sp_u64(s, p6) {
                                    Some((digits, p7)) => if digits <= usize::MAX {
                                        match sp_lit(s, p7, ",\"skew\":"@) {
                                            Some(p8) => match sp_u64(s, p8) {
                                                Some((skew, p9)) => if skew <= 255 {
                                                    match sp_lit(s, p9, ",\"step\":"@) {
                                                        Some(p10) => match sp_u64(s, p10) {
                                                            Some((step, p11)) => match sp_lit(
                                                                s,
                                                                p11,
                                                                ",\"secret\":"@,
                                                            ) {
                                                                Some(p12) => match sp_bytes(
                                                                    s,
                                                                    p12,
                                                                ) {
                                                                    Some((secret, p13)) => match sp_lit(
                                                                        s,
                                                                        p13,
                                                                        "}}"@,
                                                                    ) {
                                                                        Some(p14) => Some(
                                                                            (
                                                                                crate::totp::TotpCodeView {
                                                                                    name,
                                                                                    raw_secret: raw,
                                                                                    algorithm,
                                                                                    digits: digits as usize,
                                                                                    skew: skew as u8,
                                                                                    step,
                                                                                    secret,
                                                                                    cached_codes: None,
                                                                                    delete: false,
                                                                                },
                                                                                p14,
                                                                            ),
                                                                        ),
                                                                        None => None,
                                                                    },
                                                                    None => None,
                                                                },
                                                                None => None,
                                                            },
                                                            None => None,
                                                        },
                                                        None => None,
                                                    }
                                                } else {
                                                    None
                                                },
                                                None => None,
                                            },
                                            None => None,
                                        }
                                    } else {
                                        None
                                    },
                                    None => None,
                                },
                                None => None,
                            },
                            None => None,
                        },
                        None => None,
                    }
                }
            },
            None => None,
        },
        None => None,
    }
}

pub fn parse_totp_rec(s: &Vec<char>, pos: usize) -> (r: Option<(crate::totp::TotpCode, usize)>)
    requires
        pos <= s@.len(),
    ensures
        match r {
            Some((t, end)) => sp_totp_rec(s@, pos as int) == Some((t@, end as int)) && pos < end
                <= s@.len(),
            None => sp_totp_rec(s@, pos as int) is None,
        },
{
    let p1 = match expect_str(s, pos, "{\"name\":") {
        Some(p) => p,
        None => {
            return None;
        },
    };
    let (name, p2) = match parse_string(s, p1) {
        Some(r) => r,
        None => {
            return None;
        },
    };
    let mut raw_secret: Option<Vec<char>> = None;
    let mut p3: usize = p2;
    match expect_str(s, p2, ",\"raw_secret\":") {
        Some(q1) => {
            match parse_string(s, q1) {
                Some((raw, q2)) => {
                    raw_secret = Some(raw);
                    p3 = q2;
                },
                None => {
                    return None;
                },
            }
        },
        None => {},
    }
    let p4 = match expect_str(s, p3, ",\"data\":{\"algorithm\":") {
        Some(p) => p,
        None => {
            return None;
        },
    };
    let (algorithm, p5) = match parse_alg(s, p4) {
        Some(r) => r,
        None => {
            return None;
        },
    };
    let p6 = match expect_str(s, p5, ",\"digits\":") {
        Some(p) => p,
        None => {
            return None;
        },
    };
    let (digits, p7) = match parse_u64(s, p6) {
        Some(r) => r,
        None => {
            return None;
        },
    };
    if digits > usize::MAX as u64 {
        return None;
    }
    let p8 = match expect_str(s, p7, ",\"skew\":") {
        Some(p) => p,
        None => {
            return None;
        },
    };
    let (skew, p9) = match parse_u64(s, p8) {
        Some(r) => r,
        None => {
            return None;
        },
    };
    if skew > 255 {
        return None;
    }
    let p10 = match expect_str(s, p9, ",\"step\":") {
        Some(p) => p,
        None => {
            return None;
        },
    };
    let (step, p11) = match parse_u64(s, p10) {
        Some(r) => r,
        None => {
            return None;
        },
    };
    let p12 = match expect_str(s, p11, ",\"secret\":") {
        Some(p) => p,
        None => {
            return None;
        },
    };
    let (secret, p13) = match parse_bytes(s, p12) {
        Some(r) => r,
        None => {
            return None;
        },
    };
    let p14 = match expect_str(s, p13, "}}") {
        Some(p) => p,
        None => {
            return None;
        },
    };
    Some(
        (
            crate::totp::TotpCode {
                name,
                raw_secret,
                algorithm,
                digits: digits as usize,
                skew: skew as u8,
                step,
                secret,
                cached_codes: None,
                delete: false,
            },
            p14,
        ),
    )
}


/// The remaining password records of a list, the bracket and first
/// record already read.
pub open spec fn sp_pass_rest(s: Seq<char>, pos: int, acc: Seq<crate::store::PasswordView>) -> Option<
    (Seq<crate::store::PasswordView>, int),
>
    decreases s.len() - pos,
{
    if pos < 0 || pos >= s.len() {
        None
    } else if s[pos] == ']' {
        Some((acc, pos + 1))
    } else if s[pos] == ',' {
        match sp_pass_rec(s, pos + 1) {
            Some((v, end)) => if pos + 1 < end <= s.len() {
                sp_pass_rest(s, end, acc.push(v))
            } else {
                None
            },
            None => None,
        }
    } else {
        None
    }
}

pub open spec fn sp_pass_list(s: Seq<char>, pos: int) -> Option<
    (Seq<crate::store::PasswordView>, int),
> {
    if !(0 <= pos < s.len()) || s[pos] != '[' {
        None
    } else if pos + 1 < s.len() && s[pos + 1] == ']' {
        Some((Seq::empty(), pos + 2))
    } else {
        match sp_pass_rec(s, pos + 1) {
            Some((v, end)) => if pos + 1 < end <= s.len() {
                sp_pass_rest(s, end, seq![v])
            } else {
                None
            },
            None => None,
        }
    }
}

pub fn parse_pass_list(s: &Vec<char>, pos: usize) -> (r: Option<
    (Vec<crate::store::Password>, usize),
>)
    requires
        pos <= s@.len(),
    ensures
        match r {
            Some((l, end)) => sp_pass_list(s@, pos as int) == Some(
                (Seq::new(l@.len(), |k: int| l@[k]@), end as int),
            ) && pos < end <= s@.len(),
            None => sp_pass_list(s@, pos as int) is None,
        },
{
    if pos >= s.len() || s[pos] != '[' {
        return None;
    }
    if pos + 1 < s.len() && s[pos + 1] == ']' {
        let empty: Vec<crate::store::Password> = Vec::new();
        proof {
            assert(Seq::new(0, |k: int| empty@[k]@) =~= Seq::<crate::store::PasswordView>::empty());
        }
        return Some((empty, pos + 2));
    }
    let (v0, mut i) = match parse_pass_rec(s, pos + 1) {
        Some(r) => r,
        None => {
            return None;
        },
    };
    let mut acc: Vec<crate::store::Password> = Vec::new();
    let ghost v0view = v0@;
    acc.push(v0);
    proof {
        assert(Seq::new(acc@.len(), |k: int| acc@[k]@) =~= seq![v0view]);
    }
    loop
        invariant
            pos + 1 < i <= s@.len(),
            sp_pass_list(s@, pos as int) == sp_pass_rest(
                s@,
                i as int,
                Seq::new(acc@.len(), |k: int| acc@[k]@),
            ),
        decreases s@.len() - i,
    {
        if i >= s.len() {
            return None;
        }
        if s[i] == ']' {
            return Some((acc, i + 1));
        }
        if s[i] != ',' {
            return None;
        }
        let (v, end) = match parse_pass_rec(s, i + 1) {
            Some(r) => r,
            None => {
                return None;
            },
        };
        let ghost before = Seq::new(acc@.len(), |k: int| acc@[k]@);
        let ghost vview = v@;
        acc.push(v);
        proof {
            assert(Seq::new(acc@.len(), |k: int| acc@[k]@) =~= before.push(vview));
        }
        i = end;
    }
}

/// The remaining TOTP records of a list.
pub open spec fn sp_totp_rest(s: Seq<char>, pos: int, acc: Seq<crate::totp::TotpCodeView>) -> Option<
    (Seq<crate::totp::TotpCodeView>, int),
>
    decreases s.len() - pos,
{
    if pos < 0 || pos >= s.len() {
        None
    } else if s[pos] == ']' {
        Some((acc, pos + 1))
    } else if s[pos] == ',' {
        match sp_totp_rec(s, pos + 1) {
            Some((v, end)) => if pos + 1 < end <= s.len() {
                sp_totp_rest(s, end, acc.push(v))
            } else {
                None
            },
            None => None,
        }
    } else {
        None
    }
}

pub open spec fn sp_totp_list(s: Seq<char>, pos: int) -> Option<
    (Seq<crate::totp::TotpCodeView>, int),
> {
    if !(0 <= pos < s.len()) || s[pos] != '[' {
        None
    } else if pos + 1 < s.len() && s[pos + 1] == ']' {
        Some((Seq::empty(), pos + 2))
    } else {
        match sp_totp_rec(s, pos + 1) {
            Some((v, end)) => if pos + 1 < end <= s.len() {
                sp_totp_rest(s, end, seq![v])
            } else {
                None
            },
            None => None,
        }
    }
}

pub fn parse_totp_list(s: &Vec<char>, pos: usize) -> (r: Option<
    (Vec<crate::totp::TotpCode>, usize),
>)
    requires
        pos <= s@.len(),
    ensures
        match r {
            Some((l, end)) => sp_totp_list(s@, pos as int) == Some(
                (Seq::new(l@.len(), |k: int| l@[k]@), end as int),
            ) && pos < end <= s@.len(),
            None => sp_totp_list(s@, pos as int) is None,
        },
{
    if pos >= s.len() || s[pos] != '[' {
        return None;
    }
    if pos + 1 < s.len() && s[pos + 1] == ']' {
        let empty: Vec<crate::totp::TotpCode> = Vec::new();
        proof {
            assert(Seq::new(0, |k: int| empty@[k]@) =~= Seq::<crate::totp::TotpCodeView>::empty());
        }
        return Some((empty, pos + 2));
    }
    let (v0, mut i) = match parse_totp_rec(s, pos + 1) {
        Some(r) => r,
        None => {
            return None;
        },
    };
    let mut acc: Vec<crate::totp::TotpCode> = Vec::new();
    let ghost v0view = v0@;
    acc.push(v0);
    proof {
        assert(Seq::new(acc@.len(), |k: int| acc@[k]@) =~= seq![v0view]);
    }
    loop
        invariant
            pos + 1 < i <= s@.len(),
            sp_totp_list(s@, pos as int) == sp_totp_rest(
                s@,
                i as int,
                Seq::new(acc@.len(), |k: int| acc@[k]@),
            ),
        decreases s@.len() - i,
    {
        if i >= s.len() {
            return None;
        }
        if s[i] == ']' {
            return Some((acc, i + 1));
        }
        if s[i] != ',' {
            return None;
        }
        let (v, end) = match parse_totp_rec(s, i + 1) {
            Some(r) => r,
            None => {
                return None;
            },
        };
        let ghost before = Seq::new(acc@.len(), |k: int| acc@[k]@);
        let ghost vview = v@;
        acc.push(v);
        proof {
            assert(Seq::new(acc@.len(), |k: int| acc@[k]@) =~= before.push(vview));
        }
        i = end;
    }
}

/// The whole document: both lists, then the theme index, which an older
/// file may omit (it then defaults to zero). The document must span the
/// whole input.
pub open spec fn sp_store(s: Seq<char>) -> Option<crate::store::PasswordsView> {
    match sp_lit(s, 0, "{\"pass\":"@) {
        Some(p1) => match sp_pass_list(s, p1) {
            Some((pass, p2)) => match sp_lit(s, p2, ",\"totp\":"@) {
                Some(p3) => match sp_totp_list(s, p3) {
                    Some((totp, p4)) => if p4 < s.len() && s[p4] == '}' && p4 + 1 == s.len() {
                        Some(crate::store::PasswordsView { pass, totp, ui_colour: 0 })
                    } else {
                        match sp_lit(s, p4, ",\"ui_colour\":"@) {
                            Some(p5) => match sp_u64(s, p5) {
                                Some((ui, p6)) => if ui <= usize::MAX && p6 < s.len() && s[p6]
                                    == '}' && p6 + 1 == s.len() {
                                    Some(
                                        crate::store::PasswordsView {
                                            pass,
                                            totp,
                                            ui_colour: ui as usize,
                                        },
                                    )
                                } else {
                                    None
                                },
                                None => None,
                            },
                            None => None,
                        }
                    },
                    None => None,
                },
                None => None,
            },
            None => None,
        },
        None => None,
    }
}

/// Read a whole data file from its code points.
pub fn parse_store(s: &Vec<char>) -> (r: Option<crate::store::Passwords>)
    ensures
        match r {
            Some(st) => sp_store(s@) == Some(st@),
            None => sp_store(s@) is None,
        },
{
    let p1 = match expect_str(s, 0, "{\"pass\":") {
        Some(p) => p,
        None => {
            return None;
        },
    };
    let (pass, p2) = match parse_pass_list(s, p1) {
        Some(r) => r,
        None => {
            return None;
        },
    };
    let p3 = match expect_str(s, p2, ",\"totp\":") {
        Some(p) => p,
        None => {
            return None;
        },
    };
    let (totp, p4) = match parse_totp_list(s, p3) {
        Some(r) => r,
        None => {
            return None;
        },
    };
    if p4 < s.len() && s[p4] == '}' && p4 + 1 == s.len() {
        let st = crate::store::Passwords { pass, totp, ui_colour: 0 };
        proof {
            assert(st@ =~= sp_store(s@)->Some_0);
        }
        return Some(st);
    }
    let p5 = match expect_str(s, p4, ",\"ui_colour\":") {
        Some(p) => p,
        None => {
            return None;
        },
    };
    let (ui, p6) = match parse_u64(s, p5) {
        Some(r) => r,
        None => {
            return None;
        },
    };
    if ui > usize::MAX as u64 {
        return None;
    }
    if p6 < s.len() && s[p6] == '}' && p6 + 1 == s.len() {
        let st = crate::store::Passwords { pass, totp, ui_colour: ui as usize };
        proof {
            assert(st@ =~= sp_store(s@)->Some_0);
        }
        Some(st)
    } else {
        None
    }
}


// ---------------------------------------------------------------------
// Round trip: records and the document
// ---------------------------------------------------------------------

/// A window of a window of `s` is a window of `s`.
proof fn lemma_sub_part(s: Seq<char>, pos: int, w: Seq<char>, off: int, part: Seq<char>)
    requires
        0 <= pos,
        pos + w.len() <= s.len(),
        s.subrange(pos, pos + w.len() as int) == w,
        0 <= off,
        off + part.len() <= w.len(),
        w.subrange(off, off + part.len() as int) == part,
    ensures
        s.subrange(pos + off, pos + off + part.len() as int) == part,
{
    assert forall|k: int|
        0 <= k < part.len() implies s.subrange(pos + off, pos + off + part.len() as int)[k]
        == part[k] by {
        assert(s.subrange(pos + off, pos + off + part.len() as int)[k] == s[pos + off + k]);
        assert(s.subrange(pos, pos + w.len() as int)[off + k] == s[pos + off + k]);
        assert(w.subrange(off, off + part.len() as int)[k] == w[off + k]);
    }
    assert(s.subrange(pos + off, pos + off + part.len() as int) =~= part);
}

/// The character of `s` behind a known window character.
proof fn lemma_char_at(s: Seq<char>, pos: int, w: Seq<char>, off: int, c: char)
    requires
        0 <= pos,
        pos + w.len() <= s.len(),
        s.subrange(pos, pos + w.len() as int) == w,
        0 <= off < w.len(),
        w[off] == c,
    ensures
        s[pos + off] == c,
{
    assert(s.subrange(pos, pos + w.len() as int)[off] == s[pos + off]);
}

/// Parsing the serialized rest of a byte array appends exactly the
/// remaining bytes.
proof fn lemma_parse_ser_byte_rest(s: Seq<char>, pos: int, b: Seq<u8>, acc: Seq<u8>)
    requires
        0 <= pos,
        pos + ser_byte_rest(b).len() + 1 <= s.len(),
        s.subrange(pos, pos + ser_byte_rest(b).len() + 1) == ser_byte_rest(b) + seq![']'],
    ensures
        sp_byte_rest(s, pos, acc) == Some((acc + b, pos + ser_byte_rest(b).len() + 1)),
    decreases b.len(),
{
    let w = ser_byte_rest(b) + seq![']'];
    if b.len() == 0 {
        lemma_char_at(s, pos, w, 0, ']');
        assert(acc + b =~= acc);
    } else {
        let num = ser_nat(b[0] as nat);
        let rest = ser_byte_rest(b.drop_first());
        assert(ser_byte_rest(b) == seq![','] + num + rest);
        lemma_ser_nat_digits(b[0] as nat);
        assert(w[0] == ',');
        lemma_char_at(s, pos, w, 0, ',');
        assert(s[pos] != ']') by {
            assert(!is_digit(']') && ']' != ',');
        }
        assert(w.subrange(1, 1 + num.len() as int) =~= num);
        lemma_sub_part(s, pos, w, 1, num);
        let dend = pos + 1 + num.len() as int;
        let after = w[1 + num.len() as int];
        assert(after == (if rest.len() == 0 {
            ']'
        } else {
            ','
        })) by {
            if rest.len() == 0 {
            } else {
                assert(rest == seq![','] + ser_nat(b.drop_first()[0] as nat) + ser_byte_rest(
                    b.drop_first().drop_first(),
                ));
                assert(rest[0] == ',');
            }
        }
        lemma_char_at(s, pos, w, 1 + num.len() as int, after);
        assert(!is_digit(s[dend]));
        lemma_parse_ser_u64(s, pos + 1, b[0] as u64);
        assert(sp_u64(s, pos + 1) == Some((b[0] as u64, dend)));
        assert(w.subrange(1 + num.len() as int, w.len() as int) =~= rest + seq![']']);
        lemma_sub_part(s, pos, w, 1 + num.len() as int, rest + seq![']']);
        lemma_parse_ser_byte_rest(s, dend, b.drop_first(), acc.push(b[0]));
        assert(acc.push(b[0]) + b.drop_first() =~= acc + b);
        assert(sp_byte_rest(s, pos, acc) == sp_byte_rest(s, dend, acc.push(b[0])));
    }
}

/// Parsing a serialized byte array gives back exactly the bytes.
proof fn lemma_parse_ser_bytes(s: Seq<char>, pos: int, b: Seq<u8>)
    requires
        0 <= pos,
        pos + ser_bytes(b).len() <= s.len(),
        s.subrange(pos, pos + ser_bytes(b).len() as int) == ser_bytes(b),
    ensures
        sp_bytes(s, pos) == Some((b, pos + ser_bytes(b).len())),
{
    let w = ser_bytes(b);
    if b.len() == 0 {
        lemma_char_at(s, pos, w, 0, '[');
        lemma_char_at(s, pos, w, 1, ']');
        assert(sp_bytes(s, pos) == Some((Seq::<u8>::empty(), pos + 2)));
        assert(b =~= Seq::<u8>::empty());
    } else {
        let num = ser_nat(b[0] as nat);
        let rest = ser_byte_rest(b.drop_first());
        assert(w == seq!['['] + num + rest + seq![']']);
        lemma_char_at(s, pos, w, 0, '[');
        lemma_ser_nat_digits(b[0] as nat);
        assert(w[1] == num[0]);
        lemma_char_at(s, pos, w, 1, num[0]);
        assert(s[pos + 1] != ']') by {
            assert(!is_digit(']'));
        }
        assert(w.subrange(1, 1 + num.len() as int) =~= num);
        lemma_sub_part(s, pos, w, 1, num);
        let dend = pos + 1 + num.len() as int;
        let after = w[1 + num.len() as int];
        assert(after == (if rest.len() == 0 {
            ']'
        } else {
            ','
        })) by {
            if rest.len() == 0 {
            } else {
                assert(rest == seq![','] + ser_nat(b.drop_first()[0] as nat) + ser_byte_rest(
                    b.drop_first().drop_first(),
                ));
                assert(rest[0] == ',');
            }
        }
        lemma_char_at(s, pos, w, 1 + num.len() as int, after);
        assert(!is_digit(s[dend]));
        lemma_parse_ser_u64(s, pos + 1, b[0] as u64);
        assert(w.subrange(1 + num.len() as int, w.len() as int) =~= rest + seq![']']);
        lemma_sub_part(s, pos, w, 1 + num.len() as int, rest + seq![']']);
        lemma_parse_ser_byte_rest(s, dend, b.drop_first(), seq![b[0]]);
        assert(seq![b[0]] + b.drop_first() =~= b);
    }
}

/// The record a stored password round-trips to: the tombstone is not
/// persisted.
pub open spec fn stripped_pass(p: crate::store::PasswordView) -> crate::store::PasswordView {
    crate::store::PasswordView { delete: false, ..p }
}

/// The record a stored TOTP entry round-trips to: cache and tombstone
/// are not persisted.
pub open spec fn stripped_totp(t: crate::totp::TotpCodeView) -> crate::totp::TotpCodeView {
    crate::totp::TotpCodeView { cached_codes: None, delete: false, ..t }
}

/// Parsing a serialized password record gives it back, tombstone
/// cleared.
proof fn lemma_parse_ser_pass_rec(s: Seq<char>, pos: int, p: crate::store::PasswordView)
    requires
        0 <= pos,
        pos + ser_pass_rec(p).len() <= s.len(),
        s.subrange(pos, pos + ser_pass_rec(p).len() as int) == ser_pass_rec(p),
    ensures
        sp_pass_rec(s, pos) == Some((stripped_pass(p), pos + ser_pass_rec(p).len())),
{
    let w = ser_pass_rec(p);
    let la = "{\"name\":"@;
    let s1 = ser_string(p.name);
    let lb = ",\"password\":"@;
    let s2 = ser_string(p.password);
    assert(w == la + s1 + lb + s2 + "}"@);
    let o1 = la.len() as int;
    let o2 = o1 + s1.len() as int;
    let o3 = o2 + lb.len() as int;
    let o4 = o3 + s2.len() as int;
    reveal_strlit("}");
    assert(w.subrange(0, o1) =~= la);
    lemma_sub_part(s, pos, w, 0, la);
    assert(sp_lit(s, pos, la) == Some(pos + o1));
    assert(w.subrange(o1, o2) =~= s1);
    lemma_sub_part(s, pos, w, o1, s1);
    lemma_parse_ser_string(s, pos + o1, p.name);
    assert(w.subrange(o2, o3) =~= lb);
    lemma_sub_part(s, pos, w, o2, lb);
    assert(sp_lit(s, pos + o2, lb) == Some(pos + o3));
    assert(w.subrange(o3, o4) =~= s2);
    lemma_sub_part(s, pos, w, o3, s2);
    lemma_parse_ser_string(s, pos + o3, p.password);
    assert(w["}"@.len() as int - 1 + o4] == '}') by {
        assert(w[o4] == ("}"@)[0]);
    }
    lemma_char_at(s, pos, w, o4, '}');
}


/// The fixed tail of a serialized TOTP record, from the data key on:
/// each field parses to the record's value.
#[verifier::rlimit(100)]
proof fn lemma_parse_ser_totp_fields(s: Seq<char>, pos: int, t: crate::totp::TotpCodeView)
    requires
        0 <= pos,
        pos + ser_totp_fields(t).len() <= s.len(),
        s.subrange(pos, pos + ser_totp_fields(t).len() as int) == ser_totp_fields(t),
    ensures
        ({
            let l2 = ",\"data\":{\"algorithm\":"@;
            let o4 = pos + l2.len() as int;
            let o5 = o4 + ser_alg(t.algorithm).len() as int;
            let o6 = o5 + ",\"digits\":"@.len() as int;
            let o7 = o6 + ser_nat(t.digits as nat).len() as int;
            let o8 = o7 + ",\"skew\":"@.len() as int;
            let o9 = o8 + ser_nat(t.skew as nat).len() as int;
            let o10 = o9 + ",\"step\":"@.len() as int;
            let o11 = o10 + ser_nat(t.step as nat).len() as int;
            let o12 = o11 + ",\"secret\":"@.len() as int;
            let o13 = o12 + ser_bytes(t.secret).len() as int;
            &&& sp_lit(s, pos, l2) == Some(o4)
            &&& sp_alg(s, o4) == Some((t.algorithm, o5))
            &&& sp_lit(s, o5, ",\"digits\":"@) == Some(o6)
            &&& sp_u64(s, o6) == Some((t.digits as u64, o7))
            &&& sp_lit(s, o7, ",\"skew\":"@) == Some(o8)
            &&& sp_u64(s, o8) == Some((t.skew as u64, o9))
            &&& sp_lit(s, o9, ",\"step\":"@) == Some(o10)
            &&& sp_u64(s, o10) == Some((t.step, o11))
            &&& sp_lit(s, o11, ",\"secret\":"@) == Some(o12)
            &&& sp_bytes(s, o12) == Some((t.secret, o13))
            &&& sp_lit(s, o13, "}}"@) == Some(o13 + 2)
            &&& o13 + 2 == pos + ser_totp_fields(t).len()
        }),
{
    let w = ser_totp_fields(t);
    let l2 = ",\"data\":{\"algorithm\":"@;
    let alg = ser_alg(t.algorithm);
    let l3 = ",\"digits\":"@;
    let dd = ser_nat(t.digits as nat);
    let l4 = ",\"skew\":"@;
    let kk = ser_nat(t.skew as nat);
    let l5 = ",\"step\":"@;
    let tt = ser_nat(t.step as nat);
    let l6 = ",\"secret\":"@;
    let by = ser_bytes(t.secret);
    let l7 = "}}"@;
    assert(w == l2 + alg + l3 + dd + l4 + kk + l5 + tt + l6 + by + l7);
    let o4 = pos + l2.len() as int;
    let o5 = o4 + alg.len() as int;
    let o6 = o5 + l3.len() as int;
    let o7 = o6 + dd.len() as int;
    let o8 = o7 + l4.len() as int;
    let o9 = o8 + kk.len() as int;
    let o10 = o9 + l5.len() as int;
    let o11 = o10 + tt.len() as int;
    let o12 = o11 + l6.len() as int;
    let o13 = o12 + by.len() as int;
    reveal_strlit(",\"skew\":");
    reveal_strlit(",\"step\":");
    reveal_strlit(",\"secret\":");
    reveal_strlit("}}");
    assert(w.subrange(0, l2.len() as int) =~= l2);
    lemma_sub_part(s, pos, w, 0, l2);
    assert(sp_lit(s, pos, l2) == Some(o4));
    assert(w.subrange(o4 - pos, o5 - pos) =~= alg);
    lemma_sub_part(s, pos, w, o4 - pos, alg);
    lemma_parse_ser_alg(s, o4, t.algorithm);
    assert(w.subrange(o5 - pos, o6 - pos) =~= l3);
    lemma_sub_part(s, pos, w, o5 - pos, l3);
    assert(sp_lit(s, o5, l3) == Some(o6));
    assert(w.subrange(o6 - pos, o7 - pos) =~= dd);
    lemma_sub_part(s, pos, w, o6 - pos, dd);
    assert(w[o7 - pos] == l4[0]) by {
        assert(w.subrange(o7 - pos, o8 - pos) =~= l4);
    }
    lemma_char_at(s, pos, w, o7 - pos, l4[0]);
    assert(!is_digit(s[o7]));
    lemma_parse_ser_u64(s, o6, t.digits as u64);
    assert(w.subrange(o7 - pos, o8 - pos) =~= l4);
    lemma_sub_part(s, pos, w, o7 - pos, l4);
    assert(sp_lit(s, o7, l4) == Some(o8));
    assert(w.subrange(o8 - pos, o9 - pos) =~= kk);
    lemma_sub_part(s, pos, w, o8 - pos, kk);
    assert(w[o9 - pos] == l5[0]) by {
        assert(w.subrange(o9 - pos, o10 - pos) =~= l5);
    }
    lemma_char_at(s, pos, w, o9 - pos, l5[0]);
    assert(!is_digit(s[o9]));
    lemma_parse_ser_u64(s, o8, t.skew as u64);
    assert(w.subrange(o9 - pos, o10 - pos) =~= l5);
    lemma_sub_part(s, pos, w, o9 - pos, l5);
    assert(sp_lit(s, o9, l5) == Some(o10));
    assert(w.subrange(o10 - pos, o11 - pos) =~= tt);
    lemma_sub_part(s, pos, w, o10 - pos, tt);
    assert(w[o11 - pos] == l6[0]) by {
        assert(w.subrange(o11 - pos, o12 - pos) =~= l6);
    }
    lemma_char_at(s, pos, w, o11 - pos, l6[0]);
    assert(!is_digit(s[o11]));
    lemma_parse_ser_u64(s, o10, t.step);
    assert(w.subrange(o11 - pos, o12 - pos) =~= l6);
    lemma_sub_part(s, pos, w, o11 - pos, l6);
    assert(sp_lit(s, o11, l6) == Some(o12));
    assert(w.subrange(o12 - pos, o13 - pos) =~= by);
    lemma_sub_part(s, pos, w, o12 - pos, by);
    lemma_parse_ser_bytes(s, o12, t.secret);
    assert(w.subrange(o13 - pos, o13 - pos + 2) =~= l7);
    lemma_sub_part(s, pos, w, o13 - pos, l7);
    assert(sp_lit(s, o13, l7) == Some(o13 + 2));
}

/// Parsing a serialized TOTP record gives it back, cache and tombstone
/// cleared.
#[verifier::rlimit(100)]
proof fn lemma_parse_ser_totp_rec(s: Seq<char>, pos: int, t: crate::totp::TotpCodeView)
    requires
        0 <= pos,
        pos + ser_totp_rec(t).len() <= s.len(),
        s.subrange(pos, pos + ser_totp_rec(t).len() as int) == ser_totp_rec(t),
    ensures
        sp_totp_rec(s, pos) == Some((stripped_totp(t), pos + ser_totp_rec(t).len())),
{
    let w = ser_totp_rec(t);
    let l1 = "{\"name\":"@;
    let s1 = ser_string(t.name);
    let rawpart = (match t.raw_secret {
        Some(raw) => ",\"raw_secret\":"@ + ser_string(raw),
        None => Seq::<char>::empty(),
    });
    let fields = ser_totp_fields(t);
    assert(w == l1 + s1 + rawpart + fields);
    let o1 = l1.len() as int;
    let o2 = o1 + s1.len() as int;
    let o3 = o2 + rawpart.len() as int;
    let l2 = ",\"data\":{\"algorithm\":"@;
    reveal_strlit(",\"raw_secret\":");
    reveal_strlit(",\"data\":{\"algorithm\":");
    assert(w.subrange(0, o1) =~= l1);
    lemma_sub_part(s, pos, w, 0, l1);
    assert(sp_lit(s, pos, l1) == Some(pos + o1));
    assert(w.subrange(o1, o2) =~= s1);
    lemma_sub_part(s, pos, w, o1, s1);
    lemma_parse_ser_string(s, pos + o1, t.name);
    match t.raw_secret {
        Some(raw) => {
            let lraw = ",\"raw_secret\":"@;
            let sraw = ser_string(raw);
            assert(rawpart == lraw + sraw);
            assert(w.subrange(o2, o2 + lraw.len() as int) =~= lraw);
            lemma_sub_part(s, pos, w, o2, lraw);
            assert(sp_lit(s, pos + o2, lraw) == Some(pos + o2 + lraw.len()));
            assert(w.subrange(o2 + lraw.len() as int, o3) =~= sraw);
            lemma_sub_part(s, pos, w, o2 + lraw.len() as int, sraw);
            lemma_parse_ser_string(s, pos + o2 + lraw.len() as int, raw);
        },
        None => {
            assert(rawpart.len() == 0);
            assert(o3 == o2);
            let lraw = ",\"raw_secret\":"@;
            if sp_lit(s, pos + o2, lraw) is Some {
                assert(s.subrange(pos + o2, pos + o2 + lraw.len() as int) == lraw);
                assert(s.subrange(pos + o2, pos + o2 + lraw.len() as int)[2] == s[pos + o2 + 2]);
                assert(s[pos + o2 + 2] == lraw[2]);
                assert(lraw[2] == 'r');
                assert(w[o2 + 2] == l2[2]) by {
                    assert(fields[2] == l2[2]);
                }
                assert(l2[2] == 'd');
                lemma_char_at(s, pos, w, o2 + 2, 'd');
                assert(false);
            }
        },
    }
    assert(w.subrange(o3, o3 + fields.len() as int) =~= fields);
    lemma_sub_part(s, pos, w, o3, fields);
    lemma_parse_ser_totp_fields(s, pos + o3, t);
}

/// The serialized algorithm name parses back to the same algorithm.
proof fn lemma_parse_ser_alg(s: Seq<char>, pos: int, a: crate::totp::TotpAlgorithm)
    requires
        0 <= pos,
        pos + ser_alg(a).len() <= s.len(),
        s.subrange(pos, pos + ser_alg(a).len() as int) == ser_alg(a),
    ensures
        sp_alg(s, pos) == Some((a, pos + ser_alg(a).len())),
{
    reveal_strlit("\"SHA1\"");
    reveal_strlit("\"SHA256\"");
    reveal_strlit("\"SHA512\"");
    let w = ser_alg(a);
    match a {
        crate::totp::TotpAlgorithm::Sha1 => {
            assert(sp_lit(s, pos, "\"SHA1\""@) == Some(pos + w.len()));
        },
        crate::totp::TotpAlgorithm::Sha256 => {
            if sp_lit(s, pos, "\"SHA1\""@) is Some {
                assert(s.subrange(pos, pos + 6)[4] == s[pos + 4]);
                assert(s[pos + 4] == '1');
                lemma_char_at(s, pos, w, 4, '2');
                assert(false);
            }
            assert(sp_lit(s, pos, "\"SHA256\""@) == Some(pos + w.len()));
        },
        crate::totp::TotpAlgorithm::Sha512 => {
            if sp_lit(s, pos, "\"SHA1\""@) is Some {
                assert(s.subrange(pos, pos + 6)[4] == s[pos + 4]);
                assert(s[pos + 4] == '1');
                lemma_char_at(s, pos, w, 4, '5');
                assert(false);
            }
            if sp_lit(s, pos, "\"SHA256\""@) is Some {
                assert(s.subrange(pos, pos + 8)[4] == s[pos + 4]);
                assert(s[pos + 4] == '2');
                lemma_char_at(s, pos, w, 4, '5');
                assert(false);
            }
            assert(sp_lit(s, pos, "\"SHA512\""@) == Some(pos + w.len()));
        },
    }
}


/// The stripped records, in order.
pub open spec fn stripped_pass_list(l: Seq<crate::store::PasswordView>) -> Seq<
    crate::store::PasswordView,
> {
    Seq::new(l.len(), |i: int| stripped_pass(l[i]))
}

pub open spec fn stripped_totp_list(l: Seq<crate::totp::TotpCodeView>) -> Seq<
    crate::totp::TotpCodeView,
> {
    Seq::new(l.len(), |i: int| stripped_totp(l[i]))
}

proof fn lemma_parse_ser_pass_rest(
    s: Seq<char>,
    pos: int,
    l: Seq<crate::store::PasswordView>,
    acc: Seq<crate::store::PasswordView>,
)
    requires
        0 <= pos,
        pos + ser_pass_list_rest(l).len() + 1 <= s.len(),
        s.subrange(pos, pos + ser_pass_list_rest(l).len() + 1) == ser_pass_list_rest(l)
            + seq![']'],
    ensures
        sp_pass_rest(s, pos, acc) == Some(
            (acc + stripped_pass_list(l), pos + ser_pass_list_rest(l).len() + 1),
        ),
    decreases l.len(),
{
    let w = ser_pass_list_rest(l) + seq![']'];
    if l.len() == 0 {
        lemma_char_at(s, pos, w, 0, ']');
        assert(acc + stripped_pass_list(l) =~= acc);
    } else {
        let rec = ser_pass_rec(l[0]);
        let rest = ser_pass_list_rest(l.drop_first());
        assert(ser_pass_list_rest(l) == seq![','] + rec + rest);
        lemma_char_at(s, pos, w, 0, ',');
        reveal_strlit("{\"name\":");
        assert(rec[0] == '{') by {
            assert(rec == "{\"name\":"@ + ser_string(l[0].name) + ",\"password\":"@
                + ser_string(l[0].password) + "}"@);
        }
        assert(s[pos] != ']');
        assert(w.subrange(1, 1 + rec.len() as int) =~= rec);
        lemma_sub_part(s, pos, w, 1, rec);
        lemma_parse_ser_pass_rec(s, pos + 1, l[0]);
        let rend = pos + 1 + rec.len() as int;
        assert(rec.len() > 0);
        assert(w.subrange(1 + rec.len() as int, w.len() as int) =~= rest + seq![']']);
        lemma_sub_part(s, pos, w, 1 + rec.len() as int, rest + seq![']']);
        lemma_parse_ser_pass_rest(s, rend, l.drop_first(), acc.push(stripped_pass(l[0])));
        assert(acc.push(stripped_pass(l[0])) + stripped_pass_list(l.drop_first()) =~= acc
            + stripped_pass_list(l));
        assert(sp_pass_rest(s, pos, acc) == sp_pass_rest(s, rend, acc.push(stripped_pass(l[0]))));
    }
}

proof fn lemma_parse_ser_pass_list(s: Seq<char>, pos: int, l: Seq<crate::store::PasswordView>)
    requires
        0 <= pos,
        pos + ser_pass_list(l).len() <= s.len(),
        s.subrange(pos, pos + ser_pass_list(l).len() as int) == ser_pass_list(l),
    ensures
        sp_pass_list(s, pos) == Some((stripped_pass_list(l), pos + ser_pass_list(l).len())),
{
    let w = ser_pass_list(l);
    if l.len() == 0 {
        lemma_char_at(s, pos, w, 0, '[');
        lemma_char_at(s, pos, w, 1, ']');
        assert(stripped_pass_list(l) =~= Seq::<crate::store::PasswordView>::empty());
    } else {
        let rec = ser_pass_rec(l[0]);
        let rest = ser_pass_list_rest(l.drop_first());
        assert(w == seq!['['] + rec + rest + seq![']']);
        lemma_char_at(s, pos, w, 0, '[');
        reveal_strlit("{\"name\":");
        assert(rec[0] == '{') by {
            assert(rec == "{\"name\":"@ + ser_string(l[0].name) + ",\"password\":"@
                + ser_string(l[0].password) + "}"@);
        }
        assert(w[1] == '{');
        lemma_char_at(s, pos, w, 1, '{');
        assert(s[pos + 1] != ']');
        assert(w.subrange(1, 1 + rec.len() as int) =~= rec);
        lemma_sub_part(s, pos, w, 1, rec);
        lemma_parse_ser_pass_rec(s, pos + 1, l[0]);
        let rend = pos + 1 + rec.len() as int;
        assert(rec.len() > 0);
        assert(w.subrange(1 + rec.len() as int, w.len() as int) =~= rest + seq![']']);
        lemma_sub_part(s, pos, w, 1 + rec.len() as int, rest + seq![']']);
        lemma_parse_ser_pass_rest(s, rend, l.drop_first(), seq![stripped_pass(l[0])]);
        assert(seq![stripped_pass(l[0])] + stripped_pass_list(l.drop_first())
            =~= stripped_pass_list(l));
    }
}

#[verifier::rlimit(100)]
proof fn lemma_parse_ser_totp_rest(
    s: Seq<char>,
    pos: int,
    l: Seq<crate::totp::TotpCodeView>,
    acc: Seq<crate::totp::TotpCodeView>,
)
    requires
        0 <= pos,
        pos + ser_totp_list_rest(l).len() + 1 <= s.len(),
        s.subrange(pos, pos + ser_totp_list_rest(l).len() + 1) == ser_totp_list_rest(l)
            + seq![']'],
    ensures
        sp_totp_rest(s, pos, acc) == Some(
            (acc + stripped_totp_list(l), pos + ser_totp_list_rest(l).len() + 1),
        ),
    decreases l.len(),
{
    let w = ser_totp_list_rest(l) + seq![']'];
    if l.len() == 0 {
        lemma_char_at(s, pos, w, 0, ']');
        assert(acc + stripped_totp_list(l) =~= acc);
    } else {
        let rec = ser_totp_rec(l[0]);
        let rest = ser_totp_list_rest(l.drop_first());
        assert(ser_totp_list_rest(l) == seq![','] + rec + rest);
        lemma_char_at(s, pos, w, 0, ',');
        reveal_strlit("{\"name\":");
        lemma_ser_totp_rec_head(l[0]);
        assert(s[pos] != ']');
        assert(w.subrange(1, 1 + rec.len() as int) =~= rec);
        lemma_sub_part(s, pos, w, 1, rec);
        lemma_parse_ser_totp_rec(s, pos + 1, l[0]);
        let rend = pos + 1 + rec.len() as int;
        assert(w.subrange(1 + rec.len() as int, w.len() as int) =~= rest + seq![']']);
        lemma_sub_part(s, pos, w, 1 + rec.len() as int, rest + seq![']']);
        lemma_parse_ser_totp_rest(s, rend, l.drop_first(), acc.push(stripped_totp(l[0])));
        assert(acc.push(stripped_totp(l[0])) + stripped_totp_list(l.drop_first()) =~= acc
            + stripped_totp_list(l));
        assert(sp_totp_rest(s, pos, acc) == sp_totp_rest(s, rend, acc.push(stripped_totp(l[0]))));
    }
}

/// A serialized TOTP record starts with a brace and is nonempty.
proof fn lemma_ser_totp_rec_head(t: crate::totp::TotpCodeView)
    ensures
        ser_totp_rec(t).len() > 0,
        ser_totp_rec(t)[0] == "{\"name\":"@[0],
{
    reveal_strlit("{\"name\":");
    assert(ser_totp_rec(t)[0] == "{\"name\":"@[0]);
}

#[verifier::rlimit(100)]
proof fn lemma_parse_ser_totp_list(s: Seq<char>, pos: int, l: Seq<crate::totp::TotpCodeView>)
    requires
        0 <= pos,
        pos + ser_totp_list(l).len() <= s.len(),
        s.subrange(pos, pos + ser_totp_list(l).len() as int) == ser_totp_list(l),
    ensures
        sp_totp_list(s, pos) == Some((stripped_totp_list(l), pos + ser_totp_list(l).len())),
{
    let w = ser_totp_list(l);
    if l.len() == 0 {
        lemma_char_at(s, pos, w, 0, '[');
        lemma_char_at(s, pos, w, 1, ']');
        assert(stripped_totp_list(l) =~= Seq::<crate::totp::TotpCodeView>::empty());
    } else {
        let rec = ser_totp_rec(l[0]);
        let rest = ser_totp_list_rest(l.drop_first());
        assert(w == seq!['['] + rec + rest + seq![']']);
        lemma_char_at(s, pos, w, 0, '[');
        reveal_strlit("{\"name\":");
        lemma_ser_totp_rec_head(l[0]);
        assert(w[1] == '{');
        lemma_char_at(s, pos, w, 1, '{');
        assert(s[pos + 1] != ']');
        assert(w.subrange(1, 1 + rec.len() as int) =~= rec);
        lemma_sub_part(s, pos, w, 1, rec);
        lemma_parse_ser_totp_rec(s, pos + 1, l[0]);
        let rend = pos + 1 + rec.len() as int;
        assert(w.subrange(1 + rec.len() as int, w.len() as int) =~= rest + seq![']']);
        lemma_sub_part(s, pos, w, 1 + rec.len() as int, rest + seq![']']);
        lemma_parse_ser_totp_rest(s, rend, l.drop_first(), seq![stripped_totp(l[0])]);
        assert(seq![stripped_totp(l[0])] + stripped_totp_list(l.drop_first())
            =~= stripped_totp_list(l));
    }
}

/// What a store round-trips to: the same records in the same order with
/// cache and tombstones cleared, and the same theme index.
pub open spec fn persisted_view(v: crate::store::PasswordsView) -> crate::store::PasswordsView {
    crate::store::PasswordsView {
        pass: stripped_pass_list(v.pass),
        totp: stripped_totp_list(v.totp),
        ui_colour: v.ui_colour,
    }
}

/// Each part of a serialized store parses to the store's value at its
/// position.
#[verifier::rlimit(100)]
proof fn lemma_parse_ser_store_parts(v: crate::store::PasswordsView)
    ensures
        ({
            let s = ser_store(v);
            let o1 = "{\"pass\":"@.len() as int;
            let o2 = o1 + ser_pass_list(v.pass).len() as int;
            let o3 = o2 + ",\"totp\":"@.len() as int;
            let o4 = o3 + ser_totp_list(v.totp).len() as int;
            let o5 = o4 + ",\"ui_colour\":"@.len() as int;
            let o6 = o5 + ser_nat(v.ui_colour as nat).len() as int;
            &&& sp_lit(s, 0, "{\"pass\":"@) == Some(o1)
            &&& sp_pass_list(s, o1) == Some((stripped_pass_list(v.pass), o2))
            &&& sp_lit(s, o2, ",\"totp\":"@) == Some(o3)
            &&& sp_totp_list(s, o3) == Some((stripped_totp_list(v.totp), o4))
            &&& 0 <= o4 < s.len()
            &&& s[o4] == ','
            &&& sp_lit(s, o4, ",\"ui_colour\":"@) == Some(o5)
            &&& sp_u64(s, o5) == Some((v.ui_colour as u64, o6))
            &&& s[o6] == '}'
            &&& o6 + 1 == s.len()
        }),
{
    let s = ser_store(v);
    let l1 = "{\"pass\":"@;
    let pl = ser_pass_list(v.pass);
    let l2 = ",\"totp\":"@;
    let tl = ser_totp_list(v.totp);
    let l3 = ",\"ui_colour\":"@;
    let nn = ser_nat(v.ui_colour as nat);
    let l4 = "}"@;
    assert(s == l1 + pl + l2 + tl + l3 + nn + l4);
    let o1 = l1.len() as int;
    let o2 = o1 + pl.len() as int;
    let o3 = o2 + l2.len() as int;
    let o4 = o3 + tl.len() as int;
    let o5 = o4 + l3.len() as int;
    let o6 = o5 + nn.len() as int;
    reveal_strlit(",\"ui_colour\":");
    reveal_strlit("}");
    assert(s.subrange(0, s.len() as int) =~= s);
    assert(s.subrange(0, o1) =~= l1);
    lemma_sub_part(s, 0, s, 0, l1);
    assert(sp_lit(s, 0, l1) == Some(o1));
    assert(s.subrange(o1, o2) =~= pl);
    lemma_parse_ser_pass_list(s, o1, v.pass);
    assert(s.subrange(o2, o3) =~= l2);
    assert(sp_lit(s, o2, l2) == Some(o3));
    assert(s.subrange(o3, o4) =~= tl);
    lemma_parse_ser_totp_list(s, o3, v.totp);
    assert(s[o4] == l3[0]);
    assert(l3[0] == ',');
    assert(s.subrange(o4, o5) =~= l3);
    assert(sp_lit(s, o4, l3) == Some(o5));
    assert(s.subrange(o5, o6) =~= nn);
    assert(s[o6] == l4[0]);
    assert(l4[0] == '}');
    assert(!is_digit(s[o6]));
    lemma_parse_ser_u64_at(s, o5, v.ui_colour as u64);
}

/// Parsing a serialized store yields exactly the store, with the
/// transient cache and tombstone fields cleared.
#[verifier::rlimit(100)]
pub proof fn lemma_parse_ser_store(v: crate::store::PasswordsView)
    ensures
        sp_store(ser_store(v)) == Some(persisted_view(v)),
{
    let s = ser_store(v);
    lemma_parse_ser_store_parts(v);
    let o4 = "{\"pass\":"@.len() as int + ser_pass_list(v.pass).len() as int
        + ",\"totp\":"@.len() as int + ser_totp_list(v.totp).len() as int;
    assert(s[o4] != '}');
}

/// The u64 round trip, phrased over an equality the store lemma has at
/// hand.
proof fn lemma_parse_ser_u64_at(s: Seq<char>, pos: int, n: u64)
    requires
        0 <= pos,
        pos + ser_nat(n as nat).len() <= s.len(),
        s.subrange(pos, pos + ser_nat(n as nat).len() as int) == ser_nat(n as nat),
        pos + ser_nat(n as nat).len() == s.len() || !is_digit(s[pos + ser_nat(n as nat).len()]),
    ensures
        sp_u64(s, pos) == Some((n, pos + ser_nat(n as nat).len())),
{
    lemma_parse_ser_u64(s, pos, n);
}

} // verus!
