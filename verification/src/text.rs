//! Character-level text helpers: code-point/byte-width accounting used by
//! the renderer, clipping of overlong strings, and conversions between
//! `String` and the code-point buffers the core works on.

use vstd::prelude::*;
use vstd::string::StrSliceExecFns;

verus! {

/// Number of bytes of the UTF-8 encoding of one code point.
pub open spec fn char_width(c: char) -> int {
    if (c as u32) < 0x80 {
        1
    } else if (c as u32) < 0x800 {
        2
    } else if (c as u32) < 0x10000 {
        3
    } else {
        4
    }
}

/// Widest UTF-8 encoding among the code points of `s`, and 1 for an empty
/// sequence: the crude fixed display-slot width the renderer uses.
pub open spec fn max_char_width(s: Seq<char>) -> int
    decreases s.len(),
{
    if s.len() == 0 {
        1
    } else {
        let rest = max_char_width(s.drop_last());
        if char_width(s.last()) > rest {
            char_width(s.last())
        } else {
            rest
        }
    }
}

/// Byte offset of the code point at position `i` in the UTF-8 encoding of
/// `s` (the sum of the widths of the code points before it).
pub open spec fn byte_offset(s: Seq<char>, i: int) -> int
    decreases i,
{
    if i <= 0 {
        0
    } else {
        byte_offset(s, i - 1) + char_width(s[i - 1])
    }
}

pub fn char_utf8_width(c: char) -> (w: usize)
    ensures
        w == char_width(c),
{
    let v = c as u32;
    if v < 0x80 {
        1
    } else if v < 0x800 {
        2
    } else if v < 0x10000 {
        3
    } else {
        4
    }
}

/// The code points of `s`, in order, as a vector.
pub fn str_to_chars(s: &str) -> (v: Vec<char>)
    ensures
        v@ == s@,
{
    let n = s.unicode_len();
    let mut v: Vec<char> = Vec::new();
    let mut i: usize = 0;
    while i < n
        invariant
            i <= n,
            n == s@.len(),
            v@ == s@.subrange(0, i as int),
        decreases n - i,
    {
        v.push(s.get_char(i));
        proof {
            assert(v@ =~= s@.subrange(0, i + 1));
        }
        i += 1;
    }
    proof {
        assert(v@ =~= s@);
    }
    v
}

/// Display layout of a string under the fixed-slot rendering rule: the
/// common slot width (the widest code point's byte width) and each code
/// point with its column, `i * spacing` for the `i`-th code point.
pub fn spaced_chars(string: &Vec<char>) -> (r: (usize, Vec<(usize, char)>))
    requires
        string@.len() * 4 <= usize::MAX,
    ensures
        r.0 == max_char_width(string@),
        r.1@.len() == string@.len(),
        forall|i: int|
            0 <= i < string@.len() ==> (#[trigger] r.1@[i]).0 == i * r.0 && r.1@[i].1
                == string@[i],
{
    let n = string.len();
    let mut spacing: usize = 1;
    let mut i: usize = 0;
    while i < n
        invariant
            i <= n,
            n == string@.len(),
            spacing == max_char_width(string@.subrange(0, i as int)),
            1 <= spacing <= 4,
        decreases n - i,
    {
        let w = char_utf8_width(string[i]);
        proof {
            let pref = string@.subrange(0, i + 1);
            assert(pref.drop_last() =~= string@.subrange(0, i as int));
            assert(pref.last() == string@[i as int]);
        }
        if w > spacing {
            spacing = w;
        }
        i += 1;
    }
    proof {
        assert(string@.subrange(0, n as int) =~= string@);
    }
    let mut cols: Vec<(usize, char)> = Vec::new();
    let mut j: usize = 0;
    while j < n
        invariant
            j <= n,
            n == string@.len(),
            string@.len() * 4 <= usize::MAX,
            1 <= spacing <= 4,
            spacing == max_char_width(string@),
            cols@.len() == j,
            forall|k: int|
                0 <= k < j ==> (#[trigger] cols@[k]).0 == k * spacing && cols@[k].1 == string@[k],
        decreases n - j,
    {
        proof {
            assert(j * spacing <= (n - 1) * 4) by (nonlinear_arith)
                requires
                    j < n,
                    1 <= spacing <= 4,
            ;
        }
        cols.push((j * spacing, string[j]));
        proof {
            assert((cols@[j as int]).0 == j * spacing && cols@[j as int].1 == string@[j as int]);
        }
        j += 1;
    }
    (spacing, cols)
}

/// Largest number of leading code points of `s` whose byte offset is
/// below `limit` (byte offsets grow strictly, so this is what a scan that
/// stops at the first offset at or past `limit` keeps).
pub open spec fn clip_count(s: Seq<char>, limit: int) -> int
    decreases s.len(),
{
    if s.len() == 0 {
        0
    } else if byte_offset(s, s.len() - 1) >= limit {
        clip_count(s.drop_last(), limit)
    } else {
        s.len() as int
    }
}

/// What clipping `s` to `len` slots yields: `s` itself when it has at
/// most `len` code points, otherwise the code points whose byte offset
/// lies below `len - 4` (none when `len < 4`) followed by `...`.
pub open spec fn clipped(s: Seq<char>, len: int) -> Seq<char> {
    if s.len() <= len {
        s
    } else {
        let limit = if len >= 4 {
            len - 4
        } else {
            0
        };
        s.subrange(0, clip_count(s, limit)) + seq!['.', '.', '.']
    }
}

proof fn lemma_byte_offset_agree(s: Seq<char>, t: Seq<char>, j: int)
    requires
        0 <= j <= s.len(),
        j <= t.len(),
        forall|k: int| 0 <= k < j ==> s[k] == t[k],
    ensures
        byte_offset(s, j) == byte_offset(t, j),
    decreases j,
{
    if j > 0 {
        lemma_byte_offset_agree(s, t, j - 1);
    }
}

proof fn lemma_byte_offset_monotone(s: Seq<char>, j1: int, j2: int)
    requires
        0 <= j1 <= j2 <= s.len(),
    ensures
        byte_offset(s, j1) <= byte_offset(s, j2),
    decreases j2 - j1,
{
    if j1 < j2 {
        lemma_byte_offset_monotone(s, j1, j2 - 1);
    }
}

/// `clip_count(s, limit)` keeps exactly the code points whose byte offset
/// lies below `limit`: a prefix, ended by the first offset at or past it.
proof fn lemma_clip_count_characterize(s: Seq<char>, limit: int)
    ensures
        0 <= clip_count(s, limit) <= s.len(),
        forall|j: int| 0 <= j < clip_count(s, limit) ==> byte_offset(s, j) < limit,
        clip_count(s, limit) < s.len() ==> byte_offset(s, clip_count(s, limit)) >= limit,
    decreases s.len(),
{
    if s.len() > 0 {
        let pre = s.drop_last();
        lemma_clip_count_characterize(pre, limit);
        assert forall|j: int| 0 <= j <= pre.len() implies byte_offset(pre, j) == byte_offset(
            s,
            j,
        ) by {
            lemma_byte_offset_agree(pre, s, j);
        }
        if byte_offset(s, s.len() - 1) < limit {
            assert forall|j: int| 0 <= j < s.len() implies byte_offset(s, j) < limit by {
                lemma_byte_offset_monotone(s, j, s.len() - 1);
            }
        }
    }
}

/// `string` unchanged when it fits in `len` display slots; otherwise the
/// code points whose byte offset lies below `len - 4`, then `...`.
pub fn clip_string(string: &Vec<char>, len: usize) -> (r: Vec<char>)
    ensures
        r@ == clipped(string@, len as int),
{
    let n = string.len();
    if n <= len {
        let r = string.clone();
        proof {
            assert(r@ =~= string@);
        }
        return r;
    }
    let limit: usize = if len >= 4 {
        len - 4
    } else {
        0
    };
    proof {
        lemma_clip_count_characterize(string@, limit as int);
    }
    let ghost cc = clip_count(string@, limit as int);
    let mut out: Vec<char> = Vec::new();
    let mut off: usize = 0;
    let mut i: usize = 0;
    while i < n && off < limit
        invariant
            i <= n,
            n == string@.len(),
            limit < n,
            limit + 4 <= n || limit == 0,
            off == byte_offset(string@, i as int),
            out@ == string@.subrange(0, i as int),
            i <= cc,
            cc == clip_count(string@, limit as int),
            forall|j: int| 0 <= j < cc ==> byte_offset(string@, j) < limit,
            cc < string@.len() ==> byte_offset(string@, cc) >= limit,
        decreases n - i,
    {
        out.push(string[i]);
        off = off + char_utf8_width(string[i]);
        proof {
            assert(out@ =~= string@.subrange(0, i + 1));
            if i + 1 > cc {
                assert(byte_offset(string@, cc) >= limit);
                lemma_byte_offset_monotone(string@, cc, i as int);
                assert(false);
            }
        }
        i += 1;
    }
    proof {
        if i < cc {
            assert(byte_offset(string@, i as int) < limit);
            assert(false);
        }
        assert(i == cc);
    }
    out.push('.');
    out.push('.');
    out.push('.');
    proof {
        assert(out@ =~= string@.subrange(0, cc) + seq!['.', '.', '.']);
    }
    out
}

/// A code point's width is the length of its UTF-8 encoding.
proof fn lemma_char_width_is_encoding(c: char)
    ensures
        vstd::utf8::encode_scalar(c as u32).len() == char_width(c),
{
    vstd::utf8::char_is_scalar(c);
}

proof fn lemma_byte_offset_drop_first(s: Seq<char>, i: int)
    requires
        1 <= i <= s.len(),
    ensures
        byte_offset(s, i) == char_width(s[0]) + byte_offset(s.drop_first(), i - 1),
    decreases i,
{
    if i == 1 {
        assert(byte_offset(s, 0) == 0);
        assert(byte_offset(s.drop_first(), 0) == 0);
    } else {
        lemma_byte_offset_drop_first(s, i - 1);
        assert(s.drop_first()[i - 2] == s[i - 1]);
    }
}

/// The byte offset past the last code point is the length of the UTF-8
/// encoding of the whole sequence.
pub proof fn lemma_byte_offset_is_utf8_len(s: Seq<char>)
    ensures
        byte_offset(s, s.len() as int) == vstd::utf8::encode_utf8(s).len(),
    decreases s.len(),
{
    if s.len() > 0 {
        lemma_byte_offset_is_utf8_len(s.drop_first());
        lemma_byte_offset_drop_first(s, s.len() as int);
        lemma_char_width_is_encoding(s[0]);
        assert(vstd::utf8::encode_utf8(s) == vstd::utf8::encode_scalar(s[0] as u32)
            + vstd::utf8::encode_utf8(s.drop_first()));
    }
}

/// Whether the UTF-8 encoding of the buffer is at least `bound` bytes
/// long, without summing past the bound.
pub fn utf8_len_at_least(v: &Vec<char>, bound: usize) -> (r: bool)
    requires
        bound <= usize::MAX - 4,
    ensures
        r <==> vstd::utf8::encode_utf8(v@).len() >= bound,
{
    proof {
        lemma_byte_offset_is_utf8_len(v@);
    }
    if bound == 0 {
        return true;
    }
    let n = v.len();
    let mut acc: usize = 0;
    let mut i: usize = 0;
    while i < n
        invariant
            i <= n,
            n == v@.len(),
            bound <= usize::MAX - 4,
            acc == byte_offset(v@, i as int),
            acc < bound,
        decreases n - i,
    {
        let w = char_utf8_width(v[i]);
        proof {
            assert(byte_offset(v@, i + 1) == byte_offset(v@, i as int) + char_width(
                v@[i as int],
            ));
        }
        acc = acc + w;
        i += 1;
        if acc >= bound {
            proof {
                assert(acc == byte_offset(v@, i as int));
                lemma_byte_offset_monotone(v@, i as int, v@.len() as int);
                assert(byte_offset(v@, v@.len() as int) >= bound);
                lemma_byte_offset_is_utf8_len(v@);
                assert(vstd::utf8::encode_utf8(v@).len() >= bound);
            }
            return true;
        }
    }
    false
}

/// Relies on `String: FromIterator<&char>` (`collect`): the result is the
/// concatenation of the characters in order.
#[verifier::external_body]
pub fn chars_to_string(v: &Vec<char>) -> (r: String)
    ensures
        r@ == v@,
{
    v.iter().collect()
}

} // verus!
