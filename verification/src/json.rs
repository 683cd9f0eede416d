//! The JSON wire form of the entity bodies.
//!
//! Every request and response body this library reads or writes is a flat
//! JSON object whose member values are strings (names, identifier text,
//! date text), or an array of such objects.  This module holds the byte
//! level of that format: writing a string with the standard escapes, and
//! reading an object into its list of key/value members.  Decoding fails
//! on anything else, which the caller turns into a client error.

use vstd::prelude::*;

verus! {

use crate::ids::hex_char;
use crate::ids::hex_val;

pub open spec fn is_ws(b: u8) -> bool {
    b == 32 || b == 9 || b == 10 || b == 13
}

/// The first position at or after `i` that does not hold whitespace.
pub open spec fn skip_ws(s: Seq<u8>, i: int) -> int
    decreases s.len() - i,
{
    if 0 <= i < s.len() && is_ws(s[i]) {
        skip_ws(s, i + 1)
    } else {
        i
    }
}

fn ws_end(s: &[u8], i: usize) -> (r: usize)
    requires
        i <= s.len(),
    ensures
        r as int == skip_ws(s@, i as int),
        i <= r <= s.len(),
{
    let mut j: usize = i;
    while j < s.len() && (s[j] == 32 || s[j] == 9 || s[j] == 10 || s[j] == 13)
        invariant
            i <= j <= s.len(),
            skip_ws(s@, i as int) == skip_ws(s@, j as int),
        decreases s.len() - j,
    {
        j = j + 1;
    }
    j
}

/// How one byte of string content is written: the named escapes, the
/// `\u00XX` form for other control bytes, and the byte itself otherwise.
pub open spec fn esc_byte(b: u8) -> Seq<u8> {
    if b == 34 {
        seq![92u8, 34u8]
    } else if b == 92 {
        seq![92u8, 92u8]
    } else if b == 8 {
        seq![92u8, 98u8]
    } else if b == 9 {
        seq![92u8, 116u8]
    } else if b == 10 {
        seq![92u8, 110u8]
    } else if b == 12 {
        seq![92u8, 102u8]
    } else if b == 13 {
        seq![92u8, 114u8]
    } else if b < 32 {
        seq![92u8, 117u8, 48u8, 48u8, hex_char((b / 16) as u8), hex_char((b % 16) as u8)]
    } else {
        seq![b]
    }
}

/// The escaped form of a whole string body.
pub open spec fn esc_all(s: Seq<u8>) -> Seq<u8>
    decreases s.len(),
{
    if s.len() == 0 {
        Seq::empty()
    } else {
        esc_all(s.drop_last()) + esc_byte(s.last())
    }
}

/// A string as it stands in a JSON text: quoted and escaped.
pub open spec fn str_text(s: Seq<u8>) -> Seq<u8> {
    seq![34u8] + esc_all(s) + seq![34u8]
}

/// Append the quoted, escaped form of `s` to `out`.
pub fn push_str_text(out: &mut Vec<u8>, s: &[u8])
    ensures
        final(out)@ == old(out)@ + str_text(s@),
{
    out.push(34);
    let mut i: usize = 0;
    while i < s.len()
        invariant
            i <= s.len(),
            out@ =~= old(out)@ + seq![34u8] + esc_all(s@.subrange(0, i as int)),
        decreases s.len() - i,
    {
        let b = s[i];
        if b == 34 {
            out.push(92);
            out.push(34);
        } else if b == 92 {
            out.push(92);
            out.push(92);
        } else if b == 8 {
            out.push(92);
            out.push(98);
        } else if b == 9 {
            out.push(92);
            out.push(116);
        } else if b == 10 {
            out.push(92);
            out.push(110);
        } else if b == 12 {
            out.push(92);
            out.push(102);
        } else if b == 13 {
            out.push(92);
            out.push(114);
        } else if b < 32 {
            out.push(92);
            out.push(117);
            out.push(48);
            out.push(48);
            let hi = b / 16;
            let lo = b % 16;
            out.push(if hi < 10 { 48 + hi } else { 87 + hi });
            out.push(if lo < 10 { 48 + lo } else { 87 + lo });
        } else {
            out.push(b);
        }
        i = i + 1;
        proof {
            let pre = s@.subrange(0, i as int);
            assert(pre.drop_last() =~= s@.subrange(0, i as int - 1));
            assert(pre.last() == s@[i as int - 1]);
            assert(out@ =~= old(out)@ + seq![34u8] + esc_all(pre));
        }
    }
    proof {
        assert(s@.subrange(0, s@.len() as int) =~= s@);
    }
    out.push(34);
    proof {
        assert(out@ =~= old(out)@ + str_text(s@));
    }
}

/// A UTF-8 continuation byte.
pub open spec fn is_cont(b: u8) -> bool {
    0x80 <= b <= 0xbf
}

/// Whether a byte string is well-formed UTF-8: a sequence of one- to
/// four-byte encodings with the usual range rules (no overlong forms, no
/// surrogates, nothing above the last code point).
pub open spec fn utf8_wf(s: Seq<u8>) -> bool
    decreases s.len(),
{
    if s.len() == 0 {
        true
    } else if s[0] < 0x80 {
        utf8_wf(s.skip(1))
    } else if 0xc2 <= s[0] <= 0xdf {
        s.len() >= 2 && is_cont(s[1]) && utf8_wf(s.skip(2))
    } else if s[0] == 0xe0 {
        s.len() >= 3 && 0xa0 <= s[1] <= 0xbf && is_cont(s[2]) && utf8_wf(s.skip(3))
    } else if s[0] == 0xed {
        s.len() >= 3 && 0x80 <= s[1] <= 0x9f && is_cont(s[2]) && utf8_wf(s.skip(3))
    } else if 0xe1 <= s[0] <= 0xef {
        s.len() >= 3 && is_cont(s[1]) && is_cont(s[2]) && utf8_wf(s.skip(3))
    } else if s[0] == 0xf0 {
        s.len() >= 4 && 0x90 <= s[1] <= 0xbf && is_cont(s[2]) && is_cont(s[3]) && utf8_wf(
            s.skip(4),
        )
    } else if s[0] == 0xf4 {
        s.len() >= 4 && 0x80 <= s[1] <= 0x8f && is_cont(s[2]) && is_cont(s[3]) && utf8_wf(
            s.skip(4),
        )
    } else if 0xf1 <= s[0] <= 0xf3 {
        s.len() >= 4 && is_cont(s[1]) && is_cont(s[2]) && is_cont(s[3]) && utf8_wf(s.skip(4))
    } else {
        false
    }
}

/// A string of bytes below 0x80 is well-formed UTF-8.
pub proof fn lemma_ascii_utf8_wf(s: Seq<u8>)
    requires
        forall|j: int| 0 <= j < s.len() ==> s[j] < 0x80,
    ensures
        utf8_wf(s),
    decreases s.len(),
{
    if s.len() > 0 {
        assert(forall|j: int| 0 <= j < s.skip(1).len() ==> s.skip(1)[j] < 0x80);
        lemma_ascii_utf8_wf(s.skip(1));
    }
}

/// The bytes of one decoded character given by a `\u` escape (or an
/// escaped surrogate pair).
pub open spec fn utf8_bytes(v: int) -> Seq<u8> {
    if v < 0x80 {
        seq![v as u8]
    } else if v < 0x800 {
        seq![(192 + v / 64) as u8, (128 + v % 64) as u8]
    } else if v < 0x10000 {
        seq![(224 + v / 4096) as u8, (128 + (v / 64) % 64) as u8, (128 + v % 64) as u8]
    } else {
        seq![
            (240 + v / 0x40000) as u8,
            (128 + (v / 4096) % 64) as u8,
            (128 + (v / 64) % 64) as u8,
            (128 + v % 64) as u8,
        ]
    }
}

/// Read string content from position `i` (just after the opening quote)
/// up to the closing quote, decoding escapes onto `acc`.  Raw content
/// must be well-formed UTF-8; characters beyond the basic plane may be
/// given as an escaped surrogate pair.  `None` on an unterminated
/// string, a raw control byte, a bad escape, an unpaired surrogate
/// escape, or raw bytes that are not UTF-8.
pub open spec fn str_chars(s: Seq<u8>, i: int, acc: Seq<u8>) -> Option<(Seq<u8>, int)>
    decreases s.len() - i,
{
    if !(0 <= i < s.len()) {
        None
    } else if s[i] == 34 {
        Some((acc, i + 1))
    } else if s[i] == 92 {
        if i + 2 > s.len() {
            None
        } else {
            let e = s[i + 1];
            if e == 34 {
                str_chars(s, i + 2, acc.push(34))
            } else if e == 92 {
                str_chars(s, i + 2, acc.push(92))
            } else if e == 47 {
                str_chars(s, i + 2, acc.push(47))
            } else if e == 98 {
                str_chars(s, i + 2, acc.push(8))
            } else if e == 102 {
                str_chars(s, i + 2, acc.push(12))
            } else if e == 110 {
                str_chars(s, i + 2, acc.push(10))
            } else if e == 114 {
                str_chars(s, i + 2, acc.push(13))
            } else if e == 116 {
                str_chars(s, i + 2, acc.push(9))
            } else if e == 117 {
                if i + 6 > s.len() {
                    None
                } else if !(hex_val(s[i + 2]) < 16 && hex_val(s[i + 3]) < 16 && hex_val(s[i + 4])
                    < 16 && hex_val(s[i + 5]) < 16) {
                    None
                } else {
                    let v = hex_val(s[i + 2]) as int * 4096 + hex_val(s[i + 3]) as int * 256
                        + hex_val(s[i + 4]) as int * 16 + hex_val(s[i + 5]) as int;
                    if 0xDC00 <= v < 0xE000 {
                        None
                    } else if 0xD800 <= v < 0xDC00 {
                        if i + 12 > s.len() {
                            None
                        } else if !(s[i + 6] == 92 && s[i + 7] == 117 && hex_val(s[i + 8]) < 16
                            && hex_val(s[i + 9]) < 16 && hex_val(s[i + 10]) < 16 && hex_val(
                            s[i + 11],
                        ) < 16) {
                            None
                        } else {
                            let v2 = hex_val(s[i + 8]) as int * 4096 + hex_val(s[i + 9]) as int
                                * 256 + hex_val(s[i + 10]) as int * 16 + hex_val(s[i + 11]) as int;
                            if !(0xDC00 <= v2 < 0xE000) {
                                None
                            } else {
                                str_chars(
                                    s,
                                    i + 12,
                                    acc + utf8_bytes(
                                        0x10000 + (v - 0xD800) * 0x400 + (v2 - 0xDC00),
                                    ),
                                )
                            }
                        }
                    } else {
                        str_chars(s, i + 6, acc + utf8_bytes(v))
                    }
                }
            } else {
                None
            }
        }
    } else if s[i] < 32 {
        None
    } else if s[i] < 0x80 {
        str_chars(s, i + 1, acc.push(s[i]))
    } else if 0xc2 <= s[i] <= 0xdf {
        if i + 2 <= s.len() && is_cont(s[i + 1]) {
            str_chars(s, i + 2, acc.push(s[i]).push(s[i + 1]))
        } else {
            None
        }
    } else if s[i] == 0xe0 {
        if i + 3 <= s.len() && 0xa0 <= s[i + 1] <= 0xbf && is_cont(s[i + 2]) {
            str_chars(s, i + 3, acc.push(s[i]).push(s[i + 1]).push(s[i + 2]))
        } else {
            None
        }
    } else if s[i] == 0xed {
        if i + 3 <= s.len() && 0x80 <= s[i + 1] <= 0x9f && is_cont(s[i + 2]) {
            str_chars(s, i + 3, acc.push(s[i]).push(s[i + 1]).push(s[i + 2]))
        } else {
            None
        }
    } else if 0xe1 <= s[i] <= 0xef {
        if i + 3 <= s.len() && is_cont(s[i + 1]) && is_cont(s[i + 2]) {
            str_chars(s, i + 3, acc.push(s[i]).push(s[i + 1]).push(s[i + 2]))
        } else {
            None
        }
    } else if s[i] == 0xf0 {
        if i + 4 <= s.len() && 0x90 <= s[i + 1] <= 0xbf && is_cont(s[i + 2]) && is_cont(
            s[i + 3],
        ) {
            str_chars(s, i + 4, acc.push(s[i]).push(s[i + 1]).push(s[i + 2]).push(s[i + 3]))
        } else {
            None
        }
    } else if s[i] == 0xf4 {
        if i + 4 <= s.len() && 0x80 <= s[i + 1] <= 0x8f && is_cont(s[i + 2]) && is_cont(
            s[i + 3],
        ) {
            str_chars(s, i + 4, acc.push(s[i]).push(s[i + 1]).push(s[i + 2]).push(s[i + 3]))
        } else {
            None
        }
    } else if 0xf1 <= s[i] <= 0xf3 {
        if i + 4 <= s.len() && is_cont(s[i + 1]) && is_cont(s[i + 2]) && is_cont(s[i + 3]) {
            str_chars(s, i + 4, acc.push(s[i]).push(s[i + 1]).push(s[i + 2]).push(s[i + 3]))
        } else {
            None
        }
    } else {
        None
    }
}

/// Read string content, mirroring `str_chars`.
pub fn read_str_chars(s: &[u8], i: usize, acc: Vec<u8>) -> (r: Option<(Vec<u8>, usize)>)
    ensures
        match r {
            Some((v, j)) => str_chars(s@, i as int, acc@) == Some((v@, j as int)) && i < j
                <= s.len(),
            None => str_chars(s@, i as int, acc@) is None,
        },
    decreases s@.len() - i,
{
    if i >= s.len() {
        return None;
    }
    let b = s[i];
    if b == 34 {
        return Some((acc, i + 1));
    }
    if b == 92 {
        if s.len() - i < 2 {
            return None;
        }
        let e = s[i + 1];
        let mut acc2 = acc;
        if e == 34 {
            acc2.push(34);
            return read_str_chars(s, i + 2, acc2);
        }
        if e == 92 {
            acc2.push(92);
            return read_str_chars(s, i + 2, acc2);
        }
        if e == 47 {
            acc2.push(47);
            return read_str_chars(s, i + 2, acc2);
        }
        if e == 98 {
            acc2.push(8);
            return read_str_chars(s, i + 2, acc2);
        }
        if e == 102 {
            acc2.push(12);
            return read_str_chars(s, i + 2, acc2);
        }
        if e == 110 {
            acc2.push(10);
            return read_str_chars(s, i + 2, acc2);
        }
        if e == 114 {
            acc2.push(13);
            return read_str_chars(s, i + 2, acc2);
        }
        if e == 116 {
            acc2.push(9);
            return read_str_chars(s, i + 2, acc2);
        }
        if e == 117 {
            if s.len() - i < 6 {
                return None;
            }
            let d0 = hex_digit_val(s[i + 2]);
            let d1 = hex_digit_val(s[i + 3]);
            let d2 = hex_digit_val(s[i + 4]);
            let d3 = hex_digit_val(s[i + 5]);
            if !(d0 < 16 && d1 < 16 && d2 < 16 && d3 < 16) {
                return None;
            }
            let v: u32 = d0 as u32 * 4096 + d1 as u32 * 256 + d2 as u32 * 16 + d3 as u32;
            if 0xDC00 <= v && v < 0xE000 {
                return None;
            }
            if 0xD800 <= v && v < 0xDC00 {
                if s.len() - i < 12 {
                    return None;
                }
                if !(s[i + 6] == 92 && s[i + 7] == 117) {
                    return None;
                }
                let d4 = hex_digit_val(s[i + 8]);
                let d5 = hex_digit_val(s[i + 9]);
                let d6 = hex_digit_val(s[i + 10]);
                let d7 = hex_digit_val(s[i + 11]);
                if !(d4 < 16 && d5 < 16 && d6 < 16 && d7 < 16) {
                    return None;
                }
                let v2: u32 = d4 as u32 * 4096 + d5 as u32 * 256 + d6 as u32 * 16 + d7 as u32;
                if !(0xDC00 <= v2 && v2 < 0xE000) {
                    return None;
                }
                let cp: u32 = 0x10000 + (v - 0xD800) * 0x400 + (v2 - 0xDC00);
                push_utf8(&mut acc2, cp);
                return read_str_chars(s, i + 12, acc2);
            }
            push_utf8(&mut acc2, v);
            return read_str_chars(s, i + 6, acc2);
        }
        return None;
    }
    if b < 32 {
        return None;
    }
    let mut acc2 = acc;
    if b < 0x80 {
        acc2.push(b);
        return read_str_chars(s, i + 1, acc2);
    }
    if 0xc2 <= b && b <= 0xdf {
        if s.len() - i >= 2 && 0x80 <= s[i + 1] && s[i + 1] <= 0xbf {
            acc2.push(b);
            acc2.push(s[i + 1]);
            return read_str_chars(s, i + 2, acc2);
        }
        return None;
    }
    if b == 0xe0 || b == 0xed || (0xe1 <= b && b <= 0xef) {
        let lo: u8 = if b == 0xe0 {
            0xa0
        } else {
            0x80
        };
        let hi: u8 = if b == 0xed {
            0x9f
        } else {
            0xbf
        };
        if s.len() - i >= 3 && lo <= s[i + 1] && s[i + 1] <= hi && 0x80 <= s[i + 2] && s[i + 2]
            <= 0xbf {
            acc2.push(b);
            acc2.push(s[i + 1]);
            acc2.push(s[i + 2]);
            return read_str_chars(s, i + 3, acc2);
        }
        return None;
    }
    if b == 0xf0 || b == 0xf4 || (0xf1 <= b && b <= 0xf3) {
        let lo: u8 = if b == 0xf0 {
            0x90
        } else {
            0x80
        };
        let hi: u8 = if b == 0xf4 {
            0x8f
        } else {
            0xbf
        };
        if s.len() - i >= 4 && lo <= s[i + 1] && s[i + 1] <= hi && 0x80 <= s[i + 2] && s[i + 2]
            <= 0xbf && 0x80 <= s[i + 3] && s[i + 3] <= 0xbf {
            acc2.push(b);
            acc2.push(s[i + 1]);
            acc2.push(s[i + 2]);
            acc2.push(s[i + 3]);
            return read_str_chars(s, i + 4, acc2);
        }
        return None;
    }
    None
}

/// Append the UTF-8 encoding of one code point.
fn push_utf8(acc: &mut Vec<u8>, v: u32)
    requires
        v < 0x110000,
    ensures
        final(acc)@ == old(acc)@ + utf8_bytes(v as int),
{
    if v < 0x80 {
        acc.push(v as u8);
    } else if v < 0x800 {
        acc.push(192 + (v / 64) as u8);
        acc.push(128 + (v % 64) as u8);
    } else if v < 0x10000 {
        acc.push(224 + (v / 4096) as u8);
        acc.push(128 + ((v / 64) % 64) as u8);
        acc.push(128 + (v % 64) as u8);
    } else {
        acc.push(240 + (v / 0x40000) as u8);
        acc.push(128 + ((v / 4096) % 64) as u8);
        acc.push(128 + ((v / 64) % 64) as u8);
        acc.push(128 + (v % 64) as u8);
    }
    proof {
        assert(acc@ =~= old(acc)@ + utf8_bytes(v as int));
    }
}

/// The value of a hex digit byte, sixteen when it is none.
fn hex_digit_val(b: u8) -> (r: u8)
    ensures
        r == hex_val(b),
{
    if 48 <= b && b <= 57 {
        b - 48
    } else if 97 <= b && b <= 102 {
        b - 87
    } else if 65 <= b && b <= 70 {
        b - 55
    } else {
        16
    }
}

/// One `"key": "value"` member starting at or after `i`.
pub open spec fn member(s: Seq<u8>, i: int) -> Option<((Seq<u8>, Seq<u8>), int)> {
    let j = skip_ws(s, i);
    if !(0 <= j < s.len() && s[j] == 34) {
        None
    } else {
        match str_chars(s, j + 1, Seq::empty()) {
            None => None,
            Some((key, j2)) => {
                let j3 = skip_ws(s, j2);
                if !(0 <= j3 < s.len() && s[j3] == 58) {
                    None
                } else {
                    let j4 = skip_ws(s, j3 + 1);
                    if !(0 <= j4 < s.len() && s[j4] == 34) {
                        None
                    } else {
                        match str_chars(s, j4 + 1, Seq::empty()) {
                            None => None,
                            Some((val, j5)) => Some(((key, val), j5)),
                        }
                    }
                }
            },
        }
    }
}

pub fn read_member(s: &[u8], i: usize) -> (r: Option<((Vec<u8>, Vec<u8>), usize)>)
    requires
        i <= s.len(),
    ensures
        match r {
            Some(((k, v), j)) => member(s@, i as int) == Some(((k@, v@), j as int)) && i < j
                <= s.len(),
            None => member(s@, i as int) is None,
        },
{
    let j = ws_end(s, i);
    if !(j < s.len() && s[j] == 34) {
        return None;
    }
    let key_read = read_str_chars(s, j + 1, Vec::new());
    match key_read {
        None => None,
        Some((key, j2)) => {
            let j3 = ws_end(s, j2);
            if !(j3 < s.len() && s[j3] == 58) {
                return None;
            }
            let j4 = ws_end(s, j3 + 1);
            if !(j4 < s.len() && s[j4] == 34) {
                return None;
            }
            let val_read = read_str_chars(s, j4 + 1, Vec::new());
            match val_read {
                None => None,
                Some((val, j5)) => Some(((key, val), j5)),
            }
        },
    }
}

/// The members of an object body from position `i` on, ending at the
/// closing brace; `acc` holds the members already read.
pub open spec fn members(s: Seq<u8>, i: int, acc: Seq<(Seq<u8>, Seq<u8>)>) -> Option<
    (Seq<(Seq<u8>, Seq<u8>)>, int),
>
    decreases s.len() - i,
{
    match member(s, i) {
        None => None,
        Some((kv, j)) => {
            let j2 = skip_ws(s, j);
            if !(0 <= j2 < s.len()) {
                None
            } else if s[j2] == 44 {
                if i < j2 + 1 {
                    members(s, j2 + 1, acc.push(kv))
                } else {
                    None
                }
            } else if s[j2] == 125 {
                Some((acc.push(kv), j2 + 1))
            } else {
                None
            }
        },
    }
}

pub fn read_members(s: &[u8], i: usize, acc: Vec<(Vec<u8>, Vec<u8>)>) -> (r: Option<
    (Vec<(Vec<u8>, Vec<u8>)>, usize),
>)
    requires
        i <= s.len(),
    ensures
        match r {
            Some((ms, j)) => members(s@, i as int, acc.deep_view()) == Some(
                (ms.deep_view(), j as int),
            ) && j <= s.len(),
            None => members(s@, i as int, acc.deep_view()) is None,
        },
    decreases s@.len() - i,
{
    let m = read_member(s, i);
    match m {
        None => None,
        Some(((k, v), j)) => {
            let j2 = ws_end(s, j);
            if !(j2 < s.len()) {
                return None;
            }
            let mut acc2 = acc;
            let b = s[j2];
            acc2.push((k, v));
            proof {
                assert(acc2@ == acc@.push((k, v)));
                assert(acc2.deep_view() =~~= acc.deep_view().push((k@, v@)));
            }
            if b == 44 {
                read_members(s, j2 + 1, acc2)
            } else if b == 125 {
                Some((acc2, j2 + 1))
            } else {
                None
            }
        },
    }
}

/// The member list an entire body denotes: optional whitespace, one flat
/// object whose values are strings, optional whitespace, end of input.
/// `None` for any other body.
pub open spec fn body_members(s: Seq<u8>) -> Option<Seq<(Seq<u8>, Seq<u8>)>> {
    let i = skip_ws(s, 0);
    if !(0 <= i < s.len() && s[i] == 123) {
        None
    } else {
        let j = skip_ws(s, i + 1);
        if 0 <= j < s.len() && s[j] == 125 {
            if skip_ws(s, j + 1) == s.len() {
                Some(Seq::empty())
            } else {
                None
            }
        } else {
            match members(s, i + 1, Seq::empty()) {
                None => None,
                Some((ms, k)) => {
                    if skip_ws(s, k) == s.len() {
                        Some(ms)
                    } else {
                        None
                    }
                },
            }
        }
    }
}

/// Read a whole request body as the members of one flat object.
pub fn read_body_members(s: &[u8]) -> (r: Option<Vec<(Vec<u8>, Vec<u8>)>>)
    ensures
        match r {
            Some(ms) => body_members(s@) == Some(ms.deep_view()),
            None => body_members(s@) is None,
        },
{
    let i = ws_end(s, 0);
    if !(i < s.len() && s[i] == 123) {
        return None;
    }
    let j = ws_end(s, i + 1);
    if j < s.len() && s[j] == 125 {
        let e = ws_end(s, j + 1);
        if e == s.len() {
            let empty: Vec<(Vec<u8>, Vec<u8>)> = Vec::new();
            proof {
                assert(empty.deep_view() =~= Seq::<(Seq<u8>, Seq<u8>)>::empty());
            }
            return Some(empty);
        } else {
            return None;
        }
    }
    let start: Vec<(Vec<u8>, Vec<u8>)> = Vec::new();
    proof {
        assert(start.deep_view() =~= Seq::<(Seq<u8>, Seq<u8>)>::empty());
    }
    let ms = read_members(s, i + 1, start);
    match ms {
        None => None,
        Some((ms, k)) => {
            let e = ws_end(s, k);
            if e == s.len() {
                Some(ms)
            } else {
                None
            }
        },
    }
}

} // verus!

verus! {

/// The comma-joined items of a JSON array body.
pub open spec fn items_text(es: Seq<Seq<u8>>) -> Seq<u8>
    decreases es.len(),
{
    if es.len() == 0 {
        Seq::empty()
    } else if es.len() == 1 {
        es[0]
    } else {
        items_text(es.drop_last()) + seq![44u8] + es.last()
    }
}

/// A JSON array holding the given item texts in order.
pub open spec fn array_text(es: Seq<Seq<u8>>) -> Seq<u8> {
    seq![91u8] + items_text(es) + seq![93u8]
}

} // verus!

verus! {

use vstd::arithmetic::div_mod::lemma_fundamental_div_mod;

proof fn lemma_esc_all_left(s: Seq<u8>)
    requires
        s.len() > 0,
    ensures
        esc_all(s) == esc_byte(s[0]) + esc_all(s.drop_first()),
    decreases s.len(),
{
    if s.len() == 1 {
        assert(s.drop_last() =~= Seq::<u8>::empty());
        assert(s.drop_first() =~= Seq::<u8>::empty());
        assert(esc_all(s) =~= esc_byte(s[0]) + esc_all(s.drop_first()));
    } else {
        lemma_esc_all_left(s.drop_last());
        assert(s.drop_last()[0] == s[0]);
        assert(s.drop_last().drop_first() =~= s.drop_first().drop_last());
        assert(s.drop_first().last() == s.last());
        assert(esc_all(s.drop_first()) == esc_all(s.drop_first().drop_last()) + esc_byte(
            s.drop_first().last(),
        ));
        assert(esc_all(s) =~= esc_byte(s[0]) + esc_all(s.drop_first()));
    }
}

/// A run of bytes the escaper leaves unchanged passes through `esc_all`
/// as itself.
proof fn lemma_esc_all_raw_prefix(s: Seq<u8>, w: int)
    requires
        1 <= w <= s.len(),
        forall|j: int| 0 <= j < w ==> 32 <= #[trigger] s[j] && s[j] != 34 && s[j] != 92,
    ensures
        esc_all(s) == s.subrange(0, w) + esc_all(s.skip(w)),
    decreases w,
{
    lemma_esc_all_left(s);
    assert(esc_byte(s[0]) =~= seq![s[0]]);
    if w == 1 {
        assert(s.drop_first() =~= s.skip(1));
        assert(esc_all(s) =~= s.subrange(0, 1) + esc_all(s.skip(1)));
    } else {
        let t = s.drop_first();
        assert(forall|j: int| 0 <= j < w - 1 ==> 32 <= #[trigger] t[j] && t[j] != 34 && t[j]
            != 92);
        lemma_esc_all_raw_prefix(t, w - 1);
        assert(t.skip(w - 1) =~= s.skip(w));
        assert(t.subrange(0, w - 1) =~= s.subrange(1, w));
        assert(esc_all(s) =~= s.subrange(0, w) + esc_all(s.skip(w)));
    }
}

/// What the string encoder writes, the string reader reads back: after an
/// opening quote, the escaped content (well-formed UTF-8) and the closing
/// quote decode onto `acc` as exactly the raw bytes, ending just past the
/// quote.
#[verifier::spinoff_prover]
#[verifier::rlimit(100)]
pub proof fn lemma_string_round_trip(b: Seq<u8>, i: int, acc: Seq<u8>, s: Seq<u8>)
    requires
        0 <= i,
        utf8_wf(s),
        i + esc_all(s).len() + 1 <= b.len(),
        b.subrange(i, i + esc_all(s).len() + 1) == esc_all(s) + seq![34u8],
    ensures
        str_chars(b, i, acc) == Some((acc + s, i + esc_all(s).len() + 1)),
    decreases s.len(),
{
    let whole = esc_all(s) + seq![34u8];
    let ln = esc_all(s).len() as int;
    if s.len() == 0 {
        assert(b[i] == whole[0]);
        assert(b[i] == 34);
        assert(acc + s =~= acc);
    } else {
        let c = s[0];
        let tail = s.drop_first();
        lemma_esc_all_left(s);
        let w = esc_byte(c).len() as int;
        let ln2 = esc_all(tail).len() as int;
        assert(ln == w + ln2);
        assert forall|d: int| 0 <= d < w implies b[i + d] == esc_byte(c)[d] by {
            assert(b[i + d] == whole[d]);
            assert(whole[d] == (esc_byte(c) + esc_all(tail))[d]);
        }
        assert(b.subrange(i + w, i + w + ln2 + 1) =~= esc_all(tail) + seq![34u8]) by {
            assert forall|d: int| 0 <= d < ln2 + 1 implies b[i + w + d] == (esc_all(tail)
                + seq![34u8])[d] by {
                assert(b[i + w + d] == whole[w + d]);
                assert(whole[w + d] == ((esc_byte(c) + esc_all(tail)) + seq![34u8])[w + d]);
            }
        }
        if c < 0x80 {
            assert(s.skip(1) =~= tail);
            assert(utf8_wf(tail));
        }
        if c == 34 || c == 92 || c == 8 || c == 9 || c == 10 || c == 12 || c == 13 {
            assert(w == 2);
            assert(b[i] == 92);
            lemma_string_round_trip(b, i + 2, acc.push(c), tail);
            assert(acc.push(c) + tail =~= acc + s);
        } else if c < 32 {
            assert(w == 6);
            assert(b[i] == 92 && b[i + 1] == 117 && b[i + 2] == 48 && b[i + 3] == 48);
            assert(b[i + 4] == hex_char((c / 16) as u8) && b[i + 5] == hex_char((c % 16) as u8));
            assert(hex_val(b[i + 2]) == 0 && hex_val(b[i + 3]) == 0);
            assert(hex_val(b[i + 4]) == c / 16 && hex_val(b[i + 5]) == c % 16);
            lemma_fundamental_div_mod(c as int, 16);
            let v = hex_val(b[i + 2]) as int * 4096 + hex_val(b[i + 3]) as int * 256 + hex_val(
                b[i + 4],
            ) as int * 16 + hex_val(b[i + 5]) as int;
            assert(v == c as int);
            assert(utf8_bytes(v) =~= seq![c]);
            lemma_string_round_trip(b, i + 6, acc + seq![c], tail);
            assert(acc + seq![c] + tail =~= acc + s);
        } else if c < 0x80 {
            assert(w == 1);
            assert(b[i + 0] == esc_byte(c)[0]);
            assert(b[i] == c);
            lemma_string_round_trip(b, i + 1, acc.push(c), tail);
            assert(acc.push(c) + tail =~= acc + s);
        } else {
            let cw: int = if c <= 0xdf {
                2
            } else if c <= 0xef {
                3
            } else {
                4
            };
            assert(cw <= s.len() && (forall|j: int|
                0 <= j < cw ==> 32 <= #[trigger] s[j] && s[j] != 34 && s[j] != 92));
            lemma_esc_all_raw_prefix(s, cw);
            let rest = s.skip(cw);
            assert(utf8_wf(rest));
            let ln3 = esc_all(rest).len() as int;
            assert(ln == cw + ln3);
            assert forall|d: int| 0 <= d < cw implies b[i + d] == s[d] by {
                assert(b[i + d] == whole[d]);
                assert(whole[d] == (s.subrange(0, cw) + esc_all(rest) + seq![34u8])[d]);
            }
            assert(b.subrange(i + cw, i + cw + ln3 + 1) =~= esc_all(rest) + seq![34u8]) by {
                assert forall|d: int| 0 <= d < ln3 + 1 implies b[i + cw + d] == (esc_all(rest)
                    + seq![34u8])[d] by {
                    assert(b[i + cw + d] == whole[cw + d]);
                    assert(whole[cw + d] == (s.subrange(0, cw) + (esc_all(rest)
                        + seq![34u8]))[cw + d]);
                }
            }
            let got = if cw == 2 {
                acc.push(s[0]).push(s[1])
            } else if cw == 3 {
                acc.push(s[0]).push(s[1]).push(s[2])
            } else {
                acc.push(s[0]).push(s[1]).push(s[2]).push(s[3])
            };
            assert(got =~= acc + s.subrange(0, cw));
            lemma_string_round_trip(b, i + cw, got, rest);
            assert((acc + s.subrange(0, cw)) + rest =~= acc + s);
            assert(str_chars(b, i, acc) == Some((acc + s, i + ln + 1)));
        }
    }
}

} // verus!

verus! {

/// One `"key":"value"` member as the encoder writes it.
pub open spec fn member_text(k: Seq<u8>, v: Seq<u8>) -> Seq<u8> {
    str_text(k) + seq![58u8] + str_text(v)
}

/// What the encoder writes as a member, the member reader reads back.
pub proof fn lemma_member_reads(b: Seq<u8>, i: int, k: Seq<u8>, v: Seq<u8>)
    requires
        0 <= i,
        utf8_wf(k),
        utf8_wf(v),
        i + member_text(k, v).len() <= b.len(),
        b.subrange(i, i + member_text(k, v).len() as int) == member_text(k, v),
    ensures
        member(b, i) == Some(((k, v), i + member_text(k, v).len() as int)),
{
    let mt = member_text(k, v);
    let kl = str_text(k).len() as int;
    let el = esc_all(k).len() as int;
    let vl = str_text(v).len() as int;
    assert forall|d: int| 0 <= d < mt.len() implies b[i + d] == mt[d] by {
        assert(b.subrange(i, i + mt.len() as int)[d] == b[i + d]);
    }
    assert(mt[0] == str_text(k)[0]);
    assert(str_text(k)[0] == (seq![34u8] + esc_all(k) + seq![34u8])[0]);
    assert(b[i + 0] == 34);
    assert(skip_ws(b, i) == i);
    assert(b.subrange(i + 1, i + 1 + el + 1) =~= esc_all(k) + seq![34u8]) by {
        assert forall|d: int| 0 <= d < el + 1 implies b[i + 1 + d] == (esc_all(k)
            + seq![34u8])[d] by {
            assert(b[i + 1 + d] == mt[1 + d]);
        }
    }
    lemma_string_round_trip(b, i + 1, Seq::empty(), k);
    assert(Seq::<u8>::empty() + k =~= k);
    let j2 = i + kl;
    assert(b[j2] == mt[kl]);
    assert(mt[kl] == 58);
    assert(skip_ws(b, j2) == j2);
    let j4 = j2 + 1;
    assert(b[j4] == mt[kl + 1]);
    assert(mt[kl + 1] == str_text(v)[0]);
    assert(str_text(v)[0] == (seq![34u8] + esc_all(v) + seq![34u8])[0]);
    assert(b[j4] == 34);
    assert(skip_ws(b, j2 + 1) == j4);
    let el2 = esc_all(v).len() as int;
    assert(b.subrange(j4 + 1, j4 + 1 + el2 + 1) =~= esc_all(v) + seq![34u8]) by {
        assert forall|d: int| 0 <= d < el2 + 1 implies b[j4 + 1 + d] == (esc_all(v)
            + seq![34u8])[d] by {
            assert(b[j4 + 1 + d] == mt[kl + 2 + d]);
        }
    }
    lemma_string_round_trip(b, j4 + 1, Seq::empty(), v);
    assert(Seq::<u8>::empty() + v =~= v);
    assert(j4 + 1 + el2 + 1 == i + mt.len());
}

/// Three members already read at their places, separated by commas and
/// closed by a brace, chain into one member list.
proof fn lemma_members_chain(
    b: Seq<u8>,
    k1: Seq<u8>,
    v1: Seq<u8>,
    k2: Seq<u8>,
    v2: Seq<u8>,
    k3: Seq<u8>,
    v3: Seq<u8>,
    o1: int,
    o3: int,
    o5: int,
)
    requires
        0 < o1 < o3 < o5 < b.len(),
        member(b, 1) == Some(((k1, v1), o1)),
        b[o1] == 44,
        member(b, o1 + 1) == Some(((k2, v2), o3)),
        b[o3] == 44,
        member(b, o3 + 1) == Some(((k3, v3), o5)),
        b[o5] == 125,
    ensures
        members(b, 1, Seq::<(Seq<u8>, Seq<u8>)>::empty()) == Some(
            (seq![(k1, v1), (k2, v2), (k3, v3)], o5 + 1),
        ),
{
    assert(skip_ws(b, o1) == o1);
    assert(skip_ws(b, o3) == o3);
    assert(skip_ws(b, o5) == o5);
    let ms0 = Seq::<(Seq<u8>, Seq<u8>)>::empty();
    let ms1 = ms0.push((k1, v1));
    let ms2 = ms1.push((k2, v2));
    assert(members(b, o3 + 1, ms2) == Some((ms2.push((k3, v3)), o5 + 1)));
    assert(members(b, o1 + 1, ms1) == Some((ms2.push((k3, v3)), o5 + 1)));
    assert(members(b, 1, ms0) == Some((ms2.push((k3, v3)), o5 + 1)));
    assert(ms2.push((k3, v3)) =~= seq![(k1, v1), (k2, v2), (k3, v3)]);
}

/// What the encoder writes as a three-member object, the body reader
/// reads back as exactly those three members.
#[verifier::spinoff_prover]
#[verifier::rlimit(100)]
pub proof fn lemma_three_member_object_reads(
    b: Seq<u8>,
    k1: Seq<u8>,
    v1: Seq<u8>,
    k2: Seq<u8>,
    v2: Seq<u8>,
    k3: Seq<u8>,
    v3: Seq<u8>,
)
    requires
        utf8_wf(k1) && utf8_wf(v1) && utf8_wf(k2) && utf8_wf(v2) && utf8_wf(k3) && utf8_wf(v3),
        b == seq![123u8] + member_text(k1, v1) + seq![44u8] + member_text(k2, v2) + seq![44u8]
            + member_text(k3, v3) + seq![125u8],
    ensures
        body_members(b) == Some(seq![(k1, v1), (k2, v2), (k3, v3)]),
{
    let m1 = member_text(k1, v1);
    let m2 = member_text(k2, v2);
    let m3 = member_text(k3, v3);
    let l1 = m1.len() as int;
    let l2 = m2.len() as int;
    let l3 = m3.len() as int;
    let o1 = 1 + l1;
    let o2 = o1 + 1;
    let o3 = o2 + l2;
    let o4 = o3 + 1;
    let o5 = o4 + l3;
    assert(b.len() == o5 + 1);
    assert(b[0] == 123);
    assert(skip_ws(b, 0) == 0);
    assert(b[1] == m1[0]);
    assert(m1[0] == 34);
    assert(skip_ws(b, 1) == 1);
    assert(b.subrange(1, 1 + l1) =~= m1) by {
        assert forall|d: int| 0 <= d < l1 implies b[1 + d] == m1[d] by {}
    }
    lemma_member_reads(b, 1, k1, v1);
    assert(b[o1] == 44);
    assert(b.subrange(o2, o2 + l2) =~= m2) by {
        assert forall|d: int| 0 <= d < l2 implies b[o2 + d] == m2[d] by {}
    }
    lemma_member_reads(b, o2, k2, v2);
    assert(b[o3] == 44);
    assert(b.subrange(o4, o4 + l3) =~= m3) by {
        assert forall|d: int| 0 <= d < l3 implies b[o4 + d] == m3[d] by {}
    }
    lemma_member_reads(b, o4, k3, v3);
    assert(b[o5] == 125);
    lemma_members_chain(b, k1, v1, k2, v2, k3, v3, o1, o3, o5);
    assert(skip_ws(b, o5 + 1) == o5 + 1);
    assert(body_members(b) == Some(seq![(k1, v1), (k2, v2), (k3, v3)]));
}

} // verus!
