//! Server-generated, time-ordered record identifiers.
//!
//! Every stored record gets a 128-bit identifier chosen by the server at
//! creation time; client-supplied identifiers are never used.  The
//! identifiers carry their creation time in the most significant bits, so
//! insertion order is recoverable from the identifier value itself.

use vstd::prelude::*;

verus! {

use vstd::arithmetic::div_mod::lemma_basic_div;
use vstd::arithmetic::div_mod::lemma_div_denominator;
use vstd::arithmetic::div_mod::lemma_div_nonincreasing;
use vstd::arithmetic::div_mod::lemma_fundamental_div_mod;
use vstd::arithmetic::div_mod::lemma_small_mod;
use vstd::arithmetic::power2::lemma2_to64;
use vstd::arithmetic::power2::lemma_pow2_adds;
use vstd::arithmetic::power2::lemma_pow2_pos;
use vstd::arithmetic::power2::pow2;
use vstd::bits::lemma_u128_shr_is_div;

/// The version field of an identifier: bits 76..80.
pub open spec fn version_of(id: u128) -> u128 {
    (id >> 76) & 0xf
}

/// The variant field of an identifier: bits 62..64.
pub open spec fn variant_of(id: u128) -> u128 {
    (id >> 62) & 0x3
}

/// The millisecond timestamp held in the top 48 bits of an identifier.
pub open spec fn millis_of(id: u128) -> u128 {
    id >> 80
}

/// A well-formed time-ordered identifier: version 7, RFC variant.
pub open spec fn is_time_ordered(id: u128) -> bool {
    version_of(id) == 7 && variant_of(id) == 2
}

/// A source of fresh identifiers.  A ghost field records the identifier
/// handed out most recently (zero before the first call), so that callers
/// can reason about freshness and ordering.  The field is private: a
/// generator can only be made by `new`, so the recorded value is always
/// one that `next` actually returned, never an arbitrary ghost value.
pub struct IdGen {
    last: Ghost<u128>,
}

impl IdGen {
    /// The identifier handed out most recently; zero before the first
    /// call.
    pub closed spec fn last_id(self) -> u128 {
        self.last@
    }

    pub fn new() -> (r: IdGen)
        ensures
            r.last_id() == 0,
    {
        IdGen { last: Ghost(0u128) }
    }

    /// Relies on `uuid::Uuid::now_v7` (and `Uuid::as_u128` to read the
    /// value out): it returns a version-7, RFC-variant identifier, and all
    /// identifiers generated through it by the same process are ordered by
    /// their creation, so each call returns a value strictly above every
    /// value returned before it.
    #[verifier::external_body]
    pub fn next(&mut self) -> (r: u128)
        ensures
            is_time_ordered(r),
            r > old(self).last_id(),
            final(self).last_id() == r,
    {
        uuid::Uuid::now_v7().as_u128()
    }
}

/// Identifiers from two sequential creates are distinct, and sorting them
/// recovers creation order: the second is strictly above the first.
pub proof fn lemma_sequential_ids_ordered(g0: IdGen, g1: IdGen, g2: IdGen, a: u128, b: u128)
    requires
        a > g0.last_id(),
        g1.last_id() == a,
        b > g1.last_id(),
        g2.last_id() == b,
    ensures
        a != b,
        a < b,
{
}

/// The ASCII byte of a hex digit value below sixteen, lower case.
pub open spec fn hex_char(n: u8) -> u8 {
    if n < 10 {
        (48 + n) as u8
    } else {
        (87 + n) as u8
    }
}

/// The `k`-th nibble of an identifier, counting from the most significant.
pub open spec fn nibble(id: u128, k: int) -> u8 {
    ((id >> (((31 - k) * 4) as u128)) & 0xf) as u8
}

/// How many hyphens of the canonical text stand before position `j`.
pub open spec fn hyphens_before(j: int) -> int {
    if j < 9 {
        0
    } else if j < 14 {
        1
    } else if j < 19 {
        2
    } else {
        if j < 24 {
            3
        } else {
            4
        }
    }
}

/// The canonical 36-byte text of an identifier: 32 lower-case hex digits
/// in groups of 8-4-4-4-12 separated by hyphens.
pub open spec fn id_text(id: u128) -> Seq<u8> {
    Seq::new(
        36,
        |j: int|
            if j == 8 || j == 13 || j == 18 || j == 23 {
                45u8
            } else {
                hex_char(nibble(id, j - hyphens_before(j)))
            },
    )
}

pub fn format_id(id: u128) -> (r: Vec<u8>)
    ensures
        r@ == id_text(id),
{
    let mut out: Vec<u8> = Vec::new();
    let mut j: usize = 0;
    while j < 36
        invariant
            j <= 36,
            out@ =~= id_text(id).subrange(0, j as int),
        decreases 36 - j,
    {
        if j == 8 || j == 13 || j == 18 || j == 23 {
            out.push(45);
        } else {
            let h: usize = if j < 9 {
                0
            } else if j < 14 {
                1
            } else if j < 19 {
                2
            } else if j < 24 {
                3
            } else {
                4
            };
            let k: usize = j - h;
            let sh: u128 = ((31 - k) * 4) as u128;
            assert((id >> sh) & 0xf < 16) by (bit_vector);
            let n: u8 = ((id >> sh) & 0xf) as u8;
            if n < 10 {
                out.push(48 + n);
            } else {
                out.push(87 + n);
            }
        }
        j = j + 1;
        proof {
            assert(out@ =~= id_text(id).subrange(0, j as int));
        }
    }
    proof {
        assert(out@ =~= id_text(id));
    }
    out
}

/// The hex value a byte denotes, accepting both cases; sixteen when the
/// byte is no hex digit.
pub open spec fn hex_val(b: u8) -> u8 {
    if 48 <= b <= 57 {
        (b - 48) as u8
    } else if 97 <= b <= 102 {
        (b - 87) as u8
    } else if 65 <= b <= 70 {
        (b - 55) as u8
    } else {
        16u8
    }
}

/// The value of the first `k` hex digits of a 36-byte identifier text,
/// skipping the hyphen positions.
pub open spec fn id_prefix_val(s: Seq<u8>, k: int) -> u128
    decreases k,
{
    if k <= 0 {
        0u128
    } else {
        mul16(id_prefix_val(s, k - 1), hex_val(s[k - 1 + hyphens_before_digit(k - 1)]))
    }
}

/// Shift an accumulated value one nibble left and add the next digit.
pub open spec fn mul16(acc: u128, d: u8) -> u128 {
    ((acc * 16 + d) % 0x100000000000000000000000000000000int) as u128
}

/// How many hyphens of the canonical text stand before the `k`-th digit.
pub open spec fn hyphens_before_digit(k: int) -> int {
    if k < 8 {
        0
    } else if k < 12 {
        1
    } else if k < 16 {
        2
    } else {
        if k < 20 {
            3
        } else {
            4
        }
    }
}

/// Whether a byte sequence is a well-formed identifier text: 36 bytes,
/// hyphens in the canonical places, hex digits (either case) elsewhere.
pub open spec fn id_text_wf(s: Seq<u8>) -> bool {
    s.len() == 36 && s[8] == 45 && s[13] == 45 && s[18] == 45 && s[23] == 45 && (forall|k: int|
        0 <= k < 32 ==> hex_val(#[trigger] s[k + hyphens_before_digit(k)]) < 16)
}

/// The identifier a text denotes, or `None` where the text is not a
/// well-formed hyphenated identifier.
pub open spec fn id_of_text(s: Seq<u8>) -> Option<u128> {
    if id_text_wf(s) {
        Some(id_prefix_val(s, 32))
    } else {
        None
    }
}

#[verifier::rlimit(50)]
pub fn parse_id(s: &[u8]) -> (r: Option<u128>)
    ensures
        r == id_of_text(s@),
{
    if s.len() != 36 {
        assert(!id_text_wf(s@));
        return None;
    }
    if !(s[8] == 45 && s[13] == 45 && s[18] == 45 && s[23] == 45) {
        assert(!id_text_wf(s@));
        return None;
    }
    let mut acc: u128 = 0;
    let mut k: usize = 0;
    while k < 32
        invariant
            k <= 32,
            s@.len() == 36,
            acc == id_prefix_val(s@, k as int),
            forall|i: int| 0 <= i < k ==> hex_val(#[trigger] s@[i + hyphens_before_digit(i)]) < 16,
        decreases 32 - k,
    {
        let h: usize = if k < 8 {
            0
        } else if k < 12 {
            1
        } else if k < 16 {
            2
        } else if k < 20 {
            3
        } else {
            4
        };
        let b = s[k + h];
        let d: u8 = if 48 <= b && b <= 57 {
            b - 48
        } else if 97 <= b && b <= 102 {
            b - 87
        } else if 65 <= b && b <= 70 {
            b - 55
        } else {
            proof {
                let ki = k as int;
                assert(hyphens_before_digit(ki) == h as int);
                assert(hex_val(s@[ki + hyphens_before_digit(ki)]) == 16);
                assert(!id_text_wf(s@));
            }
            return None;
        };
        proof {
            lemma_id_prefix_val_bound(s@, k as int);
            lemma_pow16_le(k as int, 31);
            lemma_pow16_31();
            assert(acc * 16 + d < 0x100000000000000000000000000000000int) by (nonlinear_arith)
                requires
                    acc < 0x10000000000000000000000000000000,
                    d < 16,
            ;
        }
        acc = acc * 16 + d as u128;
        k = k + 1;
    }
    assert(id_text_wf(s@));
    Some(acc)
}

proof fn lemma_pow16_31()
    ensures
        pow16(31) == 0x10000000000000000000000000000000,
{
    reveal_with_fuel(pow16, 32);
}

proof fn lemma_pow16_32()
    ensures
        pow16(32) == 0x100000000000000000000000000000000int,
{
    reveal_with_fuel(pow16, 33);
}

/// Sixteen to the `k`-th power.
pub open spec fn pow16(k: int) -> int
    decreases k,
{
    if k <= 0 {
        1
    } else {
        16 * pow16(k - 1)
    }
}

proof fn lemma_pow16_pos(k: int)
    ensures
        pow16(k) >= 1,
    decreases k,
{
    if k > 0 {
        lemma_pow16_pos(k - 1);
    }
}

proof fn lemma_pow16_le(j: int, k: int)
    requires
        0 <= j <= k,
    ensures
        1 <= pow16(j) <= pow16(k),
    decreases k,
{
    lemma_pow16_pos(j);
    if j < k {
        lemma_pow16_le(j, k - 1);
        assert(pow16(k) == 16 * pow16(k - 1));
    }
}

/// The value of a prefix whose digits are all valid stays under sixteen
/// to the number of digits read.
proof fn lemma_id_prefix_val_bound(s: Seq<u8>, k: int)
    requires
        0 <= k <= 32,
        forall|i: int| 0 <= i < k ==> hex_val(#[trigger] s[i + hyphens_before_digit(i)]) < 16,
    ensures
        id_prefix_val(s, k) < pow16(k),
    decreases k,
{
    if k > 0 {
        lemma_id_prefix_val_bound(s, k - 1);
        lemma_pow16_le(k - 1, 32);
        let prev = id_prefix_val(s, k - 1);
        let d = hex_val(s[k - 1 + hyphens_before_digit(k - 1)]);
        assert(prev * 16 + d < pow16(k - 1) * 16) by (nonlinear_arith)
            requires
                prev < pow16(k - 1),
                d < 16,
                pow16(k - 1) >= 1,
        ;
        lemma_pow16_32();
        lemma_pow16_le(k, 32);
        assert(id_prefix_val(s, k) == mul16(prev, d));
    }
}

proof fn lemma_pow2_128()
    ensures
        pow2(128) == 0x100000000000000000000000000000000int,
{
    lemma2_to64();
    lemma_pow2_adds(64, 64);
}

/// The digit cell of the canonical text holds exactly the nibble it was
/// written from.
proof fn lemma_digit_cell(id: u128, k: int)
    requires
        0 <= k < 32,
    ensures
        hex_val(id_text(id)[k + hyphens_before_digit(k)]) == nibble(id, k),
        nibble(id, k) < 16,
{
    let j = k + hyphens_before_digit(k);
    let sh = (((31 - k) * 4) as u128);
    assert((id >> sh) & 0xf < 16) by (bit_vector);
    assert(j - hyphens_before(j) == k);
    assert(id_text(id)[j] == hex_char(nibble(id, k)));
}

/// The value read back from the first `k` digit cells of the canonical
/// text is the top `4 * k` bits of the identifier.
proof fn lemma_id_text_prefix(id: u128, k: int)
    requires
        0 <= k <= 32,
    ensures
        id_prefix_val(id_text(id), k) == id as nat / pow2(((32 - k) * 4) as nat),
    decreases k,
{
    let t = id_text(id);
    if k == 0 {
        lemma_pow2_128();
        lemma_basic_div(id as int, pow2(128) as int);
    } else {
        lemma_id_text_prefix(id, k - 1);
        lemma_digit_cell(id, k - 1);
        let sh = ((32 - k) * 4) as nat;
        let shu = sh as u128;
        lemma_pow2_pos(sh);
        lemma_u128_shr_is_div(id, shu);
        let q = id as nat / pow2(sh);
        let w = id >> shu;
        assert(w & 0xf == w % 16) by (bit_vector);
        assert(nibble(id, k - 1) == q % 16);
        lemma_pow2_adds(sh, 4);
        lemma2_to64();
        lemma_div_denominator(id as int, pow2(sh) as int, 16);
        assert(id_prefix_val(t, k - 1) == q / 16);
        lemma_fundamental_div_mod(q as int, 16);
        lemma_pow2_128();
        lemma_div_nonincreasing(id as int, pow2(sh) as int);
        lemma_small_mod(q, 0x100000000000000000000000000000000nat);
        assert(id_prefix_val(t, k) == mul16(
            id_prefix_val(t, k - 1),
            hex_val(t[k - 1 + hyphens_before_digit(k - 1)]),
        ));
        assert(id_prefix_val(t, k) == q);
    }
}

/// Every byte of the canonical identifier text is plain ASCII.
pub proof fn lemma_id_text_ascii(id: u128)
    ensures
        forall|j: int| 0 <= j < id_text(id).len() ==> id_text(id)[j] < 0x80,
{
    assert forall|j: int| 0 <= j < id_text(id).len() implies id_text(id)[j] < 0x80 by {
        if !(j == 8 || j == 13 || j == 18 || j == 23) {
            let k = j - hyphens_before(j);
            let sh = (((31 - k) * 4) as u128);
            assert((id >> sh) & 0xf < 16) by (bit_vector);
        }
    }
}

/// Canonical identifier text always reads back as the identifier it was
/// written from: the two directions of the text form agree.
pub proof fn lemma_id_text_round_trip(id: u128)
    ensures
        id_of_text(id_text(id)) == Some(id),
{
    let t = id_text(id);
    assert forall|k: int| 0 <= k < 32 implies hex_val(
        #[trigger] t[k + hyphens_before_digit(k)],
    ) < 16 by {
        lemma_digit_cell(id, k);
    }
    assert(id_text_wf(t));
    lemma_id_text_prefix(id, 32);
    assert(pow2(0) == 1) by {
        lemma2_to64();
    }
    assert(id as nat / pow2(0) == id as nat) by (nonlinear_arith)
        requires
            pow2(0) == 1nat,
    ;
}

/// Identifiers whose timestamps differ sort by timestamp, so insertion
/// order is recoverable from the identifier even across processes.
pub proof fn lemma_millis_order(a: u128, b: u128)
    requires
        millis_of(a) < millis_of(b),
    ensures
        a < b,
{
    assert((a >> 80) < (b >> 80) ==> a < b) by (bit_vector);
}

} // verus!
