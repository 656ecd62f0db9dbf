//! Pure helpers of the interpreter: how ints travel as two stack words, Java
//! integer division and remainder, shifts, conversions and branch targets.
use vstd::prelude::*;
use crate::opcodes::ExecResult;

verus! {

/// The int whose high word is `hi` and low word is `lo`.
pub open spec fn int_of_words(hi: u16, lo: u16) -> i32 {
    (hi as int * 65536 + lo as int) as i32
}

/// The high word of an int.
pub open spec fn high_word(v: i32) -> u16 {
    ((v as u32) / 65536) as u16
}

/// The low word of an int.
pub open spec fn low_word(v: i32) -> u16 {
    ((v as u32) % 65536) as u16
}

/// Join two stack words into an int.
pub fn words_to_int(hi: u16, lo: u16) -> (r: i32)
    ensures
        r == int_of_words(hi, lo),
{
    ((hi as u32) * 65536 + lo as u32) as i32
}

/// Split an int into its high and low stack words.
pub fn int_to_words(v: i32) -> (r: (u16, u16))
    ensures
        r.0 == high_word(v),
        r.1 == low_word(v),
{
    let b = v as u32;
    ((b / 65536) as u16, (b % 65536) as u16)
}

/// Splitting an int into two words and joining them again gives the int back.
pub proof fn lemma_int_words_roundtrip(v: i32)
    ensures
        int_of_words(high_word(v), low_word(v)) == v,
{
    assert(((((v as u32) / 65536) as u16) as u32 * 65536 + (((v as u32) % 65536) as u16) as u32)
        as i32 == v) by (bit_vector);
}

/// The magnitude of an integer.
pub open spec fn abs(a: int) -> int {
    if a < 0 {
        -a
    } else {
        a
    }
}

/// Java integer division: the quotient truncated toward zero.
pub open spec fn java_div(a: int, b: int) -> int {
    if (a < 0) == (b < 0) {
        abs(a) / abs(b)
    } else {
        -(abs(a) / abs(b))
    }
}

/// Java integer remainder: it takes the sign of the dividend.
pub open spec fn java_rem(a: int, b: int) -> int {
    if a < 0 {
        -(abs(a) % abs(b))
    } else {
        abs(a) % abs(b)
    }
}

/// The division law for Java's quotient and remainder: the dividend is the quotient
/// times the divisor plus the remainder, the remainder is smaller than the divisor in
/// magnitude and has the dividend's sign, and the quotient is no larger than the
/// dividend in magnitude.
pub proof fn lemma_java_div_rem(a: int, b: int)
    requires
        b != 0,
    ensures
        a == java_div(a, b) * b + java_rem(a, b),
        abs(java_rem(a, b)) < abs(b),
        java_rem(a, b) == 0 || (java_rem(a, b) < 0) == (a < 0),
        abs(java_div(a, b)) <= abs(a),
{
    let x = abs(a);
    let y = abs(b);
    let q0 = x / y;
    let r0 = x % y;
    assert(x == q0 * y + r0 && 0 <= r0 < y && 0 <= q0 <= x) by (nonlinear_arith)
        requires
            x >= 0,
            y > 0,
            q0 == x / y,
            r0 == x % y,
    {
        vstd::arithmetic::div_mod::lemma_fundamental_div_mod(x, y);
        vstd::arithmetic::div_mod::lemma_mod_bound(x, y);
        vstd::arithmetic::div_mod::lemma_div_pos_is_pos(x, y);
        vstd::arithmetic::div_mod::lemma_div_is_ordered_by_denominator(x, 1, y);
    }
    if a >= 0 {
        if b > 0 {
            assert(a == q0 * b + r0);
        } else {
            assert(a == (-q0) * b + r0) by (nonlinear_arith)
                requires
                    a == q0 * y + r0,
                    y == -b,
            ;
        }
    } else {
        if b > 0 {
            assert(a == (-q0) * b + (-r0)) by (nonlinear_arith)
                requires
                    -a == q0 * y + r0,
                    y == b,
            ;
        } else {
            assert(a == q0 * b + (-r0)) by (nonlinear_arith)
                requires
                    -a == q0 * y + r0,
                    y == -b,
            ;
        }
    }
}

/// `sdiv`: division by zero throws, `MIN / -1` wraps to `MIN`.
pub open spec fn sdiv_result(a: i16, b: i16) -> Result<i16, ExecResult> {
    if b == 0 {
        Err(ExecResult::ArithmeticException)
    } else if a == i16::MIN && b == -1 {
        Ok(i16::MIN)
    } else {
        Ok(java_div(a as int, b as int) as i16)
    }
}

/// `srem`: division by zero throws, `MIN % -1` is 0.
pub open spec fn srem_result(a: i16, b: i16) -> Result<i16, ExecResult> {
    if b == 0 {
        Err(ExecResult::ArithmeticException)
    } else if a == i16::MIN && b == -1 {
        Ok(0)
    } else {
        Ok(java_rem(a as int, b as int) as i16)
    }
}

/// `idiv`: division by zero throws, `MIN / -1` wraps to `MIN`.
pub open spec fn idiv_result(a: i32, b: i32) -> Result<i32, ExecResult> {
    if b == 0 {
        Err(ExecResult::ArithmeticException)
    } else if a == i32::MIN && b == -1 {
        Ok(i32::MIN)
    } else {
        Ok(java_div(a as int, b as int) as i32)
    }
}

/// `irem`: division by zero throws, `MIN % -1` is 0.
pub open spec fn irem_result(a: i32, b: i32) -> Result<i32, ExecResult> {
    if b == 0 {
        Err(ExecResult::ArithmeticException)
    } else if a == i32::MIN && b == -1 {
        Ok(0)
    } else {
        Ok(java_rem(a as int, b as int) as i32)
    }
}

fn magnitude(a: i32) -> (r: u64)
    ensures
        r == abs(a as int),
{
    if a < 0 {
        (-(a as i64)) as u64
    } else {
        a as u64
    }
}

/// Short division with Java semantics.
pub fn sdiv(a: i16, b: i16) -> (r: Result<i16, ExecResult>)
    ensures
        r == sdiv_result(a, b),
{
    if b == 0 {
        return Err(ExecResult::ArithmeticException);
    }
    if a == i16::MIN && b == -1 {
        return Ok(i16::MIN);
    }
    let q = magnitude(a as i32) / magnitude(b as i32);
    let v: i64 = if (a < 0) == (b < 0) {
        q as i64
    } else {
        -(q as i64)
    };
    Ok(v as i16)
}

/// Short remainder with Java semantics.
pub fn srem(a: i16, b: i16) -> (r: Result<i16, ExecResult>)
    ensures
        r == srem_result(a, b),
{
    if b == 0 {
        return Err(ExecResult::ArithmeticException);
    }
    if a == i16::MIN && b == -1 {
        return Ok(0);
    }
    let m = magnitude(a as i32) % magnitude(b as i32);
    let v: i64 = if a < 0 {
        -(m as i64)
    } else {
        m as i64
    };
    Ok(v as i16)
}

/// Int division with Java semantics.
pub fn idiv(a: i32, b: i32) -> (r: Result<i32, ExecResult>)
    ensures
        r == idiv_result(a, b),
{
    if b == 0 {
        return Err(ExecResult::ArithmeticException);
    }
    if a == i32::MIN && b == -1 {
        return Ok(i32::MIN);
    }
    let q = magnitude(a) / magnitude(b);
    let v: i64 = if (a < 0) == (b < 0) {
        q as i64
    } else {
        -(q as i64)
    };
    Ok(v as i32)
}

/// Int remainder with Java semantics.
pub fn irem(a: i32, b: i32) -> (r: Result<i32, ExecResult>)
    ensures
        r == irem_result(a, b),
{
    if b == 0 {
        return Err(ExecResult::ArithmeticException);
    }
    if a == i32::MIN && b == -1 {
        return Ok(0);
    }
    let m = magnitude(a) % magnitude(b);
    let v: i64 = if a < 0 {
        -(m as i64)
    } else {
        m as i64
    };
    Ok(v as i32)
}

/// The shift distance a short shift uses: the low five bits of the count.
pub open spec fn shift_distance(b: i16) -> u32 {
    ((b as u16) % 32) as u32
}

/// `sshl`: shift left, keep the low 16 bits.
pub open spec fn sshl_word(a: i16, b: i16) -> u16 {
    (((a as i32 as u32) << shift_distance(b)) % 65536) as u16
}

/// `sshr`: arithmetic shift right of the sign-extended value.
pub open spec fn sshr_word(a: i16, b: i16) -> u16 {
    ((a as i32) >> shift_distance(b)) as u16
}

/// `sushr`: logical shift right of the 16-bit word (distances of 16 and more give 0).
pub open spec fn sushr_word(a: u16, b: i16) -> u16 {
    ((a as u32) >> shift_distance(b)) as u16
}

/// The signed value a 16-bit stack word stands for (two's complement).
pub open spec fn signed_word(w: u16) -> int {
    if w >= 0x8000 {
        w - 0x10000
    } else {
        w as int
    }
}

/// A word read as a short is its two's-complement signed value.
pub proof fn lemma_signed_word(w: u16)
    ensures
        (w as i16) as int == signed_word(w),
{
    assert(w >= 0x8000 ==> (w as i16) as i32 == (w as i32) - 0x10000) by (bit_vector);
    assert(w < 0x8000 ==> (w as i16) as i32 == w as i32) by (bit_vector);
}

/// The 16-bit word of a short is the short taken modulo 2^16.
pub proof fn lemma_short_word(v: i16)
    ensures
        (v as u16) as int == (v as int) % 65536,
{
    assert(v < 0 ==> (v as u16) as i32 == (v as i32) + 65536) by (bit_vector);
    assert(v >= 0 ==> (v as u16) as i32 == v as i32) by (bit_vector);
}

/// `sushr` divides the 16-bit word by 2 to the power of the shift distance.
pub proof fn lemma_sushr_is_div(a: u16, b: i16)
    ensures
        sushr_word(a, b) as int == a as int / vstd::arithmetic::power2::pow2(shift_distance(b) as nat) as int,
{
    let d = shift_distance(b);
    let p = vstd::arithmetic::power2::pow2(d as nat) as int;
    vstd::bits::lemma_u32_shr_is_div(a as u32, d);
    vstd::arithmetic::power2::lemma_pow2_pos(d as nat);
    assert(a as int / p <= a as int) by (nonlinear_arith)
        requires
            p >= 1,
            a >= 0,
    ;
}

/// `sshr` is floor division of the short by 2 to the power of the shift distance.
pub proof fn lemma_sshr_is_div(a: i16, b: i16)
    ensures
        (sshr_word(a, b) as i16) as int == a as int / vstd::arithmetic::power2::pow2(shift_distance(b) as nat) as int,
{
    let d = shift_distance(b);
    let v = a as i32;
    let p = vstd::arithmetic::power2::pow2(d as nat) as int;
    vstd::arithmetic::power2::lemma_pow2_pos(d as nat);
    let z = v >> d;
    if a >= 0 {
        assert(z == ((v as u32) >> d) as i32) by (bit_vector)
            requires
                v >= 0,
                z == v >> d,
        ;
        vstd::bits::lemma_u32_shr_is_div(v as u32, d);
        assert(a as int / p <= a as int) by (nonlinear_arith)
            requires
                p >= 1,
                a >= 0,
        ;
        assert(0 <= a as int / p) by (nonlinear_arith)
            requires
                p >= 1,
                a >= 0,
        ;
    } else {
        let nv = !v;
        assert(nv == -(v as int) - 1 && nv >= 0) by (bit_vector)
            requires
                v < 0,
                nv == !v,
        ;
        let t = ((nv as u32) >> d) as i32;
        assert(z == -(t as int) - 1 && t >= 0) by (bit_vector)
            requires
                nv >= 0,
                nv == !v,
                z == v >> d,
                t == ((nv as u32) >> d) as i32,
        ;
        vstd::bits::lemma_u32_shr_is_div(nv as u32, d);
        let q = (nv as int) / p;
        let r = (nv as int) % p;
        vstd::arithmetic::div_mod::lemma_fundamental_div_mod(nv as int, p);
        vstd::arithmetic::div_mod::lemma_mod_pos_bound(nv as int, p);
        assert(v as int == (-q - 1) * p + (p - r - 1)) by (nonlinear_arith)
            requires
                nv as int == p * q + r,
                nv as int == -(v as int) - 1,
        ;
        vstd::arithmetic::div_mod::lemma_fundamental_div_mod_converse(v as int, p, -q - 1, p - r - 1);
        assert(q <= nv as int) by (nonlinear_arith)
            requires
                p >= 1,
                nv >= 0,
                q == nv as int / p,
        ;
    }
    assert(-32768 <= z <= 32767);
    assert(((z as u16) as i16) as i32 == z) by (bit_vector)
        requires
            -32768 <= z <= 32767,
    ;
}

/// `sshl` multiplies the short by 2 to the power of the shift distance and keeps the
/// result modulo 2^16.
pub proof fn lemma_sshl_is_mul(a: i16, b: i16)
    ensures
        sshl_word(a, b) as int == ((a as int) * vstd::arithmetic::power2::pow2(shift_distance(b) as nat)) % 65536,
{
    let d = shift_distance(b);
    let p = vstd::arithmetic::power2::pow2(d as nat) as int;
    let u = a as i32 as u32;
    let l = u % 65536;
    assert(((u << d) % 65536) == ((l << d) % 65536)) by (bit_vector)
        requires
            d < 32,
            l == u % 65536,
    ;
    assert((l as u16) == (a as u16)) by (bit_vector)
        requires
            u == a as i32 as u32,
            l == u % 65536,
    ;
    lemma_short_word(a);
    assert(l as int == (a as int) % 65536);
    vstd::arithmetic::power2::lemma2_to64();
    if d < 16 {
        if d < 15 {
            vstd::arithmetic::power2::lemma_pow2_strictly_increases(d as nat, 15);
        }
        assert(l * p <= u32::MAX) by (nonlinear_arith)
            requires
                l < 65536,
                p <= 32768,
        ;
        vstd::bits::lemma_u32_shl_is_mul(l, d);
        vstd::arithmetic::div_mod::lemma_mul_mod_noop_left(a as int, p, 65536);
    } else {
        assert(((l << d) % 65536) == 0) by (bit_vector)
            requires
                16 <= d < 32,
        ;
        let k = vstd::arithmetic::power2::pow2((d - 16) as nat) as int;
        vstd::arithmetic::power2::lemma_pow2_adds(16, (d - 16) as nat);
        assert((a as int) * p == ((a as int) * k) * 65536) by (nonlinear_arith)
            requires
                p == 65536 * k,
        ;
        vstd::arithmetic::div_mod::lemma_mod_multiples_basic((a as int) * k, 65536);
    }
}

/// Shift helpers for shorts.
pub fn sshl(a: i16, b: i16) -> (r: u16)
    ensures
        r == sshl_word(a, b),
{
    let s = ((b as u16) % 32) as u32;
    (((a as i32 as u32) << s) % 65536) as u16
}

/// Arithmetic right shift of a short.
pub fn sshr(a: i16, b: i16) -> (r: u16)
    ensures
        r == sshr_word(a, b),
{
    let s = ((b as u16) % 32) as u32;
    ((a as i32) >> s) as u16
}

/// Logical right shift of a short word.
pub fn sushr(a: u16, b: i16) -> (r: u16)
    ensures
        r == sushr_word(a, b),
{
    let s = ((b as u16) % 32) as u32;
    ((a as u32) >> s) as u16
}

/// `ishl`: shift left by the low five bits of the count.
pub open spec fn ishl_value(a: i32, b: i16) -> i32 {
    ((a as u32) << shift_distance(b)) as i32
}

/// `ishr`: arithmetic shift right by the low five bits of the count.
pub open spec fn ishr_value(a: i32, b: i16) -> i32 {
    a >> shift_distance(b)
}

/// `iushr`: logical shift right by the low five bits of the count.
pub open spec fn iushr_value(a: i32, b: i16) -> i32 {
    ((a as u32) >> shift_distance(b)) as i32
}

/// Int shift left.
pub fn ishl(a: i32, b: i16) -> (r: i32)
    ensures
        r == ishl_value(a, b),
{
    let s = ((b as u16) % 32) as u32;
    ((a as u32) << s) as i32
}

/// Int arithmetic shift right.
pub fn ishr(a: i32, b: i16) -> (r: i32)
    ensures
        r == ishr_value(a, b),
{
    let s = ((b as u16) % 32) as u32;
    a >> s
}

/// Int logical shift right.
pub fn iushr(a: i32, b: i16) -> (r: i32)
    ensures
        r == iushr_value(a, b),
{
    let s = ((b as u16) % 32) as u32;
    ((a as u32) >> s) as i32
}

/// The word `icmp` pushes: 1, 0 or -1 (all bits set) as `a` is above, equal to or
/// below `b`.
pub open spec fn int_compare_word(a: i32, b: i32) -> u16 {
    if a > b {
        1
    } else if a == b {
        0
    } else {
        0xFFFFu16
    }
}

/// Where a branch lands: `back` bytes before `pc` (the branching opcode), moved by
/// `offset`, within the 16-bit program counter.
pub open spec fn branch_pc(pc: u16, back: u16, offset: int) -> u16 {
    (pc as int - back as int + offset) as u16
}

/// Compute a branch target.
pub fn branch_target(pc: u16, back: u16, offset: i32) -> (r: u16)
    ensures
        r == branch_pc(pc, back, offset as int),
{
    ((pc as i64) - (back as i64) + (offset as i64)) as u16
}

} // verus!
