use vstd::prelude::*;

verus! {

/// The bit that holds the sign of a single-precision number.
pub const SIGN_BIT: u32 = 0x8000_0000;

/// The bits of positive infinity: the greatest magnitude that is a number.
pub const INFINITY_BITS: u32 = 0x7f80_0000;

/// The bits of a single-precision number without its sign.
pub open spec fn magnitude(bits: u32) -> int {
    if bits >= SIGN_BIT {
        bits - SIGN_BIT
    } else {
        bits as int
    }
}

/// Whether the bits are those of a number, not of a NaN.
pub open spec fn is_number(bits: u32) -> bool {
    magnitude(bits) <= INFINITY_BITS
}

/// The code of the number with these bits: its magnitude, negated where the sign is
/// set. Numbers of one sign order as their magnitudes do, so the codes order as the
/// numbers do; both zeros have the code 0.
pub open spec fn code_of(bits: u32) -> int {
    if bits >= SIGN_BIT {
        -magnitude(bits)
    } else {
        magnitude(bits)
    }
}

/// Whether the integer is the code of a number.
pub open spec fn is_code(code: int) -> bool {
    -INFINITY_BITS <= code <= INFINITY_BITS
}

/// The bits of the number with this code; those of positive zero for 0.
pub open spec fn bits_of(code: int) -> int {
    if code >= 0 {
        code
    } else {
        SIGN_BIT - code
    }
}

/// Every number has a code, and the code leads back to the number: to the same
/// bits, but for negative zero, which comes back as positive zero.
pub proof fn lemma_code_round_trip(bits: u32)
    requires
        is_number(bits),
    ensures
        is_code(code_of(bits)),
        bits != SIGN_BIT ==> bits_of(code_of(bits)) == bits,
        bits == SIGN_BIT ==> bits_of(code_of(bits)) == 0,
{
}

/// Every code is the code of a number, namely of the one it leads to.
pub proof fn lemma_bits_round_trip(code: int)
    requires
        is_code(code),
    ensures
        0 <= bits_of(code) <= u32::MAX,
        is_number(bits_of(code) as u32),
        code_of(bits_of(code) as u32) == code,
{
}

/// Among numbers that are not negative a greater magnitude has a greater code, among
/// those that are not positive a smaller one; and no negative number has a code as
/// great as one that is not.
pub proof fn lemma_code_orders(a: u32, b: u32)
    requires
        is_number(a),
        is_number(b),
    ensures
        a < SIGN_BIT && b < SIGN_BIT ==> (code_of(a) < code_of(b) <==> a < b),
        a >= SIGN_BIT && b >= SIGN_BIT ==> (code_of(a) < code_of(b) <==> a > b),
        a >= SIGN_BIT && b < SIGN_BIT ==> code_of(a) <= code_of(b),
        code_of(a) == code_of(b) <==> a == b || (magnitude(a) == 0 && magnitude(b) == 0),
{
}

/// The integer that stands for the single-precision number with the given bits;
/// nothing for a NaN, which has no place among the numbers.
pub fn encode(bits: u32) -> (code: Option<i32>)
    ensures
        code == (if is_number(bits) {
            Some(code_of(bits) as i32)
        } else {
            None
        }),
{
    let negative: bool = bits >= SIGN_BIT;
    let magnitude: u32 = if negative { bits - SIGN_BIT } else { bits };
    if magnitude > INFINITY_BITS {
        None
    } else if negative {
        Some(-(magnitude as i32))
    } else {
        Some(magnitude as i32)
    }
}

/// The bits of the number that the integer stands for; nothing for an integer that
/// stands for no number.
pub fn decode(code: i32) -> (bits: Option<u32>)
    ensures
        bits == (if is_code(code as int) {
            Some(bits_of(code as int) as u32)
        } else {
            None
        }),
{
    if code >= 0 {
        if code as u32 > INFINITY_BITS {
            None
        } else {
            Some(code as u32)
        }
    } else if code < -(INFINITY_BITS as i32) {
        None
    } else {
        Some(SIGN_BIT + ((-code) as u32))
    }
}

/// The integers that stand for the numbers with the given bits, one for one; nothing
/// if there is a NaN among them.
pub fn encode_all(bits: &[u32]) -> (codes: Option<Vec<i32>>)
    ensures
        match codes {
            Some(codes) => codes@.len() == bits@.len() && forall|i: int|
                0 <= i < bits@.len() ==> is_number(#[trigger] bits@[i]) && codes@[i] == code_of(
                    bits@[i],
                ),
            None => exists|i: int| 0 <= i < bits@.len() && !is_number(#[trigger] bits@[i]),
        },
{
    let mut codes: Vec<i32> = Vec::new();
    let mut i: usize = 0;
    while i < bits.len()
        invariant
            i <= bits@.len(),
            codes@.len() == i,
            forall|j: int|
                0 <= j < i ==> is_number(#[trigger] bits@[j]) && codes@[j] == code_of(bits@[j]),
        decreases bits@.len() - i,
    {
        match encode(bits[i]) {
            Some(code) => {
                codes.push(code);
            },
            None => {
                return None;
            },
        }
        i = i + 1;
    }
    Some(codes)
}

} // verus!
