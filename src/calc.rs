use vstd::prelude::*;
use vstd::string::StringSliceAdditionalSpecFns;

verus! {

/// Why a calculation was refused.
#[derive(Clone, Copy, Debug, PartialEq, Eq)]
pub enum CalcError {
    DivideByZero,
    UnknownOperation,
}

pub open spec fn add_name() -> Seq<u8> {
    seq![0x61u8, 0x64, 0x64]
}

pub open spec fn subtract_name() -> Seq<u8> {
    seq![0x73u8, 0x75, 0x62, 0x74, 0x72, 0x61, 0x63, 0x74]
}

pub open spec fn multiply_name() -> Seq<u8> {
    seq![0x6du8, 0x75, 0x6c, 0x74, 0x69, 0x70, 0x6c, 0x79]
}

pub open spec fn divide_name() -> Seq<u8> {
    seq![0x64u8, 0x69, 0x76, 0x69, 0x64, 0x65]
}

/// Rust's truncating division, wrapping `i32::MIN / -1` to `i32::MIN`.
pub open spec fn div_trunc(a: i32, b: i32) -> i32 {
    if a == i32::MIN && b == -1 {
        i32::MIN
    } else {
        let q = (if a >= 0 { a as int } else { -(a as int) }) / (if b >= 0 { b as int } else { -(
        b as int) });
        (if (a >= 0) == (b >= 0) { q } else { -q }) as i32
    }
}

fn bytes_eq(a: &[u8], b: &[u8]) -> (r: bool)
    ensures
        r == (a@ == b@),
{
    if a.len() != b.len() {
        return false;
    }
    let mut i: usize = 0;
    while i < a.len()
        invariant
            a@.len() == b@.len(),
            i <= a@.len(),
            forall|j: int| 0 <= j < i ==> a@[j] == b@[j],
        decreases a@.len() - i,
    {
        if a[i] != b[i] {
            return false;
        }
        i = i + 1;
    }
    proof {
        assert(a@ =~= b@);
    }
    true
}

fn quotient(a: i32, b: i32) -> (r: i32)
    requires
        b != 0,
    ensures
        r == div_trunc(a, b),
{
    if a == i32::MIN && b == -1 {
        return i32::MIN;
    }
    let ua: u64 = if a >= 0 { a as u64 } else { (-(a as i64)) as u64 };
    let ub: u64 = if b >= 0 { b as u64 } else { (-(b as i64)) as u64 };
    let q = ua / ub;
    proof {
        assert(q <= ua) by (nonlinear_arith)
            requires ub >= 1, q == ua / ub;
    }
    if (a >= 0) == (b >= 0) {
        q as i32
    } else {
        (-(q as i64)) as i32
    }
}

/// Applies `operation` (`add`, `subtract`, `multiply` or `divide`) to `a`
/// and `b`. Sums, differences and products wrap around on overflow.
pub fn calculate(a: i32, b: i32, operation: &str) -> (r: Result<i32, CalcError>)
    ensures
        operation.spec_bytes() == add_name() ==> r == Ok::<i32, CalcError>(a.wrapping_add(b)),
        operation.spec_bytes() == subtract_name() ==> r == Ok::<i32, CalcError>(
            a.wrapping_sub(b),
        ),
        operation.spec_bytes() == multiply_name() ==> r == Ok::<i32, CalcError>(
            a.wrapping_mul(b),
        ),
        operation.spec_bytes() == divide_name() ==> r == if b == 0 {
            Err::<i32, CalcError>(CalcError::DivideByZero)
        } else {
            Ok(div_trunc(a, b))
        },
        operation.spec_bytes() != add_name() && operation.spec_bytes() != subtract_name()
            && operation.spec_bytes() != multiply_name() && operation.spec_bytes() != divide_name()
            ==> r == Err::<i32, CalcError>(CalcError::UnknownOperation),
{
    let op = operation.as_bytes();
    proof {
        assert(add_name()[0] != subtract_name()[0]);
        assert(add_name()[0] != multiply_name()[0]);
        assert(add_name()[0] != divide_name()[0]);
        assert(subtract_name()[0] != multiply_name()[0]);
        assert(subtract_name()[0] != divide_name()[0]);
        assert(multiply_name()[0] != divide_name()[0]);
    }
    if bytes_eq(op, &[0x61u8, 0x64, 0x64]) {
        Ok(a.wrapping_add(b))
    } else if bytes_eq(op, &[0x73u8, 0x75, 0x62, 0x74, 0x72, 0x61, 0x63, 0x74]) {
        Ok(a.wrapping_sub(b))
    } else if bytes_eq(op, &[0x6du8, 0x75, 0x6c, 0x74, 0x69, 0x70, 0x6c, 0x79]) {
        Ok(a.wrapping_mul(b))
    } else if bytes_eq(op, &[0x64u8, 0x69, 0x76, 0x69, 0x64, 0x65]) {
        if b == 0 {
            Err(CalcError::DivideByZero)
        } else {
            Ok(quotient(a, b))
        }
    } else {
        Err(CalcError::UnknownOperation)
    }
}

} // verus!
