//! Symbolic dimensions: integers, or affine expressions in the streaming
//! symbol `S`.
use vstd::prelude::*;

verus! {

/// The dimension `sym * S + konst`, where `S` is the streaming symbol.
/// Two dimensions are equal when their coefficients are.
#[derive(Debug, Clone, Copy, PartialEq, Eq, Structural, Hash)]
pub struct TDim {
    pub sym: i64,
    pub konst: i64,
}

/// Whether `v` fits in an `i64`.
pub open spec fn fits_i64(v: int) -> bool {
    i64::MIN <= v <= i64::MAX
}

/// The affine dimension with the given coefficients, when both fit.
pub open spec fn affine(sym: int, konst: int) -> Option<TDim> {
    if fits_i64(sym) && fits_i64(konst) {
        Some(TDim { sym: sym as i64, konst: konst as i64 })
    } else {
        None
    }
}

/// Dividing by a positive integer keeps a value within the range of `i64`.
proof fn lemma_quotient_fits(x: int, d: int)
    requires
        d >= 1,
        fits_i64(x),
    ensures
        fits_i64(x / d),
{
    vstd::arithmetic::div_mod::lemma_fundamental_div_mod(x, d);
    let q = x / d;
    let r = x % d;
    assert(fits_i64(q)) by (nonlinear_arith)
        requires
            x == d * q + r,
            0 <= r < d,
            d >= 1,
            fits_i64(x),
    ;
}

impl TDim {
    /// Value of the dimension once `S` is given the value `s`.
    pub open spec fn value_at(self, s: int) -> int {
        self.sym * s + self.konst
    }

    /// Whether the dimension does not depend on `S`.
    pub open spec fn is_constant(self) -> bool {
        self.sym == 0
    }

    /// The product of two dimensions, when one of them is a constant and the
    /// coefficients fit.
    pub open spec fn product(self, o: TDim) -> Option<TDim> {
        if self.is_constant() {
            affine(self.konst * o.sym, self.konst * o.konst)
        } else if o.is_constant() {
            affine(self.sym * o.konst, self.konst * o.konst)
        } else {
            None
        }
    }

    /// The quotient by `d`: exact when `d` divides both coefficients, the
    /// floor of the quotient when the dimension is a constant.
    pub open spec fn quotient(self, d: int) -> Option<TDim> {
        if d <= 0 {
            None
        } else if (self.sym as int) % d == 0 && (self.konst as int) % d == 0 {
            affine((self.sym as int) / d, (self.konst as int) / d)
        } else if self.is_constant() {
            affine(0, (self.konst as int) / d)
        } else {
            None
        }
    }

    /// The remainder by `d`, under the same conditions as the quotient.
    pub open spec fn remainder(self, d: int) -> Option<TDim> {
        if d <= 0 {
            None
        } else if (self.sym as int) % d == 0 && (self.konst as int) % d == 0 {
            Some(TDim { sym: 0, konst: 0 })
        } else if self.is_constant() {
            affine(0, (self.konst as int) % d)
        } else {
            None
        }
    }

    /// The constant dimension `v`.
    pub fn from_int(v: i64) -> (r: TDim)
        ensures
            r.is_constant(),
            r.konst == v,
    {
        TDim { sym: 0, konst: v }
    }

    /// The streaming symbol `S` itself.
    pub fn stream() -> (r: TDim)
        ensures
            r.sym == 1,
            r.konst == 0,
    {
        TDim { sym: 1, konst: 0 }
    }

    /// The integer value of a constant dimension.
    pub fn to_integer(&self) -> (r: Option<i64>)
        ensures
            r == (if self.is_constant() { Some(self.konst) } else { None::<i64> }),
    {
        if self.sym == 0 {
            Some(self.konst)
        } else {
            None
        }
    }

    /// The sum of two dimensions, none when a coefficient overflows.
    pub fn checked_add(&self, o: &TDim) -> (r: Option<TDim>)
        ensures
            r == affine(self.sym + o.sym, self.konst + o.konst),
    {
        match (self.sym.checked_add(o.sym), self.konst.checked_add(o.konst)) {
            (Some(sym), Some(konst)) => Some(TDim { sym, konst }),
            _ => None,
        }
    }

    /// The difference of two dimensions, none when a coefficient overflows.
    pub fn checked_sub(&self, o: &TDim) -> (r: Option<TDim>)
        ensures
            r == affine(self.sym - o.sym, self.konst - o.konst),
    {
        match (self.sym.checked_sub(o.sym), self.konst.checked_sub(o.konst)) {
            (Some(sym), Some(konst)) => Some(TDim { sym, konst }),
            _ => None,
        }
    }

    /// The product of two dimensions (see `product`).
    pub fn checked_mul(&self, o: &TDim) -> (r: Option<TDim>)
        ensures
            r == self.product(*o),
    {
        let (k, d) = if self.sym == 0 {
            (self.konst, *o)
        } else if o.sym == 0 {
            (o.konst, *self)
        } else {
            return None;
        };
        match (d.sym.checked_mul(k), d.konst.checked_mul(k)) {
            (Some(sym), Some(konst)) => {
                proof {
                    assert(k * d.sym == d.sym * k) by (nonlinear_arith);
                    assert(k * d.konst == d.konst * k) by (nonlinear_arith);
                }
                Some(TDim { sym, konst })
            },
            _ => {
                proof {
                    assert(k * d.sym == d.sym * k) by (nonlinear_arith);
                    assert(k * d.konst == d.konst * k) by (nonlinear_arith);
                }
                None
            },
        }
    }

    /// The quotient by a positive integer (see `quotient`).
    pub fn div(&self, d: i64) -> (r: Option<TDim>)
        ensures
            r == self.quotient(d as int),
    {
        if d <= 0 {
            return None;
        }
        let sr = self.sym.checked_rem_euclid(d).unwrap();
        let kr = self.konst.checked_rem_euclid(d).unwrap();
        proof {
            lemma_quotient_fits(self.konst as int, d as int);
            lemma_quotient_fits(self.sym as int, d as int);
        }
        let kq = self.konst.checked_div_euclid(d).unwrap();
        if sr == 0 && kr == 0 {
            let sq = self.sym.checked_div_euclid(d).unwrap();
            Some(TDim { sym: sq, konst: kq })
        } else if self.sym == 0 {
            Some(TDim { sym: 0, konst: kq })
        } else {
            None
        }
    }

    /// The remainder by a positive integer (see `remainder`).
    pub fn rem(&self, d: i64) -> (r: Option<TDim>)
        ensures
            r == self.remainder(d as int),
    {
        if d <= 0 {
            return None;
        }
        let sr = self.sym.checked_rem_euclid(d).unwrap();
        let kr = self.konst.checked_rem_euclid(d).unwrap();
        if sr == 0 && kr == 0 {
            Some(TDim { sym: 0, konst: 0 })
        } else if self.sym == 0 {
            Some(TDim { sym: 0, konst: kr })
        } else {
            None
        }
    }

    /// The dimension with `S` replaced by `s`, none when the value does not
    /// fit in an `i64`.
    pub fn substitute(&self, s: i64) -> (r: Option<TDim>)
        ensures
            r == affine(0, self.value_at(s as int)),
    {
        let a = self.sym as i128;
        let b = s as i128;
        proof {
            assert(-0x8000_0000_0000_0000 * 0x8000_0000_0000_0000 <= a * b <= 0x8000_0000_0000_0000 * 0x8000_0000_0000_0000)
                by (nonlinear_arith)
                requires
                    -0x8000_0000_0000_0000 <= a <= 0x7fff_ffff_ffff_ffff,
                    -0x8000_0000_0000_0000 <= b <= 0x7fff_ffff_ffff_ffff,
            ;
        }
        let v: i128 = a * b + self.konst as i128;
        if v < i64::MIN as i128 || v > i64::MAX as i128 {
            None
        } else {
            Some(TDim { sym: 0, konst: v as i64 })
        }
    }
}

} // verus!
