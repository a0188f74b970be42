//! One-byte lossy numeral for non-negative magnitudes ("CTF"): a 5-bit
//! mantissa and a 3-bit exponent, decoding to `mantissa * 4^exponent`.
//! Rounding a magnitude down (`floor`) or up (`ceil`) saturates at the
//! largest representable magnitude instead of failing.

use vstd::arithmetic::div_mod::{
    lemma_div_decreases, lemma_div_denominator, lemma_div_is_ordered, lemma_div_multiples_vanish,
    lemma_div_nonincreasing, lemma_fundamental_div_mod, lemma_fundamental_div_mod_converse_div,
    lemma_fundamental_div_mod_converse_mod,
};
use vstd::arithmetic::mul::{
    lemma_mul_inequality, lemma_mul_is_associative, lemma_mul_nonnegative,
    lemma_mul_strict_inequality_converse, lemma_mul_upper_bound,
};
use vstd::arithmetic::power::{lemma_pow_adds, lemma_pow_increases, lemma_pow_positive, pow};
use vstd::prelude::*;
use vstd::std_specs::cmp::PartialEqSpec;

verus! {

/// Largest magnitude a `Ctf` can represent: `31 * 4^7`.
pub const MAX_MAGNITUDE: usize = 507904;

/// A one-byte numeral: mantissa in `[0, 31]` (5 bits) and exponent in
/// `[0, 7]` (3 bits). The decoded magnitude is `mantissa * 4^exponent`.
///
/// Values are only ever built by `floor`, `ceil`, `saturated`, `default`
/// and `unpack`, all of which keep both fields within their bit widths.
#[derive(Copy, Clone, Debug)]
pub struct Ctf {
    mantissa: u8,
    exponent: u8,
}

impl Ctf {
    /// Mantissa field, for specifications.
    pub closed spec fn spec_mantissa(self) -> u8 {
        self.mantissa
    }

    /// Exponent field, for specifications.
    pub closed spec fn spec_exponent(self) -> u8 {
        self.exponent
    }

    /// Both fields lie within their bit-width domains.
    pub open spec fn wf(self) -> bool {
        self.spec_mantissa() <= 31 && self.spec_exponent() <= 7
    }

    #[verifier::type_invariant]
    spec fn type_inv(self) -> bool {
        self.wf()
    }

    /// Decoded magnitude: `mantissa * 4^exponent`.
    pub open spec fn decoded(self) -> int {
        self.spec_mantissa() * pow(4, self.spec_exponent() as nat)
    }
}

/// A magnitude is representable when some in-range (mantissa, exponent)
/// pair decodes to it.
pub open spec fn is_representable(w: int) -> bool {
    exists|m: int, e: nat| 0 <= m <= 31 && e <= 7 && w == #[trigger] (m * pow(4, e))
}

/// `4^(e+1) == 4 * 4^e`, one scale step.
proof fn lemma_pow4_step(e: nat)
    ensures
        pow(4, e + 1) == 4 * pow(4, e),
{
    lemma_pow_adds(4, e, 1);
    lemma_pow4_values();
}

/// `4^0` through `4^7`, the scale of each exponent value.
proof fn lemma_pow4_values()
    ensures
        pow(4, 0) == 1,
        pow(4, 1) == 4,
        pow(4, 2) == 16,
        pow(4, 3) == 64,
        pow(4, 4) == 256,
        pow(4, 5) == 1024,
        pow(4, 6) == 4096,
        pow(4, 7) == 16384,
{
    reveal_with_fuel(pow, 8);
}

impl Ctf {
    /// The saturated numeral, as a specification value.
    pub closed spec fn spec_saturated() -> Ctf {
        Ctf { mantissa: 31, exponent: 7 }
    }

    /// The fixed maximum numeral: mantissa 31, exponent 7, magnitude 507904.
    /// `floor` and `ceil` return it for any magnitude at or above it.
    pub fn saturated() -> (r: Ctf)
        ensures
            r == Ctf::spec_saturated(),
            r.wf(),
            r.decoded() == MAX_MAGNITUDE,
    {
        proof {
            lemma_pow4_values();
        }
        Ctf { mantissa: 0x1F, exponent: 0x7 }
    }

    /// Decoded magnitude of the numeral; never overflows since the largest
    /// representable magnitude is 507904.
    pub fn decode(&self) -> (v: usize)
        ensures
            v == self.decoded(),
    {
        proof {
            use_type_invariant(self);
            lemma_pow4_values();
        }
        let m = self.mantissa;
        let e = self.exponent;
        let mut scale: usize = 1;
        let mut i: u8 = 0;
        while i < e
            invariant
                i <= e,
                e <= 7,
                scale == pow(4, i as nat),
            decreases e - i,
        {
            proof {
                lemma_pow4_values();
                lemma_pow_increases(4, i as nat, 6);
            }
            scale = scale * 4;
            i = i + 1;
        }
        proof {
            lemma_pow4_values();
            lemma_pow_increases(4, e as nat, 7);
            lemma_mul_upper_bound(m as int, 31, scale as int, 16384);
        }
        m as usize * scale
    }
}

impl Ctf {
    /// Rounding down, as a specification value: scale the magnitude down by 4
    /// until it fits the 5-bit mantissa, saturating once the exponent would
    /// leave its 3-bit domain.
    pub closed spec fn spec_floor(v: nat) -> Ctf
        decreases v,
    {
        if v < 32 {
            Ctf { mantissa: v as u8, exponent: 0 }
        } else {
            let f = Ctf::spec_floor(v / 4);
            if f.exponent >= 7 {
                Ctf::spec_saturated()
            } else {
                Ctf { mantissa: f.mantissa, exponent: (f.exponent + 1) as u8 }
            }
        }
    }
}

/// Shape of `spec_floor(v)`: its fields are in range, its exponent is the
/// least one that brings `v` into the mantissa range, its mantissa is `v`
/// scaled down by that exponent, and magnitudes past the exponent's domain
/// saturate.
proof fn lemma_spec_floor_parts(v: nat)
    ensures
        Ctf::spec_floor(v).wf(),
        Ctf::spec_floor(v).spec_exponent() > 0 ==> v >= 32 * pow(
            4,
            (Ctf::spec_floor(v).spec_exponent() - 1) as nat,
        ),
        v >= 32 * pow(4, 7) ==> Ctf::spec_floor(v) == Ctf::spec_saturated(),
        v < 32 * pow(4, 7) ==> Ctf::spec_floor(v).spec_mantissa() == v as int / pow(
            4,
            Ctf::spec_floor(v).spec_exponent() as nat,
        ),
        v < 32 * pow(4, 7) ==> v < 32 * pow(4, Ctf::spec_floor(v).spec_exponent() as nat),
    decreases v,
{
    lemma_pow4_values();
    if v < 32 {
        assert(Ctf::spec_floor(v).spec_mantissa() == v as u8);
        assert(v as int / pow(4, 0) == v as int / 1);
    } else {
        lemma_div_decreases(v as int, 4);
        lemma_spec_floor_parts(v / 4);
        let g = Ctf::spec_floor(v / 4);
        let ge = g.spec_exponent() as nat;
        lemma_fundamental_div_mod(v as int, 4);
        if g.spec_exponent() >= 7 {
            // The inner exponent is already at its top, so `v` is at or past
            // the saturation threshold and the result is the saturated value.
            assert(v / 4 >= 32 * pow(4, 6));
            assert(v >= 4 * (v / 4));
            assert(pow(4, 7) == 4 * pow(4, 6));
            assert(v >= 32 * pow(4, 7));
            assert(Ctf::spec_floor(v) == Ctf::spec_saturated());
        } else {
            // The exponent grows by one and the mantissa is scaled once more.
            let f = Ctf::spec_floor(v);
            assert(f.spec_exponent() == ge + 1);
            lemma_pow4_step(ge);
            // Minimality of the exponent.
            if ge == 0 {
                assert(v >= 32 * pow(4, 0));
            } else {
                assert(v / 4 >= 32 * pow(4, (ge - 1) as nat));
                lemma_pow4_step((ge - 1) as nat);
                assert(v >= 32 * pow(4, ge)) by {
                    assert(v >= 4 * (v / 4));
                    assert(4 * (v / 4) >= 4 * (32 * pow(4, (ge - 1) as nat)));
                };
            }
            // `v` stays below the saturation threshold here.
            assert(v / 4 < 32 * pow(4, ge));
            assert(v <= 4 * (v / 4) + 3);
            assert(v < 32 * pow(4, ge + 1));
            assert(pow(4, ge) <= pow(4, 6)) by {
                lemma_pow_increases(4, ge, 6);
            };
            assert(v < 32 * pow(4, 7)) by {
                assert(32 * pow(4, ge + 1) <= 32 * pow(4, 7)) by {
                    lemma_pow_increases(4, ge + 1, 7);
                };
            };
            // The mantissa is `v` scaled down by the full exponent.
            assert(g.spec_mantissa() == (v / 4) as int / pow(4, ge));
            assert((v / 4) as int / pow(4, ge) == v as int / (4 * pow(4, ge))) by {
                lemma_pow_positive(4, ge);
                lemma_div_denominator(v as int, 4, pow(4, ge));
            };
        }
    }
}

/// `spec_floor(v)` is pinned by its shape: any in-range pair whose exponent
/// is minimal and whose mantissa is `v` scaled down by it is the floor.
proof fn lemma_floor_shape(v: nat, m: nat, e: nat)
    requires
        e <= 7,
        m == v as int / pow(4, e),
        m < 32,
        e > 0 ==> v >= 32 * pow(4, (e - 1) as nat),
    ensures
        Ctf::spec_floor(v) == (Ctf { mantissa: m as u8, exponent: e as u8 }),
{
    lemma_pow4_values();
    lemma_spec_floor_parts(v);
    lemma_pow_positive(4, e);
    let p = pow(4, e);
    // From `v / p < 32` conclude `v < 32 * p`.
    assert(v < 32 * p) by {
        lemma_fundamental_div_mod(v as int, p);
        assert(v < p * (v as int / p) + p);
        assert(p * (v as int / p) + p == p * (v as int / p + 1)) by (nonlinear_arith);
        lemma_mul_inequality(v as int / p + 1, 32, p);
    };
    assert(v < 32 * pow(4, 7)) by {
        lemma_pow_increases(4, e, 7);
    };
    let f = Ctf::spec_floor(v);
    let fe = f.spec_exponent() as nat;
    if fe < e {
        // Then `v < 32 * 4^fe <= 32 * 4^(e-1)`, against e's minimality.
        assert(v < 32 * pow(4, fe));
        assert(pow(4, fe) <= pow(4, (e - 1) as nat)) by {
            lemma_pow_increases(4, fe, (e - 1) as nat);
        };
        assert(false);
    } else if fe > e {
        // Then `v >= 32 * 4^(fe-1) >= 32 * 4^e`, against `v < 32 * 4^e`.
        assert(v >= 32 * pow(4, (fe - 1) as nat));
        assert(pow(4, e) <= pow(4, (fe - 1) as nat)) by {
            lemma_pow_increases(4, e, (fe - 1) as nat);
        };
        assert(false);
    }
    assert(f.spec_mantissa() == m as u8);
    assert(f.spec_exponent() == e as u8);
}

/// Law: the floor of `v` decodes to the greatest representable magnitude
/// that does not exceed `v`.
pub proof fn lemma_floor_is_max(v: nat)
    ensures
        Ctf::spec_floor(v).wf(),
        Ctf::spec_floor(v).decoded() <= v,
        forall|w: int|
            is_representable(w) && w <= v ==> w <= Ctf::spec_floor(v).decoded(),
        is_representable(Ctf::spec_floor(v).decoded()),
{
    lemma_pow4_values();
    lemma_spec_floor_parts(v);
    let f = Ctf::spec_floor(v);
    let fm = f.spec_mantissa() as int;
    let fe = f.spec_exponent() as nat;
    let p = pow(4, fe);
    lemma_pow_positive(4, fe);
    assert(is_representable(f.decoded())) by {
        assert(f.decoded() == fm * pow(4, fe));
    };
    if v >= 32 * pow(4, 7) {
        // Saturated: the decoded magnitude is the largest representable one.
        assert(f.decoded() == 31 * pow(4, 7));
        assert forall|w: int| is_representable(w) && w <= v implies w <= f.decoded() by {
            let (m, e): (int, nat) = choose|m: int, e: nat|
                0 <= m <= 31 && e <= 7 && w == #[trigger] (m * pow(4, e));
            lemma_pow_positive(4, e);
            lemma_pow_increases(4, e, 7);
            lemma_mul_upper_bound(m, 31, pow(4, e), pow(4, 7));
        };
    } else {
        // fm == v / p, so the decoded magnitude is the greatest multiple of
        // `p` not exceeding `v`.
        assert(fm == v as int / p);
        assert(f.decoded() == (v as int / p) * p);
        assert(f.decoded() <= v) by {
            lemma_fundamental_div_mod(v as int, p);
        };
        assert forall|w: int| is_representable(w) && w <= v implies w <= f.decoded() by {
            let (m, e): (int, nat) = choose|m: int, e: nat|
                0 <= m <= 31 && e <= 7 && w == #[trigger] (m * pow(4, e));
            lemma_pow_positive(4, e);
            if e >= fe {
                // `w` is a multiple of `p` below `v`, hence at most `(v/p)*p`.
                let k = m * pow(4, (e - fe) as nat);
                assert(w == k * p) by {
                    lemma_pow_adds(4, (e - fe) as nat, fe);
                    assert(pow(4, e) == pow(4, (e - fe) as nat) * p);
                    assert(m * (pow(4, (e - fe) as nat) * p) == (m * pow(4, (e - fe) as nat)) * p)
                        by {
                        lemma_mul_is_associative(
                            m,
                            pow(4, (e - fe) as nat),
                            p,
                        );
                    };
                };
                lemma_pow_positive(4, (e - fe) as nat);
                assert(k >= 0) by {
                    lemma_mul_nonnegative(m, pow(4, (e - fe) as nat));
                };
                assert(k <= v as int / p) by {
                    lemma_div_is_ordered(w, v as int, p);
                    lemma_div_multiples_vanish(k, p);
                };
                lemma_mul_inequality(k, v as int / p, p);
            } else {
                // `w` uses a smaller exponent, so it stays under one mantissa
                // step of the floor's scale, which the floor already covers.
                assert(fe > 0);
                let q = pow(4, (fe - 1) as nat);
                assert(v >= 32 * q);
                assert(p == 4 * q) by {
                    lemma_pow4_step((fe - 1) as nat);
                };
                assert(fm >= 8) by {
                    assert(32 * q == 8 * p);
                    lemma_div_is_ordered(8 * p, v as int, p);
                    lemma_div_multiples_vanish(8, p);
                };
                assert(f.decoded() >= 8 * p) by {
                    lemma_mul_inequality(8, fm, p);
                };
                assert(w <= 31 * q) by {
                    lemma_pow_increases(4, e, (fe - 1) as nat);
                    lemma_mul_upper_bound(m, 31, pow(4, e), q);
                };
                assert(8 * p == 32 * q);
            }
        };
    }
}

impl Ctf {
    /// The CTF numeral whose decoded magnitude is the greatest representable
    /// value not exceeding `value`. Magnitudes at or above 507904 saturate.
    pub fn floor(value: usize) -> (r: Ctf)
        ensures
            r == Ctf::spec_floor(value as nat),
            r.wf(),
            r.decoded() <= value,
            forall|w: int| is_representable(w) && w <= value ==> w <= r.decoded(),
            value <= 31 ==> r.decoded() == value,
            value >= MAX_MAGNITUDE ==> r == Ctf::spec_saturated(),
    {
        proof {
            lemma_pow4_values();
        }
        let mut m: usize = value;
        let mut e: u8 = 0;
        while m >= 32
            invariant
                m == value as int / pow(4, e as nat),
                e > 0 ==> value as nat >= 32 * pow(4, (e - 1) as nat),
                e <= 32,
            decreases m,
        {
            proof {
                lemma_pow4_loop_step(value as nat, m as nat, e as nat);
            }
            e = e + 1;
            m = m / 4;
        }
        proof {
            lemma_pow_positive(4, e as nat);
            lemma_div_nonincreasing(value as int, pow(4, e as nat));
        }
        let r = if e >= 8 {
            proof {
                lemma_pow4_values();
                lemma_pow_increases(4, 7, (e - 1) as nat);
                lemma_spec_floor_parts(value as nat);
            }
            Ctf::saturated()
        } else {
            proof {
                lemma_floor_shape(value as nat, m as nat, e as nat);
            }
            Ctf { mantissa: m as u8, exponent: e }
        };
        proof {
            lemma_floor_is_max(value as nat);
            lemma_floor_small(value as nat);
            lemma_floor_saturates(value as nat);
        }
        r
    }
}

/// One pass of the floor loop keeps the loop facts: the next scale divides
/// `value` once more, the exponent stays minimal, and it stays small.
proof fn lemma_pow4_loop_step(value: nat, m: nat, e: nat)
    requires
        m == value as int / pow(4, e),
        m >= 32,
        e <= 32,
        value < 0x10000000000000000,
    ensures
        m as int / 4 == value as int / pow(4, e + 1),
        value >= 32 * pow(4, e),
        e < 32,
        m / 4 < m,
{
    lemma_pow_positive(4, e);
    let p = pow(4, e);
    lemma_pow4_step(e);
    assert(m as int / 4 == value as int / (p * 4)) by {
        lemma_div_denominator(value as int, p, 4);
    };
    assert(value >= 32 * p) by {
        lemma_fundamental_div_mod(value as int, p);
        assert(value == p * (value as int / p) + value as int % p);
        lemma_mul_inequality(32, value as int / p, p);
        assert(p * (value as int / p) == (value as int / p) * p);
    };
    assert(e < 32) by {
        lemma_pow4_big();
        if e >= 32 {
            lemma_pow_increases(4, 32, e);
            assert(32 * pow(4, e) >= 32 * pow(4, 32));
            assert(value < pow(4, 32));
        }
    };
    lemma_div_decreases(m as int, 4);
}

/// `4^8`, `4^16` and `4^32`, used to bound the floor loop's exponent.
proof fn lemma_pow4_big()
    ensures
        pow(4, 8) == 0x10000,
        pow(4, 16) == 0x100000000,
        pow(4, 32) == 0x10000000000000000,
{
    lemma_pow4_values();
    lemma_pow4_step(7);
    assert(pow(4, 16) == pow(4, 8) * pow(4, 8)) by {
        lemma_pow_adds(4, 8, 8);
    };
    assert(pow(4, 32) == pow(4, 16) * pow(4, 16)) by {
        lemma_pow_adds(4, 16, 16);
    };
}

/// Law: magnitudes up to 31 are represented exactly by their floor.
proof fn lemma_floor_small(v: nat)
    ensures
        v <= 31 ==> Ctf::spec_floor(v).decoded() == v,
{
    lemma_pow4_values();
    if v <= 31 {
        lemma_floor_is_max(v);
        assert(is_representable(v as int)) by {
            assert(v as int == v as int * pow(4, 0));
        };
    }
}

/// Law: every magnitude at or above 507904 floors to the saturated value.
proof fn lemma_floor_saturates(v: nat)
    ensures
        v >= MAX_MAGNITUDE ==> Ctf::spec_floor(v) == Ctf::spec_saturated(),
{
    lemma_pow4_values();
    lemma_spec_floor_parts(v);
    if v >= MAX_MAGNITUDE && v < 32 * pow(4, 7) {
        let f = Ctf::spec_floor(v);
        let fe = f.spec_exponent() as nat;
        // Below the next scale step, the exponent must already be 7 ...
        assert(fe == 7) by {
            assert(v < 32 * pow(4, fe));
            if fe < 7 {
                lemma_pow_increases(4, fe, 6);
                assert(32 * pow(4, fe) <= 32 * pow(4, 6));
                assert(false);
            }
        };
        // ... and the mantissa is pinned to 31 by the magnitude's range.
        assert(f.spec_mantissa() == v as int / pow(4, 7));
        assert(v as int / pow(4, 7) == 31) by {
            lemma_fundamental_div_mod_converse_div(
                v as int,
                16384,
                31,
                v as int - 31 * 16384,
            );
        };
        assert(f == Ctf::spec_saturated());
    }
}

/// A well-formed numeral that decodes to 507904 is the saturated one: no
/// other in-range pair reaches that magnitude.
proof fn lemma_sat_pattern(x: Ctf)
    requires
        x.wf(),
        x.decoded() == MAX_MAGNITUDE,
    ensures
        x == Ctf::spec_saturated(),
{
    lemma_pow4_values();
    let m = x.spec_mantissa() as int;
    let e = x.spec_exponent() as nat;
    if e < 7 {
        lemma_pow_increases(4, e, 6);
        lemma_mul_upper_bound(m, 31, pow(4, e), pow(4, 6));
        assert(false);
    }
    assert(x.spec_mantissa() == 31);
}

impl PartialEq for Ctf {
    /// Equality compares decoded magnitudes, not bit patterns: distinct
    /// (mantissa, exponent) pairs that decode alike are equal.
    fn eq(&self, other: &Self) -> (r: bool) {
        self.decode() == other.decode()
    }
}

impl vstd::std_specs::cmp::PartialEqSpecImpl for Ctf {
    open spec fn obeys_eq_spec() -> bool {
        true
    }

    open spec fn eq_spec(&self, other: &Self) -> bool {
        self.decoded() == other.decoded()
    }
}

/// Law: two numerals compare equal exactly when their decoded magnitudes
/// agree, whatever their bit patterns.
pub proof fn lemma_eq_is_magnitude(a: Ctf, b: Ctf)
    ensures
        a.eq_spec(&b) <==> a.decoded() == b.decoded(),
{
}

impl Ctf {
    /// Rounding up, as a specification value: the floor, bumped to the next
    /// numeral when it fell short; a full mantissa rolls over to mantissa 8
    /// at the next exponent, and the saturated floor stays put.
    pub closed spec fn spec_ceil(v: nat) -> Ctf {
        let f = Ctf::spec_floor(v);
        if f == Ctf::spec_saturated() {
            f
        } else if f.decoded() == v {
            f
        } else if f.mantissa < 31 {
            Ctf { mantissa: (f.mantissa + 1) as u8, exponent: f.exponent }
        } else {
            Ctf { mantissa: 8, exponent: (f.exponent + 1) as u8 }
        }
    }
}

/// Law: the ceiling of `v` decodes to the least representable magnitude at
/// or above `v`; past 507904 no such magnitude exists and the result
/// saturates.
pub proof fn lemma_ceil_is_min(v: nat)
    ensures
        Ctf::spec_ceil(v).wf(),
        v <= MAX_MAGNITUDE ==> v <= Ctf::spec_ceil(v).decoded(),
        forall|w: int| is_representable(w) && v <= w ==> Ctf::spec_ceil(v).decoded() <= w,
        v >= MAX_MAGNITUDE ==> Ctf::spec_ceil(v) == Ctf::spec_saturated(),
        is_representable(Ctf::spec_ceil(v).decoded()),
{
    lemma_pow4_values();
    lemma_spec_floor_parts(v);
    lemma_floor_is_max(v);
    lemma_floor_saturates(v);
    let f = Ctf::spec_floor(v);
    let c = Ctf::spec_ceil(v);
    let d = f.decoded();
    let fm = f.spec_mantissa() as int;
    let fe = f.spec_exponent() as nat;
    let p = pow(4, fe);
    lemma_pow_positive(4, fe);
    if f == Ctf::spec_saturated() {
        // The floor saturated, so `v` is at or past the top magnitude and
        // every representable magnitude at or above it is the top itself.
        assert(c == f);
        assert(d == 31 * pow(4, 7));
        assert(v >= MAX_MAGNITUDE);
        assert(is_representable(c.decoded()));
    } else if d == v {
        // `v` is representable: its ceiling is its floor.
        assert(c == f);
        assert(is_representable(c.decoded()));
    } else {
        // The floor fell short; the next numeral up is one mantissa step of
        // the floor's scale away.
        assert(v < MAX_MAGNITUDE);
        assert(v < 32 * pow(4, 7));
        assert(fm == v as int / p);
        if f.spec_mantissa() < 31 {
            assert(c == Ctf { mantissa: (f.spec_mantissa() + 1) as u8, exponent: f.spec_exponent() });
            assert(c.decoded() == (fm + 1) * p);
            assert((fm + 1) * p == fm * p + p) by (nonlinear_arith);
        } else {
            // A full mantissa rolls over: 8 * 4^(e+1) == 32 * 4^e.
            assert(fe < 7) by {
                if fe == 7 {
                    assert(f == Ctf::spec_saturated());
                }
            };
            assert(c == Ctf { mantissa: 8, exponent: (f.spec_exponent() + 1) as u8 });
            lemma_pow4_step(fe);
            assert(c.decoded() == 8 * pow(4, fe + 1));
            assert(c.decoded() == 32 * p);
            assert(c.decoded() == fm * p + p);
        }
        assert(c.wf());
        assert(is_representable(c.decoded())) by {
            assert(c.decoded() == c.spec_mantissa() * pow(4, c.spec_exponent() as nat));
        };
        // `v` lies strictly between the floor and the next numeral.
        assert(d == (v as int / p) * p);
        assert(v < d + p) by {
            lemma_fundamental_div_mod(v as int, p);
        };
        // Minimality: any representable magnitude at or above `v` is at
        // least one mantissa step past the floor.
        assert forall|w: int| is_representable(w) && v <= w implies c.decoded() <= w by {
            let (m, e): (int, nat) = choose|m: int, e: nat|
                0 <= m <= 31 && e <= 7 && w == #[trigger] (m * pow(4, e));
            lemma_pow_positive(4, e);
            if e >= fe {
                let k = m * pow(4, (e - fe) as nat);
                assert(w == k * p) by {
                    lemma_pow_adds(4, (e - fe) as nat, fe);
                    lemma_mul_is_associative(m, pow(4, (e - fe) as nat), p);
                };
                lemma_pow_positive(4, (e - fe) as nat);
                assert(k >= 0) by {
                    lemma_mul_nonnegative(m, pow(4, (e - fe) as nat));
                };
                // w > d, both multiples of the floor's scale.
                assert(fm * p < k * p);
                lemma_mul_strict_inequality_converse(fm, k, p);
                assert(fm + 1 <= k);
                lemma_mul_inequality(fm + 1, k, p);
                assert((fm + 1) * p == fm * p + p) by (nonlinear_arith);
            } else {
                // A smaller exponent cannot reach `v` at all.
                assert(fe > 0);
                let q = pow(4, (fe - 1) as nat);
                assert(v >= 32 * q);
                assert(w <= 31 * q) by {
                    lemma_pow_increases(4, e, (fe - 1) as nat);
                    lemma_mul_upper_bound(m, 31, pow(4, e), q);
                };
                assert(false);
            }
        };
    }
}

/// Law: magnitudes up to 31 are represented exactly by their ceiling.
proof fn lemma_ceil_small(v: nat)
    ensures
        v <= 31 ==> Ctf::spec_ceil(v).decoded() == v,
{
    lemma_pow4_values();
    if v <= 31 {
        lemma_floor_small(v);
        lemma_floor_is_max(v);
        let f = Ctf::spec_floor(v);
        assert(f.decoded() == v);
        assert(f != Ctf::spec_saturated()) by {
            if f == Ctf::spec_saturated() {
                assert(f.decoded() == 31 * pow(4, 7));
            }
        };
        assert(Ctf::spec_ceil(v) == f);
    }
}

impl Ctf {
    /// The CTF numeral whose decoded magnitude is the least representable
    /// value at or above `value`; magnitudes at or above 507904 saturate,
    /// since nothing larger is representable.
    pub fn ceil(value: usize) -> (r: Ctf)
        ensures
            r == Ctf::spec_ceil(value as nat),
            r.wf(),
            value <= MAX_MAGNITUDE ==> value <= r.decoded(),
            forall|w: int| is_representable(w) && value <= w ==> r.decoded() <= w,
            value <= 31 ==> r.decoded() == value,
            value >= MAX_MAGNITUDE ==> r == Ctf::spec_saturated(),
    {
        proof {
            lemma_pow4_values();
            lemma_ceil_is_min(value as nat);
            lemma_ceil_small(value as nat);
        }
        let ctf = Ctf::floor(value);
        proof {
            use_type_invariant(ctf);
        }
        if Ctf::saturated() == ctf {
            proof {
                lemma_sat_pattern(ctf);
            }
            return ctf;
        }
        let m = ctf.mantissa;
        let e = ctf.exponent;
        let val = ctf.decode();
        if val < value {
            if m < 31 {
                Ctf { mantissa: m + 1, exponent: e }
            } else {
                proof {
                    // A full mantissa at the top exponent would be the
                    // saturated numeral, excluded above.
                    if e == 7 {
                        assert(ctf.decoded() == 31 * pow(4, 7));
                    }
                }
                Ctf { mantissa: 8, exponent: e + 1 }
            }
        } else {
            ctf
        }
    }
}

impl Ctf {
    /// Packed byte, as a specification value: exponent in bits 5 to 7,
    /// mantissa in bits 0 to 4.
    pub open spec fn spec_pack(self) -> u8 {
        (self.spec_exponent() * 32 + self.spec_mantissa()) as u8
    }

    /// The numeral a byte unpacks to, as a specification value: the low five
    /// bits are the mantissa, the high three the exponent.
    pub closed spec fn spec_unpack(b: u8) -> Ctf {
        Ctf { mantissa: b % 32, exponent: b / 32 }
    }

    /// Bit-exact one-byte serialization: bits 0 to 4 hold the mantissa,
    /// bits 5 to 7 the exponent.
    pub fn pack(&self) -> (b: [u8; 1])
        ensures
            b@.len() == 1,
            b@[0] == self.spec_pack(),
    {
        proof {
            use_type_invariant(self);
        }
        let m = self.mantissa;
        let e = self.exponent;
        let byte = (e << 5) | m;
        proof {
            assert((e << 5) | m == e * 32 + m) by (bit_vector)
                requires
                    m <= 31 && e <= 7,
            ;
        }
        [byte]
    }

    /// Rebuilds a numeral from its packed byte; every byte value yields a
    /// valid numeral, since both fields fill their bit widths exactly.
    pub fn unpack(src: &[u8; 1]) -> (r: Ctf)
        ensures
            r == Ctf::spec_unpack(src@[0]),
            r.wf(),
            r.spec_mantissa() == src@[0] % 32,
            r.spec_exponent() == src@[0] / 32,
    {
        let b = src[0];
        let m = b & 0x1F;
        let e = (b >> 5) & 0x07;
        proof {
            assert(b & 0x1F == b % 32) by (bit_vector);
            assert((b >> 5) & 0x07 == b / 32) by (bit_vector);
            assert(b / 32 <= 7) by (bit_vector);
        }
        Ctf { mantissa: m, exponent: e }
    }
}

/// Law: packing and unpacking round-trip bit-exactly on every well-formed
/// numeral, not merely up to decoded magnitude.
pub proof fn lemma_pack_unpack(x: Ctf)
    requires
        x.wf(),
    ensures
        Ctf::spec_unpack(x.spec_pack()) == x,
{
    let m = x.spec_mantissa();
    let e = x.spec_exponent();
    let b = x.spec_pack();
    assert(b == e * 32 + m);
    assert(b % 32 == m) by {
        lemma_fundamental_div_mod_converse_mod(b as int, 32, e as int, m as int);
    };
    assert(b / 32 == e) by {
        lemma_fundamental_div_mod_converse_div(b as int, 32, e as int, m as int);
    };
}

/// Law: a magnitude that is itself representable has equal floor and
/// ceiling, bit-exactly.
pub proof fn lemma_exact_floor_eq_ceil(v: nat)
    requires
        is_representable(v as int),
    ensures
        Ctf::spec_floor(v) == Ctf::spec_ceil(v),
        Ctf::spec_floor(v).decoded() == v,
{
    lemma_pow4_values();
    lemma_floor_is_max(v);
    let f = Ctf::spec_floor(v);
    // The floor of a representable magnitude is exact: `v` itself witnesses
    // the greatest representable magnitude at most `v`.
    assert(f.decoded() == v);
    assert(Ctf::spec_ceil(v) == f);
}

/// Law: rounding down is monotone in the decoded magnitude.
pub proof fn lemma_floor_monotone(v1: nat, v2: nat)
    requires
        v1 <= v2,
    ensures
        Ctf::spec_floor(v1).decoded() <= Ctf::spec_floor(v2).decoded(),
{
    lemma_floor_is_max(v1);
    lemma_floor_is_max(v2);
    // The floor of `v1` is representable and at most `v2`, so the floor of
    // `v2` is at least it.
    assert(Ctf::spec_floor(v1).decoded() <= v1);
}

/// Law: rounding up is monotone in the decoded magnitude.
pub proof fn lemma_ceil_monotone(v1: nat, v2: nat)
    requires
        v1 <= v2,
    ensures
        Ctf::spec_ceil(v1).decoded() <= Ctf::spec_ceil(v2).decoded(),
{
    lemma_pow4_values();
    lemma_ceil_is_min(v1);
    lemma_ceil_is_min(v2);
    let c1 = Ctf::spec_ceil(v1);
    let c2 = Ctf::spec_ceil(v2);
    if v2 <= MAX_MAGNITUDE {
        // The ceiling of `v2` is representable and at least `v1`, so the
        // ceiling of `v1` is at most it.
        assert(v1 <= c2.decoded());
    } else {
        // Past the top magnitude the ceiling of `v2` is saturated, which no
        // decoded magnitude exceeds.
        assert(c2.decoded() == 31 * pow(4, 7));
        lemma_pow_increases(4, c1.spec_exponent() as nat, 7);
        lemma_mul_upper_bound(
            c1.spec_mantissa() as int,
            31,
            pow(4, c1.spec_exponent() as nat),
            pow(4, 7),
        );
    }
}

impl From<Ctf> for usize {
    /// Decoding, as the standard conversion.
    fn from(value: Ctf) -> (r: usize)
        ensures
            r == value.decoded(),
    {
        value.decode()
    }
}

impl vstd::std_specs::convert::FromSpecImpl<Ctf> for usize {
    open spec fn obeys_from_spec() -> bool {
        true
    }

    open spec fn from_spec(v: Ctf) -> usize {
        v.decoded() as usize
    }
}

impl<'a> From<&'a Ctf> for usize {
    /// Decoding, as the standard conversion from a reference.
    fn from(value: &'a Ctf) -> (r: usize)
        ensures
            r == value.decoded(),
    {
        value.decode()
    }
}

impl<'a> vstd::std_specs::convert::FromSpecImpl<&'a Ctf> for usize {
    open spec fn obeys_from_spec() -> bool {
        true
    }

    open spec fn from_spec(v: &'a Ctf) -> usize {
        v.decoded() as usize
    }
}

impl Default for Ctf {
    /// The zero numeral: mantissa 0, exponent 0, magnitude 0.
    fn default() -> (r: Self)
        ensures
            r.wf(),
            r.spec_mantissa() == 0,
            r.spec_exponent() == 0,
            r.decoded() == 0,
    {
        Ctf { mantissa: 0, exponent: 0 }
    }
}

} // verus!
