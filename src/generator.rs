//! Exhaustive enumeration of the algorithms of a model, and their number.
use vstd::arithmetic::power::{lemma_pow_adds, lemma_pow_distributes, lemma_pow_increases, lemma_pow_positive, pow};
use vstd::prelude::*;

use crate::algorithm::{canonical_guards, guard_count, lemma_canonical_guards_shape, valid_algorithm, Algorithm, AlgorithmModel, Guard};
use crate::common::{move_of_rank, Color, ModelKind, Move};

verus! {

// ---------------------------------------------------------------------------
// Counting

/// The number of algorithms of a model, by the closed formula: with `g`
/// guards per distance class (`n * n` for `Full`, `n` otherwise), a class-L
/// model has `n^g * 3^g` algorithms, and the other the square of that.
pub open spec fn algorithm_count(model: ModelKind, n: nat, class_l: bool) -> int {
    let g: nat = match model {
        ModelKind::Full => n * n,
        _ => n,
    };
    let in_class_l = pow(n as int, g) * pow(3, g);
    if class_l {
        in_class_l
    } else {
        in_class_l * in_class_l
    }
}

/// `b^e`, or `None` where it does not fit in a `u64`.
fn checked_pow(b: u64, e: u32) -> (r: Option<u64>)
    ensures
        r == (if pow(b as int, e as nat) <= u64::MAX {
            Some(pow(b as int, e as nat) as u64)
        } else {
            None::<u64>
        }),
{
    let mut acc: u64 = 1;
    let mut i: u32 = 0;
    proof {
        reveal(pow);
    }
    while i < e
        invariant
            i <= e,
            acc as int == pow(b as int, i as nat),
        decreases e - i,
    {
        proof {
            reveal(pow);
            assert(pow(b as int, (i + 1) as nat) == b * pow(b as int, i as nat));
        }
        match acc.checked_mul(b) {
            Some(v) => {
                assert(v == b * pow(b as int, i as nat)) by (nonlinear_arith)
                    requires
                        v == acc * b,
                        acc == pow(b as int, i as nat),
                ;
                acc = v;
            },
            None => {
                proof {
                    assert(b > 0) by (nonlinear_arith)
                        requires
                            acc * b > u64::MAX,
                    ;
                    assert(b * pow(b as int, i as nat) > u64::MAX) by (nonlinear_arith)
                        requires
                            acc * b > u64::MAX,
                            acc == pow(b as int, i as nat),
                    ;
                    lemma_pow_increases(b as nat, (i + 1) as nat, e as nat);
                }
                return None;
            },
        }
        i = i + 1;
    }
    Some(acc)
}

/// The number of algorithms of a model, or `None` where it does not fit in a
/// `u64`.
pub fn checked_count_algorithms_in_model(model: ModelKind, n_colors: u8, class_l: bool) -> (r: Option<u64>)
    ensures
        algorithm_count(model, n_colors as nat, class_l) >= 0,
        r == (if algorithm_count(model, n_colors as nat, class_l) <= u64::MAX {
            Some(algorithm_count(model, n_colors as nat, class_l) as u64)
        } else {
            None::<u64>
        }),
{
    let n = n_colors as u32;
    let g: u32 = match model {
        ModelKind::Full => {
            assert(n * n <= 255 * 255) by (nonlinear_arith)
                requires
                    n <= 255,
            ;
            n * n
        },
        _ => n,
    };
    let ghost pow_n = pow(n as int, g as nat);
    let ghost pow_three = pow(3, g as nat);
    let ghost total = algorithm_count(model, n_colors as nat, class_l);
    proof {
        lemma_pow_positive(3, g as nat);
        if n > 0 {
            lemma_pow_positive(n as int, g as nat);
        } else if g > 0 {
            vstd::arithmetic::power::lemma0_pow(g as nat);
        } else {
            reveal(pow);
        }
        assert(pow_n * pow_three >= pow_n) by (nonlinear_arith)
            requires
                pow_n >= 0,
                pow_three >= 1,
        ;
        assert(pow_n * pow_three >= 0) by (nonlinear_arith)
            requires
                pow_n >= 0,
                pow_three >= 1,
        ;
        assert(pow_three * pow_n >= pow_three || pow_n == 0) by (nonlinear_arith)
            requires
                pow_n >= 0,
                pow_three >= 1,
        ;
        let x = pow_n * pow_three;
        assert(x * x >= x) by (nonlinear_arith)
            requires
                x >= 0,
        ;
    }
    let a = match checked_pow(n_colors as u64, g) {
        Some(v) => v,
        None => {
            return None;
        },
    };
    let b = match checked_pow(3, g) {
        Some(v) => v,
        None => {
            proof {
                if pow_n == 0 {
                    assert(n == 0);
                    assert(g == 0) by (nonlinear_arith)
                        requires
                            g == n * n || g == n,
                            n == 0,
                    ;
                    assert(pow(3, 0) == 1) by {
                        reveal(pow);
                    }
                }
            }
            return None;
        },
    };
    let in_l = match a.checked_mul(b) {
        Some(v) => v,
        None => {
            return None;
        },
    };
    if class_l {
        Some(in_l)
    } else {
        match in_l.checked_mul(in_l) {
            Some(v) => Some(v),
            None => None,
        }
    }
}

/// The number of algorithms of a model.
pub fn count_algorithms_in_model(model: ModelKind, n_colors: u8, class_l: bool) -> (r: u64)
    requires
        algorithm_count(model, n_colors as nat, class_l) <= u64::MAX,
    ensures
        r == algorithm_count(model, n_colors as nat, class_l),
{
    match checked_count_algorithms_in_model(model, n_colors, class_l) {
        Some(v) => v,
        None => 0,
    }
}

// ---------------------------------------------------------------------------
// Enumeration order

/// The value of a sequence of digits in base `b`, most significant first.
pub open spec fn digits_value(ds: Seq<u32>, b: nat) -> nat
    decreases ds.len(),
{
    if ds.len() == 0 {
        0
    } else {
        digits_value(ds.drop_last(), b) * b + ds.last() as nat
    }
}

/// The `len` digits of `k` in base `b`, most significant first.
pub open spec fn digits_of(k: nat, b: nat, len: nat) -> Seq<u32>
    decreases len,
{
    if len == 0 {
        Seq::empty()
    } else {
        digits_of(k / b, b, (len - 1) as nat).push((k % b) as u32)
    }
}

/// `len` copies of digit `d`.
pub open spec fn const_digits(len: nat, d: u32) -> Seq<u32> {
    Seq::new(len, |i: int| d)
}

/// Whether every digit is below `b`.
pub open spec fn digits_below(ds: Seq<u32>, b: nat) -> bool {
    forall|i: int| 0 <= i < ds.len() ==> (#[trigger] ds[i]) < b
}

/// The action that a digit below `3 * n` stands for: movement slow, colour
/// fast.
pub open spec fn action_of_digit(n: nat, d: u32) -> crate::algorithm::Action {
    crate::algorithm::Action(Color((d as nat % n) as u8), move_of_rank(d as nat / n))
}

/// The actions of the `k`-th algorithm of an enumeration over `g` guards and
/// `n` colours: the first action varies slowest, the last fastest.
pub open spec fn enumerated_actions(n: nat, g: nat, k: nat) -> Seq<crate::algorithm::Action> {
    digits_of(k, 3 * n, g).map_values(|d: u32| action_of_digit(n, d))
}

/// The `k`-th algorithm of the enumeration of a model.
pub open spec fn enumerated_algorithm(model: ModelKind, n: u8, class_l: bool, k: nat) -> AlgorithmModel {
    AlgorithmModel {
        num_colors: n,
        guards: canonical_guards(model, n as nat, class_l),
        actions: enumerated_actions(n as nat, guard_count(model, n as nat, class_l), k),
    }
}

/// The number of algorithms that the enumeration of a model yields.
pub open spec fn enumeration_length(model: ModelKind, n: nat, class_l: bool) -> nat {
    if n == 0 {
        0
    } else {
        pow(3 * n as int, guard_count(model, n, class_l)) as nat
    }
}

proof fn lemma_digits_value_bound(ds: Seq<u32>, b: nat)
    requires
        b >= 1,
        digits_below(ds, b),
    ensures
        digits_value(ds, b) < pow(b as int, ds.len()),
    decreases ds.len(),
{
    reveal(pow);
    if ds.len() > 0 {
        let init = ds.drop_last();
        assert(digits_below(init, b)) by {
            assert forall|i: int| 0 <= i < init.len() implies (#[trigger] init[i]) < b by {
                assert(init[i] == ds[i]);
            }
        }
        lemma_digits_value_bound(init, b);
        let v = digits_value(init, b);
        let p = pow(b as int, init.len());
        let l = ds.last() as nat;
        assert(ds[ds.len() - 1] < b);
        assert(v * b + l < p * b) by (nonlinear_arith)
            requires
                v < p,
                l < b,
                v >= 0,
        ;
        assert(pow(b as int, ds.len()) == b * pow(b as int, (ds.len() - 1) as nat));
        assert(p * b == b * p) by (nonlinear_arith);
    }
}

proof fn lemma_digits_of_below(k: nat, b: nat, len: nat)
    requires
        b >= 1,
    ensures
        digits_below(digits_of(k, b, len), b),
        digits_of(k, b, len).len() == len,
    decreases len,
{
    if len > 0 {
        lemma_digits_of_below(k / b, b, (len - 1) as nat);
        let ds = digits_of(k, b, len);
        assert forall|i: int| 0 <= i < ds.len() implies (#[trigger] ds[i]) < b by {
            if i < len - 1 {
                assert(ds[i] == digits_of(k / b, b, (len - 1) as nat)[i]);
            }
        }
    }
}

/// Reading the digits of `k` gives `k` back.
proof fn lemma_value_of_digits_of(k: nat, b: nat, len: nat)
    requires
        1 <= b <= u32::MAX,
        k < pow(b as int, len),
    ensures
        digits_value(digits_of(k, b, len), b) == k,
    decreases len,
{
    reveal(pow);
    if len == 0 {
        assert(k == 0);
    } else {
        let q = k / b;
        let r = k % b;
        vstd::arithmetic::div_mod::lemma_fundamental_div_mod(k as int, b as int);
        let p = pow(b as int, (len - 1) as nat);
        assert(q < p) by {
            assert(k < b * p);
            if q >= p {
                assert(b * q >= b * p) by (nonlinear_arith)
                    requires
                        q >= p,
                        b >= 1,
                ;
            }
        }
        lemma_value_of_digits_of(q, b, (len - 1) as nat);
        let ds = digits_of(k, b, len);
        assert(ds.drop_last() == digits_of(q, b, (len - 1) as nat));
        assert(ds.last() as nat == r);
        assert(q * b == b * q) by (nonlinear_arith);
    }
}

/// The digits of the value of some digits are those digits.
proof fn lemma_digits_of_value(ds: Seq<u32>, b: nat)
    requires
        b >= 1,
        digits_below(ds, b),
    ensures
        digits_of(digits_value(ds, b), b, ds.len()) == ds,
    decreases ds.len(),
{
    if ds.len() > 0 {
        let init = ds.drop_last();
        assert(digits_below(init, b)) by {
            assert forall|i: int| 0 <= i < init.len() implies (#[trigger] init[i]) < b by {
                assert(init[i] == ds[i]);
            }
        }
        lemma_digits_of_value(init, b);
        let v = digits_value(init, b);
        assert(ds[ds.len() - 1] < b);
        vstd::arithmetic::div_mod::lemma_fundamental_div_mod_converse(
            (v * b + ds.last()) as int,
            b as int,
            v as int,
            ds.last() as int,
        );
        assert(digits_of(digits_value(ds, b), b, ds.len()) =~= init.push(ds.last()));
        assert(init.push(ds.last()) =~= ds);
    }
}

/// The value of a concatenation of digit sequences.
proof fn lemma_digits_value_append(a: Seq<u32>, c: Seq<u32>, b: nat)
    ensures
        digits_value(a + c, b) == digits_value(a, b) * pow(b as int, c.len()) + digits_value(c, b),
    decreases c.len(),
{
    reveal(pow);
    if c.len() == 0 {
        assert(a + c =~= a);
    } else {
        let c0 = c.drop_last();
        lemma_digits_value_append(a, c0, b);
        assert((a + c).drop_last() =~= a + c0);
        assert((a + c).last() == c.last());
        let va = digits_value(a, b);
        let p = pow(b as int, c0.len());
        let vc = digits_value(c0, b);
        assert(pow(b as int, c.len()) == b * p);
        assert((va * p + vc) * b + c.last() == va * (b * p) + (vc * b + c.last())) by (nonlinear_arith);
    }
}

/// The value of `len` copies of digit `d`: zero for zeros, `b^len - 1` for
/// the largest digit.
proof fn lemma_digits_value_constant(len: nat, b: nat)
    requires
        1 <= b <= u32::MAX,
    ensures
        digits_value(const_digits(len, 0), b) == 0,
        digits_value(const_digits(len, (b - 1) as u32), b) == pow(b as int, len) - 1,
    decreases len,
{
    reveal(pow);
    if len > 0 {
        lemma_digits_value_constant((len - 1) as nat, b);
        assert(const_digits(len, 0).drop_last() =~= const_digits((len - 1) as nat, 0));
        assert(const_digits(len, 0).last() == 0);
        assert(const_digits(len, (b - 1) as u32).last() == (b - 1) as u32);
        assert(0 * b == 0);
        assert(const_digits(len, (b - 1) as u32).drop_last() =~= const_digits((len - 1) as nat, (b - 1) as u32));
        let p = pow(b as int, (len - 1) as nat);
        assert(((b - 1) as u32) as nat == b - 1);
        assert((p - 1) * b + (b - 1) == b * p - 1) by (nonlinear_arith);
    }
}

/// Adds one to a sequence of digits in base `b`; on a carry out of the first
/// digit, all digits wrap to zero.
fn increment_digits(start: Vec<u32>, b: u32) -> (r: (Vec<u32>, bool))
    requires
        b >= 1,
        digits_below(start@, b as nat),
    ensures
        r.0@.len() == start@.len(),
        digits_below(r.0@, b as nat),
        r.1 == (digits_value(start@, b as nat) + 1 == pow(b as int, start@.len())),
        !r.1 ==> digits_value(r.0@, b as nat) == digits_value(start@, b as nat) + 1,
{
    let ghost len = start@.len();
    let mut ds = start;
    let mut i: usize = ds.len();
    while i > 0
        invariant
            i <= len,
            ds@.len() == len,
            start@.len() == len,
            b >= 1,
            digits_below(start@, b as nat),
            forall|j: int| 0 <= j < i ==> ds@[j] == start@[j],
            forall|j: int| i <= j < len ==> ds@[j] == 0 && start@[j] == b - 1,
        decreases i,
    {
        i = i - 1;
        let d = ds[i];
        assert(d == start@[i as int]);
        assert(start@[i as int] < b);
        if d + 1 < b {
            ds.set(i, d + 1);
            proof {
                let k = (len - i - 1) as nat;
                let prefix = start@.take(i as int);
                let maxes = const_digits(k, (b - 1) as u32);
                let zeros = const_digits(k, 0);
                assert(start@ =~= prefix.push(d) + maxes);
                assert(ds@ =~= prefix.push((d + 1) as u32) + zeros);
                lemma_digits_value_append(prefix.push(d), maxes, b as nat);
                lemma_digits_value_append(prefix.push((d + 1) as u32), zeros, b as nat);
                lemma_digits_value_constant(k, b as nat);
                assert(prefix.push(d).drop_last() =~= prefix);
                assert(prefix.push((d + 1) as u32).drop_last() =~= prefix);
                let vp = digits_value(prefix, b as nat);
                let p = pow(b as int, k);
                assert((vp * b + d + 1) * p == (vp * b + d) * p + p) by (nonlinear_arith);
                assert forall|j: int| 0 <= j < ds@.len() implies (#[trigger] ds@[j]) < b by {
                    if j < i {
                        assert(ds@[j] == start@[j]);
                    }
                }
                lemma_digits_value_bound(ds@, b as nat);
            }
            return (ds, false);
        }
        ds.set(i, 0);
    }
    proof {
        assert(start@ =~= const_digits(len, (b - 1) as u32));
        lemma_digits_value_constant(len, b as nat);
        assert forall|j: int| 0 <= j < ds@.len() implies (#[trigger] ds@[j]) < b by {
            assert(ds@[j] == 0);
        }
    }
    (ds, true)
}

// ---------------------------------------------------------------------------
// The enumerator

/// A lazy enumeration of every algorithm of a model: the canonical guard
/// list, with every action vector in turn (first action slowest; within an
/// action, movement slow and colour fast, both increasing).
pub struct AlgorithmEnumerator {
    model: ModelKind,
    num_colors: u8,
    class_l: bool,
    guards: Vec<Guard>,
    digits: Vec<u32>,
    exhausted: bool,
    produced: Ghost<nat>,
}

impl AlgorithmEnumerator {
    /// The enumerator's internal consistency.
    pub closed spec fn wf(&self) -> bool {
        &&& self.guards@ == canonical_guards(self.model, self.num_colors as nat, self.class_l)
        &&& self.digits@.len() == self.guards@.len()
        &&& self.produced@ <= enumeration_length(self.model, self.num_colors as nat, self.class_l)
        &&& (self.exhausted <==> self.produced@ == enumeration_length(self.model, self.num_colors as nat, self.class_l))
        &&& (!self.exhausted ==> self.digits@ == digits_of(self.produced@, 3 * self.num_colors as nat, self.guards@.len()))
    }

    /// The kind of model enumerated.
    pub closed spec fn spec_model(&self) -> ModelKind {
        self.model
    }

    /// The number of colours of the model enumerated.
    pub closed spec fn spec_num_colors(&self) -> u8 {
        self.num_colors
    }

    /// Whether the model enumerated is of class L.
    pub closed spec fn spec_class_l(&self) -> bool {
        self.class_l
    }

    /// How many algorithms were yielded so far.
    pub closed spec fn produced(&self) -> nat {
        self.produced@
    }

    /// Yields the next algorithm, if any is left.
    pub fn next(&mut self) -> (r: Option<Algorithm>)
        requires
            old(self).wf(),
        ensures
            final(self).wf(),
            final(self).spec_model() == old(self).spec_model(),
            final(self).spec_num_colors() == old(self).spec_num_colors(),
            final(self).spec_class_l() == old(self).spec_class_l(),
            match r {
                Some(a) => {
                    &&& old(self).produced() < enumeration_length(old(self).spec_model(), old(self).spec_num_colors() as nat, old(self).spec_class_l())
                    &&& a@ == enumerated_algorithm(old(self).spec_model(), old(self).spec_num_colors(), old(self).spec_class_l(), old(self).produced())
                    &&& final(self).produced() == old(self).produced() + 1
                },
                None => {
                    &&& old(self).produced() == enumeration_length(old(self).spec_model(), old(self).spec_num_colors() as nat, old(self).spec_class_l())
                    &&& final(self).produced() == old(self).produced()
                },
            },
    {
        if self.exhausted {
            return None;
        }
        let n = self.num_colors;
        let ghost g = self.guards@.len();
        let ghost b = 3 * n as nat;
        let ghost k = self.produced@;
        let ghost len = enumeration_length(self.model, n as nat, self.class_l);
        proof {
            lemma_canonical_guards_shape(self.model, n as nat, self.class_l);
            assert(n >= 1);
            lemma_digits_of_below(k, b, g);
        }
        let mut actions: Vec<crate::algorithm::Action> = Vec::new();
        let mut i: usize = 0;
        while i < self.digits.len()
            invariant
                i <= self.digits.len(),
                n >= 1,
                self.digits@ == digits_of(k, b, g),
                b == 3 * n as nat,
                digits_below(self.digits@, b),
                actions@ == self.digits@.take(i as int).map_values(|d: u32| action_of_digit(n as nat, d)),
            decreases self.digits.len() - i,
        {
            let d = self.digits[i];
            assert(d < b);
            let r = d / (n as u32);
            let m = if r == 0 {
                Move::Stay
            } else if r == 1 {
                Move::ToHalf
            } else {
                Move::ToOther
            };
            actions.push(crate::algorithm::Action(Color((d % (n as u32)) as u8), m));
            i = i + 1;
            assert(actions@ =~= self.digits@.take(i as int).map_values(|d: u32| action_of_digit(n as nat, d)));
        }
        assert(self.digits@.take(i as int) =~= self.digits@);
        proof {
            lemma_pow_positive(b as int, g);
            assert(pow(b as int, g) == len);
            assert(guard_count(self.model, n as nat, self.class_l) == g);
            assert forall|j: int| 0 <= j < actions@.len() implies (#[trigger] actions@[j]).0.0 < n by {
                let d = self.digits@[j];
                assert(d < b);
                vstd::arithmetic::div_mod::lemma_mod_pos_bound(d as int, n as int);
            }
        }
        proof {
            assert(self.guards@.len() >= 1) by {
                assert(n as nat * n as nat >= 1) by (nonlinear_arith)
                    requires
                        n >= 1,
                ;
            }
            assert(self.guards@[0] == canonical_guards(self.model, n as nat, self.class_l)[0]);
        }
        let algo = Algorithm::new(n, self.guards.as_slice(), actions.as_slice());
        let mut digits: Vec<u32> = Vec::new();
        std::mem::swap(&mut digits, &mut self.digits);
        let (next_digits, carry) = increment_digits(digits, 3 * (n as u32));
        self.digits = next_digits;
        proof {
            lemma_value_of_digits_of(k, b, g);
            lemma_digits_value_bound(digits_of(k, b, g), b);
        }
        if carry {
            self.exhausted = true;
        } else {
            proof {
                lemma_digits_of_value(self.digits@, b);
            }
        }
        self.produced = Ghost(k + 1);
        Some(algo)
    }
}

/// Enumerates every algorithm of a model (none when there are no colours).
pub fn generate_algorithms_in_model(model: ModelKind, n_colors: u8, class_l: bool) -> (r: AlgorithmEnumerator)
    ensures
        r.wf(),
        r.spec_model() == model,
        r.spec_num_colors() == n_colors,
        r.spec_class_l() == class_l,
        r.produced() == 0,
{
    let guards = Guard::all_for_model(model, n_colors, class_l);
    let mut digits: Vec<u32> = Vec::new();
    let mut i: usize = 0;
    while i < guards.len()
        invariant
            i <= guards.len(),
            digits@ == const_digits(i as nat, 0),
        decreases guards.len() - i,
    {
        digits.push(0);
        i = i + 1;
        assert(digits@ =~= const_digits(i as nat, 0));
    }
    proof {
        if n_colors >= 1 {
            lemma_zero_digits(3 * n_colors as nat, guards@.len());
            lemma_pow_positive(3 * n_colors as int, guards@.len());
            lemma_canonical_guards_shape(model, n_colors as nat, class_l);
        }
    }
    AlgorithmEnumerator {
        model,
        num_colors: n_colors,
        class_l,
        guards,
        digits,
        exhausted: n_colors == 0,
        produced: Ghost(0),
    }
}

/// The digits of zero are zeros.
proof fn lemma_zero_digits(b: nat, len: nat)
    requires
        b >= 1,
    ensures
        digits_of(0, b, len) == const_digits(len, 0),
    decreases len,
{
    if len > 0 {
        lemma_zero_digits(b, (len - 1) as nat);
        assert(digits_of(0, b, len) =~= const_digits(len, 0));
    }
}

// ---------------------------------------------------------------------------
// What the enumeration yields

/// A digit below `3 * n` is determined by the action it stands for.
proof fn lemma_action_of_digit_injective(n: nat, d1: u32, d2: u32)
    requires
        1 <= n <= 255,
        d1 < 3 * n,
        d2 < 3 * n,
        action_of_digit(n, d1) == action_of_digit(n, d2),
    ensures
        d1 == d2,
{
    let q1 = d1 as nat / n;
    let q2 = d2 as nat / n;
    vstd::arithmetic::div_mod::lemma_fundamental_div_mod(d1 as int, n as int);
    vstd::arithmetic::div_mod::lemma_fundamental_div_mod(d2 as int, n as int);
    vstd::arithmetic::div_mod::lemma_mod_pos_bound(d1 as int, n as int);
    vstd::arithmetic::div_mod::lemma_mod_pos_bound(d2 as int, n as int);
    assert(q1 < 3) by {
        if q1 >= 3 {
            assert(n * q1 >= 3 * n) by (nonlinear_arith)
                requires
                    q1 >= 3,
                    n >= 1,
            ;
        }
    }
    assert(q2 < 3) by {
        if q2 >= 3 {
            assert(n * q2 >= 3 * n) by (nonlinear_arith)
                requires
                    q2 >= 3,
                    n >= 1,
            ;
        }
    }
    assert(((d1 as nat % n) as u8) == ((d2 as nat % n) as u8));
    assert((d1 as nat % n) == (d2 as nat % n));
    assert(q1 == q2);
}

/// The enumeration of a model with at least one colour yields exactly
/// `algorithm_count` algorithms: each is an algorithm of the model, with the
/// model's number of guards, and no two have the same actions.
pub proof fn lemma_enumeration_yields_each_once(model: ModelKind, n: u8, class_l: bool)
    requires
        n >= 1,
    ensures
        enumeration_length(model, n as nat, class_l) == algorithm_count(model, n as nat, class_l),
        forall|k: nat|
            k < enumeration_length(model, n as nat, class_l) ==> valid_algorithm(
                #[trigger] enumerated_algorithm(model, n, class_l, k),
            ) && enumerated_algorithm(model, n, class_l, k).guards.len() == guard_count(model, n as nat, class_l),
        forall|k1: nat, k2: nat|
            k1 < enumeration_length(model, n as nat, class_l) && k2 < enumeration_length(model, n as nat, class_l)
                && k1 != k2 ==> #[trigger] enumerated_actions(n as nat, guard_count(model, n as nat, class_l), k1)
                != #[trigger] enumerated_actions(n as nat, guard_count(model, n as nat, class_l), k2),
{
    let nn = n as nat;
    let g0: nat = match model {
        ModelKind::Full => nn * nn,
        _ => nn,
    };
    let gc = guard_count(model, nn, class_l);
    let b = 3 * nn;
    lemma_pow_distributes(3, nn as int, g0);
    lemma_pow_adds(b as int, g0, g0);
    lemma_pow_positive(b as int, gc);
    assert(pow(3 * nn as int, g0) == pow(3, g0) * pow(nn as int, g0));
    assert(pow(nn as int, g0) * pow(3, g0) == pow(3, g0) * pow(nn as int, g0)) by (nonlinear_arith);
    if !class_l {
        assert(gc == g0 + g0);
    }
    let len = enumeration_length(model, nn, class_l);
    lemma_canonical_guards_shape(model, nn, class_l);
    assert(gc >= 1) by {
        assert(nn * nn >= 1) by (nonlinear_arith)
            requires
                nn >= 1,
        ;
    }
    assert forall|k: nat| k < len implies valid_algorithm(#[trigger] enumerated_algorithm(model, n, class_l, k))
        && enumerated_algorithm(model, n, class_l, k).guards.len() == gc by {
        let m = enumerated_algorithm(model, n, class_l, k);
        lemma_digits_of_below(k, b, gc);
        let ds = digits_of(k, b, gc);
        assert(m.guards[0] == canonical_guards(model, nn, class_l)[0]);
        assert forall|i: int| 0 <= i < m.actions.len() implies (#[trigger] m.actions[i]).0.0 < n by {
            assert(ds[i] < b);
            vstd::arithmetic::div_mod::lemma_mod_pos_bound(ds[i] as int, nn as int);
        }
    }
    assert forall|k1: nat, k2: nat|
        k1 < len && k2 < len && k1 != k2 implies #[trigger] enumerated_actions(nn, gc, k1)
        != #[trigger] enumerated_actions(nn, gc, k2) by {
        if enumerated_actions(nn, gc, k1) == enumerated_actions(nn, gc, k2) {
            lemma_digits_of_below(k1, b, gc);
            lemma_digits_of_below(k2, b, gc);
            let d1 = digits_of(k1, b, gc);
            let d2 = digits_of(k2, b, gc);
            assert forall|i: int| 0 <= i < gc implies d1[i] == d2[i] by {
                assert(enumerated_actions(nn, gc, k1)[i] == enumerated_actions(nn, gc, k2)[i]);
                lemma_action_of_digit_injective(nn, d1[i], d2[i]);
            }
            assert(d1 =~= d2);
            lemma_value_of_digits_of(k1, b, gc);
            lemma_value_of_digits_of(k2, b, gc);
        }
    }
}

} // verus!
