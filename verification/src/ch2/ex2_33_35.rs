//! Sequence operations over the heterogeneous list: mapping,
//! filtering, folding, enumerating, and their classic instances.

use vstd::prelude::*;

use crate::utils::cons::Value;
use crate::utils::list::List;
use crate::utils::list::ints_of;
use crate::ch1::ex1_19::spec_fib;
use crate::ch2::ex2_20::parity_filter;

verus! {

/// The square of an integer payload.
pub fn square(x: &Value) -> (r: i64)
    requires
        x matches Value::Int(i) && -0x8000_0000 <= *i <= 0x8000_0000,
    ensures
        x matches Value::Int(i) ==> r == *i * *i,
{
    match x {
        Value::Int(i) => {
            proof {
                assert(*i * *i >= 0 && *i * *i <= 0x8000_0000 * 0x8000_0000) by (nonlinear_arith)
                    requires
                        -0x8000_0000 <= *i <= 0x8000_0000,
                ;
            }
            *i * *i
        },
        _ => unreached(),
    }
}

/// Whether an integer payload is odd.
pub fn is_odd(x: &Value) -> (r: bool)
    requires
        x matches Value::Int(i) && *i >= 0,
    ensures
        x matches Value::Int(i) ==> r == (*i % 2 != 0),
{
    match x {
        Value::Int(i) => *i % 2 != 0,
        _ => unreached(),
    }
}

/// Whether an integer payload is even.
pub fn is_even(x: &Value) -> (r: bool)
    requires
        x matches Value::Int(i) && *i >= 0,
    ensures
        x matches Value::Int(i) ==> r == (*i % 2 == 0),
{
    !is_odd(x)
}

/// Fold step for sums: add an integer payload into the accumulator,
/// pass anything else by.
pub fn plus(acc: i64, car: Value) -> (r: i64)
    requires
        -0x1000_0000_0000_0000 <= acc <= 0x1000_0000_0000_0000,
        car matches Value::Int(i) ==> -0x1000_0000_0000_0000 <= i <= 0x1000_0000_0000_0000,
    ensures
        r == acc + (match car {
            Value::Int(i) => i as int,
            _ => 0,
        }),
{
    match car {
        Value::Int(i) => acc + i,
        _ => acc,
    }
}

/// Fold step for products: multiply an integer payload into the
/// accumulator, pass anything else by.
pub fn mul(acc: i64, car: Value) -> (r: i64)
    requires
        -0x4000_0000 <= acc <= 0x4000_0000,
        car matches Value::Int(i) ==> -0x4000_0000 <= i <= 0x4000_0000,
    ensures
        r == acc * (match car {
            Value::Int(i) => i as int,
            _ => 1,
        }),
{
    match car {
        Value::Int(i) => {
            proof {
                assert(-0x4000_0000 * 0x4000_0000 <= acc * i && acc * i <= 0x4000_0000
                    * 0x4000_0000) by (nonlinear_arith)
                    requires
                        -0x4000_0000 <= acc <= 0x4000_0000,
                        -0x4000_0000 <= i <= 0x4000_0000,
                ;
            }
            acc * i
        },
        _ => {
            proof {
                assert(acc * 1 == acc) by (nonlinear_arith);
            }
            acc
        },
    }
}

/// Fold step for rebuilding: append an integer payload to the list
/// gathered so far, pass anything else by.
pub fn cons(acc: Option<List>, car: Value) -> (r: Option<List>)
    requires
        match acc {
            Option::Some(l) => l.wf(),
            Option::None => true,
        },
    ensures
        match (acc, car) {
            (Option::Some(l), Value::Int(i)) => (r matches Option::Some(rl) && rl.wf() && rl@
                == l@ + seq![Value::Int(i)]),
            (Option::None, Value::Int(i)) => (r matches Option::Some(rl) && rl.wf() && rl@
                == seq![Value::Int(i)]),
            (a, _) => r == a,
        },
{
    match car {
        Value::Int(i) => {
            match acc {
                Option::None => Option::Some(List::new(Value::Int(i))),
                Option::Some(l) => {
                    let r = l.append(List::new(Value::Int(i)));
                    Option::Some(r)
                },
            }
        },
        _ => acc,
    }
}

/// The integer payloads from `low` to `high`, in order.
pub open spec fn interval_vals(low: int, high: int) -> Seq<Value>
    decreases (if low <= high {
        high - low + 1
    } else {
        0
    }),
{
    if low > high {
        Seq::empty()
    } else {
        seq![Value::Int(low as i64)] + interval_vals(low + 1, high)
    }
}

/// The list of the integers from `low` to `high`; nothing when the
/// range is empty.
pub fn enumerate_interval(low: i64, high: i64) -> (r: Option<List>)
    requires
        i64::MIN < low,
        high < i64::MAX,
    ensures
        low > high ==> r is None,
        low <= high ==> (r matches Option::Some(l) && l.wf() && l@ == interval_vals(
            low as int,
            high as int,
        )),
{
    if low > high {
        return Option::None;
    }

    let mut vals: Vec<Value> = Vec::new();
    let mut k = low;
    while k <= high
        invariant
            low <= k <= high + 1,
            high < i64::MAX,
            vals@ + interval_vals(k as int, high as int) =~= interval_vals(
                low as int,
                high as int,
            ),
        decreases high + 1 - k,
    {
        vals.push(Value::Int(k));
        proof {
            assert(vals@ + interval_vals(k + 1, high as int) =~= interval_vals(
                low as int,
                high as int,
            ));
        }
        k = k + 1;
    }
    Option::Some(List::from_vec(vals))
}

/// Flatten a nested list to its leaves; nothing stays nothing.
pub fn enumerate_tree(l: Option<List>) -> (r: Option<List>)
    requires
        match l {
            Option::Some(t) => t.wf(),
            Option::None => true,
        },
    ensures
        match l {
            Option::Some(t) => (r matches Option::Some(rl) && rl.wf() && rl@
                == crate::ch2::ex2_25_28::fringe_list(t)),
            Option::None => r is None,
        },
{
    match l {
        Option::None => Option::None,
        Option::Some(t) => Option::Some(crate::ch2::ex2_25_28::fringe(t)),
    }
}

/// One payload with an integer replaced by its Fibonacci number.
pub open spec fn fib_value(v: Value) -> Value {
    match v {
        Value::Int(k) => Value::Int(spec_fib(k as nat) as i64),
        _ => v,
    }
}

/// The payload sequence with every integer replaced by its Fibonacci
/// number.
pub open spec fn fib_vals(s: Seq<Value>) -> Seq<Value>
    decreases s.len(),
{
    if s.len() == 0 {
        Seq::empty()
    } else {
        seq![fib_value(s[0])] + fib_vals(s.skip(1))
    }
}

/// Small Fibonacci numbers, spelled out far enough to bound every
/// value the mapped lists can hold.
pub proof fn lemma_fib_small()
    ensures
        spec_fib(21) == 10946,
        forall|k: nat| k <= 21 ==> #[trigger] spec_fib(k) <= 10946,
{
    assert(spec_fib(0) == 0 && spec_fib(1) == 1);
    assert(spec_fib(2) == 1);
    assert(spec_fib(3) == 2);
    assert(spec_fib(4) == 3);
    assert(spec_fib(5) == 5);
    assert(spec_fib(6) == 8);
    assert(spec_fib(7) == 13);
    assert(spec_fib(8) == 21);
    assert(spec_fib(9) == 34);
    assert(spec_fib(10) == 55);
    assert(spec_fib(11) == 89);
    assert(spec_fib(12) == 144);
    assert(spec_fib(13) == 233);
    assert(spec_fib(14) == 377);
    assert(spec_fib(15) == 610);
    assert(spec_fib(16) == 987);
    assert(spec_fib(17) == 1597);
    assert(spec_fib(18) == 2584);
    assert(spec_fib(19) == 4181);
    assert(spec_fib(20) == 6765);
    assert(spec_fib(21) == 10946);
    assert forall|k: nat| k <= 21 implies #[trigger] spec_fib(k) <= 10946 by {
        crate::ch1::ex1_19::lemma_fib_mono(k, 21);
    }
}

/// The list with every integer payload replaced by its Fibonacci
/// number.
pub fn map_fib(l: List) -> (r: List)
    requires
        l.wf(),
        forall|i: int| 0 <= i < l@.len() ==> ((#[trigger] l@[i]) matches Value::Int(k) && 0 <= k
            <= 20),
    ensures
        r.wf(),
        r@ == fib_vals(l@),
{
    let mut out: Vec<Value> = Vec::new();
    let ghost s0 = l@;
    let mut rest = l;
    loop
        invariant
            s0 == l@,
            rest.wf(),
            forall|i: int| 0 <= i < rest@.len() ==> ((#[trigger] rest@[i]) matches Value::Int(k)
                && 0 <= k <= 20),
            out@ + fib_vals(rest@) =~= fib_vals(s0),
        decreases rest@.len(),
    {
        let ghost before = rest@;
        match rest.car() {
            Option::None => {
                return List::from_vec(out);
            },
            Option::Some(v) => {
                match v.as_int() {
                    Option::Some(k) => {
                        proof {
                            lemma_fib_small();
                            crate::ch1::ex1_19::lemma_fib_mono((k + 1) as nat, 21);
                        }
                        let f = crate::ch1::ex1_19::fib(k);
                        out.push(Value::Int(f));
                        proof {
                            assert(before[0] == Value::Int(k));
                            assert(fib_vals(before) == seq![fib_value(before[0])] + fib_vals(
                                before.skip(1),
                            ));
                            assert(out@ + fib_vals(rest@) =~= fib_vals(s0));
                        }
                    },
                    Option::None => {
                        proof {
                            assert(before[0] matches Value::Int(k) && 0 <= k <= 20);
                            assert(false);
                        }
                    },
                }
            },
        }
    }
}

/// The even Fibonacci numbers among the first `n + 1`, in order.
pub fn even_fibs(n: i64) -> (r: List)
    requires
        0 <= n <= 20,
    ensures
        r.wf(),
        r@ == parity_filter(fib_vals(interval_vals(0, n as int)), 0),
{
    let mut out: Vec<Value> = Vec::new();
    let mut k: i64 = 0;
    while k <= n
        invariant
            0 <= k <= n + 1,
            n <= 20,
            out@ + parity_filter(fib_vals(interval_vals(k as int, n as int)), 0) =~= parity_filter(
                fib_vals(interval_vals(0, n as int)),
                0,
            ),
        decreases n + 1 - k,
    {
        proof {
            lemma_fib_small();
            crate::ch1::ex1_19::lemma_fib_mono((k + 1) as nat, 21);
        }
        let f = crate::ch1::ex1_19::fib(k);
        proof {
            let ghost seg = interval_vals(k as int, n as int);
            assert(seg == seq![Value::Int(k)] + interval_vals(k + 1, n as int));
            assert(seg[0] == Value::Int(k));
            assert(fib_vals(seg) == seq![fib_value(seg[0])] + fib_vals(seg.skip(1)));
            assert(seg.skip(1) =~= interval_vals(k + 1, n as int));
            assert(parity_filter(fib_vals(seg), 0) == (if spec_fib(k as nat) as i64 as int % 2
                == 0 {
                seq![Value::Int(spec_fib(k as nat) as i64)]
            } else {
                Seq::<Value>::empty()
            }) + parity_filter(fib_vals(seg.skip(1)), 0)) by {
                assert(fib_vals(seg)[0] == fib_value(seg[0]));
                assert(fib_vals(seg).skip(1) =~= fib_vals(seg.skip(1)));
            }
        }
        if f % 2 == 0 {
            out.push(Value::Int(f));
        }
        proof {
            assert(out@ + parity_filter(fib_vals(interval_vals(k + 1, n as int)), 0)
                =~= parity_filter(fib_vals(interval_vals(0, n as int)), 0));
        }
        k = k + 1;
    }
    proof {
        assert(out@ =~= parity_filter(fib_vals(interval_vals(0, n as int)), 0));
    }
    List::from_vec(out)
}

/// One payload with an integer squared.
pub open spec fn sq_int_value(v: Value) -> Value {
    match v {
        Value::Int(i) => Value::Int((i * i) as i64),
        _ => v,
    }
}

/// The payload sequence with every integer squared.
pub open spec fn sq_vals(s: Seq<Value>) -> Seq<Value>
    decreases s.len(),
{
    if s.len() == 0 {
        Seq::empty()
    } else {
        seq![sq_int_value(s[0])] + sq_vals(s.skip(1))
    }
}

/// The squares of the first `n + 1` Fibonacci numbers, in order.
pub fn lib_fib_squares(n: i64) -> (r: List)
    requires
        0 <= n <= 20,
    ensures
        r.wf(),
        r@ == sq_vals(fib_vals(interval_vals(0, n as int))),
{
    let mut out: Vec<Value> = Vec::new();
    let mut k: i64 = 0;
    while k <= n
        invariant
            0 <= k <= n + 1,
            n <= 20,
            out@ + sq_vals(fib_vals(interval_vals(k as int, n as int))) =~= sq_vals(
                fib_vals(interval_vals(0, n as int)),
            ),
        decreases n + 1 - k,
    {
        proof {
            lemma_fib_small();
            crate::ch1::ex1_19::lemma_fib_mono((k + 1) as nat, 21);
        }
        let f = crate::ch1::ex1_19::fib(k);
        proof {
            assert(0 <= f <= 10946);
            assert(f * f >= 0 && f * f <= 10946 * 10946) by (nonlinear_arith)
                requires
                    0 <= f <= 10946,
            ;
            let ghost seg = interval_vals(k as int, n as int);
            assert(seg == seq![Value::Int(k)] + interval_vals(k + 1, n as int));
            assert(seg[0] == Value::Int(k));
            assert(fib_vals(seg) == seq![fib_value(seg[0])] + fib_vals(seg.skip(1)));
            assert(seg.skip(1) =~= interval_vals(k + 1, n as int));
            assert(sq_vals(fib_vals(seg)) == seq![sq_int_value(fib_value(seg[0]))] + sq_vals(
                fib_vals(seg.skip(1)),
            )) by {
                assert(fib_vals(seg)[0] == fib_value(seg[0]));
                assert(fib_vals(seg).skip(1) =~= fib_vals(seg.skip(1)));
            }
        }
        out.push(Value::Int(f * f));
        proof {
            assert(out@ + sq_vals(fib_vals(interval_vals(k + 1, n as int))) =~= sq_vals(
                fib_vals(interval_vals(0, n as int)),
            ));
        }
        k = k + 1;
    }
    proof {
        assert(out@ =~= sq_vals(fib_vals(interval_vals(0, n as int))));
    }
    List::from_vec(out)
}

/// Map a caller-supplied function over the integer payloads of a
/// list, rebuilding a list of the results in order: each output is an
/// outcome of the function on the matching input.
pub fn acc_map<F: Fn(i64) -> i64>(p: &F, l: List) -> (r: List)
    requires
        l.wf(),
        forall|i: int| 0 <= i < l@.len() ==> (#[trigger] l@[i]) matches Value::Int(_),
        forall|x: i64| #[trigger] call_requires(*p, (x,)),
    ensures
        r.wf(),
        r@.len() == l@.len(),
        forall|i: int|
            0 <= i < l@.len() ==> ((#[trigger] r@[i]) matches Value::Int(y) && call_ensures(
                *p,
                ((match l@[i] {
                    Value::Int(w) => w,
                    _ => 0,
                }),),
                y,
            )),
{
    let mut out: Vec<Value> = Vec::new();
    let ghost s0 = l@;
    let mut rest = l;
    loop
        invariant
            s0 == l@,
            rest.wf(),
            forall|x: i64| #[trigger] call_requires(*p, (x,)),
            forall|i: int| 0 <= i < rest@.len() ==> (#[trigger] rest@[i]) matches Value::Int(_),
            out@.len() + rest@.len() == s0.len(),
            rest@ =~= s0.skip(out@.len() as int),
            forall|i: int|
                0 <= i < out@.len() ==> ((#[trigger] out@[i]) matches Value::Int(y)
                    && call_ensures(
                    *p,
                    ((match s0[i] {
                        Value::Int(w) => w,
                        _ => 0,
                    }),),
                    y,
                )),
        decreases rest@.len(),
    {
        let ghost done = out@.len() as int;
        match rest.car() {
            Option::None => {
                return List::from_vec(out);
            },
            Option::Some(v) => {
                match v.as_int() {
                    Option::Some(w) => {
                        proof {
                            assert(s0[done] == Value::Int(w));
                        }
                        let y = p(w);
                        out.push(Value::Int(y));
                        proof {
                            assert(rest@ =~= s0.skip(done + 1));
                        }
                    },
                    Option::None => {
                        proof {
                            assert(s0.skip(done)[0] matches Value::Int(_));
                            assert(false);
                        }
                    },
                }
            },
        }
    }
}

/// Two lists chained, the second after the first.
pub fn append(l1: List, l2: List) -> (r: List)
    requires
        l1.wf(),
        l2.wf(),
    ensures
        r.wf(),
        r@ == l1@ + l2@,
{
    l1.append(l2)
}

/// The number of payloads.
pub fn length(l: &List) -> (r: usize)
    requires
        l.wf(),
        l@.len() <= usize::MAX,
    ensures
        r == l@.len(),
{
    l.len()
}

/// A polynomial evaluated at `x` by repeated multiply-and-add over
/// its coefficients, lowest order first.
pub open spec fn spec_horner(x: int, s: Seq<i64>) -> int
    decreases s.len(),
{
    if s.len() == 0 {
        0
    } else {
        s[0] + x * spec_horner(x, s.skip(1))
    }
}

/// The polynomial value stays within an exponential envelope of the
/// coefficient bound.
pub proof fn lemma_horner_bound(x: int, s: Seq<i64>)
    requires
        -10 <= x <= 10,
        forall|i: int| 0 <= i < s.len() ==> -100 <= #[trigger] s[i] <= 100,
        s.len() <= 15,
    ensures
        -100 * crate::arith::spec_pow(11, s.len()) <= spec_horner(x, s) <= 100
            * crate::arith::spec_pow(11, s.len()),
    decreases s.len(),
{
    crate::arith::lemma_pow_pos(11, s.len());
    if s.len() > 0 {
        lemma_horner_bound(x, s.skip(1));
        crate::arith::lemma_pow_pos(11, (s.len() - 1) as nat);
        let h = spec_horner(x, s.skip(1));
        let cap = crate::arith::spec_pow(11, (s.len() - 1) as nat);
        assert(crate::arith::spec_pow(11, s.len()) == 11 * cap);
        assert(-100 * (11 * cap) <= s[0] + x * h && s[0] + x * h <= 100 * (11 * cap))
            by (nonlinear_arith)
            requires
                -100 <= s[0] <= 100,
                -10 <= x <= 10,
                -100 * cap <= h <= 100 * cap,
                1 <= cap,
        ;
    }
}

/// Evaluate the polynomial with the given coefficient list, constant
/// term first, at `x`.
pub fn horner_eval(x: i64, coef: List) -> (r: i64)
    requires
        coef.wf(),
        -10 <= x <= 10,
        forall|i: int| 0 <= i < coef@.len() ==> ((#[trigger] coef@[i]) matches Value::Int(w)
            && -100 <= w <= 100),
        coef@.len() <= 15,
    ensures
        r == spec_horner(x as int, ints_of(coef@)),
{
    let ghost s0 = coef@;
    let ghost ints0 = ints_of(coef@);
    proof {
        lemma_ints_all(s0);
    }
    let rev = coef.reverse();
    let mut acc: i64 = 0;
    let mut rest = rev;
    loop
        invariant
            -10 <= x <= 10,
            rest.wf(),
            ints0 == ints_of(coef@),
            s0 == coef@,
            ints0.len() == s0.len() <= 15,
            forall|i: int| 0 <= i < ints0.len() ==> -100 <= #[trigger] ints0[i] <= 100,
            forall|i: int| 0 <= i < s0.len() ==> ((#[trigger] s0[i]) matches Value::Int(w) && -100
                <= w <= 100),
            forall|i: int|
                0 <= i < s0.len() ==> #[trigger] ints0[i] == (match s0[i] {
                    Value::Int(w) => w,
                    _ => 0,
                }),
            rest@.len() <= s0.len(),
            rest@ =~= s0.reverse().skip(s0.len() - rest@.len()),
            acc == spec_horner(x as int, ints0.skip(rest@.len() as int)),
        decreases rest@.len(),
    {
        let ghost m = rest@.len() as int;
        let ghost n = s0.len() as int;
        let ghost before = rest@;
        match rest.car() {
            Option::None => {
                proof {
                    assert(ints0.skip(0) =~= ints0);
                }
                return acc;
            },
            Option::Some(v) => {
                match v.as_int() {
                    Option::Some(c) => {
                        proof {
                            assert(before[0] == s0.reverse()[n - m]);
                            assert(s0.reverse()[n - m] == s0[m - 1]);
                            assert(s0[m - 1] == Value::Int(c));
                            assert(ints0[m - 1] == c);
                            assert(-100 <= c <= 100);
                            let tail = ints0.skip(m);
                            assert(forall|i: int|
                                0 <= i < tail.len() ==> #[trigger] tail[i] == ints0[i + m]);
                            lemma_horner_bound(x as int, tail);
                            lemma_pow11_value();
                            crate::arith::lemma_pow_pos(11, tail.len());
                            crate::arith::lemma_pow_increases(11, tail.len(), 15);
                            assert(-100 * 4177248169415651 <= acc && acc <= 100
                                * 4177248169415651);
                            assert(-10 * (100 * 4177248169415651) <= acc * x && acc * x <= 10 * (
                            100 * 4177248169415651)) by (nonlinear_arith)
                                requires
                                    -10 <= x <= 10,
                                    -100 * 4177248169415651 <= acc <= 100 * 4177248169415651,
                            ;
                            assert(ints0.skip(m - 1)[0] == ints0[m - 1]);
                            assert(ints0.skip(m - 1).skip(1) =~= ints0.skip(m));
                            assert(spec_horner(x as int, ints0.skip(m - 1)) == ints0[m - 1] + x
                                * spec_horner(x as int, ints0.skip(m)));
                        }
                        acc = acc * x + c;
                        proof {
                            assert(rest@ =~= s0.reverse().skip(s0.len() - rest@.len()));
                        }
                    },
                    Option::None => {
                        proof {
                            assert(before[0] == s0.reverse()[n - m]);
                            assert(s0.reverse()[n - m] == s0[m - 1]);
                            assert(s0[m - 1] matches Value::Int(_));
                            assert(false);
                        }
                    },
                }
            },
        }
    }
}

/// The fifteenth power of eleven, spelled out.
proof fn lemma_pow11_value()
    ensures
        crate::arith::spec_pow(11, 15) == 4177248169415651,
{
    let b: int = 11;
    assert(crate::arith::spec_pow(b, 0) == 1);
    assert(crate::arith::spec_pow(b, 1) == b * crate::arith::spec_pow(b, 0));
    assert(crate::arith::spec_pow(b, 2) == b * crate::arith::spec_pow(b, 1));
    assert(crate::arith::spec_pow(b, 3) == b * crate::arith::spec_pow(b, 2));
    assert(crate::arith::spec_pow(b, 4) == b * crate::arith::spec_pow(b, 3));
    assert(crate::arith::spec_pow(b, 5) == b * crate::arith::spec_pow(b, 4));
    assert(crate::arith::spec_pow(b, 6) == b * crate::arith::spec_pow(b, 5));
    assert(crate::arith::spec_pow(b, 7) == b * crate::arith::spec_pow(b, 6));
    assert(crate::arith::spec_pow(b, 8) == b * crate::arith::spec_pow(b, 7));
    assert(crate::arith::spec_pow(b, 9) == b * crate::arith::spec_pow(b, 8));
    assert(crate::arith::spec_pow(b, 10) == b * crate::arith::spec_pow(b, 9));
    assert(crate::arith::spec_pow(b, 11) == b * crate::arith::spec_pow(b, 10));
    assert(crate::arith::spec_pow(b, 12) == b * crate::arith::spec_pow(b, 11));
    assert(crate::arith::spec_pow(b, 13) == b * crate::arith::spec_pow(b, 12));
    assert(crate::arith::spec_pow(b, 14) == b * crate::arith::spec_pow(b, 13));
    assert(crate::arith::spec_pow(b, 15) == b * crate::arith::spec_pow(b, 14));
}

/// For an all-integer sequence the integer view is the elementwise
/// unwrapping.
proof fn lemma_ints_all(s: Seq<Value>)
    requires
        forall|i: int| 0 <= i < s.len() ==> (#[trigger] s[i]) matches Value::Int(_),
    ensures
        ints_of(s).len() == s.len(),
        forall|i: int|
            0 <= i < s.len() ==> #[trigger] ints_of(s)[i] == (match s[i] {
                Value::Int(w) => w,
                _ => 0,
            }),
    decreases s.len(),
{
    if s.len() > 0 {
        lemma_ints_all(s.skip(1));
        assert(s[0] matches Value::Int(_));
        assert(ints_of(s) == (match s[0] {
            Value::Int(i) => seq![i],
            _ => Seq::<i64>::empty(),
        }) + ints_of(s.skip(1)));
    }
}

/// One position of the integer view of an all-integer sequence.
proof fn lemma_ints_all_idx(s: Seq<Value>, i: int)
    requires
        forall|j: int| 0 <= j < s.len() ==> (#[trigger] s[j]) matches Value::Int(_),
        0 <= i < s.len(),
    ensures
        ints_of(s)[i] == (match s[i] {
            Value::Int(w) => w as i64,
            _ => 0,
        }),
{
    lemma_ints_all(s);
}

/// The number of leaves of a nested list.
pub fn count_leaves(l: &List) -> (r: usize)
    requires
        crate::ch2::ex2_25_28::leaves_list(*l) <= usize::MAX,
    ensures
        r == crate::ch2::ex2_25_28::leaves_list(*l),
{
    crate::ch2::ex2_25_28::count_leaves(l)
}

} // verus!
