//! The sumcheck protocol, run over a duplex sponge that both sides drive
//! the same way: the prover sends, for every variable, the values at
//! `0, 1, ..., d` of the round polynomial; both absorb them and squeeze the
//! challenge that binds the variable; the verifier checks that the values at
//! `0` and `1` add up to the running claim and replaces the claim by the
//! round polynomial's value at the challenge.
use crate::field::{fadd, finv, fmul, fsub, Fm, P};
use crate::sumcheck::point::values;
use crate::sumcheck::function::SumcheckFunction;
use crate::sums::{fsum, horner, lemma_fsum_ext};
use vstd::arithmetic::power2::pow2;
use vstd::prelude::*;

verus! {

/// A duplex sponge: what it squeezes is a function of everything it has
/// absorbed, its own squeezed values included. Prover and verifier that
/// absorb the same values squeeze the same challenges.
pub trait Duplex {
    /// Everything absorbed so far, squeezed values included.
    spec fn history(&self) -> Seq<nat>;

    /// The value squeezed after absorbing `history`.
    spec fn squeeze_spec(history: Seq<nat>) -> nat;

    /// Squeezed values are field elements.
    proof fn lemma_squeeze_canonical(history: Seq<nat>)
        ensures
            Self::squeeze_spec(history) < P,
    ;

    /// Absorbs `x`.
    fn absorb(&mut self, x: Fm)
        ensures
            final(self).history() == old(self).history().push(x@),
    ;

    /// Squeezes a challenge, which is then part of the history.
    fn squeeze(&mut self) -> (r: Fm)
        ensures
            r@ == Self::squeeze_spec(old(self).history()),
            final(self).history() == old(self).history().push(r@),
    ;
}

/// The multiplier of [`HornerSponge`].
pub const SPONGE_RATE: u64 = 1000003u64;

/// A simple deterministic duplex: its state is the history combined by
/// powers of [`SPONGE_RATE`], and it squeezes the state times the rate plus
/// one. It makes the protocols run; it is no cryptographic sponge.
pub struct HornerSponge {
    state: Fm,
    absorbed: Ghost<Seq<nat>>,
}

impl HornerSponge {
    #[verifier::type_invariant]
    spec fn state_matches(self) -> bool {
        self.state@ == horner(self.absorbed@, SPONGE_RATE as nat)
    }

    /// A sponge that has absorbed nothing.
    pub fn new() -> (r: Self)
        ensures
            r.history() == Seq::<nat>::empty(),
    {
        HornerSponge { state: Fm::zero(), absorbed: Ghost(Seq::empty()) }
    }
}

impl Duplex for HornerSponge {
    closed spec fn history(&self) -> Seq<nat> {
        self.absorbed@
    }

    open spec fn squeeze_spec(history: Seq<nat>) -> nat {
        fadd(fmul(horner(history, SPONGE_RATE as nat), SPONGE_RATE as nat), 1)
    }

    proof fn lemma_squeeze_canonical(history: Seq<nat>) {
    }

    fn absorb(&mut self, x: Fm) {
        proof {
            use_type_invariant(&*self);
        }
        let next = self.state.mul(Fm::from_u64(SPONGE_RATE)).add(x);
        let ghost h = self.absorbed@.push(x@);
        proof {
            assert(h.drop_last() =~= self.absorbed@);
        }
        *self = HornerSponge { state: next, absorbed: Ghost(h) };
    }

    fn squeeze(&mut self) -> (r: Fm) {
        proof {
            use_type_invariant(&*self);
        }
        let rate = Fm::from_u64(SPONGE_RATE);
        let r = self.state.mul(rate).add(Fm::one());
        let next = self.state.mul(rate).add(r);
        let ghost h = self.absorbed@.push(r@);
        proof {
            assert(h.drop_last() =~= self.absorbed@);
        }
        *self = HornerSponge { state: next, absorbed: Ghost(h) };
        r
    }
}

/// `prod_{j < n, j != i} (r - j)`.
pub open spec fn basis_num(i: nat, r: nat, n: nat) -> nat
    decreases n,
{
    if n == 0 {
        1
    } else {
        let j = (n - 1) as nat;
        if j == i {
            basis_num(i, r, j)
        } else {
            fmul(basis_num(i, r, j), fsub(r, j % (P as nat)))
        }
    }
}

/// `prod_{j < n, j != i} (i - j)`.
pub open spec fn basis_den(i: nat, n: nat) -> nat
    decreases n,
{
    if n == 0 {
        1
    } else {
        let j = (n - 1) as nat;
        if j == i {
            basis_den(i, j)
        } else {
            fmul(basis_den(i, j), fsub(i % (P as nat), j % (P as nat)))
        }
    }
}

/// The value at `r` of the polynomial of degree below `vals.len()` taking
/// `vals[i]` at `i`, Lagrange's formula summed over the first `n` points.
pub open spec fn interp_upto(vals: Seq<nat>, r: nat, n: nat) -> nat
    decreases n,
{
    if n == 0 {
        0
    } else {
        let i = (n - 1) as nat;
        fadd(
            interp_upto(vals, r, i),
            fmul(vals[i as int], fmul(basis_num(i, r, vals.len()), finv(basis_den(i, vals.len())))),
        )
    }
}

/// The value at `r` of the polynomial of degree below `vals.len()` taking
/// `vals[i]` at `i`.
pub open spec fn interp(vals: Seq<nat>, r: nat) -> nat {
    interp_upto(vals, r, vals.len())
}

/// Lagrange interpolation at `r` of the values `vals` at `0, 1, ...`.
pub fn interpolate(vals: &[Fm], r: Fm) -> (res: Fm)
    ensures
        res@ == interp(values(vals@), r@),
{
    let n = vals.len();
    let mut acc = Fm::zero();
    let mut i: usize = 0;
    while i < n
        invariant
            n == vals@.len(),
            i <= n,
            acc@ == interp_upto(values(vals@), r@, i as nat),
        decreases n - i,
    {
        let fi = Fm::from_u64(i as u64);
        let mut num = Fm::one();
        let mut den = Fm::one();
        let mut j: usize = 0;
        while j < n
            invariant
                n == vals@.len(),
                i < n,
                j <= n,
                fi@ == (i as nat) % (P as nat),
                num@ == basis_num(i as nat, r@, j as nat),
                den@ == basis_den(i as nat, j as nat),
            decreases n - j,
        {
            if j != i {
                let fj = Fm::from_u64(j as u64);
                num = num.mul(r.sub(fj));
                den = den.mul(fi.sub(fj));
            }
            j = j + 1;
        }
        let inv = match den.inverse() {
            Some(s) => s,
            None => Fm::zero(),
        };
        acc = acc.add(vals[i].mul(num.mul(inv)));
        i = i + 1;
    }
    acc
}

/// Where the verifier stands after some rounds: whether every check so far
/// passed, the sponge's history, the running claim and the challenges.
pub struct VerifierRun {
    pub ok: bool,
    pub history: Seq<nat>,
    pub claim: nat,
    pub point: Seq<nat>,
}

/// The verifier after the first `k` messages of `msgs`, from history `h0`
/// and claim `c0`: each message must have `d + 1` values whose first two
/// add up to the running claim; it is absorbed, the challenge squeezed, and
/// the claim becomes the message's interpolation at the challenge.
pub open spec fn verifier_run<S: Duplex>(
    h0: Seq<nat>,
    c0: nat,
    msgs: Seq<Seq<nat>>,
    d: nat,
    k: nat,
) -> VerifierRun
    decreases k,
{
    if k == 0 {
        VerifierRun { ok: true, history: h0, claim: c0, point: Seq::empty() }
    } else {
        let prev = verifier_run::<S>(h0, c0, msgs, d, (k - 1) as nat);
        let m = msgs[k - 1];
        if !prev.ok || m.len() != d + 1 || fadd(m[0], m[1]) != prev.claim {
            VerifierRun { ok: false, ..prev }
        } else {
            let h1 = prev.history + m;
            let r = S::squeeze_spec(h1);
            VerifierRun { ok: true, history: h1.push(r), claim: interp(m, r), point: prev.point.push(r) }
        }
    }
}

/// A failed round fails the run.
proof fn lemma_failure_persists<S: Duplex>(
    h0: Seq<nat>,
    c0: nat,
    msgs: Seq<Seq<nat>>,
    d: nat,
    k: nat,
    n: nat,
)
    requires
        k <= n,
        !verifier_run::<S>(h0, c0, msgs, d, k).ok,
    ensures
        !verifier_run::<S>(h0, c0, msgs, d, n).ok,
    decreases n - k,
{
    if k < n {
        lemma_failure_persists::<S>(h0, c0, msgs, d, k + 1, n);
    }
}

/// A successful run of `k` rounds has `k` challenges.
pub proof fn lemma_run_point_len<S: Duplex>(
    h0: Seq<nat>,
    c0: nat,
    msgs: Seq<Seq<nat>>,
    d: nat,
    k: nat,
)
    requires
        verifier_run::<S>(h0, c0, msgs, d, k).ok,
    ensures
        verifier_run::<S>(h0, c0, msgs, d, k).point.len() == k,
    decreases k,
{
    if k > 0 {
        lemma_run_point_len::<S>(h0, c0, msgs, d, (k - 1) as nat);
    }
}

/// The values of each message.
pub open spec fn message_values(msgs: Seq<Vec<Fm>>) -> Seq<Seq<nat>> {
    Seq::new(msgs.len(), |k: int| values(msgs[k]@))
}

/// Why a sumcheck proof was refused.
#[derive(Clone, Copy, Debug, PartialEq, Eq, Structural)]
pub enum SumcheckError {
    /// Not one message per variable.
    WrongRounds,
    /// A message without `d + 1` values.
    WrongDegree,
    /// A message whose values at `0` and `1` do not add up to the claim.
    WrongSum,
}

/// The sumcheck verifier: from `claim`, checks one message per variable and
/// returns the challenges and the final claim, which the caller checks
/// against the polynomial at that point.
pub fn sumcheck_verify<S: Duplex>(
    sponge: &mut S,
    claim: Fm,
    messages: &[Vec<Fm>],
    vars: usize,
    degree: usize,
) -> (r: Result<(Vec<Fm>, Fm), SumcheckError>)
    requires
        1 <= degree < usize::MAX,
    ensures
        ({
            let run = verifier_run::<S>(
                old(sponge).history(),
                claim@,
                message_values(messages@),
                degree as nat,
                vars as nat,
            );
            &&& r is Ok <==> (messages@.len() == vars && run.ok)
            &&& r matches Ok(out) ==> {
                &&& values(out.0@) == run.point
                &&& out.1@ == run.claim
                &&& final(sponge).history() == run.history
            }
        }),
{
    let ghost h0 = sponge.history();
    let ghost msgs = message_values(messages@);
    if messages.len() != vars {
        return Err(SumcheckError::WrongRounds);
    }
    let mut point: Vec<Fm> = Vec::new();
    let mut current = claim;
    let mut k: usize = 0;
    while k < vars
        invariant
            messages@.len() == vars,
            1 <= degree < usize::MAX,
            msgs == message_values(messages@),
            h0 == old(sponge).history(),
            k <= vars,
            ({
                let run = verifier_run::<S>(h0, claim@, msgs, degree as nat, k as nat);
                &&& run.ok
                &&& sponge.history() == run.history
                &&& current@ == run.claim
                &&& values(point@) == run.point
            }),
        decreases vars - k,
    {
        let m = &messages[k];
        let ghost prev = verifier_run::<S>(h0, claim@, msgs, degree as nat, k as nat);
        assert(msgs[k as int] == values(m@));
        if m.len() != degree + 1 {
            proof {
                assert(!verifier_run::<S>(h0, claim@, msgs, degree as nat, (k + 1) as nat).ok);
                lemma_failure_persists::<S>(h0, claim@, msgs, degree as nat, (k + 1) as nat, vars as nat);
            }
            return Err(SumcheckError::WrongDegree);
        }
        let sum = m[0].add(m[1]);
        proof {
            assert(msgs[k as int][0] == m@[0]@);
            assert(msgs[k as int][1] == m@[1]@);
        }
        if !sum.equals(&current) {
            proof {
                assert(!verifier_run::<S>(h0, claim@, msgs, degree as nat, (k + 1) as nat).ok);
                lemma_failure_persists::<S>(h0, claim@, msgs, degree as nat, (k + 1) as nat, vars as nat);
            }
            return Err(SumcheckError::WrongSum);
        }
        let ghost before = sponge.history();
        let mut t: usize = 0;
        while t < m.len()
            invariant
                t <= m@.len(),
                sponge.history() == before + values(m@).take(t as int),
            decreases m@.len() - t,
        {
            sponge.absorb(m[t]);
            t = t + 1;
            proof {
                assert(values(m@).take(t as int) =~= values(m@).take(t - 1).push(m@[t - 1]@));
            }
        }
        proof {
            assert(values(m@).take(m@.len() as int) =~= values(m@));
        }
        let challenge = sponge.squeeze();
        current = interpolate(m.as_slice(), challenge);
        point.push(challenge);
        k = k + 1;
        proof {
            assert(values(point@) =~= prev.point.push(challenge@));
        }
    }
    Ok((point, current))
}

/// The point `t` of the line through `a` (at `0`) and `b` (at `1`).
pub open spec fn lerp(a: nat, b: nat, t: nat) -> nat {
    fadd(a, fmul(t, fsub(b, a)))
}

/// The line through two rows, slot by slot, at `t`.
pub open spec fn lerp_row(lo: Seq<nat>, hi: Seq<nat>, t: nat) -> Seq<nat> {
    Seq::new(lo.len(), |s: int| lerp(lo[s], hi[s], t))
}

/// The table with its first variable bound to `r`: row `y` is the line
/// through rows `2y` and `2y + 1` at `r`.
pub open spec fn fold_table(tab: Seq<Seq<nat>>, r: nat) -> Seq<Seq<nat>> {
    Seq::new(tab.len() / 2, |y: int| lerp_row(tab[2 * y], tab[2 * y + 1], r))
}

/// The term of row pair `y` in the round polynomial at `t`.
pub open spec fn round_term<SF: SumcheckFunction>(
    data: SF::Data,
    tab: Seq<Seq<nat>>,
    t: nat,
) -> spec_fn(int) -> nat {
    |y: int| SF::function_spec(data, lerp_row(tab[2 * y], tab[2 * y + 1], t))
}

/// The round polynomial at `0, ..., d`: the function summed over the rows,
/// with the first variable set to each point.
pub open spec fn round_message<SF: SumcheckFunction>(
    data: SF::Data,
    tab: Seq<Seq<nat>>,
    d: nat,
) -> Seq<nat> {
    Seq::new(d + 1, |t: int| fsum(round_term::<SF>(data, tab, t as nat), tab.len() / 2))
}

/// Where the prover stands after some rounds: the sponge's history, the
/// table with the bound variables folded in, its messages and the
/// challenges.
pub struct ProverRun {
    pub history: Seq<nat>,
    pub table: Seq<Seq<nat>>,
    pub messages: Seq<Seq<nat>>,
    pub point: Seq<nat>,
}

/// The prover after `k` rounds from history `h0` and table `tab0`: each
/// round sends the round polynomial at `0, ..., d`, absorbs it, squeezes the
/// challenge and folds the table with it.
pub open spec fn prover_run<S: Duplex, SF: SumcheckFunction>(
    data: SF::Data,
    h0: Seq<nat>,
    tab0: Seq<Seq<nat>>,
    d: nat,
    k: nat,
) -> ProverRun
    decreases k,
{
    if k == 0 {
        ProverRun { history: h0, table: tab0, messages: Seq::empty(), point: Seq::empty() }
    } else {
        let prev = prover_run::<S, SF>(data, h0, tab0, d, (k - 1) as nat);
        let m = round_message::<SF>(data, prev.table, d);
        let h1 = prev.history + m;
        let r = S::squeeze_spec(h1);
        ProverRun {
            history: h1.push(r),
            table: fold_table(prev.table, r),
            messages: prev.messages.push(m),
            point: prev.point.push(r),
        }
    }
}

/// The values of each row of a table.
pub open spec fn table_values(rows: Seq<Vec<Fm>>) -> Seq<Seq<nat>> {
    Seq::new(rows.len(), |x: int| values(rows[x]@))
}

/// The line through two rows at `t`.
fn lerp_rows(lo: &Vec<Fm>, hi: &Vec<Fm>, t: Fm) -> (r: Vec<Fm>)
    requires
        lo@.len() == hi@.len(),
    ensures
        r@.len() == lo@.len(),
        values(r@) == lerp_row(values(lo@), values(hi@), t@),
{
    let mut row: Vec<Fm> = Vec::new();
    let mut s: usize = 0;
    while s < lo.len()
        invariant
            lo@.len() == hi@.len(),
            s <= lo@.len(),
            row@.len() == s,
            forall|j: int|
                0 <= j < s ==> (#[trigger] row@[j])@ == lerp(lo@[j]@, hi@[j]@, t@),
        decreases lo@.len() - s,
    {
        row.push(lo[s].add(t.mul(hi[s].sub(lo[s]))));
        s = s + 1;
    }
    proof {
        assert(values(row@) =~= lerp_row(values(lo@), values(hi@), t@));
    }
    row
}

/// The rows have the slots of the function and there are `2 * half` of
/// them.
pub open spec fn rows_ok<SF: SumcheckFunction>(rows: Seq<Vec<Fm>>) -> bool {
    forall|x: int| 0 <= x < rows.len() ==> (#[trigger] rows[x])@.len() == SF::slots()
}

/// The round polynomial of the current table at `0, ..., degree`.
fn round_values<SF: SumcheckFunction>(data: &SF::Data, rows: &Vec<Vec<Fm>>, degree: usize) -> (r: Vec<Fm>)
    requires
        degree < P,
        rows_ok::<SF>(rows@),
    ensures
        values(r@) == round_message::<SF>(*data, table_values(rows@), degree as nat),
{
    let ghost tab = table_values(rows@);
    let half = rows.len() / 2;
    let mut msg: Vec<Fm> = Vec::new();
    let mut t: usize = 0;
    while t <= degree
        invariant
            degree < P,
            t <= degree + 1,
            half == rows@.len() / 2,
            tab == table_values(rows@),
            rows_ok::<SF>(rows@),
            msg@.len() == t,
            forall|j: int|
                0 <= j < t ==> (#[trigger] msg@[j])@ == fsum(
                    round_term::<SF>(*data, tab, j as nat),
                    half as nat,
                ),
        decreases degree + 1 - t,
    {
        let ft = Fm::from_u64(t as u64);
        proof {
            assert(ft@ == t);
        }
        let mut acc = Fm::zero();
        let mut y: usize = 0;
        while y < half
            invariant
                half == rows@.len() / 2,
                tab == table_values(rows@),
                rows_ok::<SF>(rows@),
                y <= half,
                ft@ == t,
                acc@ == fsum(round_term::<SF>(*data, tab, t as nat), y as nat),
            decreases half - y,
        {
            let n = rows.len();
            assert(2 * y + 1 < n);
            assert(rows@[2 * y as int]@.len() == SF::slots());
            assert(rows@[2 * y + 1]@.len() == SF::slots());
            let row = lerp_rows(&rows[2 * y], &rows[2 * y + 1], ft);
            let v = SF::function(data, row.as_slice());
            acc = acc.add(v);
            y = y + 1;
        }
        msg.push(acc);
        t = t + 1;
    }
    proof {
        assert(values(msg@) =~= round_message::<SF>(*data, tab, degree as nat));
    }
    msg
}

/// The table with its first variable bound to `r`.
fn fold_rows(rows: &Vec<Vec<Fm>>, r: Fm) -> (res: Vec<Vec<Fm>>)
    requires
        forall|x: int| 0 <= x < rows@.len() ==> (#[trigger] rows@[x])@.len() == rows@[0]@.len(),
    ensures
        table_values(res@) == fold_table(table_values(rows@), r@),
        forall|x: int| 0 <= x < res@.len() ==> (#[trigger] res@[x])@.len() == rows@[0]@.len(),
{
    let ghost tab = table_values(rows@);
    let half = rows.len() / 2;
    let mut res: Vec<Vec<Fm>> = Vec::new();
    let mut y: usize = 0;
    while y < half
        invariant
            half == rows@.len() / 2,
            tab == table_values(rows@),
            forall|x: int| 0 <= x < rows@.len() ==> (#[trigger] rows@[x])@.len() == rows@[0]@.len(),
            y <= half,
            res@.len() == y,
            forall|x: int|
                0 <= x < y ==> values((#[trigger] res@[x])@) == lerp_row(
                    tab[2 * x],
                    tab[2 * x + 1],
                    r@,
                ) && res@[x]@.len() == rows@[0]@.len(),
        decreases half - y,
    {
        let n = rows.len();
        assert(2 * y + 1 < n);
        assert(rows@[2 * y as int]@.len() == rows@[0]@.len());
        assert(rows@[2 * y + 1]@.len() == rows@[0]@.len());
        let row = lerp_rows(&rows[2 * y], &rows[2 * y + 1], r);
        res.push(row);
        y = y + 1;
    }
    proof {
        assert(table_values(res@) =~= fold_table(tab, r@));
    }
    res
}

/// What the sumcheck prover produces: one message per variable, the
/// challenges, and the table with every variable bound, a single row of the
/// evaluations at the challenges.
pub struct SumcheckTranscript {
    pub messages: Vec<Vec<Fm>>,
    pub point: Vec<Fm>,
    pub final_rows: Vec<Vec<Fm>>,
}

/// The sumcheck prover on a table of `2^vars` rows, one value per slot of
/// the function in each: every round sends the round polynomial at
/// `0, ..., degree`, absorbs it, squeezes the challenge and binds the first
/// remaining variable to it.
pub fn sumcheck_prove<S: Duplex, SF: SumcheckFunction>(
    sponge: &mut S,
    data: &SF::Data,
    rows: Vec<Vec<Fm>>,
    vars: usize,
    degree: usize,
) -> (r: SumcheckTranscript)
    requires
        rows@.len() == pow2(vars as nat),
        rows_ok::<SF>(rows@),
        degree < P,
    ensures
        ({
            let run = prover_run::<S, SF>(
                *data,
                old(sponge).history(),
                table_values(rows@),
                degree as nat,
                vars as nat,
            );
            &&& message_values(r.messages@) == run.messages
            &&& values(r.point@) == run.point
            &&& table_values(r.final_rows@) == run.table
            &&& r.final_rows@.len() == 1
            &&& rows_ok::<SF>(r.final_rows@)
            &&& final(sponge).history() == run.history
        }),
{
    let ghost h0 = sponge.history();
    let ghost tab0 = table_values(rows@);
    let mut table = rows;
    let mut messages: Vec<Vec<Fm>> = Vec::new();
    let mut point: Vec<Fm> = Vec::new();
    let mut k: usize = 0;
    while k < vars
        invariant
            degree < P,
            h0 == old(sponge).history(),
            k <= vars,
            table@.len() == pow2((vars - k) as nat),
            rows_ok::<SF>(table@),
            ({
                let run = prover_run::<S, SF>(*data, h0, tab0, degree as nat, k as nat);
                &&& message_values(messages@) == run.messages
                &&& values(point@) == run.point
                &&& table_values(table@) == run.table
                &&& sponge.history() == run.history
            }),
        decreases vars - k,
    {
        let ghost prev = prover_run::<S, SF>(*data, h0, tab0, degree as nat, k as nat);
        let msg = round_values::<SF>(data, &table, degree);
        let ghost before = sponge.history();
        let mut t: usize = 0;
        while t < msg.len()
            invariant
                t <= msg@.len(),
                sponge.history() == before + values(msg@).take(t as int),
            decreases msg@.len() - t,
        {
            sponge.absorb(msg[t]);
            t = t + 1;
            proof {
                assert(values(msg@).take(t as int) =~= values(msg@).take(t - 1).push(msg@[t - 1]@));
            }
        }
        proof {
            assert(values(msg@).take(msg@.len() as int) =~= values(msg@));
            crate::math::lemma_pow2_positive((vars - k - 1) as nat);
            crate::math::lemma_pow2_double((vars - k - 1) as nat);
            assert(((vars - k - 1) + 1) as nat == (vars - k) as nat);
            assert(table@[0]@.len() == SF::slots());
        }
        let challenge = sponge.squeeze();
        let folded = fold_rows(&table, challenge);
        proof {
            assert(table_values(folded@).len() == folded@.len());
            assert(folded@.len() == table@.len() / 2);
        }
        table = folded;
        messages.push(msg);
        point.push(challenge);
        k = k + 1;
        proof {
            assert(message_values(messages@) =~= prev.messages.push(values(msg@)));
            assert(values(point@) =~= prev.point.push(challenge@));
        }
    }
    proof {
        crate::math::lemma_pow2_zero();
    }
    SumcheckTranscript { messages, point, final_rows: table }
}

/// Addition in the field is associative.
pub proof fn lemma_fadd_assoc(a: nat, b: nat, c: nat)
    ensures
        fadd(a, fadd(b, c)) == fadd(fadd(a, b), c),
{
    let p = P as int;
    let (x, y, z) = (a as int, b as int, c as int);
    vstd::arithmetic::div_mod::lemma_add_mod_noop_right(x, y + z, p);
    vstd::arithmetic::div_mod::lemma_add_mod_noop_right(z, x + y, p);
    assert((x + y) % p + z == z + (x + y) % p);
    assert(x + (y + z) == z + (x + y));
}

pub proof fn lemma_fadd_swap(a: nat, b: nat, c: nat, d: nat)
    ensures
        fadd(fadd(a, b), fadd(c, d)) == fadd(fadd(a, c), fadd(b, d)),
{
    let p = P as int;
    vstd::arithmetic::div_mod::lemma_add_mod_noop((a + b) as int, (c + d) as int, p);
    vstd::arithmetic::div_mod::lemma_add_mod_noop((a + c) as int, (b + d) as int, p);
}

pub proof fn lemma_fmul_distributes(a: nat, b: nat, w: nat)
    ensures
        fmul(fadd(a, b), w) == fadd(fmul(a, w), fmul(b, w)),
{
    let p = P as int;
    vstd::arithmetic::div_mod::lemma_mul_mod_noop_left((a + b) as int, w as int, p);
    vstd::arithmetic::div_mod::lemma_add_mod_noop((a * w) as int, (b * w) as int, p);
    assert((a + b) * w == a * w + b * w) by (nonlinear_arith);
}

/// `y -> a(y) + b(y)`.
pub open spec fn add_fn(a: spec_fn(int) -> nat, b: spec_fn(int) -> nat) -> spec_fn(int) -> nat {
    |y: int| fadd(a(y), b(y))
}

/// `y -> a(y) w`.
pub open spec fn scale_fn(a: spec_fn(int) -> nat, w: nat) -> spec_fn(int) -> nat {
    |y: int| fmul(a(y), w)
}

/// `y -> g(2 y)`.
pub open spec fn even_fn(g: spec_fn(int) -> nat) -> spec_fn(int) -> nat {
    |y: int| g(2 * y)
}

/// `y -> g(2 y + 1)`.
pub open spec fn odd_fn(g: spec_fn(int) -> nat) -> spec_fn(int) -> nat {
    |y: int| g(2 * y + 1)
}

/// Sums add up.
pub proof fn lemma_fsum_add(a: spec_fn(int) -> nat, b: spec_fn(int) -> nat, h: nat)
    ensures
        fadd(fsum(a, h), fsum(b, h)) == fsum(add_fn(a, b), h),
    decreases h,
{
    if h > 0 {
        let k = (h - 1) as nat;
        lemma_fsum_add(a, b, k);
        lemma_fadd_swap(fsum(a, k), a(k as int), fsum(b, k), b(k as int));
    }
}

/// Sums scale.
pub proof fn lemma_fsum_scale(a: spec_fn(int) -> nat, w: nat, h: nat)
    ensures
        fmul(fsum(a, h), w) == fsum(scale_fn(a, w), h),
    decreases h,
{
    if h == 0 {
        assert(0 * w == 0);
    } else {
        let k = (h - 1) as nat;
        lemma_fsum_scale(a, w, k);
        lemma_fmul_distributes(fsum(a, k), a(k as int), w);
    }
}

/// A sum over `2h` terms is the sum of its even and its odd terms.
proof fn lemma_fsum_split(g: spec_fn(int) -> nat, h: nat)
    ensures
        fadd(fsum(even_fn(g), h), fsum(odd_fn(g), h)) == fsum(g, 2 * h),
    decreases h,
{
    if h > 0 {
        let k = (h - 1) as nat;
        lemma_fsum_split(g, k);
        let e = fsum(even_fn(g), k);
        let o = fsum(odd_fn(g), k);
        let j = 2 * (k as int);
        lemma_fadd_swap(e, g(j), o, g(j + 1));
        lemma_fadd_assoc(fsum(g, (2 * k) as nat), g(j), g(j + 1));
        assert(fsum(g, (2 * k + 1) as nat) == fadd(fsum(g, (2 * k) as nat), g(j)));
        assert(fsum(g, (2 * k + 2) as nat) == fadd(fsum(g, (2 * k + 1) as nat), g(j + 1)));
        assert(even_fn(g)(k as int) == g(j));
        assert(odd_fn(g)(k as int) == g(j + 1));
        assert(2 * h == 2 * k + 2);
    }
}

/// The zero function sums to zero.
proof fn lemma_fsum_zero(f: spec_fn(int) -> nat, h: nat)
    requires
        forall|y: int| 0 <= y < h ==> #[trigger] f(y) == 0,
    ensures
        fsum(f, h) == 0,
    decreases h,
{
    if h > 0 {
        lemma_fsum_zero(f, (h - 1) as nat);
    }
}

/// `y -> G(t, y)`.
pub open spec fn column_fn(g: spec_fn(int, int) -> nat, t: int) -> spec_fn(int) -> nat {
    |y: int| g(t, y)
}

/// `G(0, y), ..., G(L - 1, y)`.
pub open spec fn row_of(g: spec_fn(int, int) -> nat, y: int, len: nat) -> Seq<nat> {
    Seq::new(len, |t: int| g(t, y))
}

/// `y -> interp_upto(G(., y), r, n)`.
pub open spec fn interp_fn(g: spec_fn(int, int) -> nat, len: nat, r: nat, n: nat) -> spec_fn(int) -> nat {
    |y: int| interp_upto(row_of(g, y, len), r, n)
}

/// `sum_y G(0, y), ..., sum_y G(L - 1, y)`.
pub open spec fn column_sums_of(g: spec_fn(int, int) -> nat, len: nat, h: nat) -> Seq<nat> {
    Seq::new(len, |t: int| fsum(column_fn(g, t), h))
}

/// Interpolation is linear: interpolating sums is summing interpolations.
proof fn lemma_interp_linear(g: spec_fn(int, int) -> nat, len: nat, h: nat, r: nat, n: nat)
    requires
        n <= len,
    ensures
        interp_upto(column_sums_of(g, len, h), r, n) == fsum(interp_fn(g, len, r, n), h),
    decreases n,
{
    if n == 0 {
        lemma_fsum_zero(interp_fn(g, len, r, 0), h);
    } else {
        let i = (n - 1) as nat;
        lemma_interp_linear(g, len, h, r, i);
        let w = fmul(basis_num(i, r, len), finv(basis_den(i, len)));
        lemma_fsum_scale(column_fn(g, i as int), w, h);
        lemma_fsum_add(interp_fn(g, len, r, i), scale_fn(column_fn(g, i as int), w), h);
        assert forall|y: int| 0 <= y < h implies #[trigger] add_fn(
            interp_fn(g, len, r, i),
            scale_fn(column_fn(g, i as int), w),
        )(y) == interp_fn(g, len, r, n)(y) by {
            assert(row_of(g, y, len).len() == len);
            assert(row_of(g, y, len)[i as int] == g(i as int, y));
        }
        lemma_fsum_ext(
            add_fn(interp_fn(g, len, r, i), scale_fn(column_fn(g, i as int), w)),
            interp_fn(g, len, r, n),
            h,
        );
        assert(column_sums_of(g, len, h)[i as int] == fsum(column_fn(g, i as int), h));
    }
}

/// Every value of the row is a field element.
pub open spec fn canonical_row(row: Seq<nat>) -> bool {
    forall|s: int| 0 <= s < row.len() ==> #[trigger] row[s] < P
}

/// Every row of the table has the function's slots and field elements.
pub open spec fn table_ok<SF: SumcheckFunction>(tab: Seq<Seq<nat>>) -> bool {
    forall|x: int| 0 <= x < tab.len() ==> (#[trigger] tab[x]).len() == SF::slots() && canonical_row(tab[x])
}

/// `x ->` the function at row `x`.
pub open spec fn row_term<SF: SumcheckFunction>(data: SF::Data, tab: Seq<Seq<nat>>) -> spec_fn(int) -> nat {
    |x: int| SF::function_spec(data, tab[x])
}

/// The sum of the function over the rows of the table: the claim a sumcheck
/// on it starts from.
pub open spec fn table_sum<SF: SumcheckFunction>(data: SF::Data, tab: Seq<Seq<nat>>) -> nat {
    fsum(row_term::<SF>(data, tab), tab.len())
}

/// The function on the line through two rows, at `0, ..., d`.
pub open spec fn line_values<SF: SumcheckFunction>(
    data: SF::Data,
    lo: Seq<nat>,
    hi: Seq<nat>,
    d: nat,
) -> Seq<nat> {
    Seq::new(d + 1, |t: int| SF::function_spec(data, lerp_row(lo, hi, t as nat)))
}

/// On every line through two rows that satisfy `inv`, the function is a
/// polynomial of degree at most `d`: interpolating its values at
/// `0, ..., d` gives its value anywhere.
#[verifier::opaque]
pub open spec fn exact_on_lines<SF: SumcheckFunction>(
    data: SF::Data,
    d: nat,
    inv: spec_fn(Seq<nat>) -> bool,
) -> bool {
    forall|lo: Seq<nat>, hi: Seq<nat>, r: nat|
        lo.len() == SF::slots() && hi.len() == SF::slots() && canonical_row(lo) && canonical_row(hi)
            && inv(lo) && inv(hi) && r < P ==> #[trigger] interp(line_values::<SF>(data, lo, hi, d), r)
            == SF::function_spec(data, lerp_row(lo, hi, r))
}

/// The rows that satisfy `inv` are closed under lines: every point of the
/// line through two of them satisfies it.
#[verifier::opaque]
pub open spec fn lerp_closed(inv: spec_fn(Seq<nat>) -> bool) -> bool {
    forall|lo: Seq<nat>, hi: Seq<nat>, r: nat|
        lo.len() == hi.len() && canonical_row(lo) && canonical_row(hi) && inv(lo) && inv(hi) && r < P
            ==> #[trigger] inv(lerp_row(lo, hi, r))
}

/// Every row of the table satisfies `inv`.
pub open spec fn rows_satisfy(tab: Seq<Seq<nat>>, inv: spec_fn(Seq<nat>) -> bool) -> bool {
    forall|x: int| 0 <= x < tab.len() ==> #[trigger] inv(tab[x])
}

/// `(t, y) ->` the function on the line through rows `2y` and `2y + 1` at `t`.
pub open spec fn line_grid<SF: SumcheckFunction>(data: SF::Data, tab: Seq<Seq<nat>>) -> spec_fn(int, int) -> nat {
    |t: int, y: int| SF::function_spec(data, lerp_row(tab[2 * y], tab[2 * y + 1], t as nat))
}

/// The line through two field elements is at them at `0` and `1`.
proof fn lemma_lerp_ends(a: nat, b: nat)
    requires
        a < P,
        b < P,
    ensures
        lerp(a, b, 0) == a,
        lerp(a, b, 1) == b,
{
    let p = P as int;
    assert(0 * fsub(b, a) == 0);
    assert(1 * fsub(b, a) == fsub(b, a));
    assert(fmul(1, fsub(b, a)) == fsub(b, a));
    if b >= a {
        vstd::arithmetic::div_mod::lemma_small_mod((b - a) as nat, P as nat);
    } else {
        vstd::arithmetic::div_mod::lemma_fundamental_div_mod_converse(b - a, p, -1, b - a + p);
    }
}

/// The line through two rows of field elements is at them at `0` and `1`.
proof fn lemma_lerp_row_ends(lo: Seq<nat>, hi: Seq<nat>)
    requires
        lo.len() == hi.len(),
        canonical_row(lo),
        canonical_row(hi),
    ensures
        lerp_row(lo, hi, 0) == lo,
        lerp_row(lo, hi, 1) == hi,
{
    assert forall|s: int| 0 <= s < lo.len() implies #[trigger] lerp_row(lo, hi, 0)[s] == lo[s]
        && lerp_row(lo, hi, 1)[s] == hi[s] by {
        lemma_lerp_ends(lo[s], hi[s]);
    }
    assert(lerp_row(lo, hi, 0) =~= lo);
    assert(lerp_row(lo, hi, 1) =~= hi);
}

/// The prover's tables halve each round and keep their slots and field
/// elements.
proof fn lemma_prover_tables<S: Duplex, SF: SumcheckFunction>(
    data: SF::Data,
    h0: Seq<nat>,
    tab0: Seq<Seq<nat>>,
    d: nat,
    n: nat,
    k: nat,
    inv: spec_fn(Seq<nat>) -> bool,
)
    requires
        tab0.len() == pow2(n),
        table_ok::<SF>(tab0),
        rows_satisfy(tab0, inv),
        lerp_closed(inv),
        k <= n,
    ensures
        prover_run::<S, SF>(data, h0, tab0, d, k).table.len() == pow2((n - k) as nat),
        table_ok::<SF>(prover_run::<S, SF>(data, h0, tab0, d, k).table),
        rows_satisfy(prover_run::<S, SF>(data, h0, tab0, d, k).table, inv),
        prover_run::<S, SF>(data, h0, tab0, d, k).messages.len() == k,
    decreases k,
{
    if k > 0 {
        lemma_prover_tables::<S, SF>(data, h0, tab0, d, n, (k - 1) as nat, inv);
        let prev = prover_run::<S, SF>(data, h0, tab0, d, (k - 1) as nat);
        let t = prev.table;
        S::lemma_squeeze_canonical(prev.history + round_message::<SF>(data, t, d));
        crate::math::lemma_pow2_double((n - k) as nat);
        assert(((n - k) + 1) as nat == (n - (k - 1)) as nat);
        let f = prover_run::<S, SF>(data, h0, tab0, d, k).table;
        assert forall|y: int| 0 <= y < f.len() implies (#[trigger] f[y]).len() == SF::slots()
            && canonical_row(f[y]) && inv(f[y]) by {
            assert(t[2 * y].len() == SF::slots());
            assert(inv(t[2 * y]) && inv(t[2 * y + 1]));
            assert(canonical_row(t[2 * y]) && canonical_row(t[2 * y + 1]));
            reveal(lerp_closed);
        }
    }
}

/// The messages of a longer run begin with those of a shorter one.
proof fn lemma_prover_prefix<S: Duplex, SF: SumcheckFunction>(
    data: SF::Data,
    h0: Seq<nat>,
    tab0: Seq<Seq<nat>>,
    d: nat,
    n: nat,
    j: nat,
)
    requires
        j < n,
    ensures
        prover_run::<S, SF>(data, h0, tab0, d, n).messages[j as int] == round_message::<SF>(
            data,
            prover_run::<S, SF>(data, h0, tab0, d, j).table,
            d,
        ),
    decreases n,
{
    if j < n - 1 {
        lemma_prover_prefix::<S, SF>(data, h0, tab0, d, (n - 1) as nat, j);
    }
    lemma_prover_messages_len::<S, SF>(data, h0, tab0, d, (n - 1) as nat);
}

/// A run of `k` rounds sends `k` messages.
proof fn lemma_prover_messages_len<S: Duplex, SF: SumcheckFunction>(
    data: SF::Data,
    h0: Seq<nat>,
    tab0: Seq<Seq<nat>>,
    d: nat,
    k: nat,
)
    ensures
        prover_run::<S, SF>(data, h0, tab0, d, k).messages.len() == k,
    decreases k,
{
    if k > 0 {
        lemma_prover_messages_len::<S, SF>(data, h0, tab0, d, (k - 1) as nat);
    }
}

/// The first `k` rounds of the verifier on the prover's messages.
proof fn lemma_complete_upto<S: Duplex, SF: SumcheckFunction>(
    data: SF::Data,
    h0: Seq<nat>,
    tab0: Seq<Seq<nat>>,
    d: nat,
    n: nat,
    k: nat,
    inv: spec_fn(Seq<nat>) -> bool,
)
    requires
        tab0.len() == pow2(n),
        table_ok::<SF>(tab0),
        rows_satisfy(tab0, inv),
        lerp_closed(inv),
        exact_on_lines::<SF>(data, d, inv),
        d >= 1,
        k <= n,
    ensures
        ({
            let p = prover_run::<S, SF>(data, h0, tab0, d, k);
            let v = verifier_run::<S>(
                h0,
                table_sum::<SF>(data, tab0),
                prover_run::<S, SF>(data, h0, tab0, d, n).messages,
                d,
                k,
            );
            &&& v.ok
            &&& v.history == p.history
            &&& v.point == p.point
            &&& v.claim == table_sum::<SF>(data, p.table)
        }),
    decreases k,
{
    if k > 0 {
        let j = (k - 1) as nat;
        lemma_complete_upto::<S, SF>(data, h0, tab0, d, n, j, inv);
        lemma_prover_tables::<S, SF>(data, h0, tab0, d, n, j, inv);
        lemma_prover_prefix::<S, SF>(data, h0, tab0, d, n, j);
        let prev = prover_run::<S, SF>(data, h0, tab0, d, j);
        let t = prev.table;
        let h = pow2((n - k) as nat);
        crate::math::lemma_pow2_double((n - k) as nat);
        assert(((n - k) + 1) as nat == (n - j) as nat);
        assert(t.len() == 2 * h);
        let m = round_message::<SF>(data, t, d);
        // The first two values add up to the running claim.
        assert forall|y: int| 0 <= y < h implies #[trigger] round_term::<SF>(data, t, 0)(y)
            == even_fn(row_term::<SF>(data, t))(y) by {
            lemma_lerp_row_ends(t[2 * y], t[2 * y + 1]);
        }
        assert forall|y: int| 0 <= y < h implies #[trigger] round_term::<SF>(data, t, 1)(y)
            == odd_fn(row_term::<SF>(data, t))(y) by {
            lemma_lerp_row_ends(t[2 * y], t[2 * y + 1]);
        }
        lemma_fsum_ext(round_term::<SF>(data, t, 0), even_fn(row_term::<SF>(data, t)), h);
        lemma_fsum_ext(round_term::<SF>(data, t, 1), odd_fn(row_term::<SF>(data, t)), h);
        lemma_fsum_split(row_term::<SF>(data, t), h);
        assert(t.len() / 2 == h);
        assert(fadd(m[0], m[1]) == table_sum::<SF>(data, t));
        // The new claim is the sum over the folded table.
        let g = line_grid::<SF>(data, t);
        let hist = prev.history + m;
        let r = S::squeeze_spec(hist);
        S::lemma_squeeze_canonical(hist);
        assert forall|i: int| 0 <= i < d + 1 implies #[trigger] m[i] == column_sums_of(g, d + 1, h)[i] by {
            assert forall|y: int| 0 <= y < h implies #[trigger] round_term::<SF>(data, t, i as nat)(y)
                == column_fn(g, i)(y) by {}
            lemma_fsum_ext(round_term::<SF>(data, t, i as nat), column_fn(g, i), h);
        }
        assert(m =~= column_sums_of(g, d + 1, h));
        lemma_interp_linear(g, d + 1, h, r, d + 1);
        let folded = fold_table(t, r);
        assert forall|y: int| 0 <= y < h implies #[trigger] interp_fn(g, d + 1, r, d + 1)(y)
            == row_term::<SF>(data, folded)(y) by {
            assert(row_of(g, y, d + 1) =~= line_values::<SF>(data, t[2 * y], t[2 * y + 1], d));
            assert(t[2 * y].len() == SF::slots());
            assert(t[2 * y + 1].len() == SF::slots());
            assert(inv(t[2 * y]) && inv(t[2 * y + 1]));
            assert(canonical_row(t[2 * y]) && canonical_row(t[2 * y + 1]));
            reveal(exact_on_lines);
            assert(interp(line_values::<SF>(data, t[2 * y], t[2 * y + 1], d), r)
                == SF::function_spec(data, lerp_row(t[2 * y], t[2 * y + 1], r)));
        }
        lemma_fsum_ext(interp_fn(g, d + 1, r, d + 1), row_term::<SF>(data, folded), h);
    }
}

/// Law: the sumcheck verifier accepts the prover's messages. On a table of
/// `2^n` rows of field elements that satisfy a property `inv` kept by lines,
/// whose function is a polynomial of degree at most `d` along every line
/// between such rows, the verifier run from the same history on the
/// sum of the function over the table and on the messages the prover sends
/// passes every round, ends with the prover's history and challenges, and
/// its final claim is the function at the prover's final row.
pub proof fn lemma_sumcheck_complete<S: Duplex, SF: SumcheckFunction>(
    data: SF::Data,
    h0: Seq<nat>,
    tab0: Seq<Seq<nat>>,
    d: nat,
    n: nat,
    inv: spec_fn(Seq<nat>) -> bool,
)
    requires
        tab0.len() == pow2(n),
        table_ok::<SF>(tab0),
        rows_satisfy(tab0, inv),
        lerp_closed(inv),
        exact_on_lines::<SF>(data, d, inv),
        d >= 1,
    ensures
        ({
            let p = prover_run::<S, SF>(data, h0, tab0, d, n);
            let v = verifier_run::<S>(h0, table_sum::<SF>(data, tab0), p.messages, d, n);
            &&& p.messages.len() == n
            &&& p.table.len() == 1
            &&& v.ok
            &&& v.history == p.history
            &&& v.point == p.point
            &&& v.claim == SF::function_spec(data, p.table[0])
        }),
{
    lemma_complete_upto::<S, SF>(data, h0, tab0, d, n, n, inv);
    lemma_prover_tables::<S, SF>(data, h0, tab0, d, n, n, inv);
    crate::math::lemma_pow2_zero();
    let p = prover_run::<S, SF>(data, h0, tab0, d, n);
    SF::lemma_function_canonical(data, p.table[0]);
    assert(fsum(row_term::<SF>(data, p.table), 0) == 0);
    assert(row_term::<SF>(data, p.table)(0) == SF::function_spec(data, p.table[0]));
    assert(fsum(row_term::<SF>(data, p.table), 1) == fadd(0, SF::function_spec(data, p.table[0])));
}

/// `x` and `y` are congruent modulo `P`.
pub open spec fn cong(x: int, y: int) -> bool {
    x % (P as int) == y % (P as int)
}

pub proof fn lemma_cong_mul(x: int, xx: int, y: int, yy: int)
    requires
        cong(x, xx),
        cong(y, yy),
    ensures
        cong(x * y, xx * yy),
{
    let p = P as int;
    vstd::arithmetic::div_mod::lemma_mul_mod_noop(x, y, p);
    vstd::arithmetic::div_mod::lemma_mul_mod_noop(xx, yy, p);
}

pub proof fn lemma_cong_add(x: int, xx: int, y: int, yy: int)
    requires
        cong(x, xx),
        cong(y, yy),
    ensures
        cong(x + y, xx + yy),
{
    let p = P as int;
    vstd::arithmetic::div_mod::lemma_add_mod_noop(x, y, p);
    vstd::arithmetic::div_mod::lemma_add_mod_noop(xx, yy, p);
}

pub proof fn lemma_cong_sub(x: int, xx: int, y: int, yy: int)
    requires
        cong(x, xx),
        cong(y, yy),
    ensures
        cong(x - y, xx - yy),
{
    let p = P as int;
    vstd::arithmetic::div_mod::lemma_sub_mod_noop(x, y, p);
    vstd::arithmetic::div_mod::lemma_sub_mod_noop(xx, yy, p);
}

/// A reduced value is congruent to what was reduced.
pub proof fn lemma_cong_mod(x: int)
    ensures
        cong(x % (P as int), x),
{
    vstd::arithmetic::div_mod::lemma_mod_twice(x, P as int);
}

/// Congruent field elements are equal.
pub proof fn lemma_cong_canonical(x: nat, y: nat)
    requires
        x < P,
        y < P,
        cong(x as int, y as int),
    ensures
        x == y,
{
    vstd::arithmetic::div_mod::lemma_small_mod(x, P as nat);
    vstd::arithmetic::div_mod::lemma_small_mod(y, P as nat);
}

pub proof fn lemma_cong_fadd(a: nat, b: nat)
    ensures
        cong(fadd(a, b) as int, a as int + b as int),
{
    lemma_cong_mod(a as int + b as int);
}

pub proof fn lemma_cong_fmul(a: nat, b: nat)
    ensures
        cong(fmul(a, b) as int, a as int * b as int),
{
    lemma_cong_mod(a as int * b as int);
}

pub proof fn lemma_cong_fsub(a: nat, b: nat)
    ensures
        cong(fsub(a, b) as int, a as int - b as int),
{
    lemma_cong_mod(a as int - b as int);
}

proof fn lemma_cong_refl(x: int)
    ensures
        cong(x, x),
{
}

pub proof fn lemma_cong_trans(x: int, y: int, z: int)
    requires
        cong(x, y),
        cong(y, z),
    ensures
        cong(x, z),
{
}

/// The line through `a` and `b` is congruent to `a + t (b - a)`.
proof fn lemma_cong_lerp(a: nat, b: nat, t: nat)
    ensures
        cong(lerp(a, b, t) as int, a as int + t as int * (b as int - a as int)),
{
    let (ai, bi, ti) = (a as int, b as int, t as int);
    let d = fsub(b, a);
    lemma_cong_fsub(b, a);
    lemma_cong_fmul(t, d);
    lemma_cong_mul(ti, ti, d as int, bi - ai);
    lemma_cong_trans(fmul(t, d) as int, ti * (d as int), ti * (bi - ai));
    lemma_cong_fadd(a, fmul(t, d));
    lemma_cong_add(ai, ai, fmul(t, d) as int, ti * (bi - ai));
    lemma_cong_trans(lerp(a, b, t) as int, ai + fmul(t, d) as int, ai + ti * (bi - ai));
}

/// The Lagrange weights of the points `0, 1, 2`.
proof fn lemma_weights_three(r: nat)
    requires
        r < P,
    ensures
        cong(
            fmul(basis_num(0, r, 3), finv(basis_den(0, 3))) as int,
            (r as int - 1) * (r as int - 2) * 2147483646,
        ),
        cong(
            fmul(basis_num(1, r, 3), finv(basis_den(1, 3))) as int,
            (r as int) * (r as int - 2) * 4294967290,
        ),
        cong(
            fmul(basis_num(2, r, 3), finv(basis_den(2, 3))) as int,
            (r as int) * (r as int - 1) * 2147483646,
        ),
{
    let ri = r as int;
    assert(basis_den(0, 0) == 1);
    assert(basis_den(0, 1) == basis_den(0, 0));
    assert(basis_den(0, 2) == fmul(1, fsub(0, 1)));
    assert(fsub(0, 1) == 4294967290);
    assert(fmul(1, 4294967290) == 4294967290);
    assert(fsub(0, 2) == 4294967289);
    assert(basis_den(0, 3) == fmul(4294967290, 4294967289));
    assert(fmul(4294967290, 4294967289) == 2);
    assert(basis_den(1, 0) == 1);
    assert(1nat % (P as nat) == 1 && 0nat % (P as nat) == 0);
    assert(basis_den(1, 1) == fmul(1, fsub(1, 0)));
    assert(fsub(1, 0) == 1 && fmul(1, 1) == 1);
    assert(basis_den(1, 2) == 1);
    assert(fsub(1, 2) == 4294967290);
    assert(basis_den(1, 3) == 4294967290);
    assert(basis_den(2, 0) == 1);
    assert(2nat % (P as nat) == 2);
    assert(basis_den(2, 1) == fmul(1, fsub(2, 0)));
    assert(fsub(2, 0) == 2 && fmul(1, 2) == 2);
    assert(basis_den(2, 2) == fmul(2, fsub(2, 1)));
    assert(fsub(2, 1) == 1 && fmul(2, 1) == 2);
    assert(basis_den(2, 3) == 2);
    assert(fmul(2, 2147483646) == 1);
    crate::field::lemma_finv(2, 2147483646);
    assert(fmul(4294967290, 4294967290) == 1);
    crate::field::lemma_finv(4294967290, 4294967290);
    // numerators
    assert(basis_num(0, r, 0) == 1);
    assert(basis_num(0, r, 1) == basis_num(0, r, 0));
    assert(basis_num(0, r, 2) == fmul(1, fsub(r, 1)));
    assert(basis_num(0, r, 3) == fmul(basis_num(0, r, 2), fsub(r, 2)));
    lemma_cong_fsub(r, 1);
    lemma_cong_fsub(r, 2);
    lemma_cong_fmul(1, fsub(r, 1));
    lemma_cong_mul(1, 1, fsub(r, 1) as int, ri - 1);
    lemma_cong_trans(basis_num(0, r, 2) as int, 1 * (fsub(r, 1) as int), 1 * (ri - 1));
    lemma_cong_fmul(basis_num(0, r, 2), fsub(r, 2));
    lemma_cong_mul(basis_num(0, r, 2) as int, 1 * (ri - 1), fsub(r, 2) as int, ri - 2);
    lemma_cong_trans(basis_num(0, r, 3) as int, basis_num(0, r, 2) as int * fsub(r, 2) as int, (1 * (ri - 1)) * (ri - 2));
    lemma_cong_fmul(basis_num(0, r, 3), 2147483646);
    lemma_cong_mul(basis_num(0, r, 3) as int, (1 * (ri - 1)) * (ri - 2), 2147483646, 2147483646);
    lemma_cong_trans(
        fmul(basis_num(0, r, 3), 2147483646) as int,
        basis_num(0, r, 3) as int * 2147483646,
        ((1 * (ri - 1)) * (ri - 2)) * 2147483646,
    );
    assert(((1 * (ri - 1)) * (ri - 2)) * 2147483646 == (ri - 1) * (ri - 2) * 2147483646) by (nonlinear_arith);

    assert(basis_num(1, r, 0) == 1);
    assert(basis_num(1, r, 1) == fmul(1, fsub(r, 0)));
    assert(basis_num(1, r, 2) == basis_num(1, r, 1));
    assert(basis_num(1, r, 3) == fmul(basis_num(1, r, 2), fsub(r, 2)));
    lemma_cong_fsub(r, 0);
    lemma_cong_fmul(1, fsub(r, 0));
    lemma_cong_mul(1, 1, fsub(r, 0) as int, ri - 0);
    lemma_cong_trans(basis_num(1, r, 1) as int, 1 * (fsub(r, 0) as int), 1 * (ri - 0));
    lemma_cong_fmul(basis_num(1, r, 2), fsub(r, 2));
    lemma_cong_mul(basis_num(1, r, 2) as int, 1 * (ri - 0), fsub(r, 2) as int, ri - 2);
    lemma_cong_trans(basis_num(1, r, 3) as int, basis_num(1, r, 2) as int * fsub(r, 2) as int, (1 * (ri - 0)) * (ri - 2));
    lemma_cong_fmul(basis_num(1, r, 3), 4294967290);
    lemma_cong_mul(basis_num(1, r, 3) as int, (1 * (ri - 0)) * (ri - 2), 4294967290, 4294967290);
    lemma_cong_trans(
        fmul(basis_num(1, r, 3), 4294967290) as int,
        basis_num(1, r, 3) as int * 4294967290,
        ((1 * (ri - 0)) * (ri - 2)) * 4294967290,
    );
    assert(((1 * (ri - 0)) * (ri - 2)) * 4294967290 == ri * (ri - 2) * 4294967290) by (nonlinear_arith);

    assert(basis_num(2, r, 0) == 1);
    assert(basis_num(2, r, 1) == fmul(1, fsub(r, 0)));
    assert(basis_num(2, r, 2) == fmul(basis_num(2, r, 1), fsub(r, 1)));
    assert(basis_num(2, r, 3) == basis_num(2, r, 2));
    lemma_cong_trans(basis_num(2, r, 1) as int, 1 * (fsub(r, 0) as int), 1 * (ri - 0));
    lemma_cong_fmul(basis_num(2, r, 1), fsub(r, 1));
    lemma_cong_mul(basis_num(2, r, 1) as int, 1 * (ri - 0), fsub(r, 1) as int, ri - 1);
    lemma_cong_trans(basis_num(2, r, 2) as int, basis_num(2, r, 1) as int * fsub(r, 1) as int, (1 * (ri - 0)) * (ri - 1));
    lemma_cong_fmul(basis_num(2, r, 3), 2147483646);
    lemma_cong_mul(basis_num(2, r, 3) as int, (1 * (ri - 0)) * (ri - 1), 2147483646, 2147483646);
    lemma_cong_trans(
        fmul(basis_num(2, r, 3), 2147483646) as int,
        basis_num(2, r, 3) as int * 2147483646,
        ((1 * (ri - 0)) * (ri - 1)) * 2147483646,
    );
    assert(((1 * (ri - 0)) * (ri - 1)) * 2147483646 == ri * (ri - 1) * 2147483646) by (nonlinear_arith);
}

/// The product of two lines at `t`.
pub open spec fn line_product(a: nat, b: nat, e: nat, g: nat, t: nat) -> nat {
    fmul(lerp(a, b, t), lerp(e, g, t))
}

/// The product of two lines at `t` is congruent to the product of their
/// integer forms.
proof fn lemma_cong_line_product(a: nat, b: nat, e: nat, g: nat, t: nat)
    ensures
        cong(
            line_product(a, b, e, g, t) as int,
            (a as int + t as int * (b as int - a as int)) * (e as int + t as int * (g as int - e as int)),
        ),
{
    lemma_cong_lerp(a, b, t);
    lemma_cong_lerp(e, g, t);
    lemma_cong_fmul(lerp(a, b, t), lerp(e, g, t));
    lemma_cong_mul(
        lerp(a, b, t) as int,
        a as int + t as int * (b as int - a as int),
        lerp(e, g, t) as int,
        e as int + t as int * (g as int - e as int),
    );
}

/// Law: a product of two lines is a polynomial of degree two, so its values
/// at `0, 1, 2` interpolate it exactly.
pub proof fn lemma_line_product_exact(a: nat, b: nat, e: nat, g: nat, r: nat)
    requires
        r < P,
    ensures
        interp(
            seq![line_product(a, b, e, g, 0), line_product(a, b, e, g, 1), line_product(a, b, e, g, 2)],
            r,
        ) == line_product(a, b, e, g, r),
{
    let vals = seq![line_product(a, b, e, g, 0), line_product(a, b, e, g, 1), line_product(a, b, e, g, 2)];
    let (ai, bi, ei, gi, ri) = (a as int, b as int, e as int, g as int, r as int);
    let q0 = ai * ei;
    let q1 = bi * gi;
    let q2 = (ai + 2 * (bi - ai)) * (ei + 2 * (gi - ei));
    let qr = (ai + ri * (bi - ai)) * (ei + ri * (gi - ei));
    lemma_cong_line_product(a, b, e, g, 0);
    lemma_cong_line_product(a, b, e, g, 1);
    lemma_cong_line_product(a, b, e, g, 2);
    lemma_cong_line_product(a, b, e, g, r);
    assert((ai + 0 * (bi - ai)) * (ei + 0 * (gi - ei)) == q0) by (nonlinear_arith)
        requires
            q0 == ai * ei,
    ;
    assert((ai + 1 * (bi - ai)) * (ei + 1 * (gi - ei)) == q1) by (nonlinear_arith)
        requires
            q1 == bi * gi,
    ;
    lemma_weights_three(r);
    let w0 = fmul(basis_num(0, r, 3), finv(basis_den(0, 3)));
    let w1 = fmul(basis_num(1, r, 3), finv(basis_den(1, 3)));
    let w2 = fmul(basis_num(2, r, 3), finv(basis_den(2, 3)));
    let x0 = (ri - 1) * (ri - 2) * 2147483646;
    let x1 = ri * (ri - 2) * 4294967290;
    let x2 = ri * (ri - 1) * 2147483646;
    // each term
    lemma_cong_fmul(vals[0], w0);
    lemma_cong_mul(vals[0] as int, q0, w0 as int, x0);
    lemma_cong_fmul(vals[1], w1);
    lemma_cong_mul(vals[1] as int, q1, w1 as int, x1);
    lemma_cong_fmul(vals[2], w2);
    lemma_cong_mul(vals[2] as int, q2, w2 as int, x2);
    let t0 = fmul(vals[0], w0);
    let t1 = fmul(vals[1], w1);
    let t2 = fmul(vals[2], w2);
    lemma_cong_trans(t0 as int, vals[0] as int * w0 as int, q0 * x0);
    lemma_cong_trans(t1 as int, vals[1] as int * w1 as int, q1 * x1);
    lemma_cong_trans(t2 as int, vals[2] as int * w2 as int, q2 * x2);
    // the sum
    assert(interp_upto(vals, r, 0) == 0);
    assert(interp_upto(vals, r, 1) == fadd(0, t0));
    assert(interp_upto(vals, r, 2) == fadd(fadd(0, t0), t1));
    assert(interp(vals, r) == fadd(fadd(fadd(0, t0), t1), t2));
    lemma_cong_fadd(0, t0);
    lemma_cong_fadd(fadd(0, t0), t1);
    lemma_cong_fadd(fadd(fadd(0, t0), t1), t2);
    lemma_cong_add(fadd(0, t0) as int, q0 * x0, t1 as int, q1 * x1);
    lemma_cong_trans(fadd(fadd(0, t0), t1) as int, fadd(0, t0) as int + t1 as int, q0 * x0 + q1 * x1);
    lemma_cong_add(fadd(fadd(0, t0), t1) as int, q0 * x0 + q1 * x1, t2 as int, q2 * x2);
    lemma_cong_trans(
        interp(vals, r) as int,
        fadd(fadd(0, t0), t1) as int + t2 as int,
        q0 * x0 + q1 * x1 + q2 * x2,
    );
    // Lagrange's formula for a quadratic, with 2 * 2147483646 == P + 1
    let c0 = ai * ei;
    let c1 = ai * (gi - ei) + ei * (bi - ai);
    let c2 = (bi - ai) * (gi - ei);
    assert(q1 == c0 + c1 + c2) by (nonlinear_arith)
        requires
            q1 == bi * gi,
            c0 == ai * ei,
            c1 == ai * (gi - ei) + ei * (bi - ai),
            c2 == (bi - ai) * (gi - ei),
    ;
    assert(q2 == c0 + 2 * c1 + 4 * c2) by (nonlinear_arith)
        requires
            q2 == (ai + 2 * (bi - ai)) * (ei + 2 * (gi - ei)),
            c0 == ai * ei,
            c1 == ai * (gi - ei) + ei * (bi - ai),
            c2 == (bi - ai) * (gi - ei),
    ;
    let da = bi - ai;
    let de = gi - ei;
    let lr = ai + ri * da;
    let er = ei + ri * de;
    assert(lr * er == ai * er + (ri * da) * er) by (nonlinear_arith)
        requires
            lr == ai + ri * da,
    ;
    assert(ai * er == ai * ei + ri * (ai * de)) by (nonlinear_arith)
        requires
            er == ei + ri * de,
    ;
    assert((ri * da) * er == ri * (ei * da) + (ri * ri) * (da * de)) by (nonlinear_arith)
        requires
            er == ei + ri * de,
    ;
    assert(c1 * ri == ri * (ai * de) + ri * (ei * da)) by (nonlinear_arith)
        requires
            c1 == ai * de + ei * da,
    ;
    assert(c2 * (ri * ri) == (ri * ri) * (da * de)) by (nonlinear_arith)
        requires
            c2 == da * de,
    ;
    assert(qr == c0 + c1 * ri + c2 * (ri * ri));
    let u0 = (ri - 1) * (ri - 2);
    let u1 = ri * (ri - 2);
    let u2 = ri * (ri - 1);
    let m0 = q0 * u0;
    let m1 = q1 * u1;
    let m2 = q2 * u2;
    assert(m0 - 2 * m1 + m2 == 2 * qr) by (nonlinear_arith)
        requires
            q0 == c0,
            q1 == c0 + c1 + c2,
            q2 == c0 + 2 * c1 + 4 * c2,
            qr == c0 + c1 * ri + c2 * (ri * ri),
            m0 == q0 * ((ri - 1) * (ri - 2)),
            m1 == q1 * (ri * (ri - 2)),
            m2 == q2 * (ri * (ri - 1)),
    ;
    assert(q0 * x0 == m0 * 2147483646) by (nonlinear_arith)
        requires
            x0 == (ri - 1) * (ri - 2) * 2147483646,
            m0 == q0 * ((ri - 1) * (ri - 2)),
    ;
    assert(q1 * x1 == m1 * 4294967290) by (nonlinear_arith)
        requires
            x1 == ri * (ri - 2) * 4294967290,
            m1 == q1 * (ri * (ri - 2)),
    ;
    assert(q2 * x2 == m2 * 2147483646) by (nonlinear_arith)
        requires
            x2 == ri * (ri - 1) * 2147483646,
            m2 == q2 * (ri * (ri - 1)),
    ;
    let k = qr + 2 * m1;
    assert(q0 * x0 + q1 * x1 + q2 * x2 == 4294967291 * k + qr);
    vstd::arithmetic::div_mod::lemma_mod_multiples_vanish(k, qr, P as int);
    lemma_cong_trans(interp(vals, r) as int, q0 * x0 + q1 * x1 + q2 * x2, qr);
    lemma_cong_canonical(interp(vals, r), line_product(a, b, e, g, r));
}

/// The pointwise sum of two sequences.
pub open spec fn seq_add(u: Seq<nat>, v: Seq<nat>) -> Seq<nat> {
    Seq::new(u.len(), |i: int| fadd(u[i], v[i]))
}

/// A sequence times a constant.
pub open spec fn seq_scale(u: Seq<nat>, c: nat) -> Seq<nat> {
    Seq::new(u.len(), |i: int| fmul(u[i], c))
}

pub proof fn lemma_fmul_swap(x: nat, c: nat, w: nat)
    ensures
        fmul(fmul(x, c), w) == fmul(fmul(x, w), c),
{
    let p = P as int;
    vstd::arithmetic::div_mod::lemma_mul_mod_noop_left((x * c) as int, w as int, p);
    vstd::arithmetic::div_mod::lemma_mul_mod_noop_left((x * w) as int, c as int, p);
    assert((x * c) * w == (x * w) * c) by (nonlinear_arith);
}

/// Interpolation adds up.
pub proof fn lemma_interp_add(u: Seq<nat>, v: Seq<nat>, r: nat, n: nat)
    requires
        u.len() == v.len(),
        n <= u.len(),
    ensures
        interp_upto(seq_add(u, v), r, n) == fadd(interp_upto(u, r, n), interp_upto(v, r, n)),
    decreases n,
{
    if n > 0 {
        let i = (n - 1) as nat;
        lemma_interp_add(u, v, r, i);
        let w = fmul(basis_num(i, r, u.len()), finv(basis_den(i, u.len())));
        lemma_fmul_distributes(u[i as int], v[i as int], w);
        lemma_fadd_swap(interp_upto(u, r, i), fmul(u[i as int], w), interp_upto(v, r, i), fmul(v[i as int], w));
    }
}

/// Interpolation scales.
pub proof fn lemma_interp_scale(u: Seq<nat>, c: nat, r: nat, n: nat)
    requires
        n <= u.len(),
    ensures
        interp_upto(seq_scale(u, c), r, n) == fmul(interp_upto(u, r, n), c),
    decreases n,
{
    if n == 0 {
        assert(0 * c == 0);
    } else {
        let i = (n - 1) as nat;
        lemma_interp_scale(u, c, r, i);
        let w = fmul(basis_num(i, r, u.len()), finv(basis_den(i, u.len())));
        lemma_fmul_distributes(interp_upto(u, r, i), fmul(u[i as int], w), c);
        lemma_fmul_swap(u[i as int], c, w);
    }
}

/// The line through `c` and `c` stays at `c`.
pub proof fn lemma_lerp_constant(c: nat, t: nat)
    requires
        c < P,
    ensures
        lerp(c, c, t) == c,
{
    assert(fsub(c, c) == 0);
    assert(t * 0 == 0);
    vstd::arithmetic::div_mod::lemma_small_mod(c, P as nat);
}

/// The prover's final table: one row, with the function's slots and the
/// property the starting rows had.
pub proof fn lemma_prover_tables_pub<S: Duplex, SF: SumcheckFunction>(
    data: SF::Data,
    h0: Seq<nat>,
    tab0: Seq<Seq<nat>>,
    d: nat,
    n: nat,
    inv: spec_fn(Seq<nat>) -> bool,
)
    requires
        tab0.len() == pow2(n),
        table_ok::<SF>(tab0),
        rows_satisfy(tab0, inv),
        lerp_closed(inv),
    ensures
        prover_run::<S, SF>(data, h0, tab0, d, n).table.len() == 1,
        table_ok::<SF>(prover_run::<S, SF>(data, h0, tab0, d, n).table),
        inv(prover_run::<S, SF>(data, h0, tab0, d, n).table[0]),
{
    lemma_prover_tables::<S, SF>(data, h0, tab0, d, n, n, inv);
    crate::math::lemma_pow2_zero();
}

} // verus!
