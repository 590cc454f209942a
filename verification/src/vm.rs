//! The unbounded register machine: a vector of resolved instructions runs
//! against a growable file of arbitrary-precision registers.  Reading an
//! index that was never written yields zero without allocating it.
//!
//! The meaning of a program is given by the spec-level small-step relation
//! [`step`] / [`steps`]; [`execute`] is proved to follow it exactly and to
//! return the machine's output stream once the instruction pointer has run
//! past the end of the code.

use vstd::prelude::*;

use crate::bignat::BigNat;

verus! {

pub type CellType = usize;

pub type PosType = usize;

/// A resolved instruction; jump targets are absolute indices.
#[derive(Clone, Copy, PartialEq, Eq, Debug)]
pub enum Op {
    Zero(CellType),
    Inc(CellType),
    Mov(CellType, CellType),
    Jmp(CellType, CellType, PosType),
    Out(CellType),
}

/// Abstract machine state: instruction pointer, a total register valuation,
/// and the stream of code points emitted so far.
pub ghost struct State {
    pub ip: nat,
    pub regs: Map<nat, nat>,
    pub out: Seq<u32>,
}

/// The register valuation assigns a value to every index.
pub open spec fn total_regs(regs: Map<nat, nat>) -> bool {
    forall|r: nat| regs.dom().contains(r)
}

/// The starting state: all registers zero, nothing emitted.
pub open spec fn init_state() -> State {
    State { ip: 0, regs: Map::new(|r: nat| true, |r: nat| 0), out: Seq::empty() }
}

/// Execution halts exactly when the instruction pointer has left the code.
pub open spec fn halted(code: Seq<Op>, s: State) -> bool {
    s.ip >= code.len()
}

/// The code point the output instruction emits for a register value: its
/// low 32-bit window.  A value outside the valid Unicode range is emitted
/// as this number all the same; the driver that prints the stream
/// substitutes a replacement character for it, so such values never crash
/// the machine.
pub open spec fn out_point(v: nat) -> u32 {
    (v % 0x1_0000_0000) as u32
}

/// One instruction of the counter machine.
pub open spec fn step(code: Seq<Op>, s: State) -> State
    recommends
        !halted(code, s),
{
    match code[s.ip as int] {
        Op::Zero(r) => State { ip: s.ip + 1, regs: s.regs.insert(r as nat, 0), out: s.out },
        Op::Inc(r) => State {
            ip: s.ip + 1,
            regs: s.regs.insert(r as nat, s.regs[r as nat] + 1),
            out: s.out,
        },
        Op::Mov(dst, src) => State {
            ip: s.ip + 1,
            regs: s.regs.insert(dst as nat, s.regs[src as nat]),
            out: s.out,
        },
        Op::Jmp(r1, r2, target) => State {
            ip: if s.regs[r1 as nat] == s.regs[r2 as nat] {
                target as nat
            } else {
                s.ip + 1
            },
            regs: s.regs,
            out: s.out,
        },
        Op::Out(r) => State {
            ip: s.ip + 1,
            regs: s.regs,
            out: s.out.push(out_point(s.regs[r as nat])),
        },
    }
}

/// `n` instructions from `s`; a halted state is a fixed point.
pub open spec fn steps(code: Seq<Op>, s: State, n: nat) -> State
    decreases n,
{
    if n == 0 {
        s
    } else if halted(code, s) {
        s
    } else {
        steps(code, step(code, s), (n - 1) as nat)
    }
}

/// Unrolling `steps` from the back: one more step applies `step` to the end
/// of the run, unless the run has already halted.
pub proof fn lemma_steps_snoc(code: Seq<Op>, s: State, n: nat)
    ensures
        steps(code, s, n + 1) == (if halted(code, steps(code, s, n)) {
            steps(code, s, n)
        } else {
            step(code, steps(code, s, n))
        }),
    decreases n,
{
    if n == 0 {
        assert(steps(code, s, 1) == (if halted(code, s) {
            s
        } else {
            steps(code, step(code, s), 0)
        }));
    } else if halted(code, s) {
        assert(steps(code, s, n + 1) == s);
        assert(steps(code, s, n) == s);
    } else {
        lemma_steps_snoc(code, step(code, s), (n - 1) as nat);
        assert(steps(code, s, n + 1) == steps(code, step(code, s), n));
        assert(steps(code, s, n) == steps(code, step(code, s), (n - 1) as nat));
    }
}

/// Law: a straight run of `k` increments of one register adds exactly `k`
/// to it, touches no other register, and prints nothing, whatever value the
/// register started from.  Zeroing beforehand therefore makes the register
/// hold exactly the number of increments: increment only ever adds one to
/// the additive identity that `zer` restores.
pub proof fn lemma_inc_run(code: Seq<Op>, s: State, r: CellType, k: nat)
    requires
        total_regs(s.regs),
        s.ip + k <= code.len(),
        forall|j: int| s.ip <= j < s.ip + k ==> code[j] == Op::Inc(r),
    ensures
        steps(code, s, k) == (State {
            ip: (s.ip + k) as nat,
            regs: s.regs.insert(r as nat, (s.regs[r as nat] + k) as nat),
            out: s.out,
        }),
    decreases k,
{
    if k == 0 {
        assert(s.regs.insert(r as nat, s.regs[r as nat]) =~= s.regs);
    } else {
        assert(code[s.ip as int] == Op::Inc(r));
        let s1 = step(code, s);
        assert(forall|q: nat| s1.regs.dom().contains(q));
        lemma_inc_run(code, s1, r, (k - 1) as nat);
        assert(s1.regs.insert(r as nat, (s1.regs[r as nat] + (k - 1)) as nat) =~= s.regs.insert(
            r as nat,
            (s.regs[r as nat] + k) as nat,
        ));
    }
}

/// Law: for a program that is `k` increments of a register followed by one
/// output of it, the run halts with the register holding exactly `k` —
/// as if the value had been written directly — and prints the code point
/// of `k`.
pub proof fn lemma_incs_then_out(code: Seq<Op>, r: CellType, k: nat)
    requires
        code.len() == k + 1,
        forall|j: int| 0 <= j < k ==> code[j] == Op::Inc(r),
        code[k as int] == Op::Out(r),
    ensures
        halted(code, steps(code, init_state(), k + 1)),
        steps(code, init_state(), k + 1).out == seq![out_point(k)],
        steps(code, init_state(), k + 1).regs[r as nat] == k,
{
    lemma_inc_run(code, init_state(), r, k);
    let sk = steps(code, init_state(), k);
    lemma_steps_snoc(code, init_state(), k);
    assert(steps(code, init_state(), k + 1) == step(code, sk));
    assert(step(code, sk).out =~= seq![out_point(k)]);
}

/// Law: zeroing restores the additive identity — after `zer` and then `k`
/// increments a register holds exactly `k`, whatever it held before, and
/// nothing is printed along the way.
pub proof fn lemma_zer_then_incs(code: Seq<Op>, s: State, r: CellType, k: nat)
    requires
        total_regs(s.regs),
        s.ip + 1 + k <= code.len(),
        code[s.ip as int] == Op::Zero(r),
        forall|j: int| s.ip + 1 <= j < s.ip + 1 + k ==> code[j] == Op::Inc(r),
    ensures
        steps(code, s, 1 + k).regs[r as nat] == k,
        steps(code, s, 1 + k).out == s.out,
        steps(code, s, 1 + k).ip == s.ip + 1 + k,
{
    let s1 = step(code, s);
    assert(forall|q: nat| s1.regs.dom().contains(q));
    lemma_inc_run(code, s1, r, k);
    assert(steps(code, s, 1 + k) == steps(code, s1, k));
}

/// Law: `mov %a %b` followed by `inc %b` leaves `%a` holding the value
/// `%b` had before: the move copies the value, it does not alias the cell.
pub proof fn lemma_mov_then_inc(code: Seq<Op>, s: State, a: CellType, b: CellType)
    requires
        s.ip + 2 <= code.len(),
        code[s.ip as int] == Op::Mov(a, b),
        code[s.ip as int + 1] == Op::Inc(b),
        a != b,
    ensures
        steps(code, s, 2).regs[a as nat] == s.regs[b as nat],
{
    let s1 = step(code, s);
    let s2 = step(code, s1);
    assert(!halted(code, s) && !halted(code, s1));
    assert(steps(code, s, 2) == steps(code, s1, 1));
    assert(steps(code, s1, 1) == steps(code, s2, 0));
}

/// Law: a jump transfers control to its target exactly when the two
/// registers hold equal values (an unallocated register reading as zero),
/// and falls through to the next instruction otherwise; it never changes a
/// register or the output.
pub proof fn lemma_jmp_iff(code: Seq<Op>, s: State, r1: CellType, r2: CellType, target: PosType)
    requires
        s.ip < code.len(),
        code[s.ip as int] == Op::Jmp(r1, r2, target),
    ensures
        step(code, s).regs == s.regs,
        step(code, s).out == s.out,
        s.regs[r1 as nat] == s.regs[r2 as nat] ==> step(code, s).ip == target as nat,
        s.regs[r1 as nat] != s.regs[r2 as nat] ==> step(code, s).ip == s.ip + 1,
{
}

/// The register file: lazily grown, so that any index may be read.
pub struct Env {
    pub regs: Vec<BigNat>,
    pub zero: BigNat,
}

impl Env {
    /// Every stored register is well formed, and the default cell is zero.
    pub open spec fn wf(self) -> bool {
        &&& forall|i: int| 0 <= i < self.regs@.len() ==> (#[trigger] self.regs@[i]).wf()
        &&& self.zero.wf()
        &&& self.zero.value() == 0
    }

    /// The total register valuation this file represents.
    pub open spec fn regs_fun(self) -> Map<nat, nat> {
        Map::new(
            |r: nat| true,
            |r: nat|
                if r < self.regs@.len() {
                    self.regs@[r as int].value()
                } else {
                    0
                },
        )
    }

    /// An empty file: every register reads as zero.
    pub fn new() -> (r: Self)
        ensures
            r.wf(),
            r.regs_fun() == init_state().regs,
    {
        let e = Env { regs: Vec::new(), zero: BigNat::new() };
        proof {
            assert(e.regs_fun() =~= init_state().regs);
        }
        e
    }

    /// Read register `r`, which defaults to zero when unallocated.
    pub fn reg(&self, r: CellType) -> (res: &BigNat)
        requires
            self.wf(),
        ensures
            res.wf(),
            res.value() == self.regs_fun()[r as nat],
    {
        if r < self.regs.len() {
            &self.regs[r]
        } else {
            &self.zero
        }
    }

    /// Materialize registers up to and including `r`, without changing any
    /// value the file represents.
    fn grow_to(&mut self, r: CellType)
        requires
            old(self).wf(),
        ensures
            final(self).wf(),
            final(self).regs_fun() == old(self).regs_fun(),
            r < final(self).regs@.len(),
    {
        while r >= self.regs.len()
            invariant
                self.wf(),
                self.regs_fun() == old(self).regs_fun(),
            decreases r + 1 - self.regs@.len(),
        {
            let ghost pre = *self;
            self.regs.push(BigNat::new());
            proof {
                assert(self.regs_fun() =~= pre.regs_fun());
            }
        }
    }

    /// Borrow register `r` for writing, materializing it first.  The
    /// register file afterwards represents the old valuation with `r`
    /// remapped to whatever the caller leaves in the borrowed cell.
    pub fn reg_mut(&mut self, r: CellType) -> (res: &mut BigNat)
        requires
            old(self).wf(),
        ensures
            (*res).wf(),
            (*res).value() == old(self).regs_fun()[r as nat],
            r < final(self).regs@.len(),
            (*final(res)).wf() ==> final(self).wf(),
            final(self).regs_fun() =~= old(self).regs_fun().insert(
                r as nat,
                (*final(res)).value(),
            ),
    {
        self.grow_to(r);
        &mut self.regs[r]
    }

    /// Overwrite register `r` with the given value.
    pub fn set_reg(&mut self, r: CellType, v: BigNat)
        requires
            old(self).wf(),
            v.wf(),
        ensures
            final(self).wf(),
            final(self).regs_fun() == old(self).regs_fun().insert(r as nat, v.value()),
    {
        let cell = self.reg_mut(r);
        *cell = v;
    }

    /// Set register `r` to zero, replacing any prior value.
    pub fn zero_reg(&mut self, r: CellType)
        requires
            old(self).wf(),
        ensures
            final(self).wf(),
            final(self).regs_fun() == old(self).regs_fun().insert(r as nat, 0),
    {
        self.set_reg(r, BigNat::new());
    }

    /// Add one to register `r`.
    pub fn inc_reg(&mut self, r: CellType)
        requires
            old(self).wf(),
        ensures
            final(self).wf(),
            final(self).regs_fun() == old(self).regs_fun().insert(
                r as nat,
                old(self).regs_fun()[r as nat] + 1,
            ),
    {
        let cell = self.reg_mut(r);
        cell.increment();
    }
}

/// One machine step, for a driver that streams output as it is produced:
/// perform the instruction at `ip` and hand back the next instruction
/// pointer and the code point emitted, if any.  Such a driver runs a
/// non-terminating program forever, as the language intends.
pub fn step_machine(code: &Vec<Op>, env: &mut Env, ip: PosType) -> (r: (PosType, Option<u32>))
    requires
        old(env).wf(),
        ip < code@.len(),
    ensures
        final(env).wf(),
        ({
            let s2 = step(
                code@,
                (State { ip: ip as nat, regs: old(env).regs_fun(), out: Seq::empty() }),
            );
            &&& r.0 as nat == s2.ip
            &&& final(env).regs_fun() == s2.regs
            &&& (match r.1 {
                Some(c) => s2.out == seq![c],
                None => s2.out == Seq::<u32>::empty(),
            })
        }),
{
    let n = code.len();
    proof {
        // the instruction pointer advances within the code's length
        assert(ip + 1 <= n);
    }
    let ghost s = (State { ip: ip as nat, regs: old(env).regs_fun(), out: Seq::empty() });
    match code[ip] {
        Op::Zero(r) => {
            env.zero_reg(r);
            (ip + 1, None)
        },
        Op::Inc(r) => {
            env.inc_reg(r);
            (ip + 1, None)
        },
        Op::Mov(r1, r2) => {
            let v = env.reg(r2).clone();
            env.set_reg(r1, v);
            (ip + 1, None)
        },
        Op::Jmp(r1, r2, new_ip) => {
            if env.reg(r1).eq_value(env.reg(r2)) {
                (new_ip, None)
            } else {
                (ip + 1, None)
            }
        },
        Op::Out(r) => {
            let point = env.reg(r).out_code();
            proof {
                assert(step(code@, s).out =~= seq![out_point(s.regs[code@[ip as int]->Out_0 as nat])]);
            }
            (ip + 1, Some(point))
        },
    }
}

/// Run a resolved program from the empty state for at most `fuel`
/// instructions, and return everything it printed together with whether the
/// instruction pointer ran past the end of the code within the budget.  A
/// non-terminating program is a valid input; its run is cut off only by the
/// budget, which a caller may make as large as the largest step counter.
pub fn execute(code: Vec<Op>, fuel: u64) -> (r: (Vec<u32>, bool))
    ensures
        r.0@ == steps(code@, init_state(), fuel as nat).out,
        r.1 == halted(code@, steps(code@, init_state(), fuel as nat)),
{
    let mut env = Env::new();
    let mut out: Vec<u32> = Vec::new();
    let mut ip: PosType = 0;
    let ghost mut n: nat = 0;
    let mut remaining: u64 = fuel;

    loop
        invariant
            env.wf(),
            ip <= code@.len(),
            n + remaining == fuel,
            steps(code@, init_state(), n) == (State {
                ip: ip as nat,
                regs: env.regs_fun(),
                out: out@,
            }),
        decreases remaining,
    {
        if ip >= code.len() || remaining == 0 {
            proof {
                if ip >= code.len() {
                    lemma_steps_stall(code@, init_state(), n, fuel as nat);
                }
            }
            return (out, ip >= code.len());
        }
        remaining = remaining - 1;
        let ghost pre = State { ip: ip as nat, regs: env.regs_fun(), out: out@ };
        match code[ip] {
            Op::Zero(r) => {
                env.zero_reg(r);
                ip = ip + 1;
            },
            Op::Inc(r) => {
                env.inc_reg(r);
                ip = ip + 1;
            },
            Op::Mov(r1, r2) => {
                let v = env.reg(r2).clone();
                env.set_reg(r1, v);
                ip = ip + 1;
            },
            Op::Jmp(r1, r2, new_ip) => {
                if env.reg(r1).eq_value(env.reg(r2)) {
                    ip = new_ip;
                } else {
                    ip = ip + 1;
                }
            },
            Op::Out(r) => {
                out.push(env.reg(r).out_code());
                ip = ip + 1;
            },
        }
        proof {
            assert((State { ip: ip as nat, regs: env.regs_fun(), out: out@ }) == step(
                code@,
                pre,
            ));
            lemma_steps_snoc(code@, init_state(), n);
            n = n + 1;
        }
        if ip > code.len() {
            // a jump may land anywhere at or past the end of the code; the
            // machine is then halted, whatever the exact pointer value
            proof {
                lemma_steps_stall(code@, init_state(), n, fuel as nat);
            }
            return (out, true);
        }
    }
}

/// Once a run has halted, further steps change nothing.
pub proof fn lemma_steps_stall(code: Seq<Op>, s: State, n: nat, m: nat)
    requires
        n <= m,
        halted(code, steps(code, s, n)),
    ensures
        steps(code, s, m) == steps(code, s, n),
    decreases n, m,
{
    if n == 0 {
        if m > 0 {
            lemma_steps_stall(code, s, 0, (m - 1) as nat);
        }
    } else if !halted(code, s) {
        lemma_steps_stall(code, step(code, s), (n - 1) as nat, (m - 1) as nat);
    } else {
        lemma_steps_stall(code, s, 0, m);
    }
}

} // verus!
