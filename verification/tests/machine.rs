//! The register machine and its unbounded numbers, run on concrete
//! programs.

use cmasm::bignat::BigNat;
use cmasm::vm::Env;
use cmasm::vm::Op;
use cmasm::vm::execute;
use cmasm::vm::step_machine;

const FUEL: u64 = 1_000_000;

#[test]
fn increment_counts_up() {
    let mut a = BigNat::new();
    a.increment();
    a.increment();
    a.increment();
    assert_eq!(a.out_code(), 3);
    let mut b = BigNat::new();
    b.increment();
    b.increment();
    assert!(!a.eq_value(&b));
    b.increment();
    assert!(a.eq_value(&b));
}

#[test]
fn zero_resets_to_additive_identity() {
    let mut a = BigNat::new();
    a.increment();
    a.increment();
    a.zero();
    assert_eq!(a.out_code(), 0);
    assert!(a.eq_value(&BigNat::new()));
}

#[test]
fn clone_is_a_value_copy() {
    let mut a = BigNat::new();
    a.increment();
    let b = a.clone();
    a.increment();
    assert_eq!(b.out_code(), 1);
    assert_eq!(a.out_code(), 2);
    assert!(!a.eq_value(&b));
}

#[test]
fn carry_builds_a_second_limb() {
    // a register at the limb boundary: one more increment must carry,
    // leaving the low limb zero and a new high limb of one
    let mut a = BigNat { limbs: vec![u64::MAX] };
    a.increment();
    assert_eq!(a.limbs, vec![0, 1]);
    assert!(!a.eq_value(&BigNat::new()));
    // the low window of the value is zero, though the value is not
    assert_eq!(a.out_code(), 0);
}

#[test]
fn incs_then_out_prints_the_count() {
    let code = vec![Op::Inc(0), Op::Inc(0), Op::Out(0)];
    let (out, halted) = execute(code, FUEL);
    assert!(halted);
    assert_eq!(out, vec![2]);
}

#[test]
fn zer_then_out_prints_nul() {
    let code = vec![Op::Zero(0), Op::Out(0)];
    let (out, halted) = execute(code, FUEL);
    assert!(halted);
    assert_eq!(out, vec![0]);
}

#[test]
fn mov_copies_the_value() {
    // build 2 in register 1, copy it to 0, increment the source, print both
    let code = vec![
        Op::Inc(1),
        Op::Inc(1),
        Op::Mov(0, 1),
        Op::Inc(1),
        Op::Out(0),
        Op::Out(1),
    ];
    let (out, halted) = execute(code, FUEL);
    assert!(halted);
    assert_eq!(out, vec![2, 3]);
}

#[test]
fn jmp_on_equal_fresh_registers_skips() {
    // both registers are unallocated, so they compare equal to zero and
    // the jump skips the increment
    let code = vec![Op::Jmp(0, 1, 2), Op::Inc(0), Op::Out(0)];
    let (out, halted) = execute(code, FUEL);
    assert!(halted);
    assert_eq!(out, vec![0]);
}

#[test]
fn jmp_compares_allocated_against_unallocated() {
    // register 0 is materialized and zeroed; register 7 was never touched
    let code = vec![Op::Zero(0), Op::Jmp(0, 7, 3), Op::Inc(0), Op::Out(0)];
    let (out, _) = execute(code, FUEL);
    assert_eq!(out, vec![0]);
}

#[test]
fn jmp_falls_through_on_unequal() {
    let code = vec![Op::Inc(0), Op::Jmp(0, 1, 3), Op::Inc(0), Op::Out(0)];
    let (out, _) = execute(code, FUEL);
    assert_eq!(out, vec![2]);
}

#[test]
fn non_terminating_program_uses_all_fuel() {
    let code = vec![Op::Jmp(0, 0, 0)];
    let (out, halted) = execute(code, 10);
    assert!(!halted);
    assert_eq!(out, Vec::<u32>::new());
}

#[test]
fn stepping_streams_the_output() {
    let code = vec![Op::Inc(0), Op::Out(0), Op::Inc(0), Op::Out(0)];
    let mut env = Env::new();
    let mut ip = 0usize;
    let mut out = Vec::new();
    while ip < code.len() {
        let (next_ip, point) = step_machine(&code, &mut env, ip);
        if let Some(p) = point {
            out.push(p);
        }
        ip = next_ip;
    }
    assert_eq!(out, vec![1, 2]);
}
