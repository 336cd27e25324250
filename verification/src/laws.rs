use crate::decode::decode;
use crate::decode::decode_from;
use crate::decode::digit_val;
use crate::decode::digits_value;
use crate::decode::i16_of_mod;
use crate::decode::is_digit;
use crate::decode::literal_instr;
use crate::decode::symbol_seq;
use crate::decode::value_from;
use crate::exec::addr_of;
use crate::exec::is_terminal;
use crate::exec::lemma_terminal_stable;
use crate::exec::popped;
use crate::exec::run_n;
use crate::exec::step;
use crate::exec::top_or_zero;
use crate::exec::wrap16;
use crate::exec::State;
use crate::instr::Instr;
use vstd::arithmetic::div_mod::lemma_mod_add_multiples_vanish;
use vstd::arithmetic::div_mod::lemma_small_mod;
use vstd::prelude::*;

verus! {

/// Decoding input that holds only digits — including empty input — yields
/// the empty instruction sequence: the trailing digit run is never closed,
/// so it is dropped without being emitted.
pub proof fn lemma_decode_digits_only(bytes: Seq<u8>)
    requires
        forall|i: int| 0 <= i < bytes.len() ==> is_digit(bytes[i]),
    ensures
        decode(bytes) == Seq::<Instr>::empty(),
{
    lemma_decode_from_digits(bytes, 0, None);
}

proof fn lemma_decode_from_digits(bytes: Seq<u8>, i: int, lit: Option<nat>)
    requires
        0 <= i,
        forall|j: int| i <= j < bytes.len() ==> is_digit(bytes[j]),
    ensures
        decode_from(bytes, i, lit) == Seq::<Instr>::empty(),
    decreases bytes.len() - i,
{
    if i < bytes.len() {
        let v = match lit {
            Some(v) => v * 10 + digit_val(bytes[i]),
            None => digit_val(bytes[i]),
        };
        lemma_decode_from_digits(bytes, i + 1, Some(v));
    }
}

/// Literal narrowing: a digit run closed by a non-digit byte decodes to one
/// `PushImmediate` whose payload is the run's base-10 value reduced modulo
/// 2^16 and reinterpreted as a signed 16-bit word, followed by whatever
/// instruction the closing byte itself maps to.
pub proof fn lemma_literal_narrowing(ds: Seq<u8>, c: u8)
    requires
        ds.len() > 0,
        forall|i: int| 0 <= i < ds.len() ==> is_digit(ds[i]),
        !is_digit(c),
    ensures
        decode(ds.push(c)) == seq![
            Instr::PushImmediate(i16_of_mod((digits_value(ds) % 65536) as int)),
        ] + symbol_seq(c),
{
    let full = ds.push(c);
    assert(full[0] == ds[0]);
    lemma_literal_run(ds, c, 1, digit_val(ds[0]));
    assert(value_from(ds, 0, 0) == value_from(ds, 1, 0 * 10 + digit_val(ds[0])));
    assert(0 * 10 + digit_val(ds[0]) == digit_val(ds[0]));
}

proof fn lemma_literal_run(ds: Seq<u8>, c: u8, i: int, v: nat)
    requires
        0 <= i <= ds.len(),
        forall|j: int| 0 <= j < ds.len() ==> is_digit(ds[j]),
        !is_digit(c),
    ensures
        decode_from(ds.push(c), i, Some(v)) == seq![literal_instr(value_from(ds, i, v))]
            + symbol_seq(c),
    decreases ds.len() - i,
{
    let full = ds.push(c);
    if i == ds.len() {
        assert(full[i] == c);
        assert(decode_from(full, i + 1, None) == Seq::<Instr>::empty());
        assert((seq![literal_instr(v)] + symbol_seq(c)) + Seq::<Instr>::empty() =~= seq![
            literal_instr(v),
        ] + symbol_seq(c));
    } else {
        assert(full[i] == ds[i]);
        lemma_literal_run(ds, c, i + 1, v * 10 + digit_val(ds[i]));
    }
}

/// Underflow safety: a lone `Vdrop`, `Vswap` or `Add` executed on an empty
/// value stack never faults; missing operands default to zero, so `Vdrop`
/// leaves the stack empty, `Vswap` leaves two zeros and `Add` pushes one.
pub proof fn lemma_underflow_safety(prog: Seq<Instr>, s: State)
    requires
        !is_terminal(prog, s),
        s.vstack.len() == 0,
    ensures
        prog[s.ip] == Instr::Vdrop ==> !step(prog, s).fault && step(prog, s).vstack
            == Seq::<i16>::empty(),
        prog[s.ip] == Instr::Vswap ==> !step(prog, s).fault && step(prog, s).vstack == seq![
            0i16,
            0i16,
        ],
        prog[s.ip] == Instr::Add ==> !step(prog, s).fault && step(prog, s).vstack == seq![0i16],
{
    if prog[s.ip] == Instr::Vdrop {
        assert(step(prog, s).vstack =~= Seq::<i16>::empty());
    }
    if prog[s.ip] == Instr::Vswap {
        assert(step(prog, s).vstack =~= seq![0i16, 0i16]);
    }
    if prog[s.ip] == Instr::Add {
        assert(wrap16(0) == 0i16);
        assert(step(prog, s).vstack =~= seq![0i16]);
    }
}

/// Wraparound arithmetic agrees with exact arithmetic whenever the exact
/// result already fits in a signed 16-bit word.
pub proof fn lemma_wrap16_exact(n: int)
    requires
        -32768 <= n < 32768,
    ensures
        wrap16(n) == n,
{
    if n >= 0 {
        lemma_small_mod(n as nat, 65536);
    } else {
        lemma_mod_add_multiples_vanish(n, 65536);
        lemma_small_mod((n + 65536) as nat, 65536);
    }
}

/// Control transfer: `CswapIp` continues execution at the index the top of
/// the call stack denotes, and leaves the narrowed post-increment
/// instruction pointer on top of the call stack in its place.
pub proof fn lemma_control_transfer(prog: Seq<Instr>, s: State)
    requires
        !is_terminal(prog, s),
        prog[s.ip] == Instr::CswapIp,
    ensures
        step(prog, s).ip == addr_of(top_or_zero(s.cstack)),
        step(prog, s).cstack == popped(s.cstack).push(wrap16(s.ip + 1)),
        top_or_zero(step(prog, s).cstack) == wrap16(s.ip + 1),
{
}

/// Jump-and-return round trip: the instruction pointer saved by `CswapIp`
/// denotes, as a jump target, exactly the index it was saved from — so a
/// later `VpushC`/`CpushV`/`CswapIp` sequence returns there.
pub proof fn lemma_saved_ip_recovered(n: int)
    requires
        0 <= n < 65536,
    ensures
        addr_of(wrap16(n)) == n,
{
    lemma_small_mod(n as nat, 65536);
    if n >= 32768 {
        lemma_mod_add_multiples_vanish(n - 65536, 65536);
    }
}

/// A fatal fault is immediate and final: executing `Read` sets the fault
/// flag without emitting anything.
pub proof fn lemma_read_faults(prog: Seq<Instr>, s: State)
    requires
        !is_terminal(prog, s),
        prog[s.ip] == Instr::Read,
    ensures
        step(prog, s).fault,
        step(prog, s).output == s.output,
{
}

/// Nothing runs, and in particular nothing is printed, after a fault: a
/// faulted state is a fixed point of execution.
pub proof fn lemma_fault_is_final(prog: Seq<Instr>, s: State, n: nat)
    requires
        s.fault,
    ensures
        run_n(prog, s, n) == s,
        run_n(prog, s, n).output == s.output,
{
    lemma_terminal_stable(prog, s, n);
}

} // verus!
