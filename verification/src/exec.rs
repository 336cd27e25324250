use crate::decode::i16_of_mod;
use crate::instr::Instr;
use vstd::arithmetic::div_mod::lemma_mod_add_multiples_vanish;
use vstd::arithmetic::div_mod::lemma_mod_multiples_vanish;
use vstd::arithmetic::div_mod::lemma_small_mod;
use vstd::prelude::*;

verus! {

/// Abstract machine state: the mathematical model the engine is verified
/// against. `mem` always has 65536 words in reachable states.
#[verifier::ext_equal]
pub ghost struct State {
    /// Index of the next instruction to execute.
    pub ip: int,
    /// Value stack, top at the end.
    pub vstack: Seq<i16>,
    /// Call stack, top at the end.
    pub cstack: Seq<i16>,
    /// Flat word memory, addressed by wrapped 16-bit addresses.
    pub mem: Seq<i16>,
    /// Bytes emitted by `Print` so far, in execution order.
    pub output: Seq<u8>,
    /// True once the unimplemented `Read` operation has been invoked.
    pub fault: bool,
}

/// The state a fresh machine starts in: everything empty or zero.
pub open spec fn init_state() -> State {
    State {
        ip: 0,
        vstack: Seq::empty(),
        cstack: Seq::empty(),
        mem: Seq::new(65536, |j: int| 0i16),
        output: Seq::empty(),
        fault: false,
    }
}

/// Top of a stack, with the load-bearing underflow rule: an empty stack
/// yields zero, never a fault.
pub open spec fn top_or_zero(s: Seq<i16>) -> i16 {
    if s.len() == 0 {
        0i16
    } else {
        s.last()
    }
}

/// A stack after popping: unchanged when already empty.
pub open spec fn popped(s: Seq<i16>) -> Seq<i16> {
    if s.len() == 0 {
        s
    } else {
        s.drop_last()
    }
}

/// 16-bit two's-complement wraparound of an arbitrary integer.
pub open spec fn wrap16(n: int) -> i16 {
    i16_of_mod(n % 65536)
}

/// The memory address a popped value denotes: its low 16 bits, so always
/// in `[0, 65536)`.
pub open spec fn addr_of(v: i16) -> int {
    (v as int) % 65536
}

/// The byte a printed value emits: its low 8 bits.
pub open spec fn byte_of(v: i16) -> u8 {
    ((v as int) % 256) as u8
}

/// Execution is over: the instruction pointer ran off the sequence (normal
/// termination) or the machine faulted.
pub open spec fn is_terminal(prog: Seq<Instr>, s: State) -> bool {
    s.fault || !(0 <= s.ip < prog.len())
}

/// One fetch-decode-execute step. On a terminal state this is the
/// identity; otherwise the instruction pointer first advances by one and
/// the fetched instruction's effect is then applied.
pub open spec fn step(prog: Seq<Instr>, s: State) -> State {
    if is_terminal(prog, s) {
        s
    } else {
        let t = State { ip: s.ip + 1, ..s };
        match prog[s.ip] {
            Instr::PushImmediate(v) => State { vstack: t.vstack.push(v), ..t },
            Instr::CpushV => State {
                vstack: popped(t.vstack),
                cstack: t.cstack.push(top_or_zero(t.vstack)),
                ..t
            },
            Instr::VpushC => State {
                cstack: popped(t.cstack),
                vstack: t.vstack.push(top_or_zero(t.cstack)),
                ..t
            },
            Instr::Vswap => {
                let a = top_or_zero(t.vstack);
                let b = top_or_zero(popped(t.vstack));
                State { vstack: popped(popped(t.vstack)).push(a).push(b), ..t }
            },
            Instr::Vdup => State { vstack: t.vstack.push(top_or_zero(t.vstack)), ..t },
            Instr::Vdrop => State { vstack: popped(t.vstack), ..t },
            Instr::VswapIf => {
                let c = top_or_zero(t.vstack);
                let r = popped(t.vstack);
                if c != 0 {
                    let a = top_or_zero(r);
                    let b = top_or_zero(popped(r));
                    State { vstack: popped(popped(r)).push(a).push(b), ..t }
                } else {
                    State { vstack: r, ..t }
                }
            },
            Instr::CswapIp => State {
                ip: addr_of(top_or_zero(t.cstack)),
                cstack: popped(t.cstack).push(wrap16(t.ip)),
                ..t
            },
            Instr::IsNegative => {
                let c = top_or_zero(t.vstack);
                State {
                    vstack: popped(t.vstack).push(if c < 0 { 1i16 } else { 0i16 }),
                    ..t
                }
            },
            Instr::Add => {
                let b = top_or_zero(t.vstack);
                let a = top_or_zero(popped(t.vstack));
                State { vstack: popped(popped(t.vstack)).push(wrap16(a + b)), ..t }
            },
            Instr::Sub => {
                let b = top_or_zero(t.vstack);
                let a = top_or_zero(popped(t.vstack));
                State { vstack: popped(popped(t.vstack)).push(wrap16(a - b)), ..t }
            },
            Instr::Read => State { fault: true, ..t },
            Instr::Print => {
                let a = top_or_zero(t.vstack);
                State { vstack: popped(t.vstack), output: t.output.push(byte_of(a)), ..t }
            },
            Instr::Mswap => {
                let val = top_or_zero(t.vstack);
                let id = top_or_zero(popped(t.vstack));
                let a = addr_of(id);
                State {
                    vstack: popped(popped(t.vstack)).push(t.mem[a]),
                    mem: t.mem.update(a, val),
                    ..t
                }
            },
        }
    }
}

/// The state reached after `n` steps from `s`.
pub open spec fn run_n(prog: Seq<Instr>, s: State, n: nat) -> State
    decreases n,
{
    if n == 0 {
        s
    } else {
        step(prog, run_n(prog, s, (n - 1) as nat))
    }
}

/// A terminal state is a fixed point of the step function: once execution
/// has halted or faulted, nothing changes any more.
pub proof fn lemma_terminal_stable(prog: Seq<Instr>, s: State, n: nat)
    requires
        is_terminal(prog, s),
    ensures
        run_n(prog, s, n) == s,
    decreases n,
{
    if n > 0 {
        lemma_terminal_stable(prog, s, (n - 1) as nat);
    }
}

/// Running `a + b` steps is running `a` steps, then `b` more.
pub proof fn lemma_run_n_add(prog: Seq<Instr>, s: State, a: nat, b: nat)
    ensures
        run_n(prog, s, a + b) == run_n(prog, run_n(prog, s, a), b),
    decreases b,
{
    if b > 0 {
        lemma_run_n_add(prog, s, a, (b - 1) as nat);
    }
}

/// Euclidean remainder of a value already in range.
proof fn lemma_mod_identity(n: int)
    requires
        0 <= n < 65536,
    ensures
        n % 65536 == n,
{
    lemma_small_mod(n as nat, 65536);
}

/// Shifting by one full period does not change the remainder.
proof fn lemma_mod_period(n: int)
    requires
        -65536 <= n < 0,
    ensures
        n % 65536 == n + 65536,
{
    lemma_mod_add_multiples_vanish(n, 65536);
    lemma_small_mod((n + 65536) as nat, 65536);
}

/// Pop a 16-bit value off a stack, yielding zero when it is empty.
fn pop_or_zero(s: &mut Vec<i16>) -> (r: i16)
    ensures
        r == top_or_zero(old(s)@),
        final(s)@ == popped(old(s)@),
{
    match s.pop() {
        Some(x) => x,
        None => 0,
    }
}

/// Reduce a small integer to its 16-bit two's-complement wraparound.
fn narrow_wrap(n: i32) -> (r: i16)
    requires
        -65536 <= n < 65536,
    ensures
        r == wrap16(n as int),
{
    proof {
        if n >= 0 {
            lemma_mod_identity(n as int);
        } else {
            lemma_mod_period(n as int);
        }
    }
    if n >= 32768 {
        (n - 65536) as i16
    } else if n < -32768 {
        (n + 65536) as i16
    } else {
        n as i16
    }
}

/// The memory index a popped value addresses: its low 16 bits.
fn addr_index(v: i16) -> (r: usize)
    ensures
        r == addr_of(v),
        r < 65536,
{
    proof {
        if v >= 0 {
            lemma_mod_identity(v as int);
        } else {
            lemma_mod_period(v as int);
        }
    }
    if v >= 0 {
        v as usize
    } else {
        (v as i32 + 65536) as usize
    }
}

/// The low 8 bits of a printed value.
fn low_byte(v: i16) -> (r: u8)
    ensures
        r == byte_of(v),
{
    if v >= 0 {
        (v % 256) as u8
    } else {
        proof {
            lemma_mod_multiples_vanish(256, v as int, 256);
        }
        ((v as i32 + 65536) % 256) as u8
    }
}

/// The 16-bit two's-complement narrowing of an instruction index, as saved
/// on the call stack by `CswapIp`.
fn narrow_ip(ip: usize) -> (r: i16)
    ensures
        r == wrap16(ip as int),
{
    let m: usize = ip % 65536;
    if m >= 32768 {
        (m as i64 - 65536) as i16
    } else {
        m as i16
    }
}

/// The virtual machine: an instruction pointer, the two stacks, the word
/// memory, the emitted output and the fault flag.
///
/// The machine does not own the instruction sequence; each step is taken
/// against a program passed in by the caller.
pub struct Vm {
    /// Index of the next instruction to execute.
    pub ip: usize,
    /// Value stack, top at the end.
    pub vstack: Vec<i16>,
    /// Call stack, top at the end.
    pub cstack: Vec<i16>,
    /// Flat word memory of 65536 16-bit words.
    pub mem: Vec<i16>,
    /// Bytes emitted by `Print`, in execution order.
    pub output: Vec<u8>,
    /// True once the unimplemented `Read` operation has faulted.
    pub fault: bool,
}

impl View for Vm {
    type V = State;

    open spec fn view(&self) -> State {
        State {
            ip: self.ip as int,
            vstack: self.vstack@,
            cstack: self.cstack@,
            mem: self.mem@,
            output: self.output@,
            fault: self.fault,
        }
    }
}

impl Vm {
    /// Well-formedness: the memory holds exactly 65536 words.
    pub open spec fn wf(self) -> bool {
        self.mem@.len() == 65536
    }

    /// A fresh machine: instruction pointer at zero, both stacks empty,
    /// memory all zeros, no output, no fault.
    pub fn new() -> (vm: Vm)
        ensures
            vm.wf(),
            vm@ == init_state(),
    {
        let mut mem: Vec<i16> = Vec::new();
        let mut j: usize = 0;
        while j < 65536
            invariant
                j <= 65536,
                mem@.len() == j,
                forall|k: int| 0 <= k < j ==> mem@[k] == 0i16,
            decreases 65536 - j,
        {
            mem.push(0);
            j = j + 1;
        }
        let vm = Vm {
            ip: 0,
            vstack: Vec::new(),
            cstack: Vec::new(),
            mem,
            output: Vec::new(),
            fault: false,
        };
        proof {
            assert(vm@.mem =~= init_state().mem);
            assert(vm@ =~= init_state());
        }
        vm
    }

    /// Whether execution of `prog` is over in the current state.
    pub fn halted(&self, prog: &Vec<Instr>) -> (r: bool)
        ensures
            r == is_terminal(prog@, self@),
    {
        self.fault || self.ip >= prog.len()
    }

    /// Perform one fetch-decode-execute step of `prog`: a no-op on a
    /// terminal state, otherwise exactly the abstract step function.
    pub fn step(&mut self, prog: &Vec<Instr>)
        requires
            old(self).wf(),
        ensures
            final(self).wf(),
            final(self)@ == step(prog@, old(self)@),
    {
        if self.fault || self.ip >= prog.len() {
            return ;
        }
        let instr = prog[self.ip];
        self.ip = self.ip + 1;
        match instr {
            Instr::PushImmediate(v) => {
                self.vstack.push(v);
            },
            Instr::CpushV => {
                let a = pop_or_zero(&mut self.vstack);
                self.cstack.push(a);
            },
            Instr::VpushC => {
                let a = pop_or_zero(&mut self.cstack);
                self.vstack.push(a);
            },
            Instr::Vswap => {
                let a = pop_or_zero(&mut self.vstack);
                let b = pop_or_zero(&mut self.vstack);
                self.vstack.push(a);
                self.vstack.push(b);
            },
            Instr::Vdup => {
                let a = if self.vstack.len() == 0 {
                    0i16
                } else {
                    self.vstack[self.vstack.len() - 1]
                };
                self.vstack.push(a);
            },
            Instr::Vdrop => {
                let _ = self.vstack.pop();
            },
            Instr::VswapIf => {
                let c = pop_or_zero(&mut self.vstack);
                if c != 0 {
                    let a = pop_or_zero(&mut self.vstack);
                    let b = pop_or_zero(&mut self.vstack);
                    self.vstack.push(a);
                    self.vstack.push(b);
                }
            },
            Instr::CswapIp => {
                let saved = narrow_ip(self.ip);
                let t = pop_or_zero(&mut self.cstack);
                self.ip = addr_index(t);
                self.cstack.push(saved);
            },
            Instr::IsNegative => {
                let c = pop_or_zero(&mut self.vstack);
                self.vstack.push(if c < 0 { 1 } else { 0 });
            },
            Instr::Add => {
                let b = pop_or_zero(&mut self.vstack);
                let a = pop_or_zero(&mut self.vstack);
                self.vstack.push(narrow_wrap(a as i32 + b as i32));
            },
            Instr::Sub => {
                let b = pop_or_zero(&mut self.vstack);
                let a = pop_or_zero(&mut self.vstack);
                self.vstack.push(narrow_wrap(a as i32 - b as i32));
            },
            Instr::Read => {
                self.fault = true;
            },
            Instr::Print => {
                let a = pop_or_zero(&mut self.vstack);
                let b = low_byte(a);
                self.output.push(b);
            },
            Instr::Mswap => {
                let val = pop_or_zero(&mut self.vstack);
                let id = pop_or_zero(&mut self.vstack);
                let a = addr_index(id);
                let old_val = self.mem[a];
                self.mem[a] = val;
                self.vstack.push(old_val);
            },
        }
        proof {
            assert(self@ =~= step(prog@, old(self)@));
        }
    }

    /// Run up to `fuel` steps of `prog`, stopping early once execution is
    /// over. The result is exactly the abstract state after `fuel` steps
    /// (terminal states being fixed points, stopping early loses nothing).
    pub fn run(&mut self, prog: &Vec<Instr>, fuel: u64)
        requires
            old(self).wf(),
        ensures
            final(self).wf(),
            final(self)@ == run_n(prog@, old(self)@, fuel as nat),
    {
        let ghost s0 = self@;
        let mut k: u64 = 0;
        let mut done: bool = self.halted(prog);
        while k < fuel && !done
            invariant
                self.wf(),
                k <= fuel,
                self@ == run_n(prog@, s0, k as nat),
                done == is_terminal(prog@, self@),
            decreases fuel - k,
        {
            self.step(prog);
            k = k + 1;
            done = self.halted(prog);
        }
        proof {
            if done {
                lemma_run_n_add(prog@, s0, k as nat, (fuel - k) as nat);
                lemma_terminal_stable(prog@, self@, (fuel - k) as nat);
            }
        }
    }
}

/// Decode-free entry point for whole runs: execute `tokens` on a fresh
/// machine for up to `fuel` steps and hand the machine back.
pub fn run_program(tokens: &Vec<Instr>, fuel: u64) -> (vm: Vm)
    ensures
        vm.wf(),
        vm@ == run_n(tokens@, init_state(), fuel as nat),
{
    let mut vm = Vm::new();
    vm.run(tokens, fuel);
    vm
}

} // verus!
