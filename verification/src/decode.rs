use crate::instr::Instr;
use vstd::arithmetic::div_mod::lemma_add_mod_noop;
use vstd::arithmetic::div_mod::lemma_mul_mod_noop_left;
use vstd::arithmetic::div_mod::lemma_small_mod;
use vstd::prelude::*;

verus! {

/// True of the ASCII codes of the decimal digits `0`..`9`.
pub open spec fn is_digit(c: u8) -> bool {
    48 <= c <= 57
}

/// Numeric value of a decimal digit byte.
pub open spec fn digit_val(c: u8) -> nat
    recommends
        is_digit(c),
{
    (c - 48) as nat
}

/// The instruction a symbol byte maps to, if any; bytes that map to no
/// instruction (and are not digits) are ignored by the decoder.
pub open spec fn symbol(c: u8) -> Option<Instr> {
    match c {
        62 => Some(Instr::CpushV),  // `>`
        60 => Some(Instr::VpushC),  // `<`
        94 => Some(Instr::Vswap),  // `^`
        58 => Some(Instr::Vdup),  // `:`
        46 => Some(Instr::Vdrop),  // `.`
        63 => Some(Instr::VswapIf),  // `?`
        59 => Some(Instr::CswapIp),  // `;`
        126 => Some(Instr::IsNegative),  // `~`
        43 => Some(Instr::Add),  // `+`
        45 => Some(Instr::Sub),  // `-`
        95 => Some(Instr::Read),  // `_`
        34 => Some(Instr::Print),  // `"`
        64 => Some(Instr::Mswap),  // `@`
        _ => None,
    }
}

/// The instructions a single non-digit byte contributes: one or none.
pub open spec fn symbol_seq(c: u8) -> Seq<Instr> {
    match symbol(c) {
        Some(t) => seq![t],
        None => Seq::empty(),
    }
}

/// Reinterpret a residue in `[0, 65536)` as a 16-bit two's-complement value.
pub open spec fn i16_of_mod(m: int) -> i16
    recommends
        0 <= m < 65536,
{
    if m >= 32768 {
        (m - 65536) as i16
    } else {
        m as i16
    }
}

/// The instruction emitted when a numeric literal of value `v` closes:
/// the literal is narrowed to 16 bits by wrapping modulo 2^16.
pub open spec fn literal_instr(v: nat) -> Instr {
    Instr::PushImmediate(i16_of_mod((v % 65536) as int))
}

/// Instructions decoded from `bytes[i..]`, given the value of the digit run
/// currently being accumulated (`None` when no run is open).
///
/// A digit extends the run (or opens one); any other byte first closes an
/// open run — emitting its `PushImmediate` — and then contributes its own
/// symbol instruction, if it has one. A run still open at the end of the
/// input is dropped without being emitted.
pub open spec fn decode_from(bytes: Seq<u8>, i: int, lit: Option<nat>) -> Seq<Instr>
    decreases bytes.len() - i,
{
    if i < 0 || i >= bytes.len() {
        Seq::empty()
    } else {
        let c = bytes[i];
        if is_digit(c) {
            let v = match lit {
                Some(v) => v * 10 + digit_val(c),
                None => digit_val(c),
            };
            decode_from(bytes, i + 1, Some(v))
        } else {
            let closed = match lit {
                Some(v) => seq![literal_instr(v)],
                None => Seq::empty(),
            };
            closed + symbol_seq(c) + decode_from(bytes, i + 1, None)
        }
    }
}

/// The instruction sequence a byte sequence decodes to. Total: defined for
/// every byte sequence.
pub open spec fn decode(bytes: Seq<u8>) -> Seq<Instr> {
    decode_from(bytes, 0, None)
}

/// Base-10 value accumulated by scanning `ds[i..]` left to right, starting
/// from `v`: the value a digit run reaches by the time it closes.
pub open spec fn value_from(ds: Seq<u8>, i: int, v: nat) -> nat
    decreases ds.len() - i,
{
    if i < 0 || i >= ds.len() {
        v
    } else {
        value_from(ds, i + 1, v * 10 + digit_val(ds[i]))
    }
}

/// The base-10 value of a digit run, before any narrowing.
pub open spec fn digits_value(ds: Seq<u8>) -> nat {
    value_from(ds, 0, 0)
}

/// Decode program text into its instruction sequence.
///
/// Total over any byte slice: unrecognized bytes are ignored, a trailing
/// digit run is dropped, and literal values wrap modulo 2^16.
pub fn tokenize(input: &[u8]) -> (out: Vec<Instr>)
    ensures
        out@ == decode(input@),
{
    let mut out: Vec<Instr> = Vec::new();
    let mut is_num: bool = false;
    // Value of the open digit run, reduced modulo 2^16; the ghost `lit`
    // carries the full mathematical value.
    let mut acc: u32 = 0;
    let ghost mut lit: Option<nat> = None;
    let mut i: usize = 0;
    while i < input.len()
        invariant
            i <= input@.len(),
            is_num <==> lit is Some,
            lit matches Some(v) ==> acc == v % 65536,
            decode(input@) == out@ + decode_from(input@, i as int, lit),
        decreases input@.len() - i,
    {
        let ghost prev_out = out@;
        let ghost prev_lit = lit;
        let c = input[i];
        if 48 <= c && c <= 57 {
            if !is_num {
                is_num = true;
                acc = (c - 48) as u32;
                proof {
                    lit = Some(digit_val(c));
                    lemma_small_mod(digit_val(c), 65536);
                }
            } else {
                let ghost v = prev_lit->0;
                let ghost v2 = v * 10 + digit_val(c);
                acc = (acc * 10 + (c - 48) as u32) % 65536;
                proof {
                    lit = Some(v2);
                    lemma_mul_mod_noop_left(v as int, 10, 65536);
                    lemma_add_mod_noop((v * 10) as int, digit_val(c) as int, 65536);
                    lemma_add_mod_noop(((v % 65536) * 10) as int, digit_val(c) as int, 65536);
                    assert(acc == v2 % 65536);
                }
            }
            proof {
                assert(decode_from(input@, i as int, prev_lit) == decode_from(
                    input@,
                    i + 1,
                    lit,
                ));
            }
        } else {
            if is_num {
                let val: i16 = if acc >= 32768 {
                    (acc as i32 - 65536) as i16
                } else {
                    acc as i16
                };
                out.push(Instr::PushImmediate(val));
                is_num = false;
                proof {
                    assert(Instr::PushImmediate(val) == literal_instr(prev_lit->0));
                    lit = None;
                }
            }
            match c {
                62 => out.push(Instr::CpushV),  // `>`
                60 => out.push(Instr::VpushC),  // `<`
                94 => out.push(Instr::Vswap),  // `^`
                58 => out.push(Instr::Vdup),  // `:`
                46 => out.push(Instr::Vdrop),  // `.`
                63 => out.push(Instr::VswapIf),  // `?`
                59 => out.push(Instr::CswapIp),  // `;`
                126 => out.push(Instr::IsNegative),  // `~`
                43 => out.push(Instr::Add),  // `+`
                45 => out.push(Instr::Sub),  // `-`
                95 => out.push(Instr::Read),  // `_`
                34 => out.push(Instr::Print),  // `"`
                64 => out.push(Instr::Mswap),  // `@`
                _ => {},
            }
            proof {
                let closed = match prev_lit {
                    Some(v) => seq![literal_instr(v)],
                    None => Seq::<Instr>::empty(),
                };
                assert(out@ =~= prev_out + (closed + symbol_seq(c)));
                assert(decode_from(input@, i as int, prev_lit) == (closed + symbol_seq(c))
                    + decode_from(input@, i + 1, lit));
                assert(prev_out + ((closed + symbol_seq(c)) + decode_from(input@, i + 1, lit))
                    =~= out@ + decode_from(input@, i + 1, lit));
            }
        }
        i = i + 1;
    }
    proof {
        assert(decode_from(input@, i as int, lit) =~= Seq::<Instr>::empty());
        assert(out@ + Seq::<Instr>::empty() =~= out@);
    }
    out
}

} // verus!
