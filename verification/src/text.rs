//! Hexadecimal text rendering for the debug dump of the machine state.

use vstd::prelude::*;
use vstd::string::StringExecFns;

verus! {

/// The hexadecimal digit character for a value below 16.
pub open spec fn spec_hex_digit(d: int) -> char {
    if d == 0 {
        '0'
    } else if d == 1 {
        '1'
    } else if d == 2 {
        '2'
    } else if d == 3 {
        '3'
    } else if d == 4 {
        '4'
    } else if d == 5 {
        '5'
    } else if d == 6 {
        '6'
    } else if d == 7 {
        '7'
    } else if d == 8 {
        '8'
    } else if d == 9 {
        '9'
    } else if d == 10 {
        'A'
    } else if d == 11 {
        'B'
    } else if d == 12 {
        'C'
    } else if d == 13 {
        'D'
    } else if d == 14 {
        'E'
    } else {
        'F'
    }
}

/// Two hexadecimal digits of a byte, high digit first.
pub open spec fn spec_hex2(v: u8) -> Seq<char> {
    seq![spec_hex_digit(v as int / 16), spec_hex_digit(v as int % 16)]
}

/// Four hexadecimal digits of a 16-bit word, high digit first.
pub open spec fn spec_hex4(v: u16) -> Seq<char> {
    seq![
        spec_hex_digit(v as int / 4096),
        spec_hex_digit((v as int / 256) % 16),
        spec_hex_digit((v as int / 16) % 16),
        spec_hex_digit(v as int % 16),
    ]
}

/// The single-character string of one hexadecimal digit.
pub(crate) fn hex_digit_str(d: u8) -> (r: &'static str)
    requires
        d < 16,
    ensures
        r@ == seq![spec_hex_digit(d as int)],
{
    proof {
        reveal_strlit("0");
        reveal_strlit("1");
        reveal_strlit("2");
        reveal_strlit("3");
        reveal_strlit("4");
        reveal_strlit("5");
        reveal_strlit("6");
        reveal_strlit("7");
        reveal_strlit("8");
        reveal_strlit("9");
        reveal_strlit("A");
        reveal_strlit("B");
        reveal_strlit("C");
        reveal_strlit("D");
        reveal_strlit("E");
        reveal_strlit("F");
    }
    match d {
        0 => "0",
        1 => "1",
        2 => "2",
        3 => "3",
        4 => "4",
        5 => "5",
        6 => "6",
        7 => "7",
        8 => "8",
        9 => "9",
        10 => "A",
        11 => "B",
        12 => "C",
        13 => "D",
        14 => "E",
        _ => "F",
    }
}

/// The registers `k..16` as space-terminated hex byte pairs.
pub open spec fn regs_text(v: Seq<u8>, k: int) -> Seq<char>
    decreases 16 - k,
{
    if k < 0 || k >= 16 {
        Seq::empty()
    } else {
        spec_hex2(v[k]) + " "@ + regs_text(v, k + 1)
    }
}

/// The stack slots `k..16` as space-terminated hex word quadruples.
pub open spec fn stack_text(st: Seq<u16>, k: int) -> Seq<char>
    decreases 16 - k,
{
    if k < 0 || k >= 16 {
        Seq::empty()
    } else {
        spec_hex4(st[k]) + " "@ + stack_text(st, k + 1)
    }
}

/// The key latches `k..16`, a pressed key as `X`, a released one as `-`.
pub open spec fn keys_text(kb: Seq<bool>, k: int) -> Seq<char>
    decreases 16 - k,
{
    if k < 0 || k >= 16 {
        Seq::empty()
    } else {
        (if kb[k] {
            "X"@
        } else {
            "-"@
        }) + keys_text(kb, k + 1)
    }
}

/// A boolean as `1` or `0`.
pub open spec fn flag_text(b: bool) -> Seq<char> {
    if b {
        "1"@
    } else {
        "0"@
    }
}

/// Appends the register dump of `regs_text(v@, 0)`.
pub(crate) fn append_regs(out: &mut String, v: &Vec<u8>)
    requires
        v@.len() == 16,
    ensures
        final(out)@ == old(out)@ + regs_text(v@, 0),
{
    proof {
        reveal_strlit(" ");
    }
    let mut k: usize = 0;
    while k < 16
        invariant
            v@.len() == 16,
            k <= 16,
            out@ + regs_text(v@, k as int) =~= old(out)@ + regs_text(v@, 0),
        decreases 16 - k,
    {
        let ghost before = out@;
        append_hex2(out, v[k]);
        out.append(" ");
        proof {
            reveal_strlit(" ");
            assert(out@ + regs_text(v@, k as int + 1) =~= before + regs_text(v@, k as int));
        }
        k += 1;
    }
    proof {
        assert(out@ + regs_text(v@, 16) =~= out@);
    }
}

/// Appends the stack dump of `stack_text(st@, 0)`.
pub(crate) fn append_stack(out: &mut String, st: &Vec<u16>)
    requires
        st@.len() == 16,
    ensures
        final(out)@ == old(out)@ + stack_text(st@, 0),
{
    proof {
        reveal_strlit(" ");
    }
    let mut k: usize = 0;
    while k < 16
        invariant
            st@.len() == 16,
            k <= 16,
            out@ + stack_text(st@, k as int) =~= old(out)@ + stack_text(st@, 0),
        decreases 16 - k,
    {
        let ghost before = out@;
        append_hex4(out, st[k]);
        out.append(" ");
        proof {
            reveal_strlit(" ");
            assert(out@ + stack_text(st@, k as int + 1) =~= before + stack_text(st@, k as int));
        }
        k += 1;
    }
    proof {
        assert(out@ + stack_text(st@, 16) =~= out@);
    }
}

/// Appends the keyboard dump of `keys_text(kb@, 0)`.
pub(crate) fn append_keys(out: &mut String, kb: &Vec<bool>)
    requires
        kb@.len() == 16,
    ensures
        final(out)@ == old(out)@ + keys_text(kb@, 0),
{
    proof {
        reveal_strlit("X");
        reveal_strlit("-");
    }
    let mut k: usize = 0;
    while k < 16
        invariant
            kb@.len() == 16,
            k <= 16,
            out@ + keys_text(kb@, k as int) =~= old(out)@ + keys_text(kb@, 0),
        decreases 16 - k,
    {
        let ghost before = out@;
        if kb[k] {
            out.append("X");
        } else {
            out.append("-");
        }
        proof {
            reveal_strlit("X");
            reveal_strlit("-");
            assert(out@ + keys_text(kb@, k as int + 1) =~= before + keys_text(kb@, k as int));
        }
        k += 1;
    }
    proof {
        assert(out@ + keys_text(kb@, 16) =~= out@);
    }
}

/// Appends `1` for a set flag, `0` for a clear one.
pub(crate) fn append_flag(out: &mut String, b: bool)
    ensures
        final(out)@ == old(out)@ + flag_text(b),
{
    proof {
        reveal_strlit("1");
        reveal_strlit("0");
    }
    if b {
        out.append("1");
    } else {
        out.append("0");
    }
}

/// Appends the two hexadecimal digits of a byte.
pub(crate) fn append_hex2(out: &mut String, v: u8)
    ensures
        final(out)@ == old(out)@ + spec_hex2(v),
{
    out.append(hex_digit_str(v / 16));
    out.append(hex_digit_str(v % 16));
    proof {
        assert(out@ =~= old(out)@ + spec_hex2(v));
    }
}

/// Appends the four hexadecimal digits of a 16-bit word.
pub(crate) fn append_hex4(out: &mut String, v: u16)
    ensures
        final(out)@ == old(out)@ + spec_hex4(v),
{
    out.append(hex_digit_str((v / 4096) as u8));
    out.append(hex_digit_str(((v / 256) % 16) as u8));
    out.append(hex_digit_str(((v / 16) % 16) as u8));
    out.append(hex_digit_str((v % 16) as u8));
    proof {
        assert(out@ =~= old(out)@ + spec_hex4(v));
    }
}

} // verus!
