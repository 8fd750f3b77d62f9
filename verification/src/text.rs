//! Text renderings of numbers and UUIDs used in activity logs.

use vstd::prelude::*;

verus! {

/// The ASCII character of hex digit `d` (lowercase), for `d < 16`.
pub open spec fn hex_char(d: int) -> char {
    if d < 10 {
        ((48 + d) as u8) as char
    } else {
        ((87 + d) as u8) as char
    }
}

/// Decimal rendering of `n`, most significant digit first, no leading zeros.
pub open spec fn decimal(n: nat) -> Seq<char>
    decreases n,
{
    if n < 10 {
        seq![hex_char(n as int)]
    } else {
        decimal(n / 10) + seq![hex_char((n % 10) as int)]
    }
}

/// Hex digit `k` (0 = most significant) of a 128-bit value.
pub open spec fn nibble(bits: u128, k: int) -> int {
    ((bits >> ((124 - 4 * k) as u128)) & 0xfu128) as int
}

/// The position among the 36 characters of a hyphenated UUID at which hex
/// digit `k` stands.
pub open spec fn digit_position(k: int) -> int {
    if k < 8 {
        k
    } else if k < 12 {
        k + 1
    } else if k < 16 {
        k + 2
    } else if k < 20 {
        k + 3
    } else {
        k + 4
    }
}

/// Hyphenated lowercase rendering of a UUID (8-4-4-4-12 hex digits), as the
/// `uuid` crate displays it.
pub open spec fn uuid_text(bits: u128) -> Seq<char> {
    Seq::new(
        36,
        |j: int|
            if j == 8 || j == 13 || j == 18 || j == 23 {
                '-'
            } else {
                let k = if j < 8 {
                    j
                } else if j < 13 {
                    j - 1
                } else if j < 18 {
                    j - 2
                } else if j < 23 {
                    j - 3
                } else {
                    j - 4
                };
                hex_char(nibble(bits, k))
            },
    )
}

/// "true" or "false".
pub open spec fn bool_text(b: bool) -> Seq<char> {
    if b {
        "true"@
    } else {
        "false"@
    }
}

/// The one-character text of hex digit `d`.
fn digit_str(d: u8) -> (s: &'static str)
    requires
        d < 16,
    ensures
        s@ == seq![hex_char(d as int)],
{
    proof {
        reveal_strlit("0");
        reveal_strlit("1");
        reveal_strlit("2");
        reveal_strlit("3");
        reveal_strlit("4");
        reveal_strlit("5");
        reveal_strlit("6");
        reveal_strlit("7");
        reveal_strlit("8");
        reveal_strlit("9");
        reveal_strlit("a");
        reveal_strlit("b");
        reveal_strlit("c");
        reveal_strlit("d");
        reveal_strlit("e");
        reveal_strlit("f");
    }
    let s = match d {
        0 => "0",
        1 => "1",
        2 => "2",
        3 => "3",
        4 => "4",
        5 => "5",
        6 => "6",
        7 => "7",
        8 => "8",
        9 => "9",
        10 => "a",
        11 => "b",
        12 => "c",
        13 => "d",
        14 => "e",
        _ => "f",
    };
    assert(s@ =~= seq![hex_char(d as int)]);
    s
}

/// Appends the decimal rendering of `n` to `s`.
pub fn push_decimal(s: &mut String, n: u64)
    ensures
        final(s)@ == old(s)@ + decimal(n as nat),
    decreases n,
{
    if n >= 10 {
        push_decimal(s, n / 10);
    }
    s.append(digit_str((n % 10) as u8));
    assert(final(s)@ =~= old(s)@ + decimal(n as nat)) by {
        if n >= 10 {
            assert(decimal(n as nat) == decimal((n / 10) as nat) + seq![hex_char((n % 10) as int)]);
        }
    }
}

/// Appends the hyphenated lowercase rendering of UUID `bits` to `s`.
pub fn push_uuid(s: &mut String, bits: u128)
    ensures
        final(s)@ == old(s)@ + uuid_text(bits),
{
    let ghost start = s@;
    let ghost full = uuid_text(bits);
    let mut k: usize = 0;
    let ghost mut p: int = 0;
    proof {
        reveal_strlit("-");
    }
    while k < 32
        invariant
            k <= 32,
            p == (if k == 8 || k == 12 || k == 16 || k == 20 { digit_position(k as int) - 1 } else if k == 32 { 36 } else { digit_position(k as int) }),
            s@ == start + full.take(p),
            "-"@ == seq!['-'],
            full == uuid_text(bits),
        decreases 32 - k,
    {
        assert(full.len() == 36);
        if k == 8 || k == 12 || k == 16 || k == 20 {
            assert(0 <= p < 36);
            assert(full[p] == '-');
            s.append("-");
            assert(full.take(p + 1) =~= full.take(p).push(full[p]));
            assert(s@ =~= start + full.take(p + 1));
            proof {
                p = p + 1;
            }
        }
        assert(p == digit_position(k as int));
        let shift: u128 = (124 - 4 * k) as u128;
        assert(((bits >> shift) & 0xfu128) < 16) by (bit_vector);
        let d = ((bits >> shift) & 0xf) as u8;
        assert(d as int == nibble(bits, k as int));
        assert(0 <= p < 36);
        assert(p != 8 && p != 13 && p != 18 && p != 23);
        assert(full[p] == hex_char(nibble(bits, k as int)));
        s.append(digit_str(d));
        assert(full.take(p + 1) =~= full.take(p).push(full[p]));
        assert(s@ =~= start + full.take(p + 1));
        proof {
            p = p + 1;
        }
        k = k + 1;
    }
    assert(full.take(36) =~= full);
}

/// Appends "true" or "false" to `s`.
pub fn push_bool(s: &mut String, b: bool)
    ensures
        final(s)@ == old(s)@ + bool_text(b),
{
    if b {
        s.append("true");
    } else {
        s.append("false");
    }
}

} // verus!
