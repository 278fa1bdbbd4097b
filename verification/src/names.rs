//! Identity allocator: a pure, deterministic mapping from a connection's
//! remote port to a stable human-readable display name.
//!
//! The port's two bytes are swapped to form an index; the index picks a name
//! from a fixed list, and the quotient of the index by the list's length is
//! appended in decimal so that wrapped-around indices stay distinguishable
//! (index 21 with a 21-name list gives the first name with suffix "1").

use vstd::prelude::*;
use vstd::string::StringExecFns;

verus! {

/// How many names the fixed list holds.
pub const NAME_COUNT: u16 = 21;

/// The fixed, ordered name list (drawn from Egyptian deities).
pub open spec fn spec_name_at(i: int) -> Seq<char> {
    if i == 0 {
        "Anubis"@
    } else if i == 1 {
        "Wosret"@
    } else if i == 2 {
        "Pakhet"@
    } else if i == 3 {
        "Aten"@
    } else if i == 4 {
        "Anuket"@
    } else if i == 5 {
        "Isis"@
    } else if i == 6 {
        "Maat"@
    } else if i == 7 {
        "Nefertum"@
    } else if i == 8 {
        "Ra"@
    } else if i == 9 {
        "Thoth"@
    } else if i == 10 {
        "Khepri"@
    } else if i == 11 {
        "Kek"@
    } else if i == 12 {
        "Ba'alat"@
    } else if i == 13 {
        "Mafdet"@
    } else if i == 14 {
        "Qerhet"@
    } else if i == 15 {
        "Satet"@
    } else if i == 16 {
        "Esna"@
    } else if i == 17 {
        "Thmei"@
    } else if i == 18 {
        "Tafner"@
    } else if i == 19 {
        "Unnit"@
    } else {
        "Apep"@
    }
}

fn name_at(i: u16) -> (s: &'static str)
    requires
        i < NAME_COUNT,
    ensures
        s@ == spec_name_at(i as int),
{
    if i == 0 {
        "Anubis"
    } else if i == 1 {
        "Wosret"
    } else if i == 2 {
        "Pakhet"
    } else if i == 3 {
        "Aten"
    } else if i == 4 {
        "Anuket"
    } else if i == 5 {
        "Isis"
    } else if i == 6 {
        "Maat"
    } else if i == 7 {
        "Nefertum"
    } else if i == 8 {
        "Ra"
    } else if i == 9 {
        "Thoth"
    } else if i == 10 {
        "Khepri"
    } else if i == 11 {
        "Kek"
    } else if i == 12 {
        "Ba'alat"
    } else if i == 13 {
        "Mafdet"
    } else if i == 14 {
        "Qerhet"
    } else if i == 15 {
        "Satet"
    } else if i == 16 {
        "Esna"
    } else if i == 17 {
        "Thmei"
    } else if i == 18 {
        "Tafner"
    } else if i == 19 {
        "Unnit"
    } else {
        "Apep"
    }
}

/// The character for one decimal digit.
pub open spec fn spec_decimal_digit(d: int) -> char {
    if d == 0 {
        '0'
    } else if d == 1 {
        '1'
    } else if d == 2 {
        '2'
    } else if d == 3 {
        '3'
    } else if d == 4 {
        '4'
    } else if d == 5 {
        '5'
    } else if d == 6 {
        '6'
    } else if d == 7 {
        '7'
    } else if d == 8 {
        '8'
    } else {
        '9'
    }
}

/// The decimal digits of `n`, most significant first, no leading zeroes
/// (a lone "0" for zero).
pub open spec fn spec_decimal(n: nat) -> Seq<char>
    decreases n,
{
    if n < 10 {
        seq![spec_decimal_digit(n as int)]
    } else {
        spec_decimal(n / 10).push(spec_decimal_digit((n % 10) as int))
    }
}

fn digit_str(d: u16) -> (s: &'static str)
    requires
        d < 10,
    ensures
        s@ == seq![spec_decimal_digit(d as int)],
{
    proof {
        reveal_strlit("0");
        reveal_strlit("1");
        reveal_strlit("2");
        reveal_strlit("3");
        reveal_strlit("4");
        reveal_strlit("5");
        reveal_strlit("6");
        reveal_strlit("7");
        reveal_strlit("8");
        reveal_strlit("9");
    }
    let s = if d == 0 {
        "0"
    } else if d == 1 {
        "1"
    } else if d == 2 {
        "2"
    } else if d == 3 {
        "3"
    } else if d == 4 {
        "4"
    } else if d == 5 {
        "5"
    } else if d == 6 {
        "6"
    } else if d == 7 {
        "7"
    } else if d == 8 {
        "8"
    } else {
        "9"
    };
    proof {
        assert(s@ =~= seq![spec_decimal_digit(d as int)]);
    }
    s
}

fn append_decimal(out: &mut String, n: u16)
    ensures
        final(out)@ == old(out)@ + spec_decimal(n as nat),
    decreases n,
{
    if n < 10 {
        out.append(digit_str(n));
        proof {
            assert(out@ =~= old(out)@ + spec_decimal(n as nat));
        }
    } else {
        append_decimal(out, n / 10);
        out.append(digit_str(n % 10));
        proof {
            assert(out@ =~= old(out)@ + spec_decimal(n as nat));
        }
    }
}

/// The byte-swapped port, the index the name list is keyed by.
pub open spec fn spec_swap_bytes(port: u16) -> u16 {
    (port >> 8) | ((port & 0xff) << 8)
}

/// The display name derived from a remote port: a name from the list, then
/// the wraparound count in decimal.
pub open spec fn spec_allocate(port: u16) -> Seq<char> {
    let idx = spec_swap_bytes(port);
    spec_name_at((idx % NAME_COUNT) as int) + spec_decimal((idx / NAME_COUNT) as nat)
}

/// Derives the display name for a connection from its remote port.  Pure and
/// deterministic; never fails.
pub fn allocate(port: u16) -> (id: String)
    ensures
        id@ == spec_allocate(port),
{
    let idx: u16 = (port >> 8) | ((port & 0xff) << 8);
    let mut id = String::from_str(name_at(idx % NAME_COUNT));
    append_decimal(&mut id, idx / NAME_COUNT);
    id
}

} // verus!
