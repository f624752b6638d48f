//! Hexadecimal text of node and anchor identifiers: the 32 hash bytes in
//! reverse order, two lowercase digits each, as tagged hashes display.

use vstd::prelude::*;

verus! {

/// The sixteen lowercase hexadecimal digits.
pub open spec fn hex_digits() -> Seq<char> {
    seq!['0', '1', '2', '3', '4', '5', '6', '7', '8', '9', 'a', 'b', 'c', 'd', 'e', 'f']
}

/// The hex text of 32 identifier bytes, last byte first.
pub open spec fn id_hex(b: Seq<u8>) -> Seq<char> {
    Seq::new(
        64,
        |i: int|
            if i % 2 == 0 {
                hex_digits()[(b[31 - i / 2] / 16) as int]
            } else {
                hex_digits()[(b[31 - i / 2] % 16) as int]
            },
    )
}

/// The value of a hexadecimal digit of either case.
pub open spec fn digit_value(c: char) -> Option<u8> {
    let v = c as u32;
    if 48 <= v <= 57 {
        Some((v - 48) as u8)
    } else if 97 <= v <= 102 {
        Some((v - 87) as u8)
    } else if 65 <= v <= 70 {
        Some((v - 55) as u8)
    } else {
        None
    }
}

/// Whether a text is 64 hexadecimal digits.
pub open spec fn is_hex_id(s: Seq<char>) -> bool {
    s.len() == 64 && forall|i: int| 0 <= i < 64 ==> (#[trigger] digit_value(s[i])) is Some
}

/// The identifier bytes that a hex text denotes, if it is one.
pub open spec fn id_from_hex(s: Seq<char>) -> Option<Seq<u8>> {
    if is_hex_id(s) {
        Some(
            Seq::new(
                32,
                |k: int|
                    (digit_value(s[62 - 2 * k])->0 * 16 + digit_value(s[63 - 2 * k])->0) as u8,
            ),
        )
    } else {
        None
    }
}

/// The digit for a value below sixteen.
fn digit_str(n: u8) -> (r: &'static str)
    requires
        n < 16,
    ensures
        r@ == seq![hex_digits()[n as int]],
{
    proof {
        reveal_strlit("0");
        reveal_strlit("1");
        reveal_strlit("2");
        reveal_strlit("3");
        reveal_strlit("4");
        reveal_strlit("5");
        reveal_strlit("6");
        reveal_strlit("7");
        reveal_strlit("8");
        reveal_strlit("9");
        reveal_strlit("a");
        reveal_strlit("b");
        reveal_strlit("c");
        reveal_strlit("d");
        reveal_strlit("e");
        reveal_strlit("f");
    }
    let r = match n {
        0 => "0",
        1 => "1",
        2 => "2",
        3 => "3",
        4 => "4",
        5 => "5",
        6 => "6",
        7 => "7",
        8 => "8",
        9 => "9",
        10 => "a",
        11 => "b",
        12 => "c",
        13 => "d",
        14 => "e",
        _ => "f",
    };
    assert(r@ =~= seq![hex_digits()[n as int]]);
    r
}

/// Writes the hex text of identifier bytes.
pub fn id_to_hex(b: &[u8; 32]) -> (r: String)
    ensures
        r@ == id_hex(b@),
{
    let mut out = String::new();
    let mut k: usize = 0;
    while k < 32
        invariant
            k <= 32,
            b@.len() == 32,
            out@ == id_hex(b@).take(2 * k as int),
        decreases 32 - k,
    {
        let x = b[31 - k];
        out.append(digit_str(x / 16));
        out.append(digit_str(x % 16));
        assert(out@ =~= id_hex(b@).take(2 * k + 2));
        k = k + 1;
    }
    assert(out@ =~= id_hex(b@));
    out
}

/// The value of a digit of either case.
fn digit_of(c: char) -> (r: Option<u8>)
    ensures
        r == digit_value(c),
{
    let v = c as u32;
    if 48 <= v && v <= 57 {
        Some((v - 48) as u8)
    } else if 97 <= v && v <= 102 {
        Some((v - 87) as u8)
    } else if 65 <= v && v <= 70 {
        Some((v - 55) as u8)
    } else {
        None
    }
}

/// Reads identifier bytes from hex text; `None` where the text is not 64
/// hexadecimal digits.
pub fn id_from_hex_text(s: &str) -> (r: Option<[u8; 32]>)
    ensures
        match r {
            Some(b) => id_from_hex(s@) == Some(b@),
            None => id_from_hex(s@) is None,
        },
{
    if s.unicode_len() != 64 {
        return None;
    }
    let mut out: [u8; 32] = [0u8; 32];
    let mut k: usize = 0;
    while k < 32
        invariant
            k <= 32,
            s@.len() == 64,
            out@.len() == 32,
            forall|i: int| 64 - 2 * k <= i < 64 ==> (#[trigger] digit_value(s@[i])) is Some,
            forall|j: int|
                0 <= j < k ==> out@[j] == (digit_value(s@[62 - 2 * j])->0 * 16 + digit_value(
                    s@[63 - 2 * j],
                )->0) as u8,
        decreases 32 - k,
    {
        let hi = digit_of(s.get_char(62 - 2 * k));
        let lo = digit_of(s.get_char(63 - 2 * k));
        match (hi, lo) {
            (Some(h), Some(l)) => {
                out[k] = (h * 16 + l) as u8;
            },
            _ => {
                assert(!is_hex_id(s@));
                return None;
            },
        }
        k = k + 1;
    }
    assert(out@ =~= id_from_hex(s@)->0);
    Some(out)
}

/// Hex text reads back as the bytes it was written from.
pub proof fn lemma_hex_round_trip(b: Seq<u8>)
    requires
        b.len() == 32,
    ensures
        id_from_hex(id_hex(b)) == Some(b),
{
    let s = id_hex(b);
    assert forall|n: int| 0 <= n < 16 implies #[trigger] digit_value(hex_digits()[n]) == Some(
        n as u8,
    ) by {
        assert(hex_digits()[n] as u32 == if n < 10 { 48 + n } else { 87 + n });
    }
    assert forall|i: int| 0 <= i < 64 implies (#[trigger] digit_value(s[i])) is Some by {
        let x = b[31 - i / 2];
        assert(x / 16 < 16 && x % 16 < 16);
    }
    assert forall|k: int| 0 <= k < 32 implies (digit_value(s[62 - 2 * k])->0 * 16 + digit_value(
        s[63 - 2 * k],
    )->0) as u8 == #[trigger] b[k] by {
        let x = b[k];
        assert((62 - 2 * k) / 2 == 31 - k);
        assert((63 - 2 * k) / 2 == 31 - k);
        assert(digit_value(s[62 - 2 * k]) == Some(x / 16));
        assert(digit_value(s[63 - 2 * k]) == Some(x % 16));
    }
    assert(id_from_hex(s)->0 =~= b);
}

} // verus!
