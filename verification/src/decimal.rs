//! Decimal text of unsigned numbers.
use vstd::prelude::*;

verus! {

/// The ASCII digits of `n` in base ten, without leading zeros.
pub open spec fn decimal(n: nat) -> Seq<u8>
    decreases n,
{
    if n < 10 {
        seq![(48 + n) as u8]
    } else {
        decimal(n / 10) + seq![(48 + n % 10) as u8]
    }
}

/// The characters of `decimal(n)`.
pub open spec fn decimal_chars(n: nat) -> Seq<char> {
    decimal(n).map_values(|b: u8| b as char)
}

/// The number that a text of decimal digits, most significant first, stands for.
pub open spec fn digits_value(s: Seq<char>) -> int
    decreases s.len(),
{
    if s.len() == 0 {
        0
    } else {
        10 * digits_value(s.drop_last()) + (s.last() as u32 - 48)
    }
}

/// The number that ASCII decimal digits, most significant first, stand for.
pub open spec fn digit_bytes_value(s: Seq<u8>) -> int
    decreases s.len(),
{
    if s.len() == 0 {
        0
    } else {
        10 * digit_bytes_value(s.drop_last()) + (s.last() - 48)
    }
}

/// The decimal text of a number is its base-ten representation: at least
/// one character, every character a digit, no leading zero, and it reads
/// back as the number.
pub proof fn lemma_decimal_chars_read_back(n: nat)
    ensures
        decimal_chars(n).len() >= 1,
        forall|i: int| 0 <= i < decimal_chars(n).len() ==> 48 <= #[trigger] (decimal_chars(n)[i] as u32) <= 57,
        decimal_chars(n).len() > 1 ==> decimal_chars(n)[0] != '0',
        digits_value(decimal_chars(n)) == n,
    decreases n,
{
    lemma_decimal_read_back(n);
    let b = decimal(n);
    let t = decimal_chars(n);
    assert(t.len() == b.len());
    assert forall|i: int| 0 <= i < t.len() implies (#[trigger] t[i]) as u32 == b[i] by {
        assert(t[i] == b[i] as char);
    }
    lemma_chars_value(b);
    if b.len() > 1 {
        assert(t[0] as u32 == b[0]);
    }
}

/// Digits read as characters have the value they have as bytes.
proof fn lemma_chars_value(b: Seq<u8>)
    ensures
        digits_value(b.map_values(|x: u8| x as char)) == digit_bytes_value(b),
    decreases b.len(),
{
    let t = b.map_values(|x: u8| x as char);
    if b.len() > 0 {
        lemma_chars_value(b.drop_last());
        assert(t.drop_last() =~= b.drop_last().map_values(|x: u8| x as char));
        assert(t.last() == b.last() as char);
        assert((b.last() as char) as u32 == b.last());
    }
}

/// The same for the ASCII bytes of the decimal text.
pub proof fn lemma_decimal_read_back(n: nat)
    ensures
        decimal(n).len() >= 1,
        forall|i: int| 0 <= i < decimal(n).len() ==> 48 <= #[trigger] decimal(n)[i] <= 57,
        decimal(n).len() > 1 ==> decimal(n)[0] != 48,
        digit_bytes_value(decimal(n)) == n,
    decreases n,
{
    let d = (48 + n % 10) as u8;
    assert(d as int == 48 + n % 10);
    if n >= 10 {
        lemma_decimal_read_back(n / 10);
        assert(decimal(n) == decimal(n / 10) + seq![d]);
        assert(decimal(n).drop_last() =~= decimal(n / 10));
        assert(decimal(n).last() == d);
        assert(decimal(n)[0] == decimal(n / 10)[0]);
        if n / 10 < 10 {
            assert(decimal(n / 10) == seq![(48 + n / 10) as u8]);
            assert(decimal(n / 10)[0] as int == 48 + n / 10);
        } else {
            lemma_decimal_read_back(n / 100);
            assert(decimal(n / 10) == decimal(n / 10 / 10) + seq![(48 + (n / 10) % 10) as u8]);
        }
        assert(n == 10 * (n / 10) + n % 10);
        assert(digit_bytes_value(decimal(n)) == 10 * digit_bytes_value(decimal(n / 10)) + (d - 48));
    } else {
        assert(decimal(n) == seq![d]);
        assert(decimal(n).drop_last() =~= Seq::<u8>::empty());
        assert(decimal(n).last() == d);
        assert(digit_bytes_value(decimal(n)) == 10 * digit_bytes_value(Seq::<u8>::empty()) + (d - 48));
    }
}

/// Appends the decimal digits of `n`.
pub fn push_decimal(out: &mut Vec<u8>, n: u32)
    ensures
        final(out)@ == old(out)@ + decimal(n as nat),
    decreases n,
{
    if n >= 10 {
        push_decimal(out, n / 10);
    }
    out.push((48 + n % 10) as u8);
    assert(final(out)@ =~= old(out)@ + decimal(n as nat));
}

/// The one-character text of a digit.
fn digit_str(d: u32) -> (s: &'static str)
    requires
        d < 10,
    ensures
        s@ == seq![(48 + d) as u8 as char],
{
    proof {
        reveal_strlit("0");
        reveal_strlit("1");
        reveal_strlit("2");
        reveal_strlit("3");
        reveal_strlit("4");
        reveal_strlit("5");
        reveal_strlit("6");
        reveal_strlit("7");
        reveal_strlit("8");
        reveal_strlit("9");
    }
    if d == 0 {
        "0"
    } else if d == 1 {
        "1"
    } else if d == 2 {
        "2"
    } else if d == 3 {
        "3"
    } else if d == 4 {
        "4"
    } else if d == 5 {
        "5"
    } else if d == 6 {
        "6"
    } else if d == 7 {
        "7"
    } else if d == 8 {
        "8"
    } else {
        "9"
    }
}

/// Appends the decimal digits of `n` to a text.
pub fn append_decimal(out: &mut String, n: u32)
    ensures
        final(out)@ == old(out)@ + decimal_chars(n as nat),
    decreases n,
{
    if n >= 10 {
        append_decimal(out, n / 10);
    }
    out.append(digit_str(n % 10));
    proof {
        assert(decimal_chars(n as nat) =~= if n >= 10 {
            decimal_chars((n / 10) as nat) + seq![(48 + n % 10) as u8 as char]
        } else {
            seq![(48 + n % 10) as u8 as char]
        });
    }
    assert(final(out)@ =~= old(out)@ + decimal_chars(n as nat));
}

} // verus!
