use vstd::prelude::*;

verus! {

/// The lower-case hexadecimal digit of a value below sixteen.
pub open spec fn hex_digit(n: int) -> char {
    seq!['0', '1', '2', '3', '4', '5', '6', '7', '8', '9', 'a', 'b', 'c', 'd', 'e', 'f'][n]
}

/// Two hexadecimal digits per byte, most significant first.
pub open spec fn hex_digits(b: Seq<u8>) -> Seq<char>
    decreases b.len(),
{
    if b.len() == 0 {
        Seq::empty()
    } else {
        hex_digits(b.drop_last()) + seq![
            hex_digit(b.last() as int / 16),
            hex_digit(b.last() as int % 16),
        ]
    }
}

/// A 32-byte hash written as `0x` and 64 hexadecimal digits.
pub open spec fn hex_of(b: Seq<u8>) -> Seq<char> {
    seq!['0', 'x'] + hex_digits(b)
}

fn digit_text(n: u8) -> (r: &'static str)
    requires
        n < 16,
    ensures
        r@ == seq![hex_digit(n as int)],
{
    let digits = "0123456789abcdef";
    proof {
        reveal_strlit("0123456789abcdef");
    }
    let r = digits.substring_char(n as usize, n as usize + 1);
    assert(r@ =~= seq![hex_digit(n as int)]);
    r
}

/// The hash written as `0x` and 64 lower-case hexadecimal digits.
pub fn hash_to_hex(h: &[u8; 32]) -> (r: String)
    ensures
        r@ == hex_of(h@),
{
    let mut out = String::from_str("0x");
    proof {
        reveal_strlit("0x");
    }
    assert(out@ =~= seq!['0', 'x']);
    let mut i: usize = 0;
    while i < 32
        invariant
            i <= 32,
            h@.len() == 32,
            out@ == seq!['0', 'x'] + hex_digits(h@.subrange(0, i as int)),
        decreases 32 - i,
    {
        let b = h[i];
        out.append(digit_text(b / 16));
        out.append(digit_text(b % 16));
        proof {
            let pre = h@.subrange(0, i + 1);
            assert(pre.drop_last() =~= h@.subrange(0, i as int));
            assert(pre.last() == b);
            assert(out@ =~= seq!['0', 'x'] + hex_digits(pre));
        }
        i = i + 1;
    }
    assert(h@.subrange(0, 32) =~= h@);
    out
}

} // verus!
