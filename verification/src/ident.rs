//! Random identifiers for canvases and layers: 32 lowercase hexadecimal digits.
use vstd::prelude::*;
use vstd::string::StringExecFns;

verus! {

/// The lowercase hexadecimal digit for `d` (`0 <= d < 16`).
pub open spec fn hex_char(d: int) -> char {
    if d < 10 {
        (('0' as int) + d) as char
    } else {
        (('a' as int) + d - 10) as char
    }
}

/// The `n` lowest hexadecimal digits of `v`, most significant first.
pub open spec fn hex_digits(v: nat, n: nat) -> Seq<char>
    decreases n,
{
    if n == 0 {
        Seq::empty()
    } else {
        hex_digits(v / 16, (n - 1) as nat).push(hex_char((v % 16) as int))
    }
}

/// The identifier built from two 64-bit halves: 16 digits of `hi`, then 16 of `lo`.
pub open spec fn id_text(hi: u64, lo: u64) -> Seq<char> {
    hex_digits(hi as nat, 16) + hex_digits(lo as nat, 16)
}

/// A random 64-bit value (`rand::random::<u64>()`); nothing is promised of it.
#[verifier::external_body]
fn random_u64() -> u64 {
    rand::random::<u64>()
}

/// The one-character string holding the hexadecimal digit `d`.
pub(crate) fn hex_digit_str(d: u64) -> (s: &'static str)
    requires
        d < 16,
    ensures
        s@ == seq![hex_char(d as int)],
{
    proof {
        assert('0' as int == 48);
        assert('a' as int == 97);
    }
    if d == 0 {
        proof { reveal_strlit("0"); }
        "0"
    } else if d == 1 {
        proof { reveal_strlit("1"); }
        "1"
    } else if d == 2 {
        proof { reveal_strlit("2"); }
        "2"
    } else if d == 3 {
        proof { reveal_strlit("3"); }
        "3"
    } else if d == 4 {
        proof { reveal_strlit("4"); }
        "4"
    } else if d == 5 {
        proof { reveal_strlit("5"); }
        "5"
    } else if d == 6 {
        proof { reveal_strlit("6"); }
        "6"
    } else if d == 7 {
        proof { reveal_strlit("7"); }
        "7"
    } else if d == 8 {
        proof { reveal_strlit("8"); }
        "8"
    } else if d == 9 {
        proof { reveal_strlit("9"); }
        "9"
    } else if d == 10 {
        proof { reveal_strlit("a"); }
        "a"
    } else if d == 11 {
        proof { reveal_strlit("b"); }
        "b"
    } else if d == 12 {
        proof { reveal_strlit("c"); }
        "c"
    } else if d == 13 {
        proof { reveal_strlit("d"); }
        "d"
    } else if d == 14 {
        proof { reveal_strlit("e"); }
        "e"
    } else {
        proof { reveal_strlit("f"); }
        "f"
    }
}

/// Appends the 16 hexadecimal digits of `v` (most significant first) to `s`.
fn append_hex(s: &mut String, v: u64)
    ensures
        final(s)@ == old(s)@ + hex_digits(v as nat, 16),
{
    let mut digits: Vec<u64> = Vec::new();
    let mut rest: u64 = v;
    let mut i: usize = 0;
    while i < 16
        invariant
            i <= 16,
            digits.len() == i,
            forall|j: int| 0 <= j < i ==> #[trigger] digits[j] < 16,
            hex_digits(v as nat, 16) == hex_digits(rest as nat, (16 - i) as nat) + Seq::new(
                i as nat,
                |j: int| hex_char(digits[i - 1 - j] as int),
            ),
        decreases 16 - i,
    {
        let d: u64 = rest % 16;
        proof {
            let old_tail = Seq::new(i as nat, |j: int| hex_char(digits[i - 1 - j] as int));
            let new_digits = digits@.push(d);
            let new_tail = Seq::new((i + 1) as nat, |j: int| hex_char(new_digits[i + 1 - 1 - j] as int));
            assert(hex_digits(rest as nat, (16 - i) as nat) == hex_digits((rest / 16) as nat, (16 - (i + 1)) as nat).push(
                hex_char(d as int)));
            assert(new_tail =~= seq![hex_char(d as int)] + old_tail);
            assert(hex_digits((rest / 16) as nat, (16 - (i + 1)) as nat).push(hex_char(d as int)) + old_tail
                =~= hex_digits((rest / 16) as nat, (16 - (i + 1)) as nat) + new_tail);
        }
        digits.push(d);
        rest = rest / 16;
        i = i + 1;
    }
    proof {
        assert(hex_digits(v as nat, 16) == hex_digits(rest as nat, 0) + Seq::new(16, |j: int| hex_char(
            digits[15 - j] as int)));
        assert(hex_digits(rest as nat, 0) + Seq::new(16, |j: int| hex_char(digits[15 - j] as int)) =~= Seq::new(
            16,
            |j: int| hex_char(digits[15 - j] as int),
        ));
    }
    let ghost start: Seq<char> = s@;
    let mut k: usize = 16;
    while k > 0
        invariant
            k <= 16,
            digits.len() == 16,
            forall|j: int| 0 <= j < 16 ==> #[trigger] digits[j] < 16,
            hex_digits(v as nat, 16) == Seq::new(16, |j: int| hex_char(digits[15 - j] as int)),
            s@ == start + Seq::new((16 - k) as nat, |j: int| hex_char(digits[15 - j] as int)),
        decreases k,
    {
        k = k - 1;
        let piece: &str = hex_digit_str(digits[k]);
        s.append(piece);
        proof {
            assert(Seq::new((16 - k) as nat, |j: int| hex_char(digits[15 - j] as int)) =~= Seq::new(
                (16 - (k + 1)) as nat,
                |j: int| hex_char(digits[15 - j] as int),
            ) + seq![hex_char(digits[k as int] as int)]);
        }
    }
    proof {
        assert(s@ == start + Seq::new(16, |j: int| hex_char(digits[15 - j] as int)));
    }
}

/// The identifier of the two halves `hi` and `lo`: their 32 hexadecimal digits.
pub fn id_from_halves(hi: u64, lo: u64) -> (s: String)
    ensures
        s@ == id_text(hi, lo),
{
    let mut s: String = String::new();
    append_hex(&mut s, hi);
    append_hex(&mut s, lo);
    proof {
        assert(s@ =~= id_text(hi, lo));
    }
    s
}

/// A fresh random identifier.
pub fn random_id() -> (s: String)
    ensures
        exists|hi: u64, lo: u64| s@ == id_text(hi, lo),
{
    let hi: u64 = random_u64();
    let lo: u64 = random_u64();
    id_from_halves(hi, lo)
}

} // verus!
