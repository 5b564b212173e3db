//! Text helpers: trusted wrappers around outside text functions, and a
//! verified decimal rendering of integers.

use vstd::prelude::*;

verus! {

/// What `str::to_lowercase` returns for a given character sequence.
pub uninterp spec fn lowercase_of(s: Seq<char>) -> Seq<char>;

/// Relies on str::to_lowercase: the lowercased text depends on the
/// characters alone, and an empty text stays empty.
#[verifier::external_body]
pub fn lowercase(s: &str) -> (r: String)
    ensures
        r@ == lowercase_of(s@),
        s@.len() == 0 ==> r@.len() == 0,
{
    s.to_lowercase()
}

/// What `deunicode::deunicode` returns for a given character sequence.
pub uninterp spec fn transliterated(s: Seq<char>) -> Seq<char>;

/// Relies on deunicode::deunicode: the transliteration depends on the
/// characters alone, the result is ASCII, and an empty text stays empty.
#[verifier::external_body]
pub fn transliterate(s: &str) -> (r: String)
    ensures
        r@ == transliterated(s@),
        forall|i: int| 0 <= i < r@.len() ==> (#[trigger] r@[i]) as int <= 127,
        s@.len() == 0 ==> r@.len() == 0,
{
    deunicode::deunicode(s)
}

/// What `sanitise_file_name::sanitise` returns for a given character
/// sequence.
pub uninterp spec fn sanitised(s: Seq<char>) -> Seq<char>;

/// Relies on sanitise_file_name::sanitise: the sanitised name depends on
/// the characters alone and is never empty.
#[verifier::external_body]
pub fn sanitise_name(s: &str) -> (r: String)
    ensures
        r@ == sanitised(s@),
        r@.len() > 0,
{
    sanitise_file_name::sanitise(s)
}

/// The character of a decimal digit.
pub open spec fn digit_char(d: nat) -> char {
    if d == 0 {
        '0'
    } else if d == 1 {
        '1'
    } else if d == 2 {
        '2'
    } else if d == 3 {
        '3'
    } else if d == 4 {
        '4'
    } else if d == 5 {
        '5'
    } else if d == 6 {
        '6'
    } else if d == 7 {
        '7'
    } else if d == 8 {
        '8'
    } else {
        '9'
    }
}

/// The decimal digits of `n`, most significant first.
pub open spec fn dec_digits(n: nat) -> Seq<char>
    decreases n,
{
    if n < 10 {
        seq![digit_char(n)]
    } else {
        dec_digits(n / 10).push(digit_char(n % 10))
    }
}

/// The decimal rendering of a signed number.
pub open spec fn spec_decimal(n: int) -> Seq<char> {
    if n < 0 {
        seq!['-'] + dec_digits((-n) as nat)
    } else {
        dec_digits(n as nat)
    }
}

/// The digit characters of a digit sequence.
pub open spec fn digits_chars(ds: Seq<u8>) -> Seq<char> {
    ds.map_values(|d: u8| digit_char(d as nat))
}

/// Append the character of one digit to a string.
fn push_digit(s: &mut String, d: u8)
    requires
        d < 10,
    ensures
        final(s)@ == old(s)@.push(digit_char(d as nat)),
{
    proof {
        reveal_strlit("0");
        reveal_strlit("1");
        reveal_strlit("2");
        reveal_strlit("3");
        reveal_strlit("4");
        reveal_strlit("5");
        reveal_strlit("6");
        reveal_strlit("7");
        reveal_strlit("8");
        reveal_strlit("9");
    }
    let lit = if d == 0 {
        "0"
    } else if d == 1 {
        "1"
    } else if d == 2 {
        "2"
    } else if d == 3 {
        "3"
    } else if d == 4 {
        "4"
    } else if d == 5 {
        "5"
    } else if d == 6 {
        "6"
    } else if d == 7 {
        "7"
    } else if d == 8 {
        "8"
    } else {
        "9"
    };
    s.append(lit);
    proof {
        assert(s@ =~= old(s)@.push(digit_char(d as nat)));
    }
}

/// The decimal rendering of `n`, e.g. `-12` as `"-12"`.
#[verifier::loop_isolation(false)]
pub fn decimal_string(n: i32) -> (r: String)
    ensures
        r@ == spec_decimal(n as int),
{
    let negative = n < 0;
    let mut m: u64 = if n < 0 {
        (-(n as i64)) as u64
    } else {
        n as u64
    };
    let ghost m0: nat = m as nat;
    let mut digits: Vec<u8> = Vec::new();
    while m >= 10
        invariant
            dec_digits(m0) == dec_digits(m as nat) + digits_chars(digits@),
            forall|p: int| 0 <= p < digits@.len() ==> (#[trigger] digits@[p]) < 10,
        decreases m,
    {
        let d: u8 = (m % 10) as u8;
        proof {
            assert(dec_digits(m as nat) == dec_digits((m as nat) / 10).push(
                digit_char((m as nat) % 10),
            ));
            assert(digits_chars(digits@.insert(0, d)) =~= seq![digit_char(d as nat)]
                + digits_chars(digits@));
            assert(dec_digits(m0) =~= dec_digits((m / 10) as nat) + digits_chars(
                digits@.insert(0, d),
            ));
        }
        digits.insert(0, d);
        m = m / 10;
    }
    let d: u8 = m as u8;
    proof {
        assert(digits_chars(digits@.insert(0, d)) =~= seq![digit_char(d as nat)] + digits_chars(
            digits@,
        ));
        assert(dec_digits(m0) =~= digits_chars(digits@.insert(0, d)));
    }
    digits.insert(0, d);
    let mut out = String::new();
    if negative {
        proof {
            reveal_strlit("-");
        }
        out.append("-");
    }
    let ghost sign: Seq<char> = out@;
    let k = digits.len();
    let mut j: usize = 0;
    while j < k
        invariant
            0 <= j <= k,
            out@ == sign + digits_chars(digits@.take(j as int)),
            forall|p: int| 0 <= p < digits@.len() ==> (#[trigger] digits@[p]) < 10,
        decreases k - j,
    {
        proof {
            assert(digits_chars(digits@.take(j as int + 1)) =~= digits_chars(
                digits@.take(j as int),
            ).push(digit_char(digits@[j as int] as nat)));
        }
        push_digit(&mut out, digits[j]);
        proof {
            assert(out@ =~= sign + digits_chars(digits@.take(j as int + 1)));
        }
        j += 1;
    }
    proof {
        assert(digits@.take(k as int) =~= digits@);
        if negative {
            assert(out@ =~= spec_decimal(n as int));
        } else {
            assert(sign =~= Seq::<char>::empty());
            assert(out@ =~= spec_decimal(n as int));
        }
    }
    out
}

} // verus!
