//! Identity and timestamp sources.
//!
//! New nodes are named by an outside identity generator and stamped with the
//! current time. Both readings are inherently nondeterministic, so the
//! wrappers promise only what holds of every outcome; everything that is
//! computed *from* a reading (the decimal rendering, the collision checks in
//! the store) is verified for every possible value.

use vstd::prelude::*;
use vstd::string::StringExecFns;
use crate::sort::str_le;

verus! {

/// The decimal digit character for `d`.
pub open spec fn digit_char(d: int) -> char {
    if d == 0 {
        '0'
    } else if d == 1 {
        '1'
    } else if d == 2 {
        '2'
    } else if d == 3 {
        '3'
    } else if d == 4 {
        '4'
    } else if d == 5 {
        '5'
    } else if d == 6 {
        '6'
    } else if d == 7 {
        '7'
    } else if d == 8 {
        '8'
    } else {
        '9'
    }
}

/// The decimal numeral for `n`, most significant digit first, no sign and no
/// leading zeros (a single `'0'` for zero).
pub open spec fn dec_str(n: nat) -> Seq<char>
    decreases n,
{
    if n < 10 {
        seq![digit_char(n as int)]
    } else {
        dec_str((n / 10) as nat).push(digit_char((n % 10) as int))
    }
}

/// The one-character string for the digit `d`.
fn digit_str(d: u64) -> (r: &'static str)
    requires
        d < 10,
    ensures
        r@ == seq![digit_char(d as int)],
{
    proof {
        reveal_strlit("0");
        reveal_strlit("1");
        reveal_strlit("2");
        reveal_strlit("3");
        reveal_strlit("4");
        reveal_strlit("5");
        reveal_strlit("6");
        reveal_strlit("7");
        reveal_strlit("8");
        reveal_strlit("9");
    }
    let r: &'static str = match d {
        0 => "0",
        1 => "1",
        2 => "2",
        3 => "3",
        4 => "4",
        5 => "5",
        6 => "6",
        7 => "7",
        8 => "8",
        _ => "9",
    };
    proof {
        assert(r@ =~= seq![digit_char(d as int)]);
    }
    r
}

/// Renders `n` as its decimal numeral.
pub fn u64_to_string(n: u64) -> (r: String)
    ensures
        r@ == dec_str(n as nat),
    decreases n,
{
    if n < 10 {
        digit_str(n).to_owned()
    } else {
        let mut s = u64_to_string(n / 10);
        s.append(digit_str(n % 10));
        proof {
            assert(s@ =~= dec_str(n as nat));
        }
        s
    }
}

/// The low `k` decimal digits of `n`, most significant first: for
/// `n < 10^k` this is the zero-padded fixed-width numeral of `n`.
pub open spec fn fixed_digits(n: nat, k: nat) -> Seq<char>
    decreases k,
{
    if k == 0 {
        Seq::empty()
    } else {
        fixed_digits(n / 10, (k - 1) as nat).push(digit_char((n % 10) as int))
    }
}

/// The fixed-width timestamp numeral: twenty digits, enough for every
/// unsigned 64-bit count of seconds, so that equal-width numerals sort
/// lexicographically in numeric, hence chronological, order.
pub open spec fn fixed_dec_str(n: nat) -> Seq<char> {
    fixed_digits(n, 20)
}

/// Renders the low `k` digits of `n`, zero padded.
fn fixed_digits_string(n: u64, k: usize) -> (r: String)
    ensures
        r@ == fixed_digits(n as nat, k as nat),
        r@.len() == k,
    decreases k,
{
    if k == 0 {
        String::new()
    } else {
        let mut s = fixed_digits_string(n / 10, k - 1);
        s.append(digit_str(n % 10));
        proof {
            assert(s@ =~= fixed_digits(n as nat, k as nat));
        }
        s
    }
}

/// Renders `n` as its twenty-digit zero-padded decimal numeral.
pub fn u64_to_fixed_string(n: u64) -> (r: String)
    ensures
        r@ == fixed_dec_str(n as nat),
        r@.len() == 20,
{
    fixed_digits_string(n, 20)
}

/// Relies on `std::time::SystemTime::now` and
/// `SystemTime::duration_since(UNIX_EPOCH)`: the number of whole seconds the
/// clock currently stands past the Unix epoch, or zero if the clock stands
/// before it. A clock reading depends on the moment of the call, so nothing
/// further can be promised of the value.
#[verifier::external_body]
fn now_unix_secs() -> u64 {
    match std::time::SystemTime::now().duration_since(std::time::UNIX_EPOCH) {
        Ok(d) => d.as_secs(),
        Err(_) => 0,
    }
}

/// The current timestamp: seconds since the Unix epoch as a twenty-digit
/// zero-padded decimal numeral. The fixed width makes the lexicographic
/// order of any two timestamps the numeric order of their second counts,
/// so stored timestamps sort chronologically under the store's text
/// comparison.
pub fn get_current_timestamp() -> (r: String)
    ensures
        exists|n: nat| r@ == #[trigger] fixed_dec_str(n),
        r@.len() == 20,
{
    let secs = now_unix_secs();
    let r = u64_to_fixed_string(secs);
    proof {
        assert(r@ == fixed_dec_str(secs as nat));
    }
    r
}

/// Relies on `uuid::Uuid::new_v4` and its `Display` form: a random version-4
/// UUID rendered in the 36-character hyphenated form. The value is random, so
/// nothing can be promised of it beyond its length; in particular uniqueness
/// is only probabilistic, and every caller checks the value against the rows
/// it already holds.
#[verifier::external_body]
pub(crate) fn fresh_id() -> (r: String)
    ensures
        r@.len() == 36,
{
    uuid::Uuid::new_v4().to_string()
}

/// Ten to the `k`-th power.
pub open spec fn ten_pow(k: nat) -> nat
    decreases k,
{
    if k == 0 {
        1
    } else {
        10 * ten_pow((k - 1) as nat)
    }
}

/// The order is reflexive.
proof fn lemma_str_le_refl(a: Seq<char>)
    ensures
        str_le(a, a),
    decreases a.len(),
{
    if a.len() > 0 {
        lemma_str_le_refl(a.drop_first());
    }
}

/// Digit characters order as the digits they stand for.
proof fn lemma_digit_char_order(d1: int, d2: int)
    requires
        0 <= d1 <= 9,
        0 <= d2 <= 9,
    ensures
        (digit_char(d1) as int <= digit_char(d2) as int) == (d1 <= d2),
        (digit_char(d1) as int == digit_char(d2) as int) == (d1 == d2),
{
}

/// Appending one character to equal-length strings: a strictly smaller
/// prefix keeps dominating; prefixes that compare equal both ways leave the
/// decision to the appended characters.
proof fn lemma_str_le_push(a: Seq<char>, b: Seq<char>, x: char, y: char)
    requires
        a.len() == b.len(),
    ensures
        (str_le(a, b) && !str_le(b, a)) ==> (str_le(a.push(x), b.push(y)) && !str_le(
            b.push(y),
            a.push(x),
        )),
        (str_le(a, b) && str_le(b, a)) ==> ((str_le(a.push(x), b.push(y)) == (x as int
            <= y as int)) && (str_le(b.push(y), a.push(x)) == (y as int <= x as int))),
    decreases a.len(),
{
    if a.len() == 0 {
        assert(a.push(x).len() == 1 && b.push(y).len() == 1);
        assert(a.push(x).first() == x && b.push(y).first() == y);
        assert(a.push(x).drop_first() =~= Seq::<char>::empty());
        assert(b.push(y).drop_first() =~= Seq::<char>::empty());
        assert(str_le(Seq::<char>::empty(), Seq::<char>::empty()));
        assert(str_le(a.push(x), b.push(y)) == (x as int <= y as int));
        assert(str_le(b.push(y), a.push(x)) == (y as int <= x as int));
    } else {
        assert(a.push(x).first() == a.first());
        assert(b.push(y).first() == b.first());
        assert(a.push(x).drop_first() =~= a.drop_first().push(x));
        assert(b.push(y).drop_first() =~= b.drop_first().push(y));
        lemma_str_le_push(a.drop_first(), b.drop_first(), x, y);
        if (a.first() as int) == (b.first() as int) {
            assert(str_le(a, b) == str_le(a.drop_first(), b.drop_first()));
            assert(str_le(b, a) == str_le(b.drop_first(), a.drop_first()));
            assert(str_le(a.push(x), b.push(y)) == str_le(
                a.drop_first().push(x),
                b.drop_first().push(y),
            ));
            assert(str_le(b.push(y), a.push(x)) == str_le(
                b.drop_first().push(y),
                a.drop_first().push(x),
            ));
        } else {
            assert(str_le(a, b) == ((a.first() as int) < (b.first() as int)));
            assert(str_le(a.push(x), b.push(y)) == ((a.first() as int) < (b.first() as int)));
            assert(str_le(b.push(y), a.push(x)) == ((b.first() as int) < (a.first() as int)));
        }
    }
}

/// For numerals below the width's capacity, numeric order is the
/// lexicographic order of the fixed-width digit strings.
proof fn lemma_fixed_digits_order(n1: nat, n2: nat, k: nat)
    requires
        n1 <= n2,
        n2 < ten_pow(k),
    ensures
        str_le(fixed_digits(n1, k), fixed_digits(n2, k)),
        n1 < n2 ==> !str_le(fixed_digits(n2, k), fixed_digits(n1, k)),
    decreases k,
{
    if k == 0 {
        assert(n1 == 0 && n2 == 0);
    } else {
        let q1 = n1 / 10;
        let q2 = n2 / 10;
        let km = (k - 1) as nat;
        assert(ten_pow(k) == 10 * ten_pow(km));
        assert(n1 == 10 * (n1 / 10) + n1 % 10);
        assert(n2 == 10 * (n2 / 10) + n2 % 10);
        assert(0 <= n1 % 10 < 10 && 0 <= n2 % 10 < 10);
        assert(q2 < ten_pow(km));
        assert(q1 <= q2);
        lemma_fixed_digits_order(q1, q2, km);
        let a = fixed_digits(q1, km);
        let b = fixed_digits(q2, km);
        lemma_fixed_digits_len(q1, km);
        lemma_fixed_digits_len(q2, km);
        let d1 = (n1 % 10) as int;
        let d2 = (n2 % 10) as int;
        lemma_digit_char_order(d1, d2);
        lemma_str_le_push(a, b, digit_char(d1), digit_char(d2));
        if q1 == q2 {
            lemma_str_le_refl(a);
            if n1 < n2 {
                assert(d1 < d2);
            } else {
                assert(d1 == d2);
            }
        } else {
            assert(n1 < n2);
        }
    }
}

/// The width of a fixed numeral.
proof fn lemma_fixed_digits_len(n: nat, k: nat)
    ensures
        fixed_digits(n, k).len() == k,
    decreases k,
{
    if k > 0 {
        lemma_fixed_digits_len(n / 10, (k - 1) as nat);
    }
}

/// Chronological order is lexicographic order for the fixed-width
/// timestamps: two second counts compare, as numerals, exactly as they
/// compare as numbers, which is what the store's text ordering needs of
/// the timestamp source.
pub proof fn lemma_fixed_dec_str_sorts(n1: u64, n2: u64)
    requires
        n1 <= n2,
    ensures
        str_le(fixed_dec_str(n1 as nat), fixed_dec_str(n2 as nat)),
        n1 < n2 ==> !str_le(fixed_dec_str(n2 as nat), fixed_dec_str(n1 as nat)),
{
    assert(ten_pow(20) == 100000000000000000000) by {
        reveal_with_fuel(ten_pow, 21);
    }
    lemma_fixed_digits_order(n1 as nat, n2 as nat, 20);
}

} // verus!
