//! Text: decimal rendering of numbers, and the comparisons the engine makes
//! on strings.

use crate::decimal::{unsigned, Decimal};
use vstd::prelude::*;
use vstd::string::*;

verus! {

/// The character for one decimal digit.
pub open spec fn digit(d: int) -> char {
    (48 + d) as char
}

/// A natural number in decimal, without leading zeros.
pub open spec fn nat_text(n: int) -> Seq<char>
    decreases n,
{
    if n < 10 {
        seq![digit(n)]
    } else {
        nat_text(n / 10).push(digit(n % 10))
    }
}

/// A number in decimal with at least two digits.
pub open spec fn two_digit_text(n: int) -> Seq<char> {
    if n < 10 {
        seq!['0'] + nat_text(n)
    } else {
        nat_text(n)
    }
}

/// An integer in decimal, with a sign when it is negative.
pub open spec fn int_text(n: int) -> Seq<char> {
    if n < 0 {
        seq!['-'] + nat_text(-n)
    } else {
        nat_text(n)
    }
}

/// An integer in decimal, always with a sign.
pub open spec fn signed_int_text(n: int) -> Seq<char> {
    if n < 0 {
        seq!['-'] + nat_text(-n)
    } else {
        seq!['+'] + nat_text(n)
    }
}

/// `n / d` to the nearest integer, halves to the even neighbour.
pub open spec fn nearest_even(n: int, d: int) -> int
    recommends
        n >= 0,
        d > 0,
{
    let whole = n / d;
    let rest = n % d;
    if 2 * rest > d || (2 * rest == d && whole % 2 == 1) {
        whole + 1
    } else {
        whole
    }
}

/// The digits of a non-negative amount in millionths, without places.
pub open spec fn places0(micros: int) -> Seq<char> {
    nat_text(nearest_even(micros, 1_000_000))
}

/// The digits of a non-negative amount in millionths, with one place.
pub open spec fn places1(micros: int) -> Seq<char> {
    let tenths = nearest_even(micros, 100_000);
    nat_text(tenths / 10) + seq!['.'] + nat_text(tenths % 10)
}

/// The digits of a non-negative amount in millionths, with two places.
pub open spec fn places2(micros: int) -> Seq<char> {
    let cents = nearest_even(micros, 10_000);
    nat_text(cents / 100) + seq!['.'] + two_digit_text(cents % 100)
}

/// An amount in millionths, rounded to a whole number.
pub open spec fn amount0_text(micros: int) -> Seq<char> {
    if micros < 0 {
        seq!['-'] + places0(-micros)
    } else {
        places0(micros)
    }
}

/// An amount in millionths with one place, always with a sign.
pub open spec fn signed_amount1_text(micros: int) -> Seq<char> {
    if micros < 0 {
        seq!['-'] + places1(-micros)
    } else {
        seq!['+'] + places1(micros)
    }
}

/// An amount in millionths with two places.
pub open spec fn amount2_text(micros: int) -> Seq<char> {
    if micros < 0 {
        seq!['-'] + places2(-micros)
    } else {
        places2(micros)
    }
}

/// The text of one digit.
fn digit_str(d: u8) -> (s: &'static str)
    requires
        d < 10,
    ensures
        s@ == seq![digit(d as int)],
{
    proof {
        reveal_strlit("0");
        reveal_strlit("1");
        reveal_strlit("2");
        reveal_strlit("3");
        reveal_strlit("4");
        reveal_strlit("5");
        reveal_strlit("6");
        reveal_strlit("7");
        reveal_strlit("8");
        reveal_strlit("9");
    }
    match d {
        0 => "0",
        1 => "1",
        2 => "2",
        3 => "3",
        4 => "4",
        5 => "5",
        6 => "6",
        7 => "7",
        8 => "8",
        _ => "9",
    }
}

/// Appends a sign.
fn push_sign(out: &mut String, negative: bool)
    ensures
        final(out)@ == old(out)@ + (if negative {
            seq!['-']
        } else {
            seq!['+']
        }),
{
    proof {
        reveal_strlit("-");
        reveal_strlit("+");
    }
    assert("-"@ =~= seq!['-']);
    assert("+"@ =~= seq!['+']);
    if negative {
        out.append("-");
    } else {
        out.append("+");
    }
}

/// Appends a natural number in decimal.
pub fn push_nat(out: &mut String, n: u128)
    ensures
        final(out)@ == old(out)@ + nat_text(n as int),
    decreases n,
{
    if n < 10 {
        out.append(digit_str(n as u8));
    } else {
        push_nat(out, n / 10);
        out.append(digit_str((n % 10) as u8));
        assert(out@ =~= old(out)@ + nat_text(n as int));
    }
}

/// Appends a count.
pub fn push_count(out: &mut String, n: usize)
    ensures
        final(out)@ == old(out)@ + nat_text(n as int),
{
    push_nat(out, n as u128);
}

/// Appends a number in decimal with at least two digits.
pub fn push_two_digits(out: &mut String, n: u128)
    ensures
        final(out)@ == old(out)@ + two_digit_text(n as int),
{
    if n < 10 {
        out.append(digit_str(0));
        push_nat(out, n);
        assert(out@ =~= old(out)@ + two_digit_text(n as int));
    } else {
        push_nat(out, n);
    }
}

/// Appends an integer in decimal, with a sign when it is negative.
pub fn push_int(out: &mut String, n: i128)
    ensures
        final(out)@ == old(out)@ + int_text(n as int),
{
    if n < 0 {
        push_sign(out, true);
    }
    push_nat(out, unsigned(n));
    assert(out@ =~= old(out)@ + int_text(n as int));
}

/// Appends an integer in decimal, always with a sign.
pub fn push_signed_int(out: &mut String, n: i128)
    ensures
        final(out)@ == old(out)@ + signed_int_text(n as int),
{
    push_sign(out, n < 0);
    push_nat(out, unsigned(n));
    assert(out@ =~= old(out)@ + signed_int_text(n as int));
}

/// `n / d` to the nearest integer, halves to the even neighbour.
fn divide_nearest_even(n: u128, d: u128) -> (q: u128)
    requires
        d > 1,
    ensures
        q == nearest_even(n as int, d as int),
{
    let whole: u128 = n / d;
    let rest: u128 = n % d;
    proof {
        vstd::arithmetic::div_mod::lemma_div_is_ordered_by_denominator(n as int, 2, d as int);
        vstd::arithmetic::div_mod::lemma_mod_bound(n as int, d as int);
    }
    if rest > d - rest || (rest == d - rest && whole % 2 == 1) {
        whole + 1
    } else {
        whole
    }
}

/// Appends a dot.
fn push_dot(out: &mut String)
    ensures
        final(out)@ == old(out)@ + seq!['.'],
{
    proof {
        reveal_strlit(".");
    }
    assert("."@ =~= seq!['.']);
    out.append(".");
}

/// Appends an amount rounded to a whole number.
pub fn push_amount0(out: &mut String, d: Decimal)
    ensures
        final(out)@ == old(out)@ + amount0_text(d@),
{
    if d.micros < 0 {
        push_sign(out, true);
    }
    push_nat(out, divide_nearest_even(unsigned(d.micros), 1_000_000));
    assert(out@ =~= old(out)@ + amount0_text(d@));
}

/// Appends an amount with one place, always with a sign.
pub fn push_signed_amount1(out: &mut String, d: Decimal)
    ensures
        final(out)@ == old(out)@ + signed_amount1_text(d@),
{
    push_sign(out, d.micros < 0);
    let tenths: u128 = divide_nearest_even(unsigned(d.micros), 100_000);
    push_nat(out, tenths / 10);
    push_dot(out);
    push_nat(out, tenths % 10);
    assert(out@ =~= old(out)@ + signed_amount1_text(d@));
}

/// Appends an amount with two places.
pub fn push_amount2(out: &mut String, d: Decimal)
    ensures
        final(out)@ == old(out)@ + amount2_text(d@),
{
    if d.micros < 0 {
        push_sign(out, true);
    }
    let cents: u128 = divide_nearest_even(unsigned(d.micros), 10_000);
    push_nat(out, cents / 100);
    push_dot(out);
    push_two_digits(out, cents % 100);
    assert(out@ =~= old(out)@ + amount2_text(d@));
}

/// The code point of `c` with ASCII letters in lower case.
pub open spec fn lower(c: char) -> int {
    if 65 <= c as int <= 90 {
        c as int + 32
    } else {
        c as int
    }
}

/// Whether two texts are equal when the case of ASCII letters is ignored.
pub open spec fn same_ignoring_case(a: Seq<char>, b: Seq<char>) -> bool {
    &&& a.len() == b.len()
    &&& forall|i: int| 0 <= i < a.len() ==> lower(#[trigger] a[i]) == lower(b[i])
}

/// Whether `needle` stands in `hay` at `at`.
pub open spec fn stands_at(hay: Seq<char>, needle: Seq<char>, at: int) -> bool {
    &&& 0 <= at <= hay.len() - needle.len()
    &&& hay.subrange(at, at + needle.len()) == needle
}

/// Whether `needle` stands somewhere in `hay`.
pub open spec fn has_text(hay: Seq<char>, needle: Seq<char>) -> bool {
    exists|at: int| stands_at(hay, needle, at)
}

fn lower_code(c: char) -> (k: u32)
    ensures
        k == lower(c),
{
    let k: u32 = c as u32;
    if 65 <= k && k <= 90 {
        k + 32
    } else {
        k
    }
}

/// Whether two texts are equal when the case of ASCII letters is ignored.
pub fn eq_ignore_case(a: &str, b: &str) -> (r: bool)
    ensures
        r == same_ignoring_case(a@, b@),
{
    let n: usize = a.unicode_len();
    if n != b.unicode_len() {
        return false;
    }
    let mut i: usize = 0;
    while i < n
        invariant
            n == a@.len(),
            n == b@.len(),
            i <= n,
            forall|j: int| 0 <= j < i ==> lower(#[trigger] a@[j]) == lower(b@[j]),
        decreases n - i,
    {
        if lower_code(a.get_char(i)) != lower_code(b.get_char(i)) {
            return false;
        }
        i += 1;
    }
    true
}

/// Whether `needle` stands in `hay` at `at`.
fn matches_at(hay: &str, needle: &str, at: usize) -> (r: bool)
    requires
        at + needle@.len() <= hay@.len(),
    ensures
        r == stands_at(hay@, needle@, at as int),
{
    let h: usize = hay.unicode_len();
    let n: usize = needle.unicode_len();
    let mut i: usize = 0;
    while i < n
        invariant
            n == needle@.len(),
            h == hay@.len(),
            at + n <= h,
            i <= n,
            forall|j: int| 0 <= j < i ==> hay@[at + j] == needle@[j],
        decreases n - i,
    {
        if hay.get_char(at + i) != needle.get_char(i) {
            assert(hay@.subrange(at as int, at + n)[i as int] != needle@[i as int]);
            return false;
        }
        i += 1;
    }
    assert(hay@.subrange(at as int, at + n) =~= needle@);
    true
}

/// Whether `needle` stands somewhere in `hay`.
pub fn contains(hay: &str, needle: &str) -> (r: bool)
    ensures
        r == has_text(hay@, needle@),
{
    let h: usize = hay.unicode_len();
    let n: usize = needle.unicode_len();
    if n > h {
        return false;
    }
    let mut at: usize = 0;
    while at <= h - n
        invariant
            h == hay@.len(),
            n == needle@.len(),
            n <= h,
            at <= h - n + 1,
            forall|k: int| 0 <= k < at ==> !stands_at(hay@, needle@, k),
        decreases h + 1 - at,
    {
        if matches_at(hay, needle, at) {
            return true;
        }
        if at == h - n {
            return false;
        }
        at += 1;
    }
    false
}

/// Whether `s` begins with `prefix`.
pub fn starts_with(s: &str, prefix: &str) -> (r: bool)
    ensures
        r == stands_at(s@, prefix@, 0),
{
    if prefix.unicode_len() > s.unicode_len() {
        return false;
    }
    matches_at(s, prefix, 0)
}

/// Whether two texts are equal.
pub fn same(a: &str, b: &str) -> (r: bool)
    ensures
        r == (a@ == b@),
{
    if a.unicode_len() != b.unicode_len() {
        return false;
    }
    let r: bool = matches_at(a, b, 0);
    assert(a@.subrange(0, a@.len() as int) =~= a@);
    r
}

/// Whether two characters are the same letter but for its case, or the same
/// character.
pub open spec fn alike(a: char, b: char) -> bool {
    ||| a == b
    ||| 'A' <= a <= 'Z' && b as int == a as int + 32
    ||| 'A' <= b <= 'Z' && a as int == b as int + 32
}

/// Characters are alike exactly when they are equal in lower case.
pub proof fn alike_in_lower_case(a: char, b: char)
    ensures
        alike(a, b) <==> lower(a) == lower(b),
{
}

/// Texts are equal but for case exactly when they are as long as each other and
/// alike at every place.
pub proof fn equal_but_for_case(a: &str, b: &str, r: bool)
    requires
        call_ensures(eq_ignore_case, (a, b), r),
    ensures
        r <==> a@.len() == b@.len() && forall|i: int|
            0 <= i < a@.len() ==> alike(#[trigger] a@[i], b@[i]),
{
    if r {
        assert forall|i: int| 0 <= i < a@.len() implies alike(#[trigger] a@[i], b@[i]) by {
            assert(lower(a@[i]) == lower(b@[i]));
        }
    }
    if a@.len() == b@.len() && forall|i: int|
        0 <= i < a@.len() ==> alike(#[trigger] a@[i], b@[i]) {
        assert forall|i: int| 0 <= i < a@.len() implies lower(#[trigger] a@[i]) == lower(b@[i]) by {
            assert(alike(a@[i], b@[i]));
        }
    }
}

/// A text contains another exactly when it is something, the other, and
/// something more; it begins with it exactly when nothing stands before.
pub proof fn contained_texts(hay: &str, needle: &str, has: bool, begins: bool, equal: bool)
    requires
        call_ensures(contains, (hay, needle), has),
        call_ensures(starts_with, (hay, needle), begins),
        call_ensures(same, (hay, needle), equal),
    ensures
        has <==> exists|before: Seq<char>, after: Seq<char>|
            hay@ == #[trigger] (before + needle@ + after),
        begins <==> exists|after: Seq<char>| hay@ == #[trigger] (needle@ + after),
        equal <==> hay@ == needle@,
{
    let n = needle@.len() as int;
    let h = hay@.len() as int;
    if has {
        let at = choose|at: int| stands_at(hay@, needle@, at);
        let before = hay@.subrange(0, at);
        let after = hay@.subrange(at + n, h);
        assert(hay@ =~= before + hay@.subrange(at, at + n) + after);
        assert(hay@ == before + needle@ + after);
    }
    if exists|before: Seq<char>, after: Seq<char>|
        hay@ == #[trigger] (before + needle@ + after) {
        let (before, after) = choose|before: Seq<char>, after: Seq<char>|
            hay@ == #[trigger] (before + needle@ + after);
        let at = before.len() as int;
        assert(hay@.subrange(at, at + n) =~= needle@);
        assert(stands_at(hay@, needle@, at));
    }
    if begins {
        let after = hay@.subrange(n, h);
        assert(hay@ =~= hay@.subrange(0, n) + after);
        assert(hay@ == needle@ + after);
    }
    if exists|after: Seq<char>| hay@ == #[trigger] (needle@ + after) {
        let after = choose|after: Seq<char>| hay@ == #[trigger] (needle@ + after);
        assert(hay@.subrange(0, n) =~= needle@);
    }
}

/// The number that decimal digits write.
pub open spec fn number_of(text: Seq<char>) -> int {
    text.fold_left(0, |n: int, c: char| 10 * n + (c as int - '0' as int))
}

/// A natural number is written in digits that read back as it, without leading
/// zeros.
pub proof fn digits_read_back(n: int)
    requires
        n >= 0,
    ensures
        number_of(nat_text(n)) == n,
        nat_text(n).len() > 0,
        nat_text(n).len() > 1 ==> nat_text(n)[0] != '0',
        forall|i: int| 0 <= i < nat_text(n).len() ==> '0' <= (#[trigger] nat_text(n)[i]) <= '9',
        n > 0 ==> nat_text(n)[0] != '0',
    decreases n,
{
    let text = nat_text(n);
    if n < 10 {
        assert(text.drop_last() =~= Seq::<char>::empty());
        reveal_with_fuel(Seq::fold_left, 2);
    } else {
        digits_read_back(n / 10);
        let rest = nat_text(n / 10);
        assert(text.drop_last() =~= rest);
        assert forall|i: int| 0 <= i < text.len() implies '0' <= (#[trigger] text[i]) <= '9' by {
            if i < rest.len() {
                assert(text[i] == rest[i]);
            }
        }
        assert(text[0] == rest[0]);
    }
}

/// Rounding to an even neighbour picks the nearest integer, and of two equally
/// near the even one.
pub proof fn nearest_even_is_nearest(n: int, d: int)
    requires
        n >= 0,
        d > 0,
    ensures
        -d <= 2 * (d * nearest_even(n, d) - n) <= d,
        2 * (d * nearest_even(n, d) - n) == d || 2 * (d * nearest_even(n, d) - n) == -d
            ==> nearest_even(n, d) % 2 == 0,
        nearest_even(n, d) >= 0,
{
    vstd::arithmetic::div_mod::lemma_fundamental_div_mod(n, d);
    vstd::arithmetic::div_mod::lemma_mod_bound(n, d);
    vstd::arithmetic::div_mod::lemma_div_pos_is_pos(n, d);
    let q = n / d;
    assert(d * (q + 1) == d * q + d) by (nonlinear_arith);
}

/// The text of an amount with two places: a sign for a negative one, the whole
/// units, a dot and two digits, where units and digits are the hundredths nearest
/// to the amount.
pub proof fn hundredths_are_shown(micros: int)
    ensures
        exists|units: int, rest: int|
            {
                let size = if micros < 0 {
                    -micros
                } else {
                    micros
                };
                &&& units >= 0
                &&& 0 <= rest < 100
                &&& -10_000 <= 2 * (10_000 * (100 * units + rest) - size) <= 10_000
                &&& amount2_text(micros) == (if micros < 0 {
                    seq!['-']
                } else {
                    Seq::empty()
                }) + #[trigger] amount_parts(units, two_digit_text(rest))
                &&& two_digit_text(rest).len() == 2
                &&& number_of(two_digit_text(rest)) == rest
            },
{
    let size = if micros < 0 {
        -micros
    } else {
        micros
    };
    nearest_even_is_nearest(size, 10_000);
    let cents = nearest_even(size, 10_000);
    let units = cents / 100;
    let rest = cents % 100;
    two_digits_read_back(rest);
    assert(amount2_text(micros) =~= (if micros < 0 {
        seq!['-']
    } else {
        Seq::empty()
    }) + amount_parts(units, two_digit_text(rest)));
}

/// Whole units, a dot and places.
pub open spec fn amount_parts(units: int, places: Seq<char>) -> Seq<char> {
    nat_text(units) + seq!['.'] + places
}

/// Two digits read back as the number below a hundred that they write.
pub proof fn two_digits_read_back(n: int)
    requires
        0 <= n < 100,
    ensures
        two_digit_text(n).len() == 2,
        number_of(two_digit_text(n)) == n,
{
    digits_read_back(n);
    reveal_with_fuel(nat_text, 2);
    let text = two_digit_text(n);
    if n < 10 {
        assert(text =~= seq!['0', digit(n)]);
        assert(text.drop_last() =~= seq!['0']);
        assert(seq!['0'].drop_last() =~= Seq::<char>::empty());
        reveal_with_fuel(Seq::fold_left, 3);
    }
}

/// The text of an amount without places: a sign for a negative one, and the
/// digits of the whole number nearest to it.
pub proof fn whole_units_are_shown(micros: int)
    ensures
        exists|units: int|
            {
                let size = if micros < 0 {
                    -micros
                } else {
                    micros
                };
                &&& units >= 0
                &&& -1_000_000 <= 2 * (1_000_000 * units - size) <= 1_000_000
                &&& amount0_text(micros) == (if micros < 0 {
                    seq!['-']
                } else {
                    Seq::empty()
                }) + #[trigger] nat_text(units)
            },
{
    let size = if micros < 0 {
        -micros
    } else {
        micros
    };
    nearest_even_is_nearest(size, 1_000_000);
    let units = nearest_even(size, 1_000_000);
    assert(amount0_text(micros) =~= (if micros < 0 {
        seq!['-']
    } else {
        Seq::empty()
    }) + nat_text(units));
}

/// The text of an amount with one place always has a sign; its units and its one
/// digit are the tenths nearest to the amount.
pub proof fn tenths_are_shown(micros: int)
    ensures
        exists|units: int, rest: int|
            {
                let size = if micros < 0 {
                    -micros
                } else {
                    micros
                };
                &&& units >= 0
                &&& 0 <= rest < 10
                &&& -100_000 <= 2 * (100_000 * (10 * units + rest) - size) <= 100_000
                &&& signed_amount1_text(micros) == (if micros < 0 {
                    seq!['-']
                } else {
                    seq!['+']
                }) + #[trigger] amount_parts(units, seq![digit(rest)])
            },
{
    let size = if micros < 0 {
        -micros
    } else {
        micros
    };
    nearest_even_is_nearest(size, 100_000);
    let tenths = nearest_even(size, 100_000);
    let units = tenths / 10;
    let rest = tenths % 10;
    assert(signed_amount1_text(micros) =~= (if micros < 0 {
        seq!['-']
    } else {
        seq!['+']
    }) + amount_parts(units, seq![digit(rest)]));
}

/// What the appending functions write is the text of the number, after what was
/// there; an integer shows its sign when it is negative, or always.
pub proof fn texts_are_appended(n: i128, size: u128)
    requires
        size == if n < 0 {
            -n
        } else {
            n as int
        },
    ensures
        forall|out: &mut String| #[trigger]
            call_ensures(push_int, (out, n), ()) ==> final(out)@ =~= (*out)@ + (if n < 0 {
                seq!['-']
            } else {
                Seq::empty()
            }) + nat_text(size as int),
        forall|out: &mut String| #[trigger]
            call_ensures(push_signed_int, (out, n), ()) ==> final(out)@ =~= (*out)@ + (if n < 0 {
                seq!['-']
            } else {
                seq!['+']
            }) + nat_text(size as int),
        forall|out: &mut String| #[trigger]
            call_ensures(push_nat, (out, size), ()) ==> final(out)@ == (*out)@ + nat_text(
                size as int,
            ),
{
}

} // verus!
