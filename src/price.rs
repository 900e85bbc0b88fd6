//! Gallery prices: non-negative PLN amounts with two decimal places, kept as a
//! whole number of grosze.

use vstd::prelude::*;
use crate::category::GalleryCategory;
use crate::error::AppError;
use crate::text::{decimal, digit_char, push_decimal};

verus! {

/// A price in grosze (hundredths of a złoty).
#[derive(Debug, Clone, Copy, PartialEq, Eq, Structural)]
pub struct Price {
    pub grosze: u64,
}

pub open spec fn is_digit(c: char) -> bool {
    '0' <= c && c <= '9'
}

pub open spec fn digit_value(c: char) -> nat {
    (c as u32 - '0' as u32) as nat
}

pub open spec fn all_digits(s: Seq<char>) -> bool {
    forall|i: int| 0 <= i < s.len() ==> #[trigger] is_digit(s[i])
}

/// The number that a run of decimal digits denotes.
pub open spec fn digits_value(s: Seq<char>) -> nat
    decreases s.len(),
{
    if s.len() == 0 {
        0
    } else {
        digits_value(s.drop_last()) * 10 + digit_value(s.last())
    }
}

/// The amount in grosze that a price field denotes: digits, optionally
/// followed by a point and one or two more digits. `None` for any other text.
pub open spec fn price_grosze(s: Seq<char>) -> Option<nat> {
    let n = s.len() as int;
    if n >= 1 && all_digits(s) {
        Some(digits_value(s) * 100)
    } else if n >= 3 && s[n - 2] == '.' && all_digits(s.subrange(0, n - 2)) && is_digit(
        s[n - 1],
    ) {
        Some(digits_value(s.subrange(0, n - 2)) * 100 + digit_value(s[n - 1]) * 10)
    } else if n >= 4 && s[n - 3] == '.' && all_digits(s.subrange(0, n - 3)) && all_digits(
        s.subrange(n - 2, n),
    ) {
        Some(digits_value(s.subrange(0, n - 3)) * 100 + digits_value(s.subrange(n - 2, n)))
    } else {
        None
    }
}

/// A price with exactly two decimal places, such as `19.90`.
pub open spec fn amount_text(grosze: nat) -> Seq<char> {
    decimal(grosze / 100) + seq!['.', digit_char(((grosze % 100) / 10) as int), digit_char((grosze % 10) as int)]
}

/// What a gallery page shows as its price: the amount with its currency, or
/// the word for free when no price is set.
pub open spec fn price_label_text(price: Option<Price>) -> Seq<char> {
    match price {
        Some(p) => amount_text(p.grosze as nat) + " PLN"@,
        None => "Darmowa"@,
    }
}

/// Reads the digits `s[from..to]`; `None` when the number exceeds `u64`.
fn read_digits(s: &str, from: usize, to: usize) -> (r: Option<u64>)
    requires
        from <= to <= s@.len(),
        all_digits(s@.subrange(from as int, to as int)),
    ensures
        match r {
            Some(v) => v == digits_value(s@.subrange(from as int, to as int)),
            None => digits_value(s@.subrange(from as int, to as int)) > u64::MAX,
        },
{
    let mut v: u64 = 0;
    let mut i: usize = from;
    while i < to
        invariant
            from <= i <= to <= s@.len(),
            all_digits(s@.subrange(from as int, to as int)),
            v == digits_value(s@.subrange(from as int, i as int)),
        decreases to - i,
    {
        let c = s.get_char(i);
        proof {
            assert(s@.subrange(from as int, to as int)[i - from] == c);
            assert(s@.subrange(from as int, i + 1).drop_last() =~= s@.subrange(from as int, i as int));
            assert(is_digit(s@.subrange(from as int, to as int)[i - from]));
        }
        let d: u64 = (c as u32 - '0' as u32) as u64;
        match v.checked_mul(10) {
            Some(t) => match t.checked_add(d) {
                Some(w) => {
                    v = w;
                },
                None => {
                    proof { lemma_digits_grow(s@, from as int, i as int + 1, to as int); }
                    return None;
                },
            },
            None => {
                proof { lemma_digits_grow(s@, from as int, i as int + 1, to as int); }
                return None;
            },
        }
        i += 1;
    }
    Some(v)
}

/// A one-character run is a run of digits exactly when that character is a
/// digit, and then denotes the digit's value.
proof fn lemma_one_digit(s: Seq<char>, k: int)
    requires
        0 <= k < s.len(),
    ensures
        all_digits(s.subrange(k, k + 1)) == is_digit(s[k]),
        digits_value(s.subrange(k, k + 1)) == digit_value(s[k]),
{
    let t = s.subrange(k, k + 1);
    assert(t[0] == s[k]);
    assert(t.drop_last() =~= Seq::<char>::empty());
    assert(digits_value(t.drop_last()) == 0);
    assert(t.last() == s[k]);
    if is_digit(s[k]) {
        assert forall|i: int| 0 <= i < t.len() implies #[trigger] is_digit(t[i]) by {
            assert(i == 0);
        }
    }
}

/// A longer run of digits denotes at least as much as its prefix.
proof fn lemma_digits_grow(s: Seq<char>, from: int, mid: int, to: int)
    requires
        0 <= from <= mid <= to <= s.len(),
    ensures
        digits_value(s.subrange(from, mid)) <= digits_value(s.subrange(from, to)),
    decreases to - mid,
{
    if mid < to {
        lemma_digits_grow(s, from, mid, to - 1);
        assert(s.subrange(from, to).drop_last() =~= s.subrange(from, to - 1));
    }
}

/// Whether every character of `s[from..to]` is a digit.
fn digits_only(s: &str, from: usize, to: usize) -> (r: bool)
    requires
        from <= to <= s@.len(),
    ensures
        r == all_digits(s@.subrange(from as int, to as int)),
{
    let mut i: usize = from;
    while i < to
        invariant
            from <= i <= to <= s@.len(),
            forall|j: int| from <= j < i ==> is_digit(#[trigger] s@[j]),
        decreases to - i,
    {
        let c = s.get_char(i);
        if !('0' <= c && c <= '9') {
            assert(!is_digit(s@.subrange(from as int, to as int)[i - from]));
            return false;
        }
        i += 1;
    }
    assert forall|j: int| 0 <= j < to - from implies #[trigger] is_digit(
        s@.subrange(from as int, to as int)[j],
    ) by {
        assert(s@.subrange(from as int, to as int)[j] == s@[from + j]);
    }
    true
}

impl Price {
    /// Reads the price field of a gallery form. An empty field means no price
    /// (a free gallery); text that is not an amount with at most two decimal
    /// places, or an amount too large to hold, is invalid input.
    pub fn parse(s: &str) -> (r: Result<Option<Price>, AppError>)
        ensures
            s@.len() == 0 ==> r == Ok::<Option<Price>, AppError>(None),
            s@.len() > 0 ==> match price_grosze(s@) {
                Some(g) => if g <= u64::MAX {
                    r == Ok::<Option<Price>, AppError>(Some(Price { grosze: g as u64 }))
                } else {
                    r == Err::<Option<Price>, AppError>(AppError::InvalidInput)
                },
                None => r == Err::<Option<Price>, AppError>(AppError::InvalidInput),
            },
    {
        let n = s.unicode_len();
        if n == 0 {
            return Ok(None);
        }
        proof {
            assert(s@.subrange(0, n as int) =~= s@);
            lemma_one_digit(s@, n - 1);
            if n >= 2 {
                assert(s@.subrange(n - 2, n as int).drop_last().drop_last() =~= Seq::<char>::empty());
            }
            assert(s@.subrange(n as int, n as int) =~= Seq::<char>::empty());
        }
        let ghost frac_scale: nat;
        let (whole_end, frac_len): (usize, usize) = if digits_only(s, 0, n) {
            proof { frac_scale = 1; }
            (n, 0)
        } else if n >= 3 && s.get_char(n - 2) == '.' && digits_only(s, 0, n - 2) && digits_only(
            s,
            n - 1,
            n,
        ) {
            proof { frac_scale = 10; }
            (n - 2, 1)
        } else if n >= 4 && s.get_char(n - 3) == '.' && digits_only(s, 0, n - 3) && digits_only(
            s,
            n - 2,
            n,
        ) {
            proof { frac_scale = 1; }
            (n - 3, 2)
        } else {
            return Err(AppError::InvalidInput);
        };
        let ghost whole_seq = s@.subrange(0, whole_end as int);
        let ghost frac_seq = s@.subrange(n - frac_len, n as int);
        assert(price_grosze(s@) == Some(digits_value(whole_seq) * 100 + digits_value(frac_seq) * frac_scale));
        let whole = match read_digits(s, 0, whole_end) {
            Some(w) => w,
            None => return Err(AppError::InvalidInput),
        };
        let frac: u64 = match read_digits(s, n - frac_len, n) {
            Some(f) => if frac_len == 1 {
                assert(f <= 9);
                f * 10
            } else {
                f
            },
            None => return Err(AppError::InvalidInput),
        };
        assert(frac == digits_value(frac_seq) * frac_scale);
        match whole.checked_mul(100) {
            Some(h) => match h.checked_add(frac) {
                Some(g) => Ok(Some(Price { grosze: g })),
                None => Err(AppError::InvalidInput),
            },
            None => Err(AppError::InvalidInput),
        }
    }

    /// The amount with two decimal places, such as `19.90`.
    pub fn amount(&self) -> (r: String)
        ensures
            r@ == amount_text(self.grosze as nat),
    {
        let mut out = String::new();
        push_decimal(&mut out, self.grosze / 100);
        out.append(".");
        push_decimal(&mut out, (self.grosze % 100) / 10);
        push_decimal(&mut out, self.grosze % 10);
        proof {
            reveal_strlit(".");
            assert(out@ =~= amount_text(self.grosze as nat));
        }
        out
    }
}

/// The price label of a gallery: `"<amount> PLN"`, or `"Darmowa"` (free)
/// when the gallery has no price.
pub fn price_label(price: Option<Price>) -> (r: String)
    ensures
        r@ == price_label_text(price),
{
    match price {
        Some(p) => {
            let mut out = p.amount();
            out.append(" PLN");
            out
        },
        None => String::from_str("Darmowa"),
    }
}

/// The amount that a payment for a gallery asks for: its price, or `0.00`.
pub fn payment_amount(price: Option<Price>) -> (r: String)
    ensures
        r@ == amount_text(
            match price {
                Some(p) => p.grosze as nat,
                None => 0,
            },
        ),
{
    match price {
        Some(p) => p.amount(),
        None => Price { grosze: 0 }.amount(),
    }
}

/// The confirmation shown before paying for a gallery of category `name`.
pub open spec fn payment_message_text(name: GalleryCategory, price: Option<Price>) -> Seq<char> {
    "Zamierzasz odblokować galerię '"@ + name.spec_label() + "' za "@ + amount_text(
        match price {
            Some(p) => p.grosze as nat,
            None => 0,
        },
    ) + " PLN."@
}

/// The confirmation shown before paying for a gallery: its category and the
/// amount to pay.
pub fn payment_message(name: GalleryCategory, price: Option<Price>) -> (r: String)
    ensures
        r@ == payment_message_text(name, price),
{
    let mut out = String::from_str("Zamierzasz odblokować galerię '");
    out.append(name.label());
    out.append("' za ");
    let amount = payment_amount(price);
    out.append(amount.as_str());
    out.append(" PLN.");
    out
}

proof fn lemma_digit_char(d: int)
    requires
        0 <= d < 10,
    ensures
        is_digit(digit_char(d)),
        digit_value(digit_char(d)) == d,
{
}

/// The decimal digits of `n` are digits, at least one, and denote `n`.
proof fn lemma_decimal_reads_back(n: nat)
    ensures
        decimal(n).len() >= 1,
        all_digits(decimal(n)),
        digits_value(decimal(n)) == n,
    decreases n,
{
    let s = decimal(n);
    if n < 10 {
        lemma_digit_char(n as int);
        assert(s.drop_last() =~= Seq::<char>::empty());
        assert(digits_value(s.drop_last()) == 0);
    } else {
        lemma_decimal_reads_back(n / 10);
        lemma_digit_char((n % 10) as int);
        assert(s.drop_last() =~= decimal(n / 10));
        assert forall|i: int| 0 <= i < s.len() implies #[trigger] is_digit(s[i]) by {
            if i < s.len() - 1 {
                assert(s[i] == decimal(n / 10)[i]);
            }
        }
    }
}

/// Reading back the two-decimal amount of a price gives the same number of
/// grosze, so `Price::parse` of `amount()` returns the price itself.
pub proof fn amount_reads_back(p: Price)
    ensures
        amount_text(p.grosze as nat).len() > 0,
        price_grosze(amount_text(p.grosze as nat)) == Some(p.grosze as nat),
{
    let g = p.grosze as nat;
    let w = decimal(g / 100);
    let (d1, d2) = (((g % 100) / 10) as int, (g % 10) as int);
    let (c1, c2) = (digit_char(d1), digit_char(d2));
    let s = amount_text(g);
    let n = s.len() as int;
    lemma_decimal_reads_back(g / 100);
    lemma_digit_char(d1);
    lemma_digit_char(d2);
    assert(s[n - 3] == '.');
    assert(s[n - 2] == c1);
    assert(s[n - 1] == c2);
    assert(!is_digit(s[n - 3]));
    assert(!all_digits(s));
    assert(s.subrange(0, n - 3) =~= w);
    let tail = s.subrange(n - 2, n);
    assert(tail =~= seq![c1, c2]);
    assert forall|i: int| 0 <= i < tail.len() implies #[trigger] is_digit(tail[i]) by {
        if i == 0 {
            assert(tail[i] == c1);
        } else {
            assert(tail[i] == c2);
        }
    }
    assert(tail.drop_last() =~= seq![c1]);
    assert(tail.drop_last().drop_last() =~= Seq::<char>::empty());
    assert(digits_value(tail.drop_last().drop_last()) == 0);
    assert(tail.drop_last().last() == c1);
    assert(digits_value(tail.drop_last()) == d1);
    assert(tail.last() == c2);
    assert(digits_value(tail) == d1 * 10 + d2);
    assert(g == (g / 100) * 100 + d1 * 10 + d2);
}

} // verus!
