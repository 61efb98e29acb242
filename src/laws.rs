//! What holds of every run of the scanner, stated over [`scan`].

use vstd::prelude::*;
use crate::model::{
    ascii_chars, byte_at, digits_end, digits_value, is_digit, is_letter, keyword, letters_end,
    scan, skip_spaces, lemma_skip_spaces,
};
use crate::lexer::ScanError;
use crate::token::TokenView;

verus! {

/// The cursor after `k` calls of the scanner that start at `p`.
pub open spec fn cursor_after(s: Seq<u8>, p: int, k: nat) -> int
    decreases k,
{
    if k == 0 {
        p
    } else {
        scan(s, cursor_after(s, p, (k - 1) as nat)).1
    }
}

proof fn lemma_letters_end(s: Seq<u8>, p: int)
    requires
        0 <= p <= s.len(),
    ensures
        p <= letters_end(s, p) <= s.len(),
    decreases s.len() - p,
{
    if p < s.len() && is_letter(s[p]) {
        lemma_letters_end(s, p + 1);
    }
}

proof fn lemma_digits_end(s: Seq<u8>, p: int)
    requires
        0 <= p <= s.len(),
    ensures
        p <= digits_end(s, p) <= s.len(),
    decreases s.len() - p,
{
    if p < s.len() && is_digit(s[p]) {
        lemma_digits_end(s, p + 1);
    }
}

/// Each call leaves the cursor inside the input. A call that does not
/// return `Eof` moves it forward; one that returns `Eof` leaves it where
/// the next call returns `Eof` again, with the cursor unchanged.
pub proof fn lemma_scan_progress(s: Seq<u8>, p: int)
    requires
        0 <= p <= s.len(),
    ensures
        p <= scan(s, p).1 <= s.len(),
        scan(s, p).0 != Ok::<TokenView, ScanError>(TokenView::Eof) ==> scan(s, p).1 > p,
        scan(s, p).0 == Ok::<TokenView, ScanError>(TokenView::Eof) ==> scan(s, scan(s, p).1)
            == scan(s, p),
{
    lemma_skip_spaces(s, p);
    let q = skip_spaces(s, p);
    lemma_letters_end(s, q);
    lemma_digits_end(s, q);
    lemma_skip_spaces(s, q);
    if q < s.len() {
        lemma_letters_end(s, q + 1);
        lemma_digits_end(s, q + 1);
    }
}

proof fn lemma_cursor_after(s: Seq<u8>, p: int, k: nat)
    requires
        0 <= p <= s.len(),
    ensures
        p <= cursor_after(s, p, k) <= s.len(),
        scan(s, cursor_after(s, p, k)).0 == Ok::<TokenView, ScanError>(TokenView::Eof)
            || cursor_after(s, p, k) >= p + k,
    decreases k,
{
    if k > 0 {
        lemma_cursor_after(s, p, (k - 1) as nat);
        let c = cursor_after(s, p, (k - 1) as nat);
        lemma_scan_progress(s, c);
    }
}

/// Scanning always ends: from any cursor `p`, every call from the
/// `(len - p)`-th on returns `Eof`, so the stream reaches its end in finitely
/// many calls and stays there.
pub proof fn lemma_scanning_ends(s: Seq<u8>, p: int, k: nat)
    requires
        0 <= p <= s.len(),
        k >= s.len() - p,
    ensures
        scan(s, cursor_after(s, p, k)).0 == Ok::<TokenView, ScanError>(TokenView::Eof),
{
    lemma_cursor_after(s, p, k);
    let c = cursor_after(s, p, k);
    if c == s.len() {
        assert(skip_spaces(s, c) == c);
    }
}

/// A run of letters is a keyword exactly when it spells one of the seven
/// reserved words, and then it is that keyword and never an identifier;
/// any other run is an identifier that carries the run's exact text.
pub proof fn lemma_word_token(s: Seq<u8>, p: int)
    requires
        0 <= p <= s.len(),
        is_letter(byte_at(s, skip_spaces(s, p))),
    ensures
        ({
            let q = skip_spaces(s, p);
            let w = ascii_chars(s.subrange(q, letters_end(s, q)));
            &&& w.len() > 0
            &&& keyword(w) is None ==> scan(s, p).0 == Ok::<TokenView, ScanError>(
                TokenView::Ident(w),
            )
            &&& keyword(w) is Some ==> scan(s, p).0 == Ok::<TokenView, ScanError>(
                keyword(w)->Some_0,
            ) && !(keyword(w)->Some_0 is Ident)
        }),
{
    lemma_skip_spaces(s, p);
    let q = skip_spaces(s, p);
    lemma_letters_end(s, q);
    lemma_letters_end(s, q + 1);
}

/// `==` and `!=` are single tokens whenever both bytes stand together;
/// a lone `=` or `!` is `Assign` or `Bang`, and scanning goes on at the
/// byte after it.
pub proof fn lemma_two_byte_operators(s: Seq<u8>, p: int)
    requires
        0 <= p <= s.len(),
    ensures
        ({
            let q = skip_spaces(s, p);
            let c = byte_at(s, q);
            let d = byte_at(s, q + 1);
            &&& c == ('=' as u8) && d == ('=' as u8) ==> scan(s, p) == (
                Ok::<TokenView, ScanError>(TokenView::Equal),
                q + 2,
            )
            &&& c == ('=' as u8) && d != ('=' as u8) ==> scan(s, p) == (
                Ok::<TokenView, ScanError>(TokenView::Assign),
                q + 1,
            )
            &&& c == ('!' as u8) && d == ('=' as u8) ==> scan(s, p) == (
                Ok::<TokenView, ScanError>(TokenView::NotEqual),
                q + 2,
            )
            &&& c == ('!' as u8) && d != ('=' as u8) ==> scan(s, p) == (
                Ok::<TokenView, ScanError>(TokenView::Bang),
                q + 1,
            )
        }),
{
}

/// A run of digits whose base-10 value fits in an `i64` gives a `Number`
/// with exactly that value; a longer one gives `IntegerOverflow`.
pub proof fn lemma_number_value(s: Seq<u8>, p: int)
    requires
        0 <= p <= s.len(),
        is_digit(byte_at(s, skip_spaces(s, p))),
    ensures
        ({
            let q = skip_spaces(s, p);
            let v = digits_value(s.subrange(q, digits_end(s, q)));
            &&& v <= i64::MAX ==> scan(s, p).0 == Ok::<TokenView, ScanError>(
                TokenView::Number(v as i64),
            )
            &&& v > i64::MAX ==> scan(s, p).0 == Err::<TokenView, ScanError>(
                ScanError::IntegerOverflow,
            )
        }),
{
}

/// The decimal digits of `n`, most significant first, without leading zeros.
pub open spec fn decimal(n: nat) -> Seq<u8>
    decreases n,
{
    if n < 10 {
        seq![(n + ('0' as u8)) as u8]
    } else {
        decimal(n / 10).push((n % 10 + ('0' as u8)) as u8)
    }
}

proof fn lemma_decimal(n: nat)
    ensures
        decimal(n).len() > 0,
        forall|i: int| 0 <= i < decimal(n).len() ==> is_digit(#[trigger] decimal(n)[i]),
        digits_value(decimal(n)) == n,
    decreases n,
{
    if n < 10 {
        assert(decimal(n).drop_last() =~= Seq::<u8>::empty());
        assert(digits_value(Seq::<u8>::empty()) == 0);
    } else {
        lemma_decimal(n / 10);
        assert(decimal(n).drop_last() =~= decimal(n / 10));
        assert(decimal(n)[decimal(n).len() - 1] == (n % 10 + ('0' as u8)) as u8);
        assert(digits_value(decimal(n)) == 10 * (n / 10) + n % 10);
        assert(10 * (n / 10) + n % 10 == n) by (nonlinear_arith);
    }
}

proof fn lemma_digits_run(s: Seq<u8>, p: int)
    requires
        0 <= p <= s.len(),
        forall|i: int| 0 <= i < s.len() ==> is_digit(#[trigger] s[i]),
    ensures
        digits_end(s, p) == s.len(),
    decreases s.len() - p,
{
    if p < s.len() {
        lemma_digits_run(s, p + 1);
    }
}

/// Writing a number that fits in an `i64` in decimal and scanning the
/// digits gives back that number, with the cursor at the end.
pub proof fn lemma_decimal_round_trip(n: i64)
    requires
        n >= 0,
    ensures
        scan(decimal(n as nat), 0) == (
            Ok::<TokenView, ScanError>(TokenView::Number(n)),
            decimal(n as nat).len() as int,
        ),
{
    let s = decimal(n as nat);
    lemma_decimal(n as nat);
    lemma_digits_run(s, 0);
    assert(skip_spaces(s, 0) == 0);
    assert(s.subrange(0, s.len() as int) =~= s);
}

} // verus!
