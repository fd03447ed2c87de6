//! Column numbers, column letters and A1-style cell addresses.
//!
//! Column letters are a bijective base-26 numeral: `A` is 1, `Z` is 26,
//! `AA` is 27, and there is no letter for zero. A cell address is the column
//! letters followed by the row number in decimal, as in `AB123`.
use vstd::prelude::*;

use crate::error::SheetError;
use crate::text::push_char;

verus! {

/// An uppercase ASCII letter.
pub open spec fn is_letter(c: char) -> bool {
    'A' <= c && c <= 'Z'
}

/// An ASCII decimal digit.
pub open spec fn is_digit(c: char) -> bool {
    '0' <= c && c <= '9'
}

pub open spec fn all_letters(s: Seq<char>) -> bool {
    forall|i: int| 0 <= i < s.len() ==> is_letter(#[trigger] s[i])
}

pub open spec fn all_digits(s: Seq<char>) -> bool {
    forall|i: int| 0 <= i < s.len() ==> is_digit(#[trigger] s[i])
}

/// A well-formed run of column letters: non-empty, `A`..=`Z` only.
pub open spec fn is_column_letters(s: Seq<char>) -> bool {
    s.len() > 0 && all_letters(s)
}

/// The letter for the remainder `d` in `0..26`: 0 is `A`, 25 is `Z`.
pub open spec fn letter_of(d: int) -> char {
    (d + 65) as char
}

/// The value of one letter: `A` is 1, `Z` is 26.
pub open spec fn letter_value(c: char) -> int {
    c as int - 64
}

/// The column letters of `n`; empty when `n` is below 1.
pub open spec fn column_letters(n: int) -> Seq<char>
    decreases n,
{
    if n <= 0 {
        seq![]
    } else {
        column_letters((n - 1) / 26).push(letter_of((n - 1) % 26))
    }
}

/// The column number that a run of letters stands for, the last letter being
/// the least significant.
pub open spec fn letters_value(s: Seq<char>) -> int
    decreases s.len(),
{
    if s.len() == 0 {
        0
    } else {
        letters_value(s.drop_last()) * 26 + letter_value(s.last())
    }
}

/// The decimal digit for `d` in `0..10`.
pub open spec fn digit_of(d: int) -> char {
    (d + 48) as char
}

/// The value of one decimal digit.
pub open spec fn digit_value(c: char) -> int {
    c as int - 48
}

/// `n` written in decimal, without leading zeros.
pub open spec fn decimal(n: nat) -> Seq<char>
    decreases n,
{
    if n < 10 {
        seq![digit_of(n as int)]
    } else {
        decimal(n / 10).push(digit_of((n % 10) as int))
    }
}

/// The number that a run of decimal digits stands for.
pub open spec fn digits_value(s: Seq<char>) -> int
    decreases s.len(),
{
    if s.len() == 0 {
        0
    } else {
        digits_value(s.drop_last()) * 10 + digit_value(s.last())
    }
}

/// The address of the cell at `row` and `col`: the column letters, then the
/// row in decimal.
pub open spec fn cell_address(row: int, col: int) -> Seq<char> {
    column_letters(col) + decimal(row as nat)
}

/// The number of letters at the front of `s`.
pub open spec fn letter_run(s: Seq<char>) -> nat
    decreases s.len(),
{
    if s.len() > 0 && is_letter(s[0]) {
        1 + letter_run(s.drop_first())
    } else {
        0
    }
}

/// The column part of an address: the letters at its front.
pub open spec fn address_letters(s: Seq<char>) -> Seq<char> {
    s.subrange(0, letter_run(s) as int)
}

/// The row part of an address: what follows its letters.
pub open spec fn address_digits(s: Seq<char>) -> Seq<char> {
    s.subrange(letter_run(s) as int, s.len() as int)
}

/// One or more letters followed by one or more digits, and nothing else.
pub open spec fn is_cell_address(s: Seq<char>) -> bool {
    &&& 0 < letter_run(s) < s.len()
    &&& all_digits(address_digits(s))
}

/// The `(row, column)` pair that an address stands for, or the error that
/// parsing it gives.
pub open spec fn parsed_address(s: Seq<char>) -> Result<(i32, i32), SheetError> {
    if !is_cell_address(s) {
        Err(SheetError::InvalidInput)
    } else if letters_value(address_letters(s)) > i32::MAX || digits_value(address_digits(s))
        > i32::MAX {
        Err(SheetError::NumericOverflow)
    } else {
        Ok((digits_value(address_digits(s)) as i32, letters_value(address_letters(s)) as i32))
    }
}

/// An address as formatting writes it: it parses, and its row has no
/// leading zero.
pub open spec fn is_canonical_address(s: Seq<char>) -> bool {
    parsed_address(s) is Ok && address_digits(s)[0] != '0'
}

/// Appends `cs` to `s`, in order.
fn push_all(s: &mut String, cs: &Vec<char>)
    ensures
        final(s)@ == old(s)@ + cs@,
{
    let mut i: usize = 0;
    while i < cs.len()
        invariant
            i <= cs.len(),
            s@ == old(s)@ + cs@.subrange(0, i as int),
        decreases cs.len() - i,
    {
        push_char(s, cs[i]);
        i = i + 1;
        assert(s@ =~= old(s)@ + cs@.subrange(0, i as int));
    }
    assert(cs@.subrange(0, cs.len() as int) =~= cs@);
}

/// Whether `c` is an uppercase ASCII letter.
fn is_upper_letter(c: char) -> (r: bool)
    ensures
        r == is_letter(c),
{
    'A' <= c && c <= 'Z'
}

/// The column letters for `column_number`: `1` gives `"A"`, `27` gives
/// `"AA"`. A number below 1 gives the empty string.
pub fn get_column_letter(column_number: i32) -> (r: String)
    ensures
        r@ == column_letters(column_number as int),
{
    let mut letters: Vec<char> = Vec::new();
    let mut n: i32 = column_number;
    while n > 0
        invariant
            column_letters(column_number as int) == column_letters(n as int) + letters@,
            n <= column_number,
        decreases n,
    {
        let remainder: i32 = (n - 1) % 26;
        let c: char = ((remainder as u8) + 65u8) as char;
        assert(c == letter_of(remainder as int));
        letters.insert(0, c);
        assert(column_letters(n as int) == column_letters(((n - 1) / 26) as int).push(c));
        n = (n - remainder - 1) / 26;
        assert(column_letters(column_number as int) =~= column_letters(n as int) + letters@);
    }
    assert(column_letters(n as int) =~= seq![]);
    assert(column_letters(column_number as int) =~= letters@);
    let mut r = String::new();
    push_all(&mut r, &letters);
    assert(r@ =~= letters@);
    r
}


/// The column number for a run of letters: `"AB"` gives `28`. Fails with
/// `InvalidInput` on an empty run or one holding a character outside
/// `A`..=`Z`, and with `NumericOverflow` where the number exceeds `i32::MAX`.
pub fn get_column_number(column_letter: &str) -> (r: Result<i32, SheetError>)
    ensures
        !is_column_letters(column_letter@) ==> r == Err::<i32, SheetError>(SheetError::InvalidInput),
        is_column_letters(column_letter@) && letters_value(column_letter@) <= i32::MAX
            ==> r == Ok::<i32, SheetError>(letters_value(column_letter@) as i32),
        is_column_letters(column_letter@) && letters_value(column_letter@) > i32::MAX
            ==> r == Err::<i32, SheetError>(SheetError::NumericOverflow),
{
    let ghost s = column_letter@;
    let len = column_letter.unicode_len();
    if len == 0 {
        return Err(SheetError::InvalidInput);
    }
    let mut i: usize = 0;
    while i < len
        invariant
            s == column_letter@,
            len == s.len(),
            i <= len,
            forall|j: int| 0 <= j < i ==> is_letter(#[trigger] s[j]),
        decreases len - i,
    {
        let c = column_letter.get_char(i);
        if !is_upper_letter(c) {
            return Err(SheetError::InvalidInput);
        }
        i = i + 1;
    }
    // `acc` holds the value of the letters read so far, capped just above
    // `i32::MAX`.
    let mut acc: i64 = 0;
    let mut i: usize = 0;
    while i < len
        invariant
            s == column_letter@,
            len == s.len(),
            i <= len,
            all_letters(s),
            0 <= acc <= i32::MAX + 1,
            letters_value(s.subrange(0, i as int)) > i32::MAX ==> acc == i32::MAX + 1,
            letters_value(s.subrange(0, i as int)) <= i32::MAX ==> acc == letters_value(s.subrange(0, i as int)),
        decreases len - i,
    {
        let c = column_letter.get_char(i);
        let digit: i64 = (c as u32 - 64) as i64;
        assert(s.subrange(0, i + 1).drop_last() =~= s.subrange(0, i as int));
        assert(letters_value(s.subrange(0, i + 1)) == letters_value(s.subrange(0, i as int)) * 26 + digit);
        acc = acc * 26 + digit;
        if acc > i32::MAX as i64 {
            acc = i32::MAX as i64 + 1;
        }
        i = i + 1;
    }
    assert(s.subrange(0, len as int) =~= s);
    if acc > i32::MAX as i64 {
        Err(SheetError::NumericOverflow)
    } else {
        Ok(acc as i32)
    }
}

/// The decimal digits of `n`.
fn decimal_digits(n: i32) -> (r: Vec<char>)
    requires
        n >= 0,
    ensures
        r@ == decimal(n as nat),
{
    let mut digits: Vec<char> = Vec::new();
    let mut m: i32 = n;
    while m >= 10
        invariant
            0 <= m <= n,
            decimal(n as nat) == decimal(m as nat) + digits@,
        decreases m,
    {
        let c: char = (((m % 10) as u8) + 48u8) as char;
        assert(c == digit_of((m % 10) as int));
        digits.insert(0, c);
        assert(decimal(m as nat) == decimal((m / 10) as nat).push(c));
        m = m / 10;
        assert(decimal(n as nat) =~= decimal(m as nat) + digits@);
    }
    let c: char = ((m as u8) + 48u8) as char;
    digits.insert(0, c);
    assert(decimal(n as nat) =~= digits@);
    digits
}

/// The address of the cell at `row_num` and `col_num`: `(3, 26)` gives
/// `"Z3"`. Fails with `PreconditionViolation` where either number is below 1.
pub fn get_cell_address(row_num: i32, col_num: i32) -> (r: Result<String, SheetError>)
    ensures
        row_num < 1 || col_num < 1 ==> r == Err::<String, SheetError>(SheetError::PreconditionViolation),
        row_num >= 1 && col_num >= 1 ==> (r matches Ok(s) && s@ == cell_address(row_num as int, col_num as int)),
{
    if row_num < 1 || col_num < 1 {
        return Err(SheetError::PreconditionViolation);
    }
    let mut r = get_column_letter(col_num);
    let digits = decimal_digits(row_num);
    push_all(&mut r, &digits);
    Ok(r)
}

/// The number that a run of decimal digits stands for, or `None` where it
/// exceeds `i32::MAX`.
fn digits_number(digits: &str) -> (r: Option<i32>)
    requires
        all_digits(digits@),
    ensures
        digits_value(digits@) <= i32::MAX ==> r == Some(digits_value(digits@) as i32),
        digits_value(digits@) > i32::MAX ==> r is None,
{
    let ghost s = digits@;
    let len = digits.unicode_len();
    // `acc` holds the value of the digits read so far, capped just above
    // `i32::MAX`.
    let mut acc: i64 = 0;
    let mut i: usize = 0;
    while i < len
        invariant
            s == digits@,
            len == s.len(),
            i <= len,
            all_digits(s),
            0 <= acc <= i32::MAX + 1,
            digits_value(s.subrange(0, i as int)) > i32::MAX ==> acc == i32::MAX + 1,
            digits_value(s.subrange(0, i as int)) <= i32::MAX ==> acc == digits_value(s.subrange(0, i as int)),
            digits_value(s.subrange(0, i as int)) >= 0,
        decreases len - i,
    {
        let c = digits.get_char(i);
        assert(is_digit(s[i as int]));
        let digit: i64 = (c as u32 - 48) as i64;
        assert(s.subrange(0, i + 1).drop_last() =~= s.subrange(0, i as int));
        assert(digits_value(s.subrange(0, i + 1)) == digits_value(s.subrange(0, i as int)) * 10 + digit);
        acc = acc * 10 + digit;
        if acc > i32::MAX as i64 {
            acc = i32::MAX as i64 + 1;
        }
        i = i + 1;
    }
    assert(s.subrange(0, len as int) =~= s);
    if acc > i32::MAX as i64 {
        None
    } else {
        Some(acc as i32)
    }
}

proof fn lemma_letter_run_le(s: Seq<char>)
    ensures
        letter_run(s) <= s.len(),
    decreases s.len(),
{
    if s.len() > 0 && is_letter(s[0]) {
        lemma_letter_run_le(s.drop_first());
    }
}

proof fn lemma_letter_run(s: Seq<char>, k: int)
    requires
        0 <= k <= s.len(),
        forall|j: int| 0 <= j < k ==> is_letter(#[trigger] s[j]),
        k == s.len() || !is_letter(s[k]),
    ensures
        letter_run(s) == k,
    decreases k,
{
    if k > 0 {
        let t = s.drop_first();
        assert(forall|j: int| 0 <= j < k - 1 ==> #[trigger] t[j] == s[j + 1]);
        lemma_letter_run(t, k - 1);
    }
}

/// Parses an address such as `"AB123"` into `(row, column)`, here
/// `(123, 28)`. Fails with `InvalidInput` unless the address is one or more
/// letters `A`..=`Z` followed by one or more digits, and with
/// `NumericOverflow` where the row or the column exceeds `i32::MAX`.
pub fn get_addr_int(cell_addr: &str) -> (r: Result<(i32, i32), SheetError>)
    ensures
        r == parsed_address(cell_addr@),
{
    let ghost s = cell_addr@;
    let len = cell_addr.unicode_len();
    let mut k: usize = 0;
    while k < len && is_upper_letter(cell_addr.get_char(k))
        invariant
            s == cell_addr@,
            len == s.len(),
            k <= len,
            forall|j: int| 0 <= j < k ==> is_letter(#[trigger] s[j]),
        decreases len - k,
    {
        k = k + 1;
    }
    proof {
        lemma_letter_run(s, k as int);
    }
    if k == 0 || k == len {
        return Err(SheetError::InvalidInput);
    }
    let mut i: usize = k;
    while i < len
        invariant
            s == cell_addr@,
            len == s.len(),
            k <= i <= len,
            letter_run(s) == k,
            forall|j: int| k <= j < i ==> is_digit(#[trigger] s[j]),
        decreases len - i,
    {
        let c = cell_addr.get_char(i);
        if !('0' <= c && c <= '9') {
            assert(address_digits(s)[i - k] == c);
            return Err(SheetError::InvalidInput);
        }
        i = i + 1;
    }
    assert(all_digits(address_digits(s))) by {
        assert(forall|j: int| 0 <= j < len - k ==> #[trigger] address_digits(s)[j] == s[j + k]);
    }
    let letters = cell_addr.substring_char(0, k);
    let digits = cell_addr.substring_char(k, len);
    assert(letters@ == address_letters(s));
    assert(digits@ == address_digits(s));
    let col = match get_column_number(letters) {
        Ok(col) => col,
        Err(e) => {
            return Err(e);
        },
    };
    match digits_number(digits) {
        Some(row) => Ok((row, col)),
        None => Err(SheetError::NumericOverflow),
    }
}

/// Column letters and column numbers agree: the letters of every column
/// number from 1 up are a well-formed run whose value is that number.
pub proof fn lemma_column_round_trip(n: int)
    requires
        n >= 1,
    ensures
        is_column_letters(column_letters(n)),
        letters_value(column_letters(n)) == n,
    decreases n,
{
    let q = (n - 1) / 26;
    let d = (n - 1) % 26;
    let s = column_letters(n);
    assert(s == column_letters(q).push(letter_of(d)));
    assert(s.drop_last() =~= column_letters(q));
    assert(letter_value(letter_of(d)) == d + 1);
    if q >= 1 {
        lemma_column_round_trip(q);
    } else {
        assert(column_letters(q) =~= seq![]);
    }
    assert(forall|i: int| 0 <= i < s.len() ==> is_letter(#[trigger] s[i])) by {
        assert(forall|i: int| 0 <= i < s.len() - 1 ==> s[i] == #[trigger] column_letters(q)[i]);
    }
}

/// Every well-formed run of letters is the column letters of its value, so no
/// two numbers share a run and no two runs share a number.
pub proof fn lemma_letters_round_trip(s: Seq<char>)
    requires
        is_column_letters(s),
    ensures
        letters_value(s) >= 1,
        column_letters(letters_value(s)) == s,
    decreases s.len(),
{
    let p = s.drop_last();
    let d = letter_value(s.last());
    assert(is_letter(s[s.len() - 1]));
    if p.len() > 0 {
        assert(forall|i: int| 0 <= i < p.len() ==> #[trigger] p[i] == s[i]);
        lemma_letters_round_trip(p);
    }
    let n = letters_value(s);
    assert(n == letters_value(p) * 26 + d);
    assert((n - 1) / 26 == letters_value(p)) by (nonlinear_arith)
        requires
            n - 1 == letters_value(p) * 26 + (d - 1),
            0 <= d - 1 < 26,
            letters_value(p) >= 0,
    ;
    assert((n - 1) % 26 == d - 1) by (nonlinear_arith)
        requires
            n - 1 == letters_value(p) * 26 + (d - 1),
            0 <= d - 1 < 26,
            letters_value(p) >= 0,
    ;
    assert(letter_of(d - 1) == s.last());
    if p.len() == 0 {
        assert(column_letters(0) =~= seq![]);
    }
    assert(column_letters(n) =~= p.push(s.last()));
    assert(p.push(s.last()) =~= s);
}

/// A run of digits without a leading zero is `decimal` of its value.
proof fn lemma_decimal_round_trip(d: Seq<char>)
    requires
        d.len() > 0,
        all_digits(d),
        d[0] != '0',
    ensures
        digits_value(d) >= 1,
        decimal(digits_value(d) as nat) == d,
    decreases d.len(),
{
    let p = d.drop_last();
    let e = digit_value(d.last());
    assert(is_digit(d[d.len() - 1]));
    let n = digits_value(d);
    if p.len() > 0 {
        assert(forall|i: int| 0 <= i < p.len() ==> #[trigger] p[i] == d[i]);
        lemma_decimal_round_trip(p);
        assert(n / 10 == digits_value(p)) by (nonlinear_arith)
            requires
                n == digits_value(p) * 10 + e,
                0 <= e < 10,
        ;
        assert(n % 10 == e) by (nonlinear_arith)
            requires
                n == digits_value(p) * 10 + e,
                0 <= e < 10,
        ;
        assert(digit_of(e) == d.last());
        assert(decimal(n as nat) =~= p.push(d.last()));
        assert(p.push(d.last()) =~= d);
    } else {
        assert(digits_value(p) == 0);
        assert(d =~= seq![d[0]]);
    }
}

/// Parsing an address as formatting writes it, then formatting the row and
/// column that come out, gives the address back.
pub proof fn lemma_address_round_trip(s: Seq<char>)
    requires
        is_canonical_address(s),
    ensures
        parsed_address(s) matches Ok((row, col)) && row >= 1 && col >= 1 && cell_address(
            row as int,
            col as int,
        ) == s,
{
    lemma_letter_run_le(s);
    let k = letter_run(s) as int;
    let l = address_letters(s);
    let d = address_digits(s);
    assert(forall|i: int| 0 <= i < l.len() ==> is_letter(#[trigger] l[i])) by {
        assert forall|i: int| 0 <= i < l.len() implies is_letter(#[trigger] l[i]) by {
            lemma_letter_run_prefix(s, i);
        }
    }
    lemma_letters_round_trip(l);
    lemma_decimal_round_trip(d);
    assert(l + d =~= s);
}

proof fn lemma_letter_run_prefix(s: Seq<char>, i: int)
    requires
        0 <= i < letter_run(s),
    ensures
        is_letter(s[i]),
    decreases i,
{
    lemma_letter_run_le(s);
    assert(s.len() > 0 && is_letter(s[0]));
    if i > 0 {
        lemma_letter_run_prefix(s.drop_first(), i - 1);
        assert(s.drop_first()[i - 1] == s[i]);
    }
}

/// The column that a parsed address names is at least 1.
pub proof fn lemma_parsed_column_positive(s: Seq<char>)
    requires
        parsed_address(s) is Ok,
    ensures
        parsed_address(s)->Ok_0.1 >= 1,
{
    lemma_letter_run_le(s);
    let l = address_letters(s);
    assert forall|i: int| 0 <= i < l.len() implies is_letter(#[trigger] l[i]) by {
        lemma_letter_run_prefix(s, i);
    }
    lemma_letters_round_trip(l);
}

} // verus!
