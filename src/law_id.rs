//! Statute identifiers: `year:number`, e.g. `1998:899`.

use vstd::prelude::*;

use crate::error::LawErrorKind;

verus! {

/// Whether `c` is one of the ASCII digits `0`..`9`.
pub open spec fn is_digit(c: char) -> bool {
    '0' <= c && c <= '9'
}

/// Whether every character of `s` is an ASCII digit.
pub open spec fn all_digits(s: Seq<char>) -> bool {
    forall|i: int| 0 <= i < s.len() ==> is_digit(#[trigger] s[i])
}

/// The text form of an identifier, `^[0-9]{4}:[0-9]{1,4}$`: four digits of
/// the year, a colon, and one to four digits of the number.
pub open spec fn is_law_id_text(s: Seq<char>) -> bool {
    &&& 6 <= s.len() <= 9
    &&& s[4] == ':'
    &&& all_digits(s.subrange(0, 4))
    &&& all_digits(s.subrange(5, s.len() as int))
}

/// The value of a decimal digit.
pub open spec fn digit_value(c: char) -> nat {
    (c as int - '0' as int) as nat
}

/// The value of a string of decimal digits, most significant first.
pub open spec fn digits_value(s: Seq<char>) -> nat
    decreases s.len(),
{
    if s.len() == 0 {
        0
    } else {
        digits_value(s.drop_last()) * 10 + digit_value(s.last())
    }
}

/// Ten to the power `n`.
pub open spec fn pow10(n: nat) -> nat
    decreases n,
{
    if n == 0 {
        1
    } else {
        10 * pow10((n - 1) as nat)
    }
}

/// The year written in an identifier text.
pub open spec fn text_year(s: Seq<char>) -> nat {
    digits_value(s.subrange(0, 4))
}

/// The number written in an identifier text.
pub open spec fn text_number(s: Seq<char>) -> nat {
    digits_value(s.subrange(5, s.len() as int))
}

/// The digit that stands for `d`, for `d` below ten.
pub open spec fn digit_char(d: nat) -> char {
    seq!['0', '1', '2', '3', '4', '5', '6', '7', '8', '9'][d as int]
}

/// The decimal form of `n`, without leading zeros.
pub open spec fn decimal(n: nat) -> Seq<char>
    decreases n,
{
    if n < 10 {
        seq![digit_char(n)]
    } else {
        decimal(n / 10).push(digit_char(n % 10))
    }
}

/// `n` zero digits.
pub open spec fn zeros(n: nat) -> Seq<char> {
    Seq::new(n, |_i: int| '0')
}

/// The decimal form of a year, with zeros in front up to four digits.
pub open spec fn year_digits(year: nat) -> Seq<char> {
    if decimal(year).len() < 4 {
        zeros((4 - decimal(year).len()) as nat) + decimal(year)
    } else {
        decimal(year)
    }
}

/// The canonical text of the identifier with the given parts: `year:number`,
/// the year written with four digits.
pub open spec fn canonical_text(year: nat, number: nat) -> Seq<char> {
    year_digits(year) + seq![':'] + decimal(number)
}

/// The address of the document service under which statutes are found.
pub open spec fn url_prefix() -> Seq<char> {
    "http://data.riksdagen.se/dokument/sfs-"@
}

/// The address of the document of the statute `year:number`.
pub open spec fn url_text(year: nat, number: nat) -> Seq<char> {
    url_prefix() + year_digits(year) + seq!['-'] + decimal(number)
}

/// Identifier or "beteckning" of a statute, e.g. 1998:899.
#[derive(Debug, Clone, Copy, PartialEq, Eq)]
pub struct LawID {
    /// The year in which the statute was issued.
    pub year: u32,
    /// The statute's number within its year.
    pub number: u32,
}

/// The value of the digit `c`.
fn char_digit_value(c: char) -> (r: u32)
    requires
        is_digit(c),
    ensures
        r == digit_value(c),
        r < 10,
{
    (c as u32) - ('0' as u32)
}

/// Whether `text` is an identifier text: four digits, a colon, and one to
/// four digits.
fn law_id_valid(text: &str) -> (r: bool)
    ensures
        r == is_law_id_text(text@),
{
    let len = text.unicode_len();
    if len < 6 || len > 9 {
        return false;
    }
    if text.get_char(4) != ':' {
        return false;
    }
    let mut i: usize = 0;
    while i < len
        invariant
            len == text@.len(),
            6 <= len <= 9,
            i <= len,
            text@[4] == ':',
            forall|j: int| 0 <= j < i && j != 4 ==> is_digit(#[trigger] text@[j]),
        decreases len - i,
    {
        let c = text.get_char(i);
        if i != 4 && !('0' <= c && c <= '9') {
            proof {
                if i < 4 {
                    assert(text@.subrange(0, 4)[i as int] == c);
                } else {
                    assert(text@.subrange(5, len as int)[i - 5] == c);
                }
            }
            return false;
        }
        i = i + 1;
    }
    assert(all_digits(text@.subrange(0, 4))) by {
        assert forall|j: int| 0 <= j < 4 implies is_digit(#[trigger] text@.subrange(0, 4)[j]) by {
            assert(text@.subrange(0, 4)[j] == text@[j]);
        }
    }
    assert(all_digits(text@.subrange(5, len as int))) by {
        assert forall|j: int| 0 <= j < len - 5 implies is_digit(
            #[trigger] text@.subrange(5, len as int)[j],
        ) by {
            assert(text@.subrange(5, len as int)[j] == text@[j + 5]);
        }
    }
    true
}

/// The value of the digits of `text` from `from` up to `to`.
fn read_digits(text: &str, from: usize, to: usize) -> (r: u32)
    requires
        from <= to <= text@.len(),
        to - from <= 4,
        all_digits(text@.subrange(from as int, to as int)),
    ensures
        r == digits_value(text@.subrange(from as int, to as int)),
        r < 10000,
{
    let ghost digits = text@.subrange(from as int, to as int);
    let mut r: u32 = 0;
    let mut i: usize = from;
    while i < to
        invariant
            from <= i <= to,
            to <= text@.len(),
            to - from <= 4,
            digits == text@.subrange(from as int, to as int),
            all_digits(digits),
            r == digits_value(digits.subrange(0, i - from)),
            r < pow10((i - from) as nat),
        decreases to - i,
    {
        let c = text.get_char(i);
        proof {
            assert(digits[i - from] == c);
            lemma_digits_value_push(digits, (i - from) as int);
            lemma_small_powers();
        }
        r = r * 10 + char_digit_value(c);
        i = i + 1;
    }
    assert(digits.subrange(0, i - from) =~= digits);
    assert(pow10((to - from) as nat) <= 10000) by {
        lemma_small_powers();
    }
    r
}

impl LawID {
    /// Reads an identifier from its text. The text must be exactly four
    /// digits, a colon and one to four digits; any other text is refused
    /// with `IDFormatError`.
    pub fn new(id: &str) -> (r: Result<LawID, LawErrorKind>)
        ensures
            r is Ok <==> is_law_id_text(id@),
            r is Ok ==> r->Ok_0.year == text_year(id@) && r->Ok_0.number == text_number(id@),
            r is Ok ==> r->Ok_0.year <= 9999 && r->Ok_0.number <= 9999,
            r is Err ==> r->Err_0 is IDFormatError,
    {
        if law_id_valid(id) {
            let len = id.unicode_len();
            let year = read_digits(id, 0, 4);
            let number = read_digits(id, 5, len);
            Ok(LawID { year, number })
        } else {
            Err(LawErrorKind::IDFormatError)
        }
    }

    /// The canonical text of the identifier, `year:number`, with the year
    /// written with four digits. Where both parts have at most four digits,
    /// as in every identifier that [`LawID::new`] returns, the text is an
    /// identifier text that reads back as the same year and number.
    pub fn to_id_string(&self) -> (r: String)
        ensures
            r@ == canonical_text(self.year as nat, self.number as nat),
            self.year <= 9999 && self.number <= 9999 ==> {
                &&& is_law_id_text(r@)
                &&& text_year(r@) == self.year
                &&& text_number(r@) == self.number
            },
    {
        let mut r = String::new();
        push_year(&mut r, self.year);
        r.append(":");
        push_decimal(&mut r, self.number);
        proof {
            reveal_strlit(":");
            assert(r@ =~= canonical_text(self.year as nat, self.number as nat));
            if self.year <= 9999 && self.number <= 9999 {
                lemma_canonical_text_parses(self.year as nat, self.number as nat);
            }
        }
        r
    }

    /// The address of the statute's document in the document service, with
    /// the year written with four digits.
    pub fn to_url(&self) -> (r: String)
        ensures
            r@ == url_text(self.year as nat, self.number as nat),
    {
        let mut r = String::from_str("http://data.riksdagen.se/dokument/sfs-");
        push_year(&mut r, self.year);
        r.append("-");
        push_decimal(&mut r, self.number);
        proof {
            reveal_strlit("-");
            assert(r@ =~= url_text(self.year as nat, self.number as nat));
        }
        r
    }
}

/// The text of the digit `d`.
fn digit_str(d: u32) -> (r: &'static str)
    requires
        d < 10,
    ensures
        r@ == seq![digit_char(d as nat)],
{
    let r = if d == 0 {
        "0"
    } else if d == 1 {
        "1"
    } else if d == 2 {
        "2"
    } else if d == 3 {
        "3"
    } else if d == 4 {
        "4"
    } else if d == 5 {
        "5"
    } else if d == 6 {
        "6"
    } else if d == 7 {
        "7"
    } else if d == 8 {
        "8"
    } else {
        "9"
    };
    proof {
        reveal_strlit("0");
        reveal_strlit("1");
        reveal_strlit("2");
        reveal_strlit("3");
        reveal_strlit("4");
        reveal_strlit("5");
        reveal_strlit("6");
        reveal_strlit("7");
        reveal_strlit("8");
        reveal_strlit("9");
        assert(r@ =~= seq![digit_char(d as nat)]);
    }
    r
}

/// Appends the decimal form of `n` to `out`.
fn push_decimal(out: &mut String, n: u32)
    ensures
        final(out)@ == old(out)@ + decimal(n as nat),
    decreases n,
{
    if n < 10 {
        out.append(digit_str(n));
    } else {
        push_decimal(out, n / 10);
        out.append(digit_str(n % 10));
        proof {
            assert(out@ =~= old(out)@ + decimal(n as nat));
        }
    }
}

/// Appends the year `year`, written with four digits, to `out`.
fn push_year(out: &mut String, year: u32)
    ensures
        final(out)@ == old(out)@ + year_digits(year as nat),
{
    proof {
        lemma_decimal(year as nat);
        reveal_strlit("0");
    }
    let ghost start = out@;
    if year < 1000 {
        out.append("0");
    }
    if year < 100 {
        out.append("0");
    }
    if year < 10 {
        out.append("0");
    }
    let ghost padded = out@;
    push_decimal(out, year);
    proof {
        let k: nat = if year < 10 {
            3
        } else if year < 100 {
            2
        } else if year < 1000 {
            1
        } else {
            0
        };
        assert(padded =~= start + zeros(k));
        assert(year_digits(year as nat) =~= zeros(k) + decimal(year as nat));
        assert(out@ =~= start + year_digits(year as nat));
    }
}

/// The powers of ten that identifiers need.
proof fn lemma_small_powers()
    ensures
        pow10(0) == 1,
        pow10(1) == 10,
        pow10(2) == 100,
        pow10(3) == 1000,
        pow10(4) == 10000,
{
    reveal_with_fuel(pow10, 5);
}

/// Appending one digit to a prefix of digits multiplies its value by ten and
/// adds the digit.
proof fn lemma_digits_value_push(s: Seq<char>, i: int)
    requires
        0 <= i < s.len(),
    ensures
        digits_value(s.subrange(0, i + 1)) == digits_value(s.subrange(0, i)) * 10 + digit_value(s[i]),
{
    assert(s.subrange(0, i + 1).drop_last() =~= s.subrange(0, i));
}


/// The digit written for `d` is a digit whose value is `d`.
proof fn lemma_digit_char(d: nat)
    requires
        d < 10,
    ensures
        is_digit(digit_char(d)),
        digit_value(digit_char(d)) == d,
{
}

/// A digit is written back as itself.
proof fn lemma_digit_value_char(c: char)
    requires
        is_digit(c),
    ensures
        digit_value(c) < 10,
        digit_char(digit_value(c)) == c,
{
    assert('0' as int == 48);
    assert('9' as int == 57);
    let k = c as int - 48;
    assert(0 <= k < 10);
    if k == 0 { assert(c == '0') } else if k == 1 { assert(c == '1') } else if k == 2 {
        assert(c == '2')
    } else if k == 3 { assert(c == '3') } else if k == 4 { assert(c == '4') } else if k == 5 {
        assert(c == '5')
    } else if k == 6 { assert(c == '6') } else if k == 7 { assert(c == '7') } else if k == 8 {
        assert(c == '8')
    } else { assert(c == '9') }
}

/// The decimal form of `n` is a non-empty string of digits, worth `n`, with
/// as many digits as `n` needs.
proof fn lemma_decimal(n: nat)
    ensures
        decimal(n).len() > 0,
        all_digits(decimal(n)),
        digits_value(decimal(n)) == n,
        n < 10 ==> decimal(n).len() == 1,
        10 <= n < 100 ==> decimal(n).len() == 2,
        100 <= n < 1000 ==> decimal(n).len() == 3,
        1000 <= n < 10000 ==> decimal(n).len() == 4,
        1000 <= n ==> decimal(n).len() >= 4,
    decreases n,
{
    if n < 10 {
        lemma_digit_char(n);
        assert(seq![digit_char(n)].drop_last() =~= Seq::<char>::empty());
        assert(digits_value(Seq::<char>::empty()) == 0);
        assert(decimal(n).last() == digit_char(n));
    } else {
        lemma_decimal(n / 10);
        lemma_digit_char(n % 10);
        assert(decimal(n).drop_last() =~= decimal(n / 10));
        assert(decimal(n).last() == digit_char(n % 10));
        assert((n / 10) * 10 + n % 10 == n);
        assert(digits_value(decimal(n)) == digits_value(decimal(n / 10)) * 10 + digit_value(
            digit_char(n % 10),
        ));
    }
}

/// A string of digits with no leading zero has a positive value.
proof fn lemma_leading_digit_positive(t: Seq<char>)
    requires
        t.len() > 0,
        all_digits(t),
        t[0] != '0',
    ensures
        digits_value(t) > 0,
    decreases t.len(),
{
    if t.len() == 1 {
        assert(t.last() == t[0]);
    } else {
        let u = t.drop_last();
        assert(u[0] == t[0]);
        assert(all_digits(u)) by {
            assert forall|i: int| 0 <= i < u.len() implies is_digit(#[trigger] u[i]) by {
                assert(u[i] == t[i]);
            }
        }
        lemma_leading_digit_positive(u);
    }
}

/// A string of digits with no leading zero is the decimal form of its value.
proof fn lemma_decimal_of_digits(t: Seq<char>)
    requires
        t.len() > 0,
        all_digits(t),
        t.len() == 1 || t[0] != '0',
    ensures
        decimal(digits_value(t)) == t,
    decreases t.len(),
{
    let c = t.last();
    assert(is_digit(c));
    lemma_digit_value_char(c);
    if t.len() == 1 {
        assert(t.drop_last() =~= Seq::<char>::empty());
        assert(digits_value(t.drop_last()) == 0);
        assert(digits_value(t) == digit_value(c));
        assert(decimal(digits_value(t)) == seq![c]);
        assert(t =~= seq![c]);
    } else {
        let u = t.drop_last();
        assert(u[0] == t[0]);
        assert(all_digits(u)) by {
            assert forall|i: int| 0 <= i < u.len() implies is_digit(#[trigger] u[i]) by {
                assert(u[i] == t[i]);
            }
        }
        lemma_leading_digit_positive(u);
        lemma_decimal_of_digits(u);
        let v = digits_value(u);
        let n = digits_value(t);
        assert(n == v * 10 + digit_value(c));
        assert(n / 10 == v && n % 10 == digit_value(c)) by (nonlinear_arith)
            requires
                n == v * 10 + digit_value(c),
                digit_value(c) < 10,
        ;
        assert(decimal(n) =~= u.push(c));
        assert(u.push(c) =~= t);
    }
}

/// Zero digits are worth nothing.
proof fn lemma_zeros_value(k: nat)
    ensures
        all_digits(zeros(k)),
        digits_value(zeros(k)) == 0,
    decreases k,
{
    if k > 0 {
        assert(zeros(k).drop_last() =~= zeros((k - 1) as nat));
        lemma_zeros_value((k - 1) as nat);
    }
}

/// Zeros in front of a string of digits do not change its value.
proof fn lemma_leading_zeros(k: nat, d: Seq<char>)
    requires
        all_digits(d),
    ensures
        all_digits(zeros(k) + d),
        digits_value(zeros(k) + d) == digits_value(d),
    decreases d.len(),
{
    lemma_zeros_value(k);
    let z = zeros(k) + d;
    assert forall|i: int| 0 <= i < z.len() implies is_digit(#[trigger] z[i]) by {
        if i >= k {
            assert(z[i] == d[i - k]);
        }
    }
    if d.len() == 0 {
        assert(z =~= zeros(k));
    } else {
        let u = d.drop_last();
        assert(all_digits(u)) by {
            assert forall|i: int| 0 <= i < u.len() implies is_digit(#[trigger] u[i]) by {
                assert(u[i] == d[i]);
            }
        }
        lemma_leading_zeros(k, u);
        assert(z.drop_last() =~= zeros(k) + u);
        assert(z.last() == d.last());
    }
}

/// A string of `n` digits is worth less than ten to the power `n`.
proof fn lemma_digits_value_bound(t: Seq<char>)
    requires
        all_digits(t),
    ensures
        digits_value(t) < pow10(t.len()),
    decreases t.len(),
{
    if t.len() > 0 {
        let u = t.drop_last();
        assert(all_digits(u)) by {
            assert forall|i: int| 0 <= i < u.len() implies is_digit(#[trigger] u[i]) by {
                assert(u[i] == t[i]);
            }
        }
        lemma_digits_value_bound(u);
        assert(is_digit(t[t.len() - 1]));
        lemma_digit_value_char(t.last());
        let v = digits_value(u);
        let d = digit_value(t.last());
        let p = pow10(u.len());
        assert(v * 10 + d < 10 * p) by (nonlinear_arith)
            requires
                v < p,
                d < 10,
        ;
    }
}

/// Four digits, read as a year and written back with four digits, are
/// the same four digits.
proof fn lemma_year_digits_of_text(y: Seq<char>)
    requires
        y.len() == 4,
        all_digits(y),
    ensures
        year_digits(digits_value(y)) == y,
{
    let j: int = if y[0] != '0' {
        0
    } else if y[1] != '0' {
        1
    } else if y[2] != '0' {
        2
    } else {
        3
    };
    let t = y.subrange(j, 4);
    assert(all_digits(t)) by {
        assert forall|i: int| 0 <= i < t.len() implies is_digit(#[trigger] t[i]) by {
            assert(t[i] == y[i + j]);
        }
    }
    assert(t[0] == y[j]);
    assert(y =~= zeros(j as nat) + t);
    lemma_decimal_of_digits(t);
    lemma_leading_zeros(j as nat, t);
    if j == 0 {
        assert(t =~= y);
    }
}

/// Writing back, in canonical form, the year and number read from an
/// identifier text gives the text itself when the number has no leading
/// zero.
pub proof fn lemma_parse_round_trip(s: Seq<char>)
    requires
        is_law_id_text(s),
        s.len() == 6 || s[5] != '0',
    ensures
        canonical_text(text_year(s), text_number(s)) == s,
{
    let y = s.subrange(0, 4);
    let m = s.subrange(5, s.len() as int);
    lemma_year_digits_of_text(y);
    if s.len() > 6 {
        assert(m[0] == s[5]);
    }
    lemma_decimal_of_digits(m);
    assert(canonical_text(text_year(s), text_number(s)) =~= s);
}

/// The canonical text of an identifier whose year and number have at most
/// four digits is an identifier text, and reads back as the same year and
/// number.
pub proof fn lemma_canonical_text_parses(year: nat, number: nat)
    requires
        year <= 9999,
        number <= 9999,
    ensures
        is_law_id_text(canonical_text(year, number)),
        text_year(canonical_text(year, number)) == year,
        text_number(canonical_text(year, number)) == number,
{
    lemma_decimal(year);
    lemma_decimal(number);
    let d = decimal(year);
    let y = year_digits(year);
    if d.len() < 4 {
        lemma_leading_zeros((4 - d.len()) as nat, d);
    }
    assert(y.len() == 4 && all_digits(y) && digits_value(y) == year);
    let s = canonical_text(year, number);
    assert(s.subrange(0, 4) =~= y);
    assert(s.subrange(5, s.len() as int) =~= decimal(number));
}

/// Every identifier text reads as a year and a number whose canonical text
/// is again an identifier text, and reads back as the same year and number:
/// what [`LawID::new`] accepts, [`LawID::to_id_string`] writes back in a form
/// that [`LawID::new`] reads as the same identifier.
pub proof fn lemma_id_text_round_trip(s: Seq<char>)
    requires
        is_law_id_text(s),
    ensures
        is_law_id_text(canonical_text(text_year(s), text_number(s))),
        text_year(canonical_text(text_year(s), text_number(s))) == text_year(s),
        text_number(canonical_text(text_year(s), text_number(s))) == text_number(s),
{
    lemma_small_powers();
    lemma_digits_value_bound(s.subrange(0, 4));
    lemma_digits_value_bound(s.subrange(5, s.len() as int));
    assert(pow10((s.len() - 5) as nat) <= 10000);
    lemma_canonical_text_parses(text_year(s), text_number(s));
}

/// A text with no colon, with more than one colon, or with a character that is
/// neither a digit nor a colon is no identifier text, so [`LawID::new`]
/// refuses it with a format error.
pub proof fn lemma_malformed_text_refused(s: Seq<char>)
    requires
        (forall|i: int| 0 <= i < s.len() ==> s[i] != ':')
            || (exists|i: int, j: int| 0 <= i < j < s.len() && s[i] == ':' && s[j] == ':')
            || (exists|i: int| 0 <= i < s.len() && s[i] != ':' && !is_digit(s[i])),
    ensures
        !is_law_id_text(s),
{
    if is_law_id_text(s) {
        assert forall|i: int| 0 <= i < s.len() && i != 4 implies is_digit(#[trigger] s[i]) by {
            if i < 4 {
                assert(s.subrange(0, 4)[i] == s[i]);
            } else {
                assert(s.subrange(5, s.len() as int)[i - 5] == s[i]);
            }
        }
        assert(s[4] == ':');
        if exists|i: int, j: int| 0 <= i < j < s.len() && s[i] == ':' && s[j] == ':' {
            let (i, j) = choose|i: int, j: int| 0 <= i < j < s.len() && s[i] == ':' && s[j] == ':';
            assert(i == 4 || is_digit(s[i]));
            assert(j == 4 || is_digit(s[j]));
        }
    }
}

} // verus!
