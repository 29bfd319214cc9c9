use vstd::prelude::*;
use vstd::std_specs::iter::IteratorSpec;
use vstd::utf8::*;
use vstd::string::{StringExecFns, StringSliceAdditionalSpecFns};

verus! {

broadcast use vstd::utf8::group_utf8_lib;

/// Compares two strings character by character.
pub fn str_eq(a: &str, b: &str) -> (same: bool)
    ensures
        same == (a@ == b@),
{
    let x = a.as_bytes();
    let y = b.as_bytes();
    proof {
        assert(decode_utf8(encode_utf8(a@)) == a@);
        assert(decode_utf8(encode_utf8(b@)) == b@);
    }
    if x.len() != y.len() {
        proof {
            assert(x@ == encode_utf8(a@) && y@ == encode_utf8(b@));
        }
        return false;
    }
    let mut i: usize = 0;
    while i < x.len()
        invariant
            x@.len() == y@.len(),
            x@ == encode_utf8(a@),
            y@ == encode_utf8(b@),
            i <= x@.len(),
            forall|j: int| 0 <= j < i ==> x@[j] == y@[j],
        decreases x@.len() - i,
    {
        if x[i] != y[i] {
            proof {
                assert(x@ != y@);
                assert(x@ == encode_utf8(a@) && y@ == encode_utf8(b@));
            }
            return false;
        }
        i = i + 1;
    }
    proof {
        assert(x@ =~= y@);
    }
    true
}

/// Why text is not a decimal `i64`.
#[derive(Debug, Clone, Copy, PartialEq, Eq, Structural)]
pub enum IntErrorKind {
    /// The text is empty.
    Empty,
    /// The text holds a character that is not a digit where one is needed.
    InvalidDigit,
    /// The number is greater than `i64::MAX`.
    PosOverflow,
    /// The number is less than `i64::MIN`.
    NegOverflow,
}

impl IntErrorKind {
    /// How the error is described to users.
    pub open spec fn description_spec(self) -> Seq<char> {
        match self {
            IntErrorKind::Empty => "cannot parse integer from empty string"@,
            IntErrorKind::InvalidDigit => "invalid digit found in string"@,
            IntErrorKind::PosOverflow => "number too large to fit in target type"@,
            IntErrorKind::NegOverflow => "number too small to fit in target type"@,
        }
    }

    /// How the error is described to users.
    pub fn description(&self) -> (s: &'static str)
        ensures
            s@ == self.description_spec(),
    {
        match self {
            IntErrorKind::Empty => "cannot parse integer from empty string",
            IntErrorKind::InvalidDigit => "invalid digit found in string",
            IntErrorKind::PosOverflow => "number too large to fit in target type",
            IntErrorKind::NegOverflow => "number too small to fit in target type",
        }
    }
}

/// Reads the digits of `text` from position `i` onwards, left to right, onto the
/// value `acc` read so far; the number is negative when `positive` is false.
/// The first character that is not a digit, or the first digit that takes the
/// value out of the range of `i64`, decides the error.
pub open spec fn scan_digits(text: Seq<char>, i: int, acc: int, positive: bool) -> Result<int, IntErrorKind>
    decreases text.len() - i,
{
    if i < 0 || i >= text.len() {
        Ok(acc)
    } else if !('0' <= text[i] <= '9') {
        Err(IntErrorKind::InvalidDigit)
    } else {
        let d = text[i] as int - '0' as int;
        let next = if positive {
            acc * 10 + d
        } else {
            acc * 10 - d
        };
        if next > i64::MAX {
            Err(IntErrorKind::PosOverflow)
        } else if next < i64::MIN {
            Err(IntErrorKind::NegOverflow)
        } else {
            scan_digits(text, i + 1, next, positive)
        }
    }
}

/// The value of `text` read as a decimal `i64`: an optional `+` or `-` sign
/// followed by at least one digit.
pub open spec fn parse_i64_spec(text: Seq<char>) -> Result<int, IntErrorKind> {
    if text.len() == 0 {
        Err(IntErrorKind::Empty)
    } else if (text[0] == '+' || text[0] == '-') && text.len() == 1 {
        Err(IntErrorKind::InvalidDigit)
    } else if text[0] == '+' {
        scan_digits(text, 1, 0, true)
    } else if text[0] == '-' {
        scan_digits(text, 1, 0, false)
    } else {
        scan_digits(text, 0, 0, true)
    }
}

proof fn lemma_scan_digits_range(text: Seq<char>, i: int, acc: int, positive: bool)
    requires
        i64::MIN <= acc <= i64::MAX,
    ensures
        scan_digits(text, i, acc, positive) matches Ok(v) ==> i64::MIN <= v <= i64::MAX,
    decreases text.len() - i,
{
    if 0 <= i < text.len() && '0' <= text[i] <= '9' {
        let d = text[i] as int - '0' as int;
        let next = if positive {
            acc * 10 + d
        } else {
            acc * 10 - d
        };
        if i64::MIN <= next <= i64::MAX {
            lemma_scan_digits_range(text, i + 1, next, positive);
        }
    }
}

/// Reads `text` as a decimal `i64`, as `str::parse::<i64>` does.
pub fn parse_i64(text: &str) -> (r: Result<i64, IntErrorKind>)
    ensures
        match parse_i64_spec(text@) {
            Ok(v) => r == Ok::<i64, IntErrorKind>(v as i64),
            Err(e) => r == Err::<i64, IntErrorKind>(e),
        },
{
    let ghost t = text@;
    let mut chars = text.chars();
    proof {
        assert(chars.remaining() == t);
    }
    let first = match chars.next() {
        None => {
            return Err(IntErrorKind::Empty);
        },
        Some(c) => c,
    };
    let positive = first != '-';
    let mut acc: i64 = 0;
    let ghost mut i: int;
    if first == '+' || first == '-' {
        proof {
            i = 1;
            assert(t == seq![t[0]] + t.drop_first());
            assert(encode_utf8(t) == encode_scalar(t[0] as u32) + encode_utf8(t.drop_first()));
            assert(encode_scalar(t[0] as u32).len() == 1);
            assert(t.len() > 1 ==> encode_utf8(t).len() >= 2) by {
              if t.drop_first().len() > 0 {
                let x = t.drop_first()[0] as u32;
                assert(encode_utf8(t.drop_first()) == encode_scalar(x) + encode_utf8(
                    t.drop_first().drop_first(),
                ));
                assert(encode_scalar(x).len() >= 1);
                assert(encode_utf8(t).len() >= 2);
              }
            }
        }
        if text.as_bytes().len() == 1 {
            proof {
                assert(t.len() == 1);
            }
            return Err(IntErrorKind::InvalidDigit);
        }
    } else {
        proof {
            i = 0;
        }
        chars = text.chars();
    }
    let ghost start = i;
    proof {
        lemma_scan_digits_range(t, start, 0, positive);
        assert(t.skip(i) =~= if i == 0 { t } else { t.drop_first() });
    }
    loop
        invariant
            t == text@,
            t.len() > 0,
            start == 0 || start == 1,
            parse_i64_spec(t) == scan_digits(t, start, 0, positive),
            start <= i <= t.len(),
            chars.remaining() == t.skip(i),
            scan_digits(t, i, acc as int, positive) == scan_digits(t, start, 0, positive),
            positive ==> acc >= 0,
            !positive ==> acc <= 0,
        ensures
            match scan_digits(t, start, 0, positive) {
                Ok(v) => acc == v,
                Err(e) => false,
            },
        decreases t.len() - i,
    {
        let c = match chars.next() {
            None => {
                proof {
                    assert(t.skip(i).len() == 0);
                }
                break;
            },
            Some(c) => c,
        };
        proof {
            assert(t.skip(i)[0] == t[i]);
            assert(t.skip(i).drop_first() =~= t.skip(i + 1));
        }
        if !('0' <= c && c <= '9') {
            return Err(IntErrorKind::InvalidDigit);
        }
        let d = (c as u32 - '0' as u32) as i64;
        if positive {
            match acc.checked_mul(10) {
                None => {
                    return Err(IntErrorKind::PosOverflow);
                },
                Some(m) => match m.checked_add(d) {
                    None => {
                        return Err(IntErrorKind::PosOverflow);
                    },
                    Some(n) => {
                        acc = n;
                    },
                },
            }
        } else {
            match acc.checked_mul(10) {
                None => {
                    return Err(IntErrorKind::NegOverflow);
                },
                Some(m) => match m.checked_sub(d) {
                    None => {
                        return Err(IntErrorKind::NegOverflow);
                    },
                    Some(n) => {
                        acc = n;
                    },
                },
            }
        }
        proof {
            i = i + 1;
        }
    }
    Ok(acc)
}

// ---------------------------------------------------------------------------
// Numbers and padding as text
// ---------------------------------------------------------------------------
/// The digit with value `d`, in upper case for the values ten to fifteen.
pub open spec fn digit_spec(d: nat) -> Seq<char> {
        if d == 0 {
            "0"@
        } else if d == 1 {
            "1"@
        } else if d == 2 {
            "2"@
        } else if d == 3 {
            "3"@
        } else if d == 4 {
            "4"@
        } else if d == 5 {
            "5"@
        } else if d == 6 {
            "6"@
        } else if d == 7 {
            "7"@
        } else if d == 8 {
            "8"@
        } else if d == 9 {
            "9"@
        } else if d == 10 {
            "A"@
        } else if d == 11 {
            "B"@
        } else if d == 12 {
            "C"@
        } else if d == 13 {
            "D"@
        } else if d == 14 {
            "E"@
        } else {
            "F"@
        }
}

/// The digit with value `d`.
pub fn digit_text(d: u8) -> (s: &'static str)
    requires
        d < 16,
    ensures
        s@ == digit_spec(d as nat),
{
        if d == 0 {
            "0"
        } else if d == 1 {
            "1"
        } else if d == 2 {
            "2"
        } else if d == 3 {
            "3"
        } else if d == 4 {
            "4"
        } else if d == 5 {
            "5"
        } else if d == 6 {
            "6"
        } else if d == 7 {
            "7"
        } else if d == 8 {
            "8"
        } else if d == 9 {
            "9"
        } else if d == 10 {
            "A"
        } else if d == 11 {
            "B"
        } else if d == 12 {
            "C"
        } else if d == 13 {
            "D"
        } else if d == 14 {
            "E"
        } else {
            "F"
        }
}

/// The decimal digits of `n`, most significant first, without leading zeros.
pub open spec fn decimal_spec(n: nat) -> Seq<char>
    decreases n,
{
    if n < 10 {
        digit_spec(n)
    } else {
        decimal_spec(n / 10) + digit_spec(n % 10)
    }
}

/// `n` in decimal.
pub fn decimal_text(n: u64) -> (s: String)
    ensures
        s@ == decimal_spec(n as nat),
    decreases n,
{
    if n < 10 {
        digit_text(n as u8).to_owned()
    } else {
        let mut s = decimal_text(n / 10);
        s.append(digit_text((n % 10) as u8));
        s
    }
}

/// `v` in decimal, with a minus sign when negative.
pub open spec fn int_text_spec(v: int) -> Seq<char> {
    if v < 0 {
        "-"@ + decimal_spec((-v) as nat)
    } else {
        decimal_spec(v as nat)
    }
}

/// `v` in decimal, with a minus sign when negative.
pub fn int_text(v: i64) -> (s: String)
    ensures
        s@ == int_text_spec(v as int),
{
    if v < 0 {
        let magnitude: u64 = if v == i64::MIN {
            9223372036854775808u64
        } else {
            (-v) as u64
        };
        let mut s = "-".to_owned();
        s.append(decimal_text(magnitude).as_str());
        s
    } else {
        decimal_text(v as u64)
    }
}

/// The two upper-case hexadecimal digits of `b`.
pub open spec fn hex_byte_spec(b: u8) -> Seq<char> {
    digit_spec((b / 16) as nat) + digit_spec((b % 16) as nat)
}

/// The two upper-case hexadecimal digits of `b`.
pub fn hex_byte_text(b: u8) -> (s: String)
    ensures
        s@ == hex_byte_spec(b),
{
    let mut s = digit_text(b / 16).to_owned();
    s.append(digit_text(b % 16));
    s
}

/// `k` spaces.
pub open spec fn spaces_spec(k: nat) -> Seq<char> {
    Seq::new(k, |i: int| ' ')
}

/// `text` after as many spaces as make it `width` characters long.
pub open spec fn pad_left_spec(text: Seq<char>, width: nat) -> Seq<char> {
    if text.len() >= width {
        text
    } else {
        spaces_spec((width - text.len()) as nat) + text
    }
}

/// `text` before as many spaces as make it `width` characters long.
pub open spec fn pad_right_spec(text: Seq<char>, width: nat) -> Seq<char> {
    if text.len() >= width {
        text
    } else {
        text + spaces_spec((width - text.len()) as nat)
    }
}

/// Appends `k` spaces to `out`.
fn push_spaces(out: &mut String, k: usize)
    ensures
        final(out)@ == old(out)@ + spaces_spec(k as nat),
{
    let mut i: usize = 0;
    proof {
        assert(old(out)@ + spaces_spec(0) =~= old(out)@);
    }
    while i < k
        invariant
            i <= k,
            out@ == old(out)@ + spaces_spec(i as nat),
        decreases k - i,
    {
        out.append(" ");
        proof {
            reveal_strlit(" ");
            assert(old(out)@ + spaces_spec(i as nat) + " "@ =~= old(out)@ + spaces_spec((i + 1) as nat));
        }
        i = i + 1;
    }
}

/// `text` after as many spaces as make it `width` characters long.
pub fn pad_left(text: &str, width: usize) -> (s: String)
    ensures
        s@ == pad_left_spec(text@, width as nat),
{
    let n = text.unicode_len();
    let mut s = String::new();
    if n < width {
        push_spaces(&mut s, width - n);
    }
    s.append(text);
    proof {
        if n >= width {
            assert(s@ =~= text@);
        }
    }
    s
}

/// `text` before as many spaces as make it `width` characters long.
pub fn pad_right(text: &str, width: usize) -> (s: String)
    ensures
        s@ == pad_right_spec(text@, width as nat),
{
    let n = text.unicode_len();
    let mut s = text.to_owned();
    if n < width {
        push_spaces(&mut s, width - n);
    }
    s
}

/// Scanning one more character after `text` continues from where scanning
/// `text` ended.
proof fn lemma_scan_digits_push(text: Seq<char>, c: char, i: int, acc: int, positive: bool)
    requires
        0 <= i <= text.len(),
    ensures
        scan_digits(text.push(c), i, acc, positive) == match scan_digits(text, i, acc, positive) {
            Ok(v) => scan_digits(seq![c], 0, v, positive),
            Err(e) => Err(e),
        },
    decreases text.len() - i,
{
    reveal_with_fuel(scan_digits, 2);
    let t = text.push(c);
    if i == text.len() {
        assert(t[i] == c);
        assert(seq![c][0] == c);
    } else {
        assert(t[i] == text[i]);
        if '0' <= text[i] <= '9' {
            let d = text[i] as int - '0' as int;
            let next = if positive {
                acc * 10 + d
            } else {
                acc * 10 - d
            };
            if i64::MIN <= next <= i64::MAX {
                lemma_scan_digits_push(text, c, i + 1, next, positive);
            }
        }
    }
}

/// A decimal digit's text is one character whose distance from `0` is its value.
proof fn lemma_digit(d: nat)
    requires
        d < 10,
    ensures
        digit_spec(d).len() == 1,
        '0' <= digit_spec(d)[0] <= '9',
        digit_spec(d)[0] as int - '0' as int == d,
{
    reveal_strlit("0");
    reveal_strlit("1");
    reveal_strlit("2");
    reveal_strlit("3");
    reveal_strlit("4");
    reveal_strlit("5");
    reveal_strlit("6");
    reveal_strlit("7");
    reveal_strlit("8");
    reveal_strlit("9");
}

/// Scanning the decimal text of `n`, after any prefix, reads back `n`, or its
/// negation when the sign is negative, as long as that fits in an `i64`.
proof fn lemma_scan_decimal(prefix: Seq<char>, n: nat, positive: bool)
    requires
        if positive {
            n <= i64::MAX
        } else {
            n <= i64::MAX + 1
        },
    ensures
        scan_digits(prefix + decimal_spec(n), prefix.len() as int, 0, positive) == Ok::<int, IntErrorKind>(
            if positive {
                n as int
            } else {
                -n
            },
        ),
    decreases n,
{
    reveal_with_fuel(scan_digits, 2);
    if n < 10 {
        lemma_digit(n);
        let t = prefix + decimal_spec(n);
        assert(t[prefix.len() as int] == digit_spec(n)[0]);
        assert(t.len() == prefix.len() + 1);
    } else {
        let head = prefix + decimal_spec(n / 10);
        lemma_digit(n % 10);
        let c = digit_spec(n % 10)[0];
        assert(digit_spec(n % 10) =~= seq![c]);
        assert(prefix + decimal_spec(n) =~= head.push(c));
        lemma_scan_decimal(prefix, n / 10, positive);
        lemma_scan_digits_push(head, c, prefix.len() as int, 0, positive);
        assert(seq![c][0] == c);
    }
}

/// Reading back the decimal text of an `i64` gives the number: the text
/// names its value and no other.
pub proof fn lemma_int_text_parses(v: i64)
    ensures
        parse_i64_spec(int_text_spec(v as int)) == Ok::<int, IntErrorKind>(v as int),
{
    reveal_strlit("-");
    if v < 0 {
        let m = (-v) as nat;
        lemma_scan_decimal("-"@, m, false);
        lemma_digit_text_nonempty(m);
        assert(("-"@ + decimal_spec(m))[0] == '-');
    } else {
        lemma_scan_decimal(Seq::<char>::empty(), v as nat, true);
        assert(Seq::<char>::empty() + decimal_spec(v as nat) =~= decimal_spec(v as nat));
        lemma_digit_text_nonempty(v as nat);
    }
}

/// The decimal text of a number starts with a digit.
proof fn lemma_digit_text_nonempty(n: nat)
    ensures
        decimal_spec(n).len() >= 1,
        '0' <= decimal_spec(n)[0] <= '9',
    decreases n,
{
    if n < 10 {
        lemma_digit(n);
    } else {
        lemma_digit_text_nonempty(n / 10);
        lemma_digit(n % 10);
    }
}

} // verus!
