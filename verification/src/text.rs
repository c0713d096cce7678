//! Decimal numbers and delimiters in text.

use vstd::prelude::*;

verus! {

/// The decimal digit `d`, for `d < 10`.
pub open spec fn digit_char(d: nat) -> char {
    (d + '0' as nat) as char
}

pub open spec fn is_digit(c: char) -> bool {
    '0' <= c && c <= '9'
}

pub open spec fn all_digits(s: Seq<char>) -> bool {
    forall|i: int| 0 <= i < s.len() ==> is_digit(#[trigger] s[i])
}

/// What a decimal digit stands for.
pub open spec fn digit_value(c: char) -> nat {
    (c as nat - '0' as nat) as nat
}

/// `n` in decimal, without leading zeros.
pub open spec fn decimal(n: nat) -> Seq<char>
    decreases n,
{
    if n < 10 {
        seq![digit_char(n)]
    } else {
        decimal(n / 10).push(digit_char(n % 10))
    }
}

/// `n` in decimal, with a minus sign in front where `n` is negative.
pub open spec fn signed_decimal(n: int) -> Seq<char> {
    if n < 0 {
        "-"@ + decimal((-n) as nat)
    } else {
        decimal(n as nat)
    }
}

/// The number that a run of decimal digits stands for.
pub open spec fn decimal_value(s: Seq<char>) -> nat
    decreases s.len(),
{
    if s.len() == 0 {
        0
    } else {
        10 * decimal_value(s.drop_last()) + digit_value(s.last())
    }
}

/// The digits of a number's text: all of it but one leading plus sign.
pub open spec fn digits_of(s: Seq<char>) -> Seq<char> {
    if s.len() > 0 && s[0] == '+' {
        s.drop_first()
    } else {
        s
    }
}

/// The `u32` that `s` spells: an optional plus sign, then one or more decimal digits.
pub open spec fn u32_of(s: Seq<char>) -> Option<u32> {
    let digits = digits_of(s);
    if digits.len() > 0 && all_digits(digits) && decimal_value(digits) <= u32::MAX {
        Some(decimal_value(digits) as u32)
    } else {
        None
    }
}

/// How many characters stand before the first `c`: all of them where there is no `c`.
pub open spec fn index_of(s: Seq<char>, c: char) -> int
    decreases s.len(),
{
    if s.len() == 0 || s[0] == c {
        0
    } else {
        1 + index_of(s.drop_first(), c)
    }
}

/// The text before the first `c` and the text behind it, if `s` holds a `c`.
pub open spec fn split_once_of(s: Seq<char>, c: char) -> Option<(Seq<char>, Seq<char>)> {
    let i = index_of(s, c);
    if i < s.len() {
        Some((s.take(i), s.skip(i + 1)))
    } else {
        None
    }
}

/// The first `c` stands at `i` where `c` stands there and nowhere before.
pub proof fn lemma_index_of(s: Seq<char>, c: char, i: int)
    requires
        0 <= i <= s.len(),
        i < s.len() ==> s[i] == c,
        forall|j: int| 0 <= j < i ==> s[j] != c,
    ensures
        index_of(s, c) == i,
    decreases s.len(),
{
    if i > 0 {
        lemma_index_of(s.drop_first(), c, i - 1);
    }
}

/// Taking more digits never makes the number smaller.
proof fn lemma_decimal_value_grows(s: Seq<char>, i: int)
    requires
        0 <= i <= s.len(),
    ensures
        decimal_value(s.take(i)) <= decimal_value(s),
    decreases s.len() - i,
{
    if i == s.len() {
        assert(s.take(i) == s);
    } else {
        lemma_decimal_value_grows(s, i + 1);
        assert(s.take(i + 1).drop_last() == s.take(i));
    }
}

/// The decimal text of a number consists of digits, at least one, and spells that number.
pub proof fn law_decimal_spells_number(n: nat)
    ensures
        decimal(n).len() > 0,
        all_digits(decimal(n)),
        decimal_value(decimal(n)) == n,
    decreases n,
{
    if n < 10 {
        assert(decimal(n).drop_last() == Seq::<char>::empty());
        assert(decimal_value(Seq::<char>::empty()) == 0);
    } else {
        law_decimal_spells_number(n / 10);
        assert(decimal(n).drop_last() == decimal(n / 10));
    }
}

/// Every `u32` is read back from its decimal text.
pub proof fn law_u32_read_back(n: u32)
    ensures
        u32_of(decimal(n as nat)) == Some(n),
{
    law_decimal_spells_number(n as nat);
    let s = decimal(n as nat);
    assert(is_digit(s[0]));
    assert(digits_of(s) == s);
}

fn digit_str(d: u64) -> (r: &'static str)
    requires
        d < 10,
    ensures
        r@ == seq![digit_char(d as nat)],
{
    proof {
        reveal_strlit("0");
        reveal_strlit("1");
        reveal_strlit("2");
        reveal_strlit("3");
        reveal_strlit("4");
        reveal_strlit("5");
        reveal_strlit("6");
        reveal_strlit("7");
        reveal_strlit("8");
        reveal_strlit("9");
    }
    let r = match d {
        0 => "0",
        1 => "1",
        2 => "2",
        3 => "3",
        4 => "4",
        5 => "5",
        6 => "6",
        7 => "7",
        8 => "8",
        _ => "9",
    };
    assert(r@ == seq![digit_char(d as nat)]);
    r
}

/// `n` in decimal.
pub fn decimal_string(n: u64) -> (r: String)
    ensures
        r@ == decimal(n as nat),
    decreases n,
{
    if n < 10 {
        digit_str(n).to_owned()
    } else {
        let mut r = decimal_string(n / 10);
        r.append(digit_str(n % 10));
        assert(r@ == decimal(n as nat));
        r
    }
}

/// `n` in decimal, with a minus sign in front where `n` is negative.
pub fn signed_decimal_string(n: i32) -> (r: String)
    ensures
        r@ == signed_decimal(n as int),
{
    if n < 0 {
        let magnitude: i64 = -(n as i64);
        let mut r = "-".to_owned();
        let digits = decimal_string(magnitude as u64);
        r.append(digits.as_str());
        r
    } else {
        decimal_string(n as u64)
    }
}

/// The `u32` that `s` spells, or `None` where it spells none.
pub fn parse_u32(s: &str) -> (r: Option<u32>)
    ensures
        r == u32_of(s@),
{
    let len: usize = s.unicode_len();
    let start: usize = if len > 0 && s.get_char(0) == '+' {
        1
    } else {
        0
    };
    let ghost digits = digits_of(s@);
    if start == len {
        return None;
    }
    let mut value: u32 = 0;
    let mut i: usize = start;
    while i < len
        invariant
            len == s@.len(),
            start <= i <= len,
            digits == s@.skip(start as int),
            digits == digits_of(s@),
            all_digits(digits.take(i - start)),
            value == decimal_value(digits.take(i - start)),
        decreases len - i,
    {
        let c = s.get_char(i);
        let ghost before = digits.take(i - start);
        let ghost after = digits.take(i - start + 1);
        proof {
            assert(after.drop_last() == before);
            assert(after.last() == c);
            assert(digits[i - start] == c);
        }
        if !(c >= '0' && c <= '9') {
            return None;
        }
        let next: u64 = (value as u64) * 10 + (c as u64 - '0' as u64);
        assert(next == decimal_value(after));
        if next > u32::MAX as u64 {
            proof {
                lemma_decimal_value_grows(digits, i - start + 1);
            }
            return None;
        }
        value = next as u32;
        i += 1;
        assert forall|j: int| 0 <= j < after.len() implies is_digit(#[trigger] after[j]) by {
            if j < before.len() {
                assert(is_digit(before[j]));
            }
        }
    }
    proof {
        assert(digits.take(len - start) == digits);
    }
    Some(value)
}

/// The text before the first `c` and the text behind it, or `None` where `s` holds no `c`.
pub fn split_once<'a>(s: &'a str, c: char) -> (r: Option<(&'a str, &'a str)>)
    ensures
        match r {
            Some((before, after)) => split_once_of(s@, c) == Some((before@, after@)),
            None => split_once_of(s@, c) is None,
        },
{
    let len: usize = s.unicode_len();
    let mut i: usize = 0;
    while i < len
        invariant
            len == s@.len(),
            i <= len,
            forall|j: int| 0 <= j < i ==> s@[j] != c,
        decreases len - i,
    {
        if s.get_char(i) == c {
            proof {
                lemma_index_of(s@, c, i as int);
            }
            let before = s.substring_char(0, i);
            let after = s.substring_char(i + 1, len);
            assert(before@ == s@.take(i as int));
            assert(after@ == s@.skip(i + 1));
            return Some((before, after));
        }
        i += 1;
    }
    proof {
        lemma_index_of(s@, c, len as int);
    }
    None
}

/// The decimal text of a number has no leading zero, unless it is the zero itself.
pub proof fn law_decimal_has_no_leading_zero(n: nat)
    ensures
        decimal(n).len() > 0,
        n > 0 ==> decimal(n)[0] != '0',
        n == 0 ==> decimal(n) == seq!['0'],
    decreases n,
{
    if n >= 10 {
        law_decimal_has_no_leading_zero(n / 10);
        assert(decimal(n)[0] == decimal(n / 10)[0]);
    }
}

/// A negative number is its magnitude behind a minus sign; other numbers have no sign.
pub proof fn law_sign_stands_in_front(n: int)
    ensures
        n < 0 ==> signed_decimal(n).len() > 1 && signed_decimal(n)[0] == '-'
            && decimal_value(signed_decimal(n).skip(1)) == -n && signed_decimal(n)[1] != '0',
        n >= 0 ==> decimal_value(signed_decimal(n)) == n && all_digits(signed_decimal(n)),
        n > 0 ==> signed_decimal(n)[0] != '0',
        n == 0 ==> signed_decimal(n) == seq!['0'],
{
    let magnitude = (if n < 0 {
        -n
    } else {
        n
    }) as nat;
    reveal_strlit("-");
    law_decimal_spells_number(magnitude);
    law_decimal_has_no_leading_zero(magnitude);
    if n < 0 {
        assert(signed_decimal(n).skip(1) == decimal(magnitude));
    }
}

/// A single character is read as a number exactly where it is a digit, and stands for how far
/// it is from zero.
pub proof fn law_single_digit_is_read(c: char)
    ensures
        u32_of(seq![c]) == if '0' <= c && c <= '9' {
            Some((c as int - '0' as int) as u32)
        } else {
            None
        },
{
    let s = seq![c];
    if c == '+' {
        assert(digits_of(s) == Seq::<char>::empty());
    } else {
        assert(digits_of(s) == s);
        assert(s.drop_last() == Seq::<char>::empty());
        assert(decimal_value(Seq::<char>::empty()) == 0);
        assert(decimal_value(s) == digit_value(c));
        if is_digit(c) {
            assert(all_digits(s));
        } else {
            assert(!is_digit(s[0]));
        }
    }
}

/// One more digit makes ten times the number and that digit, as long as it fits; nothing that
/// is no digit can be added.
pub proof fn law_digits_are_positional(s: Seq<char>, v: u32, c: char)
    requires
        u32_of(s) == Some(v),
    ensures
        u32_of(s.push(c)) == if '0' <= c && c <= '9' && 10 * v + (c as int - '0' as int)
            <= u32::MAX {
            Some((10 * v + (c as int - '0' as int)) as u32)
        } else {
            None
        },
{
    let d = digits_of(s);
    let t = s.push(c);
    assert(s[0] == t[0]);
    assert(digits_of(t) == d.push(c));
    assert(d.push(c).drop_last() == d);
    assert(d.push(c).last() == c);
    if is_digit(c) {
        assert forall|i: int| 0 <= i < d.push(c).len() implies is_digit(#[trigger] d.push(c)[i]) by {
            if i < d.len() {
                assert(is_digit(d[i]));
            }
        }
    } else {
        assert(!is_digit(d.push(c)[d.len() as int]));
    }
}

/// What is no number does not become one by adding to it, unless it is a lone plus sign or
/// nothing at all.
pub proof fn law_no_number_stays_none(s: Seq<char>, c: char)
    requires
        u32_of(s) is None,
        s.len() > 0,
        s != seq!['+'],
    ensures
        u32_of(s.push(c)) is None,
{
    let d = digits_of(s);
    let t = s.push(c);
    assert(s[0] == t[0]);
    assert(digits_of(t) == d.push(c));
    assert(d.push(c).drop_last() == d);
    if s[0] == '+' && s.len() == 1 {
        assert(s == seq!['+']);
    }
    if all_digits(d) {
        assert(decimal_value(d) > u32::MAX);
    } else {
        let i = choose|i: int| 0 <= i < d.len() && !is_digit(#[trigger] d[i]);
        assert(d.push(c)[i] == d[i]);
    }
}

/// A plus sign in front changes nothing, where no other one follows; without digits there is no
/// number.
pub proof fn law_plus_sign_is_optional(s: Seq<char>)
    ensures
        s.len() > 0 && s[0] != '+' ==> u32_of(seq!['+'] + s) == u32_of(s),
        s.len() > 0 && s[0] == '+' ==> u32_of(seq!['+'] + s) is None,
        u32_of(Seq::<char>::empty()) is None,
        u32_of(seq!['+']) is None,
{
    let t = seq!['+'] + s;
    assert(t.drop_first() == s);
    assert(digits_of(seq!['+']) == Seq::<char>::empty());
    if s.len() > 0 && s[0] == '+' {
        assert(!is_digit(digits_of(t)[0]));
    }
}

/// Text that holds the mark comes apart at the first one, and nothing gets lost; other text does
/// not come apart.
pub proof fn law_split_parts_make_the_whole(s: Seq<char>, c: char)
    ensures
        split_once_of(s, c) is Some <==> s.contains(c),
        split_once_of(s, c) is Some ==> {
            let (before, behind) = split_once_of(s, c).unwrap();
            s == before.push(c) + behind && !before.contains(c)
        },
{
    lemma_first_mark(s, c);
    let i = index_of(s, c);
    if i < s.len() {
        assert(s == s.take(i).push(c) + s.skip(i + 1));
        if s.take(i).contains(c) {
            let j = choose|j: int| 0 <= j < i && s.take(i)[j] == c;
            assert(s[j] == c);
        }
    }
}

proof fn lemma_first_mark(s: Seq<char>, c: char)
    ensures
        0 <= index_of(s, c) <= s.len(),
        index_of(s, c) < s.len() ==> s[index_of(s, c)] == c,
        forall|j: int| 0 <= j < index_of(s, c) ==> s[j] != c,
    decreases s.len(),
{
    if s.len() > 0 && s[0] != c {
        let rest = s.drop_first();
        lemma_first_mark(rest, c);
        assert forall|j: int| 0 <= j < index_of(s, c) implies s[j] != c by {
            if j > 0 {
                assert(s[j] == rest[j - 1]);
            }
        }
    }
}

/// Every digit counts ten times as much as the one behind it.
pub proof fn law_each_digit_counts(s: Seq<char>, c: char)
    requires
        '0' <= c && c <= '9',
    ensures
        decimal_value(Seq::<char>::empty()) == 0,
        decimal_value(s.push(c)) == 10 * decimal_value(s) + (c as int - '0' as int),
{
    assert(s.push(c).drop_last() == s);
}

} // verus!
