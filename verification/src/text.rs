//! Reading arguments: flags, numbers, and sizes.

use vstd::prelude::*;

verus! {

/// Whether two pieces of text are the same.
pub fn same_text(a: &str, b: &str) -> (r: bool)
    ensures
        r == (a@ == b@),
{
    let n: usize = a.unicode_len();
    if n != b.unicode_len() {
        return false;
    }
    let mut i: usize = 0;
    while i < n
        invariant
            i <= n,
            n == a@.len(),
            n == b@.len(),
            forall|j: int| 0 <= j < i ==> a@[j] == b@[j],
        decreases n - i,
    {
        if a.get_char(i) != b.get_char(i) {
            return false;
        }
        i = i + 1;
    }
    assert(a@ =~= b@);
    true
}

/// Whether a character is a decimal digit.
pub open spec fn is_digit(c: char) -> bool {
    '0' <= c && c <= '9'
}

/// What a digit counts for.
pub open spec fn digit_value(c: char) -> nat {
    (c as int - '0' as int) as nat
}

/// The number decimal digits spell.
pub open spec fn spelled(digits: Seq<char>) -> nat
    decreases digits.len(),
{
    if digits.len() == 0 {
        0
    } else {
        10 * spelled(digits.drop_last()) + digit_value(digits.last())
    }
}

/// The digits of a whole number, without the sign it may carry.
pub open spec fn unsigned(text: Seq<char>) -> Seq<char> {
    if text.len() > 0 && text[0] == '+' {
        text.drop_first()
    } else {
        text
    }
}

/// The whole number a text spells, if it is one: an optional `+`, then nothing but
/// digits, and not more than `limit`.
pub open spec fn whole_number(text: Seq<char>, limit: nat) -> Option<nat> {
    let digits = unsigned(text);
    if digits.len() > 0 && (forall|i: int| 0 <= i < digits.len() ==> is_digit(#[trigger] digits[i]))
        && spelled(digits) <= limit {
        Some(spelled(digits))
    } else {
        None
    }
}

proof fn lemma_spelled_grows(digits: Seq<char>, n: int)
    requires
        0 <= n <= digits.len(),
    ensures
        spelled(digits.subrange(0, n)) <= spelled(digits),
    decreases digits.len() - n,
{
    if n == digits.len() {
        assert(digits.subrange(0, n) =~= digits);
    } else {
        lemma_spelled_grows(digits, n + 1);
        let longer = digits.subrange(0, n + 1);
        assert(longer.drop_last() =~= digits.subrange(0, n));
    }
}

/// Reads a whole number not above `limit`.
pub fn read_whole(text: &str, limit: u64) -> (r: Option<u64>)
    ensures
        match whole_number(text@, limit as nat) {
            Some(value) => r == Some(value as u64),
            None => r is None,
        },
{
    let n: usize = text.unicode_len();
    let first: usize = if n > 0 && text.get_char(0) == '+' {
        1
    } else {
        0
    };
    let ghost digits = unsigned(text@);
    assert(digits =~= text@.subrange(first as int, n as int));
    if first == n {
        return None;
    }
    let mut value: u64 = 0;
    let mut i: usize = first;
    assert(digits.subrange(0, 0) =~= Seq::<char>::empty());
    while i < n
        invariant
            first <= i <= n,
            n == text@.len(),
            digits == text@.subrange(first as int, n as int),
            value == spelled(digits.subrange(0, i - first)),
            value <= limit,
            forall|j: int| 0 <= j < i - first ==> is_digit(#[trigger] digits[j]),
            digits == unsigned(text@),
            first < n,
        decreases n - i,
    {
        let c: char = text.get_char(i);
        assert(c == digits[i - first]);
        if !('0' <= c && c <= '9') {
            assert(!is_digit(digits[i - first]));
            return None;
        }
        let digit: u64 = (c as u32 - '0' as u32) as u64;
        proof {
            let longer = digits.subrange(0, i - first + 1);
            assert(longer.drop_last() =~= digits.subrange(0, i - first));
            assert(longer.last() == c);
            assert(spelled(longer) == 10 * value + digit);
            lemma_spelled_grows(digits, i - first + 1);
        }
        if digit > limit || value > (limit - digit) / 10 {
            return None;
        }
        value = 10 * value + digit;
        i = i + 1;
    }
    assert(digits.subrange(0, n - first) =~= digits);
    Some(value)
}

/// Whether a character separates a width from a height.
pub open spec fn is_cross(c: char) -> bool {
    c == 'x' || c == 'X'
}

/// Where a text is cut into a width and a height, if it can be: at the first `x`
/// of either case.
pub open spec fn cut(text: Seq<char>, from: int) -> Option<int>
    decreases text.len() - from,
{
    if from >= text.len() {
        None
    } else if is_cross(text[from]) {
        Some(from)
    } else {
        cut(text, from + 1)
    }
}

/// Finds where a text is cut into a width and a height.
pub fn find_cut(text: &str) -> (r: Option<usize>)
    ensures
        match cut(text@, 0) {
            Some(at) => r == Some(at as usize) && 0 <= at < text@.len(),
            None => r is None,
        },
{
    let n: usize = text.unicode_len();
    let mut i: usize = 0;
    while i < n
        invariant
            i <= n,
            n == text@.len(),
            cut(text@, i as int) == cut(text@, 0),
        decreases n - i,
    {
        let c: char = text.get_char(i);
        if c == 'x' || c == 'X' {
            return Some(i);
        }
        i = i + 1;
    }
    None
}

/// A decimal digit as text.
pub open spec fn digit_char(d: nat) -> char {
    (('0' as u32) + d) as char
}

/// A number in decimal, with zeros in front to make at least `width` digits.
pub open spec fn padded(n: nat, width: nat) -> Seq<char>
    decreases n, width,
{
    if n == 0 && width == 0 {
        Seq::empty()
    } else {
        padded(n / 10, if width == 0 { 0 } else { (width - 1) as nat }).push(digit_char(n % 10))
    }
}

fn digit_text(d: u32) -> (r: &'static str)
    requires
        d < 10,
    ensures
        r@ == seq![digit_char(d as nat)],
{
    proof {
        reveal_strlit("0");
        reveal_strlit("1");
        reveal_strlit("2");
        reveal_strlit("3");
        reveal_strlit("4");
        reveal_strlit("5");
        reveal_strlit("6");
        reveal_strlit("7");
        reveal_strlit("8");
        reveal_strlit("9");
    }
    let r = match d {
        0 => "0",
        1 => "1",
        2 => "2",
        3 => "3",
        4 => "4",
        5 => "5",
        6 => "6",
        7 => "7",
        8 => "8",
        _ => "9",
    };
    assert(r@ =~= seq![digit_char(d as nat)]);
    r
}

fn append_padded(out: &mut String, n: u32, width: u32)
    ensures
        final(out)@ == old(out)@ + padded(n as nat, width as nat),
    decreases n, width,
{
    if n == 0 && width == 0 {
        assert(out@ =~= old(out)@ + padded(0, 0));
        return;
    }
    append_padded(
        out,
        n / 10,
        if width == 0 {
            0
        } else {
            width - 1
        },
    );
    out.append(digit_text(n % 10));
    assert(out@ =~= old(out)@ + padded(n as nat, width as nat));
}

/// File name of a captured frame: its number, in at least four digits.
pub fn frame_name(frame: u32) -> (r: String)
    ensures
        r@ == "frame"@ + padded(frame as nat, 4) + ".png"@,
{
    let mut out: String = "frame".to_owned();
    append_padded(&mut out, frame, 4);
    out.append(".png");
    out
}

/// A number written down is read back: padded or not, its digits spell it.
pub proof fn written_numbers_read_back(n: nat, width: nat, limit: nat)
    requires
        n <= limit,
        n > 0 || width > 0,
    ensures
        whole_number(padded(n, width), limit) == Some(n),
        padded(n, width).len() >= width,
{
    lemma_padded_spells(n, width);
    let text = padded(n, width);
    assert(text.len() > 0);
    assert(is_digit(text[0]));
}

proof fn lemma_padded_spells(n: nat, width: nat)
    ensures
        spelled(padded(n, width)) == n,
        forall|i: int| 0 <= i < padded(n, width).len() ==> is_digit(#[trigger] padded(n, width)[i]),
        padded(n, width).len() >= width,
        n > 0 ==> padded(n, width).len() > 0,
    decreases n, width,
{
    if n > 0 || width > 0 {
        let shorter: nat = if width == 0 {
            0
        } else {
            (width - 1) as nat
        };
        lemma_padded_spells(n / 10, shorter);
        let text = padded(n, width);
        let front = padded(n / 10, shorter);
        let digit = digit_char(n % 10);
        assert(text == front.push(digit));
        assert(text.drop_last() =~= front);
        assert(is_digit(digit) && digit_value(digit) == n % 10);
        assert forall|i: int| 0 <= i < text.len() implies is_digit(#[trigger] text[i]) by {
            if i < front.len() {
                assert(text[i] == front[i]);
            }
        }
    }
}

} // verus!
