//! The human player's side of the game: what a line of input means.

use vstd::prelude::*;
use vstd::string::StrSliceExecFns;

verus! {

/// The player whose moves come from outside.
pub struct Human;

/// What a line that holds a number outside 1 to 7 is answered with.
pub open spec fn out_of_range() -> Seq<char> {
    "Please input a number from 1 to 7"@
}

/// What a line that holds no number is answered with.
pub open spec fn not_a_number() -> Seq<char> {
    "Please input a valid number bigger than 0"@
}

/// Whether `c` is white space: one of the characters with the Unicode property
/// `White_Space`.
pub open spec fn is_space(c: char) -> bool {
    let u = c as u32;
    ||| 0x09 <= u <= 0x0D
    ||| u == 0x20
    ||| u == 0x85
    ||| u == 0xA0
    ||| u == 0x1680
    ||| 0x2000 <= u <= 0x200A
    ||| u == 0x2028
    ||| u == 0x2029
    ||| u == 0x202F
    ||| u == 0x205F
    ||| u == 0x3000
}

/// The index of the first character of `s` at or behind `i` that is no white space;
/// the length of `s` when there is none.
pub open spec fn text_start(s: Seq<char>, i: int) -> int
    decreases s.len() - i,
{
    if i < 0 || i >= s.len() || !is_space(s[i]) {
        i
    } else {
        text_start(s, i + 1)
    }
}

/// One past the index of the last character of `s` before `j` that is no white
/// space; 0 when there is none.
pub open spec fn text_end(s: Seq<char>, j: int) -> int
    decreases j,
{
    if j <= 0 || j > s.len() || !is_space(s[j - 1]) {
        j
    } else {
        text_end(s, j - 1)
    }
}

/// `s` without the white space at its start and at its end.
pub open spec fn trimmed(s: Seq<char>) -> Seq<char> {
    let from = text_start(s, 0);
    let to = text_end(s, s.len() as int);
    if from < to {
        s.subrange(from, to)
    } else {
        Seq::empty()
    }
}

/// Whether `c` is one of the digits 0 to 9.
pub open spec fn is_digit(c: char) -> bool {
    '0' <= c <= '9'
}

/// The number that the decimal digits `s` write, leading zeros allowed; `None`
/// where some character of `s` is no digit. No digits write 0.
pub open spec fn digits_value(s: Seq<char>) -> Option<nat>
    decreases s.len(),
{
    if s.len() == 0 {
        Some(0)
    } else if !is_digit(s.last()) {
        None
    } else {
        match digits_value(s.drop_last()) {
            Some(v) => Some((10 * v + (s.last() as u32 - '0' as u32)) as nat),
            None => None,
        }
    }
}

/// The number that `s` writes: decimal digits, at least one, with or without a `+`
/// before them, and a value that a `usize` can hold; `None` for every other text.
pub open spec fn number(s: Seq<char>) -> Option<usize> {
    let digits = if s.len() > 0 && s[0] == '+' {
        s.drop_first()
    } else {
        s
    };
    if digits.len() == 0 {
        None
    } else {
        match digits_value(digits) {
            Some(v) => if v <= usize::MAX {
                Some(v as usize)
            } else {
                None
            },
            None => None,
        }
    }
}

/// The column that a number names: the numbers 1 to 7 name the columns 0 to 6.
pub open spec fn column_named(n: Option<usize>) -> Result<usize, Seq<char>> {
    match n {
        Some(x) => if 1 <= x <= 7 {
            Ok((x - 1) as usize)
        } else {
            Err(out_of_range())
        },
        None => Err(not_a_number()),
    }
}

/// What two results say alike: the same column, or a refusal in the same words.
pub open spec fn answers(r: Result<usize, &'static str>, meant: Result<usize, Seq<char>>) -> bool {
    match r {
        Ok(col) => meant == Ok::<usize, Seq<char>>(col),
        Err(words) => meant == Err::<usize, Seq<char>>(words@),
    }
}

/// Digits of which one is no digit write no number.
pub proof fn lemma_not_all_digits(s: Seq<char>, i: int)
    requires
        0 <= i < s.len(),
        !is_digit(s[i]),
    ensures
        digits_value(s) is None,
    decreases s.len(),
{
    if i < s.len() - 1 {
        assert(s.drop_last()[i] == s[i]);
        lemma_not_all_digits(s.drop_last(), i);
    }
}

/// Digits write a number no smaller than the number that their first `k` write.
pub proof fn lemma_more_digits(s: Seq<char>, k: int)
    requires
        0 <= k <= s.len(),
        digits_value(s) is Some,
    ensures
        digits_value(s.take(k)) is Some,
        digits_value(s.take(k))->0 <= digits_value(s)->0,
    decreases s.len() - k,
{
    if k == s.len() {
        assert(s.take(k) =~= s);
    } else {
        assert(s.drop_last().take(k) =~= s.take(k));
        lemma_more_digits(s.drop_last(), k);
    }
}

/// Whether `c` is white space.
fn space(c: char) -> (r: bool)
    ensures
        r == is_space(c),
{
    let u: u32 = c as u32;
    (0x09 <= u && u <= 0x0D) || u == 0x20 || u == 0x85 || u == 0xA0 || u == 0x1680 || (0x2000 <= u
        && u <= 0x200A) || u == 0x2028 || u == 0x2029 || u == 0x202F || u == 0x205F || u == 0x3000
}

impl Human {
    /// The number that the characters of `text` from index `from` up to index `to`
    /// write, where they are digits with or without a `+` before them.
    pub fn number_in(text: &str, from: usize, to: usize) -> (r: Option<usize>)
        requires
            from <= to <= text@.len(),
        ensures
            r == number(text@.subrange(from as int, to as int)),
    {
        let ghost whole = text@.subrange(from as int, to as int);
        let mut k: usize = from;
        if k < to && text.get_char(k) == '+' {
            k += 1;
        }
        let first: usize = k;
        let ghost digits = text@.subrange(first as int, to as int);
        proof {
            if first > from {
                assert(whole[0] == '+');
                assert(whole.drop_first() =~= digits);
            } else {
                if whole.len() > 0 {
                    assert(whole[0] != '+');
                }
                assert(whole =~= digits);
            }
        }
        if first == to {
            return None;
        }
        let mut value: usize = 0;
        assert(text@.subrange(first as int, k as int) =~= Seq::<char>::empty());
        while k < to
            invariant
                from <= first <= k <= to <= text@.len(),
                whole == text@.subrange(from as int, to as int),
                digits == text@.subrange(first as int, to as int),
                digits_value(text@.subrange(first as int, k as int)) == Some(value as nat),
                digits.len() > 0,
                number(whole) == (match digits_value(digits) {
                    Some(v) => if v <= usize::MAX {
                        Some(v as usize)
                    } else {
                        None
                    },
                    None => None,
                }),
            decreases to - k,
        {
            let c = text.get_char(k);
            if !('0' <= c && c <= '9') {
                proof {
                    assert(digits[k - first] == c);
                    lemma_not_all_digits(digits, k - first);
                }
                return None;
            }
            let d: usize = (c as u32 - '0' as u32) as usize;
            proof {
                let upto = text@.subrange(first as int, k + 1);
                assert(upto.drop_last() =~= text@.subrange(first as int, k as int));
                assert(upto.last() == c);
                assert(digits_value(upto) == Some((10 * value + d) as nat));
                assert(digits.take(k + 1 - first) =~= upto);
                if digits_value(digits) is Some {
                    lemma_more_digits(digits, k + 1 - first);
                }
            }
            if value > (usize::MAX - d) / 10 {
                assert(10 * value + d > usize::MAX);
                return None;
            }
            value = value * 10 + d;
            k += 1;
        }
        assert(text@.subrange(first as int, k as int) =~= digits);
        Some(value)
    }

    /// The column that a number names: the numbers 1 to 7 name the columns 0 to 6.
    /// Any other number, and no number, is refused in words to show the player.
    pub fn column_for(number: Option<usize>) -> (r: Result<usize, &'static str>)
        ensures
            answers(r, column_named(number)),
    {
        match number {
            Some(x) => {
                if 1 <= x && x <= 7 {
                    Ok(x - 1)
                } else {
                    Err("Please input a number from 1 to 7")
                }
            },
            None => Err("Please input a valid number bigger than 0"),
        }
    }

    /// The column that a line of input names. White space around the text is passed
    /// over; the text must write a number from 1 to 7.
    pub fn column_of(line: &str) -> (r: Result<usize, &'static str>)
        ensures
            answers(r, column_named(number(trimmed(line@)))),
    {
        let n = line.unicode_len();
        let mut from: usize = 0;
        while from < n && space(line.get_char(from))
            invariant
                from <= n == line@.len(),
                text_start(line@, 0) == text_start(line@, from as int),
            decreases n - from,
        {
            from += 1;
        }
        let mut to: usize = n;
        while to > 0 && space(line.get_char(to - 1))
            invariant
                to <= n == line@.len(),
                text_end(line@, n as int) == text_end(line@, to as int),
            decreases to,
        {
            to -= 1;
        }
        if from < to {
            Human::column_for(Human::number_in(line, from, to))
        } else {
            assert(number(Seq::<char>::empty()) is None);
            Human::column_for(None)
        }
    }
}

} // verus!
