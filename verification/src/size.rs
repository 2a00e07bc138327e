//! Byte sizes written as text: a decimal number, then nothing, `KB` or `MB`.

use vstd::prelude::*;

verus! {

/// Why a text is no byte size.
#[derive(Clone, Copy, Debug, PartialEq, Eq, Structural)]
pub enum SizeError {
    /// The text holds no digit, or its number does not fit in a `usize`.
    InvalidNumber,
    /// Something other than `KB` or `MB`, in either case, follows the number.
    InvalidSuffix,
}

impl SizeError {
    /// The words of the error.
    pub open spec fn text(self) -> Seq<char> {
        match self {
            SizeError::InvalidNumber => "Invalid number"@,
            SizeError::InvalidSuffix => "Invalid size suffix (use KB, MB)"@,
        }
    }

    /// The words of the error.
    pub fn message(&self) -> (words: String)
        ensures
            words@ == self.text(),
    {
        match self {
            SizeError::InvalidNumber => String::from_str("Invalid number"),
            SizeError::InvalidSuffix => String::from_str("Invalid size suffix (use KB, MB)"),
        }
    }
}

/// Whether `c` is one of `0` to `9`.
pub open spec fn is_digit(c: char) -> bool {
    '0' <= c <= '9'
}

/// The digits of `text`, in their order, without what stands between them.
pub open spec fn digits_of(text: Seq<char>) -> Seq<char> {
    text.filter(|c: char| is_digit(c))
}

/// The number that `digits` write in base ten.
pub open spec fn decimal_value(digits: Seq<char>) -> nat
    decreases digits.len(),
{
    if digits.len() == 0 {
        0
    } else {
        (10 * decimal_value(digits.drop_last()) + (digits.last() as u32 - '0' as u32)) as nat
    }
}

/// The factor that a unit stands for: 1 for none, 1024 for `KB`, 1024 * 1024
/// for `MB`, in capitals or small letters; `None` for anything else.
pub open spec fn unit_multiplier(unit: Seq<char>) -> Option<nat> {
    if unit.len() == 0 {
        Some(1)
    } else if unit.len() == 2 && (unit[1] == 'b' || unit[1] == 'B') {
        if unit[0] == 'k' || unit[0] == 'K' {
            Some(1024)
        } else if unit[0] == 'm' || unit[0] == 'M' {
            Some(1048576)
        } else {
            None
        }
    } else {
        None
    }
}

/// The byte size that `text` writes.
///
/// The number is made of all the digits of the text. A text without a digit,
/// or whose number exceeds `usize::MAX`, is refused as a number, whatever else
/// it holds. Then the digits must stand at the front and a known unit behind
/// them. A size that exceeds `usize::MAX` once the unit is applied is refused
/// as a number too.
pub open spec fn parsed_size(text: Seq<char>) -> Result<nat, SizeError> {
    let digits = digits_of(text);
    if digits.len() == 0 || decimal_value(digits) > usize::MAX {
        Err(SizeError::InvalidNumber)
    } else if text.take(digits.len() as int) != digits {
        Err(SizeError::InvalidSuffix)
    } else {
        match unit_multiplier(text.skip(digits.len() as int)) {
            None => Err(SizeError::InvalidSuffix),
            Some(factor) => if decimal_value(digits) * factor > usize::MAX {
                Err(SizeError::InvalidNumber)
            } else {
                Ok(decimal_value(digits) * factor)
            },
        }
    }
}

/// Appending a character appends it to the digits where it is one, and
/// leaves them as they are where it is none.
proof fn lemma_digits_of_push(text: Seq<char>, c: char)
    ensures
        digits_of(text.push(c)) == if is_digit(c) {
            digits_of(text).push(c)
        } else {
            digits_of(text)
        },
        digits_of(text).len() <= text.len(),
{
    reveal(Seq::filter);
    assert(text.push(c).drop_last() =~= text);
    text.lemma_filter_len(|c: char| is_digit(c));
}

/// A longer number is no smaller.
proof fn lemma_decimal_value_push(digits: Seq<char>, c: char)
    requires
        is_digit(c),
    ensures
        decimal_value(digits.push(c)) == 10 * decimal_value(digits) + (c as u32 - '0' as u32),
        decimal_value(digits.push(c)) >= decimal_value(digits),
{
    assert(digits.push(c).drop_last() =~= digits);
}

/// What the scan of a text knows of the part it has read.
struct Scanned {
    /// The number written by the digits, unless it has outgrown `usize`.
    value: Option<usize>,
    /// Whether a digit was read.
    any_digit: bool,
    /// Whether no digit was read behind another character.
    leading: bool,
    /// The number of characters behind the digits, or three for more.
    tail: u8,
    /// The first character behind the digits.
    first: char,
    /// The second character behind the digits.
    second: char,
}

impl Scanned {
    spec fn describes(self, text: Seq<char>) -> bool {
        let digits = digits_of(text);
        let rest = text.skip(digits.len() as int);
        &&& digits.len() <= text.len()
        &&& self.any_digit == (digits.len() > 0)
        &&& match self.value {
            Some(value) => value == decimal_value(digits),
            None => decimal_value(digits) > usize::MAX,
        }
        &&& self.leading == (text.take(digits.len() as int) == digits)
        &&& self.leading ==> {
            &&& self.tail <= 3
            &&& self.tail < 3 ==> rest.len() == self.tail
            &&& self.tail == 3 ==> rest.len() >= 3
            &&& self.tail >= 1 ==> rest[0] == self.first
            &&& self.tail >= 2 ==> rest[1] == self.second
        }
    }

    fn start() -> (state: Scanned)
        ensures
            state.describes(Seq::empty()),
    {
        proof {
            reveal(Seq::filter);
            assert(Seq::<char>::empty().take(0) =~= Seq::<char>::empty());
        }
        Scanned {
            value: Some(0),
            any_digit: false,
            leading: true,
            tail: 0,
            first: ' ',
            second: ' ',
        }
    }

    fn read(self, c: char, Ghost(text): Ghost<Seq<char>>) -> (state: Scanned)
        requires
            self.describes(text),
        ensures
            state.describes(text.push(c)),
    {
        let ghost digits = digits_of(text);
        let ghost longer = text.push(c);
        proof {
            lemma_digits_of_push(text, c);
        }
        if '0' <= c && c <= '9' {
            proof {
                lemma_decimal_value_push(digits, c);
                let grown = digits.push(c);
                if self.leading && self.tail == 0 {
                    assert(text =~= digits);
                    assert(longer.take(grown.len() as int) =~= grown);
                    assert(longer.skip(grown.len() as int).len() == 0);
                } else if self.leading {
                    let behind = digits.len() as int;
                    assert(longer.take(grown.len() as int)[behind] == text[behind]);
                    assert(!is_digit(text.skip(behind)[0])) by {
                        lemma_rest_holds_no_digit(text);
                    }
                } else {
                    if longer.take(grown.len() as int) == grown {
                        assert(text.take(digits.len() as int) =~= longer.take(
                            grown.len() as int,
                        ).take(digits.len() as int));
                        assert(grown.take(digits.len() as int) =~= digits);
                    }
                }
            }
            let digit = (c as u32 - '0' as u32) as usize;
            let value = match self.value {
                Some(value) => match value.checked_mul(10) {
                    Some(tens) => tens.checked_add(digit),
                    None => None,
                },
                None => None,
            };
            Scanned {
                value,
                any_digit: true,
                leading: self.leading && self.tail == 0,
                tail: self.tail,
                first: self.first,
                second: self.second,
            }
        } else {
            proof {
                let behind = digits.len() as int;
                assert(longer.take(behind) =~= text.take(behind));
                assert(longer.skip(behind) =~= text.skip(behind).push(c));
            }
            Scanned {
                value: self.value,
                any_digit: self.any_digit,
                leading: self.leading,
                tail: if self.tail < 3 {
                    self.tail + 1
                } else {
                    3
                },
                first: if self.tail == 0 {
                    c
                } else {
                    self.first
                },
                second: if self.tail == 1 {
                    c
                } else {
                    self.second
                },
            }
        }
    }
}

/// Where the digits of a text stand at its front, nothing behind them is a
/// digit.
proof fn lemma_rest_holds_no_digit(text: Seq<char>)
    requires
        text.take(digits_of(text).len() as int) == digits_of(text),
        digits_of(text).len() <= text.len(),
    ensures
        forall|i: int|
            digits_of(text).len() <= i < text.len() ==> !is_digit(#[trigger] text[i]),
{
    let digits = digits_of(text);
    let front = text.take(digits.len() as int);
    let rest = text.skip(digits.len() as int);
    assert(text =~= front + rest);
    Seq::filter_distributes_over_add(front, rest, |c: char| is_digit(c));
    assert(digits_of(rest).len() == 0) by {
        assert forall|i: int| 0 <= i < front.len() implies is_digit(#[trigger] front[i]) by {
            text.lemma_filter_pred(|c: char| is_digit(c), i);
        }
        lemma_all_digits_kept(front);
    }
    assert forall|i: int| digits.len() <= i < text.len() implies !is_digit(
        #[trigger] text[i],
    ) by {
        if is_digit(text[i]) {
            rest.lemma_filter_contains(|c: char| is_digit(c), i - digits.len());
        }
    }
}

/// The digits of a text of digits are the text.
proof fn lemma_all_digits_kept(text: Seq<char>)
    requires
        forall|i: int| 0 <= i < text.len() ==> is_digit(#[trigger] text[i]),
    ensures
        digits_of(text) == text,
    decreases text.len(),
{
    reveal(Seq::filter);
    if text.len() > 0 {
        lemma_all_digits_kept(text.drop_last());
        assert(text.drop_last().push(text.last()) =~= text);
    }
}

/// Reads a byte size: a decimal number, then nothing, `KB` or `MB` in
/// capitals or small letters. `64KB` is 65536.
///
/// The result is the size that `parsed_size` gives, or the words of the error
/// that it gives.
pub fn parse_bytes(src: &str) -> (r: Result<usize, String>)
    ensures
        match parsed_size(src@) {
            Ok(size) => r == Ok::<usize, String>(size as usize),
            Err(e) => r matches Err(words) && words@ == e.text(),
        },
{
    let mut state = Scanned::start();
    assert(src@.take(0) =~= Seq::<char>::empty());
    for c in it: src.chars()
        invariant
            it.seq() == src@,
            state.describes(src@.take(it.index() as int)),
    {
        proof {
            assert(src@.take(it.index() + 1) =~= src@.take(it.index() as int).push(c));
        }
        state = state.read(c, Ghost(src@.take(it.index() as int)));
    }
    assert(src@.take(src@.len() as int) =~= src@);
    let value = match state.value {
        Some(value) => value,
        None => {
            return Err(SizeError::InvalidNumber.message());
        },
    };
    if !state.any_digit {
        return Err(SizeError::InvalidNumber.message());
    }
    if !state.leading {
        return Err(SizeError::InvalidSuffix.message());
    }
    let factor: usize = if state.tail == 0 {
        1
    } else if state.tail == 2 && (state.second == 'b' || state.second == 'B') {
        if state.first == 'k' || state.first == 'K' {
            1024
        } else if state.first == 'm' || state.first == 'M' {
            1048576
        } else {
            return Err(SizeError::InvalidSuffix.message());
        }
    } else {
        return Err(SizeError::InvalidSuffix.message());
    };
    match value.checked_mul(factor) {
        Some(size) => Ok(size),
        None => Err(SizeError::InvalidNumber.message()),
    }
}

} // verus!
