//! Building text.

use vstd::prelude::*;

verus! {

/// `String::push` puts the character at the end of the string.
pub assume_specification[ String::push ](s: &mut String, c: char)
    ensures
        final(s)@ == old(s)@.push(c),
;

/// A copy of a row of bytes.
pub fn bytes_of(data: &[u8]) -> (copy: Vec<u8>)
    ensures
        copy@ == data@,
{
    let mut copy: Vec<u8> = Vec::new();
    copy.extend_from_slice(data);
    assert(copy@ =~= data@);
    copy
}

/// The characters of a text.
pub fn chars_of(text: &str) -> (chars: Vec<char>)
    ensures
        chars@ == text@,
{
    let mut chars: Vec<char> = Vec::new();
    for c in it: text.chars()
        invariant
            chars@ == it.seq().take(it.index() as int),
            it.seq() == text@,
    {
        chars.push(c);
        assert(it.seq().take(it.index() + 1) =~= it.seq().take(it.index() as int).push(c));
    }
    assert(text@.take(text@.len() as int) =~= text@);
    chars
}

/// The text of a row of characters.
pub fn text_of(chars: &[char]) -> (text: String)
    ensures
        text@ == chars@,
{
    let mut text = String::new();
    let mut i: usize = 0;
    while i < chars.len()
        invariant
            i <= chars.len(),
            text@ == chars@.take(i as int),
        decreases chars.len() - i,
    {
        assert(chars@.take(i + 1) =~= chars@.take(i as int).push(chars@[i as int]));
        text.push(chars[i]);
        i = i + 1;
    }
    assert(chars@.take(i as int) =~= chars@);
    text
}

/// A text that may be missing, as a value.
pub open spec fn optional(text: Option<String>) -> Option<Seq<char>> {
    match text {
        Some(text) => Some(text@),
        None => None,
    }
}

/// Whether two texts are the same.
pub fn same_text(a: &str, b: &str) -> (same: bool)
    ensures
        same == (a@ == b@),
{
    a.to_owned() == b.to_owned()
}

/// Whether a character is white space, as Unicode has it.
pub open spec fn is_space(c: char) -> bool {
    let n = c as u32;
    ||| 0x9 <= n <= 0xD
    ||| n == 0x20
    ||| n == 0x85
    ||| n == 0xA0
    ||| n == 0x1680
    ||| 0x2000 <= n <= 0x200A
    ||| n == 0x2028
    ||| n == 0x2029
    ||| n == 0x202F
    ||| n == 0x205F
    ||| n == 0x3000
}

/// The words of a text: the longest runs of characters that are not white
/// space.
pub open spec fn words(text: Seq<char>) -> Seq<Seq<char>>
    decreases text.len(),
{
    if text.len() == 0 {
        seq![]
    } else {
        let before = text.drop_last();
        let c = text.last();
        if is_space(c) {
            words(before)
        } else if before.len() == 0 || is_space(before.last()) {
            words(before).push(seq![c])
        } else {
            let found = words(before);
            found.drop_last().push(found.last().push(c))
        }
    }
}

/// Whether a character is white space.
pub fn whitespace(c: char) -> (yes: bool)
    ensures
        yes == is_space(c),
{
    let n: u32 = c as u32;
    (0x9 <= n && n <= 0xD) || n == 0x20 || n == 0x85 || n == 0xA0 || n == 0x1680 || (0x2000 <= n
        && n <= 0x200A) || n == 0x2028 || n == 0x2029 || n == 0x202F || n == 0x205F || n == 0x3000
}

/// Words, as values.
pub open spec fn words_view(found: Seq<Vec<char>>) -> Seq<Seq<char>> {
    found.map_values(|word: Vec<char>| word@)
}

/// The words of a text.
pub fn split_words(text: &str) -> (found: Vec<Vec<char>>)
    ensures
        words_view(found@) == words(text@),
{
    let chars = chars_of(text);
    let mut found: Vec<Vec<char>> = Vec::new();
    let mut i: usize = 0;
    let mut in_word: bool = false;
    proof {
        assert(chars@.take(0) =~= seq![]);
        assert(words_view(found@) =~= seq![]);
    }
    while i < chars.len()
        invariant
            i <= chars.len(),
            words_view(found@) == words(chars@.take(i as int)),
            in_word == (i > 0 && !is_space(chars@[i - 1])),
            in_word ==> found@.len() > 0,
        decreases chars.len() - i,
    {
        let ghost before = found@;
        let c: char = chars[i];
        proof {
            assert(chars@.take(i + 1).drop_last() =~= chars@.take(i as int));
            assert(chars@.take(i + 1).last() == c);
        }
        if whitespace(c) {
            in_word = false;
        } else if in_word {
            let mut word: Vec<char> = found.pop().unwrap();
            word.push(c);
            found.push(word);
            assert(words_view(found@) =~= words_view(before).drop_last().push(
                words_view(before).last().push(c),
            ));
        } else {
            let word: Vec<char> = vec![c];
            assert(word@ =~= seq![c]);
            found.push(word);
            in_word = true;
            assert(words_view(found@) =~= words_view(before).push(seq![c]));
        }
        i = i + 1;
    }
    assert(chars@.take(i as int) =~= chars@);
    found
}

/// The character for a decimal digit.
pub open spec fn digit(value: nat) -> char {
    (48 + value) as char
}

/// A number in decimal, without leading zeros.
pub open spec fn decimal(n: nat) -> Seq<char>
    decreases n,
{
    if n < 10 {
        seq![digit(n)]
    } else {
        decimal(n / 10).push(digit(n % 10))
    }
}

/// Puts a number in decimal at the end of `out`.
pub fn push_decimal(out: &mut String, n: u64)
    ensures
        final(out)@ == old(out)@ + decimal(n as nat),
    decreases n,
{
    if n >= 10 {
        push_decimal(out, n / 10);
    }
    let value: u8 = (n % 10) as u8;
    out.push((48 + value) as char);
}

/// A number in decimal.
pub fn decimal_text(n: u64) -> (text: String)
    ensures
        text@ == decimal(n as nat),
{
    let mut text = String::new();
    push_decimal(&mut text, n);
    text
}

/// The white space characters, one by one.
pub open spec fn spaces() -> Seq<char> {
    seq![
        '\t',
        '\n',
        '\u{b}',
        '\u{c}',
        '\r',
        ' ',
        '\u{85}',
        '\u{a0}',
        '\u{1680}',
        '\u{2000}',
        '\u{2001}',
        '\u{2002}',
        '\u{2003}',
        '\u{2004}',
        '\u{2005}',
        '\u{2006}',
        '\u{2007}',
        '\u{2008}',
        '\u{2009}',
        '\u{200a}',
        '\u{2028}',
        '\u{2029}',
        '\u{202f}',
        '\u{205f}',
        '\u{3000}',
    ]
}

/// A character is white space exactly if it is one of those listed.
pub proof fn lemma_spaces(c: char)
    ensures
        is_space(c) <==> spaces().contains(c),
{
    if is_space(c) {
        let n = c as u32;
        let place: int = if n <= 0xD {
            n - 9
        } else if n == 0x20 {
            5
        } else if n == 0x85 {
            6
        } else if n == 0xA0 {
            7
        } else if n == 0x1680 {
            8
        } else if n <= 0x200A {
            n - 0x2000 + 9
        } else if n == 0x2028 {
            20
        } else if n == 0x2029 {
            21
        } else if n == 0x202F {
            22
        } else if n == 0x205F {
            23
        } else {
            24
        };
        assert(spaces()[place] == c);
    }
}

proof fn lemma_last_word(text: Seq<char>)
    requires
        text.len() > 0,
        !is_space(text.last()),
    ensures
        words(text).len() > 0,
    decreases text.len(),
{
}

/// White space parts words: the words of a text are those before it and those
/// after it.
pub proof fn lemma_space_parts_words(before: Seq<char>, space: char, after: Seq<char>)
    requires
        is_space(space),
    ensures
        words(before.push(space) + after) == words(before) + words(after),
    decreases after.len(),
{
    let text = before.push(space) + after;
    if after.len() == 0 {
        assert(text.drop_last() =~= before);
        assert(words(before) + words(after) =~= words(before));
    } else {
        let rest = after.drop_last();
        assert(text.drop_last() =~= before.push(space) + rest);
        lemma_space_parts_words(before, space, rest);
        let c = after.last();
        if is_space(c) {
        } else if rest.len() == 0 {
            assert(text.drop_last().last() == space);
            assert(words(rest) =~= seq![]);
            assert(words(text) =~= words(before) + words(after));
        } else if is_space(rest.last()) {
            assert(text.drop_last().last() == rest.last());
            assert(words(text) =~= words(before) + words(after));
        } else {
            assert(text.drop_last().last() == rest.last());
            lemma_last_word(rest);
            assert(words(text) =~= words(before) + words(after));
        }
    }
}

/// A text without white space is one word, unless it is empty: then it has
/// none.
pub proof fn lemma_one_word(text: Seq<char>)
    requires
        forall|i: int| 0 <= i < text.len() ==> !is_space(#[trigger] text[i]),
    ensures
        words(text) == if text.len() == 0 {
            seq![]
        } else {
            seq![text]
        },
    decreases text.len(),
{
    if text.len() > 0 {
        let before = text.drop_last();
        assert forall|i: int| 0 <= i < before.len() implies !is_space(#[trigger] before[i]) by {
            assert(before[i] == text[i]);
        }
        lemma_one_word(before);
        assert(before.push(text.last()) =~= text);
        if before.len() > 0 {
            assert(!is_space(before.last()));
            assert(seq![before].drop_last() =~= seq![]);
            assert(words(text) =~= seq![text]);
        } else {
            assert(seq![text.last()] =~= text);
            assert(words(text) =~= seq![text]);
        }
    }
}

/// What a row of decimal digits stands for: each digit times the power of ten
/// of its place.
pub open spec fn place_value(digits: Seq<char>) -> int
    decreases digits.len(),
{
    if digits.len() == 0 {
        0
    } else {
        (digits[0] as u32 - '0' as u32) * vstd::arithmetic::power::pow(
            10,
            (digits.len() - 1) as nat,
        ) + place_value(digits.drop_first())
    }
}

/// A digit put behind others makes what they stand for ten times as much, and adds
/// itself.
pub proof fn lemma_place_value_push(digits: Seq<char>, c: char)
    ensures
        place_value(digits.push(c)) == 10 * place_value(digits) + (c as u32 - '0' as u32),
    decreases digits.len(),
{
    let all = digits.push(c);
    if digits.len() == 0 {
        assert(all.drop_first() =~= seq![]);
        vstd::arithmetic::power::lemma_pow0(10);
        assert(place_value(seq![]) == 0);
        assert(place_value(all) == (c as u32 - '0' as u32) * 1);
    } else {
        assert(all.drop_first() =~= digits.drop_first().push(c));
        lemma_place_value_push(digits.drop_first(), c);
        let first = digits[0] as u32 - '0' as u32;
        let low = vstd::arithmetic::power::pow(10, (digits.len() - 1) as nat);
        let high = vstd::arithmetic::power::pow(10, digits.len());
        assert(high == 10 * low) by {
            reveal_with_fuel(vstd::arithmetic::power::pow, 2);
        }
        assert(first * high == 10 * (first * low)) by (nonlinear_arith)
            requires
                high == 10 * low,
        ;
    }
}

/// A number in decimal is a row of digits that stands for the number, and it
/// starts with a zero only where it is the one digit of nought.
pub proof fn lemma_decimal_stands_for_the_number(n: nat)
    ensures
        decimal(n).len() > 0,
        forall|i: int| 0 <= i < decimal(n).len() ==> '0' <= #[trigger] decimal(n)[i] <= '9',
        place_value(decimal(n)) == n,
        decimal(n)[0] == '0' ==> n == 0 && decimal(n).len() == 1,
    decreases n,
{
    assert(place_value(seq![]) == 0);
    if n < 10 {
        lemma_place_value_push(seq![], digit(n));
        assert(Seq::<char>::empty().push(digit(n)) =~= decimal(n));
    } else {
        lemma_decimal_stands_for_the_number(n / 10);
        lemma_place_value_push(decimal(n / 10), digit(n % 10));
    }
}

} // verus!
