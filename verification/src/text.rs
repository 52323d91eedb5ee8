//! Texts: what the messages of the program are made of.
use vstd::prelude::*;
use vstd::utf8;

use crate::order;
use crate::order::{Ordered, Rank};

verus! {

/// Characters are ordered as numbers.
pub open spec fn char_order() -> spec_fn(char, char) -> bool {
    |x: char, y: char| (x as int) < (y as int)
}

pub(crate) fn scalar_value(c: char) -> (n: u32)
    ensures
        n as int == c as int,
{
    c as u32
}

proof fn chars_are_ordered()
    ensures
        order::strict_total(char_order()),
{
    let by_char = char_order();
    assert forall|x: char, y: char| #[trigger] by_char(x, y) || x == y || by_char(y, x) by {
        if !by_char(x, y) && !by_char(y, x) {
            assert(x as int == y as int);
            assert(x == y);
        }
    }
}

/// Texts are ordered character by character.
impl Ordered for String {
    type Key = Seq<char>;

    open spec fn key(v: Seq<char>) -> Seq<char> {
        v
    }

    open spec fn before(a: Seq<char>, b: Seq<char>) -> bool {
        order::lex_before(char_order(), a, b)
    }

    proof fn before_is_irreflexive(a: Seq<char>) {
        chars_are_ordered();
        order::lex_irreflexive(char_order(), a);
    }

    proof fn before_is_transitive(a: Seq<char>, b: Seq<char>, c: Seq<char>) {
        chars_are_ordered();
        order::lex_transitive(char_order(), a, b, c);
    }

    proof fn before_is_total(a: Seq<char>, b: Seq<char>) {
        chars_are_ordered();
        order::lex_total(char_order(), a, b);
    }

    fn compare(&self, other: &String) -> (rank: Rank) {
        let a = to_chars(self.as_str());
        let b = to_chars(other.as_str());
        let mut i: usize = 0;
        while i < a.len() && i < b.len()
            invariant
                i <= a@.len(),
                i <= b@.len(),
                a@ == self@,
                b@ == other@,
                forall|j: int| 0 <= j < i ==> a@[j] == b@[j],
            decreases a@.len() - i,
        {
            let x: u32 = scalar_value(a[i]);
            let y: u32 = scalar_value(b[i]);
            if x < y {
                assert(order::parts_at(char_order(), a@, b@, i as int));
                return Rank::Less;
            }
            if y < x {
                assert(order::parts_at(char_order(), b@, a@, i as int));
                return Rank::Greater;
            }
            i = i + 1;
        }
        if i < b.len() {
            assert(order::parts_at(char_order(), a@, b@, i as int));
            Rank::Less
        } else if i < a.len() {
            assert(order::parts_at(char_order(), b@, a@, i as int));
            Rank::Greater
        } else {
            assert(a@ =~= b@);
            Rank::Equal
        }
    }
}

/// `String::push` of std: the character is appended.
pub assume_specification[ std::string::String::push ](s: &mut std::string::String, c: char)
    ensures
        final(s)@ == old(s)@.push(c),
;

/// What `String::from_utf8_lossy` of std makes of any bytes.
pub uninterp spec fn lossy_text(bytes: Seq<u8>) -> Seq<char>;

/// `String::from_utf8` of std: the text that the bytes encode, if they are UTF-8.
#[verifier::external_body]
pub(crate) fn decode(bytes: Vec<u8>) -> (text: Option<String>)
    ensures
        text is Some <==> utf8::valid_utf8(bytes@),
        text matches Some(t) ==> t@ == utf8::decode_utf8(bytes@),
{
    String::from_utf8(bytes).ok()
}

/// `String::from_utf8_lossy` of std: the text that the bytes encode; where they are not UTF-8,
/// no more is said than that it depends on the bytes alone.
#[verifier::external_body]
pub(crate) fn decode_lossy(bytes: &Vec<u8>) -> (text: String)
    ensures
        text@ == lossy_text(bytes@),
        utf8::valid_utf8(bytes@) ==> text@ == utf8::decode_utf8(bytes@),
{
    String::from_utf8_lossy(bytes).into_owned()
}

/// The characters of a text.
pub fn to_chars(text: &str) -> (chars: Vec<char>)
    ensures
        chars@ == text@,
{
    let mut chars: Vec<char> = Vec::new();
    for c in iter: text.chars()
        invariant
            iter.seq() == text@,
            chars@ == text@.take(iter.index() as int),
    {
        chars.push(c);
    }
    assert(chars@ =~= text@);
    chars
}

/// The text made of some of these characters.
pub fn from_chars(chars: &Vec<char>, from: usize, to: usize) -> (text: String)
    requires
        from <= to <= chars@.len(),
    ensures
        text@ == chars@.subrange(from as int, to as int),
{
    let mut text = String::new();
    let mut i: usize = from;
    while i < to
        invariant
            from <= i <= to <= chars@.len(),
            text@ == chars@.subrange(from as int, i as int),
        decreases to - i,
    {
        text.push(chars[i]);
        i = i + 1;
    }
    text
}

/// A word for this many things: unchanged for one, else in the plural.
pub open spec fn pluralized(word: Seq<char>, count: nat) -> Seq<char> {
    if count == 1 {
        word
    } else if word.len() > 1 && word.last() == 'y' {
        word.drop_last() + "ies"@
    } else {
        word.push('s')
    }
}

/// The plural of `word`, unless there is just one.
pub fn plural(word: &str, count: usize) -> (res: String)
    ensures
        res@ == pluralized(word@, count as nat),
{
    if count == 1 {
        return word.to_owned();
    }
    let chars = to_chars(word);
    let n: usize = chars.len();
    if n > 1 && chars[n - 1] == 'y' {
        let mut res = from_chars(&chars, 0, n - 1);
        assert(res@ =~= word@.drop_last());
        res.append("ies");
        res
    } else {
        let mut res = word.to_owned();
        res.push('s');
        res
    }
}

/// The character of a decimal digit.
pub open spec fn digit(d: nat) -> char {
    (48 + d) as char
}

/// A number in decimal digits, without leading zeros.
pub open spec fn decimal(n: nat) -> Seq<char>
    decreases n,
{
    if n < 10 {
        seq![digit(n)]
    } else {
        decimal(n / 10).push(digit(n % 10))
    }
}

/// A number in decimal digits, with a sign if it is negative.
pub open spec fn signed_decimal(n: int) -> Seq<char> {
    if n < 0 {
        seq!['-'] + decimal((-n) as nat)
    } else {
        decimal(n as nat)
    }
}

fn digit_char(d: u8) -> (c: char)
    requires
        d < 10,
    ensures
        c == digit(d as nat),
{
    (48 + d) as char
}

/// The number in decimal digits.
pub fn number(n: u64) -> (res: String)
    ensures
        res@ == decimal(n as nat),
    decreases n,
{
    let last: u8 = (n % 10) as u8;
    let mut res = if n < 10 {
        String::new()
    } else {
        number(n / 10)
    };
    res.push(digit_char(last));
    assert(n < 10 ==> res@ =~= seq![digit(n as nat)]);
    res
}

/// The number in decimal digits, with its sign.
pub fn signed_number(n: i32) -> (res: String)
    ensures
        res@ == signed_decimal(n as int),
{
    if n < 0 {
        let mut res = String::new();
        res.push('-');
        let magnitude: u64 = (-(n as i64)) as u64;
        res.append(number(magnitude).as_str());
        assert(res@ =~= seq!['-'] + decimal(magnitude as nat));
        res
    } else {
        number(n as u64)
    }
}

/// `part` occurs in `text`.
pub open spec fn occurs(text: Seq<char>, part: Seq<char>) -> bool {
    exists|i: int|
        0 <= i <= text.len() - part.len() && #[trigger] text.subrange(i, i + part.len()) == part
}

/// Whether `part` occurs in `text`.
pub fn contains(text: &str, part: &str) -> (found: bool)
    ensures
        found == occurs(text@, part@),
{
    let all = to_chars(text);
    let wanted = to_chars(part);
    if all.len() < wanted.len() {
        return false;
    }
    let n: usize = all.len();
    let last: usize = n - wanted.len();
    let mut i: usize = 0;
    loop
        invariant
            all@ == text@,
            wanted@ == part@,
            n == all@.len(),
            last == all@.len() - wanted@.len(),
            i <= last,
            forall|k: int| 0 <= k < i ==> #[trigger] text@.subrange(k, k + part@.len()) != part@,
        decreases last - i,
    {
        let mut j: usize = 0;
        let mut same = true;
        while j < wanted.len() && same
            invariant
                all@ == text@,
                wanted@ == part@,
                n == all@.len(),
                i + wanted@.len() <= n,
                j <= wanted@.len(),
                same ==> forall|k: int| 0 <= k < j ==> all@[i + k] == wanted@[k],
                !same ==> exists|k: int| 0 <= k < wanted@.len() && all@[i + k] != wanted@[k],
            decreases wanted@.len() - j + (if same { 1int } else { 0int }),
        {
            if all[i + j] != wanted[j] {
                same = false;
            } else {
                j = j + 1;
            }
        }
        let ghost here = text@.subrange(i as int, i + part@.len());
        if same {
            assert(here =~= part@);
            return true;
        }
        proof {
            let k = choose|k: int| 0 <= k < wanted@.len() && all@[i + k] != wanted@[k];
            assert(here[k] != part@[k]);
        }
        if i == last {
            return false;
        }
        i = i + 1;
    }
}

/// The characters with the property White_Space of Unicode.
pub open spec fn is_white_space(c: char) -> bool {
    let u = c as u32;
    ||| 0x9 <= u <= 0xd
    ||| u == 0x20
    ||| u == 0x85
    ||| u == 0xa0
    ||| u == 0x1680
    ||| 0x2000 <= u <= 0x200a
    ||| u == 0x2028
    ||| u == 0x2029
    ||| u == 0x202f
    ||| u == 0x205f
    ||| u == 0x3000
}

/// The text without the white space that it starts with.
pub open spec fn trimmed_start(text: Seq<char>) -> Seq<char>
    decreases text.len(),
{
    if text.len() > 0 && is_white_space(text[0]) {
        trimmed_start(text.drop_first())
    } else {
        text
    }
}

/// The text without the white space that it ends with.
pub open spec fn trimmed_end(text: Seq<char>) -> Seq<char>
    decreases text.len(),
{
    if text.len() > 0 && is_white_space(text.last()) {
        trimmed_end(text.drop_last())
    } else {
        text
    }
}

/// The text without the white space around it.
pub open spec fn trimmed(text: Seq<char>) -> Seq<char> {
    trimmed_end(trimmed_start(text))
}

fn white_space(c: char) -> (res: bool)
    ensures
        res == is_white_space(c),
{
    let u: u32 = c as u32;
    (0x9 <= u && u <= 0xd) || u == 0x20 || u == 0x85 || u == 0xa0 || u == 0x1680 || (0x2000 <= u
        && u <= 0x200a) || u == 0x2028 || u == 0x2029 || u == 0x202f || u == 0x205f || u == 0x3000
}

/// The text without the white space around it.
pub fn trim(text: &str) -> (res: String)
    ensures
        res@ == trimmed(text@),
{
    let chars = to_chars(text);
    let n: usize = chars.len();
    let mut from: usize = 0;
    assert(text@.skip(0) =~= text@);
    while from < n && white_space(chars[from])
        invariant
            chars@ == text@,
            n == chars@.len(),
            from <= n,
            trimmed_start(text@) == trimmed_start(text@.skip(from as int)),
        decreases n - from,
    {
        assert(text@.skip(from as int).drop_first() =~= text@.skip(from + 1));
        from = from + 1;
    }
    let ghost start = text@.skip(from as int);
    assert(trimmed_start(text@) == start);
    let mut to: usize = n;
    assert(start.take(to - from) =~= start);
    while to > from && white_space(chars[to - 1])
        invariant
            chars@ == text@,
            n == chars@.len(),
            from <= to <= n,
            start == text@.skip(from as int),
            trimmed_end(start) == trimmed_end(start.take(to - from)),
        decreases to,
    {
        assert(start.take(to - from).drop_last() =~= start.take(to - from - 1));
        to = to - 1;
    }
    assert(start.take(to - from) =~= text@.subrange(from as int, to as int));
    from_chars(&chars, from, to)
}

} // verus!
