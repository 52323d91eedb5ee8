//! Laws of texts.
use vstd::prelude::*;

use crate::text;

verus! {

/// A part occurs in a text if and only if the text is made of something, the part, and something.
pub proof fn part_occurs(text: Seq<char>, part: Seq<char>)
    ensures
        text::occurs(text, part) <==> exists|a: Seq<char>, b: Seq<char>|
            text == #[trigger] (a + part + b),
        forall|a: Seq<char>, b: Seq<char>| text::occurs(#[trigger] (a + part + b), part),
{
    assert forall|a: Seq<char>, b: Seq<char>| text::occurs(#[trigger] (a + part + b), part) by {
        let whole = a + part + b;
        let i = a.len() as int;
        assert(whole.subrange(i, i + part.len()) =~= part);
    }
    if text::occurs(text, part) {
        let i = choose|i: int|
            0 <= i <= text.len() - part.len() && #[trigger] text.subrange(i, i + part.len())
                == part;
        let a = text.take(i);
        let b = text.skip(i + part.len());
        assert(text =~= a + text.subrange(i, i + part.len()) + b);
        assert(text == a + part + b);
    }
}

/// The number that some decimal digits write.
pub open spec fn digits_value(text: Seq<char>) -> int
    decreases text.len(),
{
    if text.len() == 0 {
        0
    } else {
        digits_value(text.drop_last()) * 10 + (text.last() as int - '0' as int)
    }
}

/// A number is written in digits that write it, the first of which is no zero but in `0` itself.
pub proof fn decimal_writes_the_number(n: nat)
    ensures
        digits_value(text::decimal(n)) == n,
        text::decimal(n).len() > 0,
        forall|i: int| 0 <= i < text::decimal(n).len() ==> '0' <= #[trigger] text::decimal(n)[i] <= '9',
        n > 0 ==> text::decimal(n)[0] != '0',
        n == 0 ==> text::decimal(n) == seq!['0'],
    decreases n,
{
    if n >= 10 {
        let init = text::decimal(n / 10);
        decimal_writes_the_number(n / 10);
        assert(text::decimal(n) == init.push(text::digit(n % 10)));
        assert(text::decimal(n).drop_last() =~= init);
    } else {
        assert(text::decimal(n) == seq![text::digit(n)]);
        assert(text::decimal(n).drop_last() =~= Seq::<char>::empty());
        reveal_with_fuel(digits_value, 2);
    }
}

/// A negative number has a sign before its digits.
pub proof fn signed_decimal_writes_the_number(n: nat)
    ensures
        digits_value(text::signed_decimal(n as int)) == n,
        n > 0 ==> text::signed_decimal(-(n as int)) == seq!['-'] + text::decimal(n),
{
    decimal_writes_the_number(n);
}

/// One thing keeps its name; the name of several ends in `s`, and in `ies` where it ended in `y`
/// behind something else.
pub proof fn plural_of_a_word(stem: Seq<char>, c: char, n: nat)
    requires
        n != 1,
    ensures
        text::pluralized(stem.push(c), 1) == stem.push(c),
        stem.len() > 0 ==> text::pluralized(stem.push('y'), n) == stem + seq!['i', 'e', 's'],
        c != 'y' ==> text::pluralized(stem.push(c), n) == stem + seq![c, 's'],
{
    reveal_strlit("ies");
    assert("ies"@ =~= seq!['i', 'e', 's']);
    assert(stem.push('y').drop_last() =~= stem);
    assert(stem.push(c).push('s') =~= stem + seq![c, 's']);
}

/// Only spaces, tabs and ends of lines.
pub open spec fn is_blank(text: Seq<char>) -> bool {
    forall|i: int|
        0 <= i < text.len() ==> #[trigger] text[i] == ' ' || text[i] == '\t' || text[i] == '\n'
            || text[i] == '\r'
}

/// The text begins and ends with characters that can be seen.
pub open spec fn has_visible_ends(text: Seq<char>) -> bool {
    text.len() > 0 && '!' <= text[0] <= '~' && '!' <= text.last() <= '~'
}

/// The blanks around a text are left out, and nothing else is; nothing is left of blanks alone.
pub proof fn blanks_are_trimmed(a: Seq<char>, text: Seq<char>, b: Seq<char>)
    requires
        is_blank(a),
        is_blank(b),
        has_visible_ends(text) || text.len() == 0,
    ensures
        text::trimmed(a + text + b) == text,
{
    if text.len() > 0 {
        blanks_at_the_start(a, text + b);
        assert(a + text + b =~= a + (text + b));
        assert((text + b)[0] == text[0]);
        blanks_at_the_end(text, b);
    } else {
        assert(a + text + b =~= (a + b) + Seq::<char>::empty());
        blanks_at_the_start(a + b, Seq::<char>::empty());
        assert(text =~= Seq::<char>::empty());
    }
}

proof fn blanks_at_the_start(a: Seq<char>, rest: Seq<char>)
    requires
        is_blank(a),
        rest.len() > 0 ==> '!' <= rest[0] <= '~',
    ensures
        text::trimmed_start(a + rest) == rest,
    decreases a.len(),
{
    let all = a + rest;
    if a.len() > 0 {
        assert(all[0] == a[0]);
        assert(all.drop_first() =~= a.drop_first() + rest);
        assert forall|i: int| 0 <= i < a.drop_first().len() implies #[trigger] a.drop_first()[i]
            == ' ' || a.drop_first()[i] == '\t' || a.drop_first()[i] == '\n' || a.drop_first()[i]
            == '\r' by {
            assert(a.drop_first()[i] == a[i + 1]);
        }
        blanks_at_the_start(a.drop_first(), rest);
    } else {
        assert(all =~= rest);
    }
}

proof fn blanks_at_the_end(text: Seq<char>, b: Seq<char>)
    requires
        is_blank(b),
        text.len() > 0,
        '!' <= text.last() <= '~',
    ensures
        text::trimmed_end(text + b) == text,
    decreases b.len(),
{
    let all = text + b;
    if b.len() > 0 {
        assert(all.last() == b.last());
        assert(b.last() == b[b.len() - 1]);
        assert(all.drop_last() =~= text + b.drop_last());
        assert forall|i: int| 0 <= i < b.drop_last().len() implies #[trigger] b.drop_last()[i]
            == ' ' || b.drop_last()[i] == '\t' || b.drop_last()[i] == '\n' || b.drop_last()[i]
            == '\r' by {
            assert(b.drop_last()[i] == b[i]);
        }
        blanks_at_the_end(text, b.drop_last());
    } else {
        assert(all =~= text);
    }
}

} // verus!
