//! What holds of trimming, splitting, words, letters and numbers.

use vstd::prelude::*;

use crate::number;
use crate::text;

verus! {

// ---------------------------------------------------------------------------
// White space
// ---------------------------------------------------------------------------
/// Whether `s` holds white space only.
pub open spec fn is_blank(s: Seq<char>) -> bool {
    forall|k: int| 0 <= k < s.len() ==> text::is_white_space(#[trigger] s[k])
}

/// Trimming removes exactly the white space around a text that neither begins nor ends
/// with white space itself, and all of a text that is nothing but white space.
pub proof fn law_trim(left: Seq<char>, middle: Seq<char>, right: Seq<char>)
    requires
        is_blank(left),
        is_blank(right),
        middle.len() > 0 ==> !text::is_white_space(middle[0]) && !text::is_white_space(
            middle.last(),
        ),
    ensures
        text::spec_trim(left + middle + right) == middle,
{
    text::lemma_trim_of_padded(left, middle, right);
    text::lemma_trim_tight(middle);
}

/// The space, the tab, the carriage return and the newline are white space, and no
/// letter, digit or sign of a rule is.
pub proof fn law_white_space(c: char)
    ensures
        c == ' ' || c == '\t' || c == '\r' || c == '\n' ==> text::is_white_space(c),
        '!' <= c <= '~' ==> !text::is_white_space(c),
{
}

// ---------------------------------------------------------------------------
// Splitting
// ---------------------------------------------------------------------------
/// Splitting undoes joining: a piece without the separator stays whole, and a separator
/// parts the pieces of what is before it from the pieces of what is after it.
pub proof fn law_split(piece: Seq<char>, a: Seq<char>, b: Seq<char>, sep: char)
    requires
        forall|k: int| 0 <= k < piece.len() ==> #[trigger] piece[k] != sep,
    ensures
        text::spec_split(piece, sep) == seq![piece],
        text::spec_split(a.push(sep) + b, sep) == text::spec_split(a, sep) + text::spec_split(
            b,
            sep,
        ),
{
    text::lemma_split_none(piece, sep);
    text::lemma_split_join(a, sep, b);
}

/// The position that a search reports holds what was searched for, no earlier position
/// does, and nothing is reported exactly if no position does.
pub proof fn law_find(s: Seq<char>, a: char, b: char, p: int)
    ensures
        text::first_of(s, a, b) == Some(p) <==> {
            &&& 0 <= p < s.len()
            &&& s[p] == a || s[p] == b
            &&& forall|k: int| 0 <= k < p ==> #[trigger] s[k] != a && s[k] != b
        },
        text::first_of(s, a, b) is None <==> forall|k: int|
            0 <= k < s.len() ==> #[trigger] s[k] != a && s[k] != b,
        text::index_of(s, a) == text::first_of(s, a, a),
{
    text::lemma_first_of(s, a, b);
    if 0 <= p < s.len() && (s[p] == a || s[p] == b) && (forall|k: int|
        0 <= k < p ==> #[trigger] s[k] != a && s[k] != b) {
        text::lemma_first_of_at(s, a, b, p);
    }
}

// ---------------------------------------------------------------------------
// Words
// ---------------------------------------------------------------------------
proof fn lemma_words_some(s: Seq<char>)
    requires
        s.len() > 0,
        !text::is_white_space(s.last()),
    ensures
        text::spec_words(s).len() > 0,
{
}

proof fn lemma_words_join(x: Seq<char>, rest: Seq<char>)
    requires
        x.len() > 0 ==> text::is_white_space(x.last()),
    ensures
        text::spec_words(x + rest) == text::spec_words(x) + text::spec_words(rest),
    decreases rest.len(),
{
    let s = x + rest;
    if rest.len() == 0 {
        assert(s =~= x);
        assert(text::spec_words(x) + text::spec_words(rest) =~= text::spec_words(x));
    } else if x.len() == 0 {
        assert(s =~= rest);
        assert(text::spec_words(x) + text::spec_words(rest) =~= text::spec_words(rest));
    } else {
        let t = rest.drop_last();
        lemma_words_join(x, t);
        assert(s.drop_last() =~= x + t);
        assert(s.last() == rest.last());
        let front = text::spec_words(x);
        let back = text::spec_words(t);
        if text::is_white_space(rest.last()) {
        } else if rest.len() == 1 {
            assert(s[s.len() - 2] == x.last());
            assert(back =~= Seq::<Seq<char>>::empty());
            assert((front + back).push(seq![s.last()]) =~= front + seq![seq![s.last()]]);
            assert(text::spec_words(rest) =~= seq![seq![s.last()]]);
        } else {
            assert(s[s.len() - 2] == rest[rest.len() - 2]);
            if text::is_white_space(rest[rest.len() - 2]) {
                assert((front + back).push(seq![s.last()]) =~= front + back.push(seq![s.last()]));
            } else {
                assert(t.last() == rest[rest.len() - 2]);
                lemma_words_some(t);
                let longer = back.last().push(s.last());
                assert((front + back).last() == back.last());
                assert((front + back).drop_last().push(longer) =~= front + back.drop_last().push(
                    longer,
                ));
            }
        }
    }
}

proof fn lemma_blank_words(s: Seq<char>)
    requires
        is_blank(s),
    ensures
        text::spec_words(s) == Seq::<Seq<char>>::empty(),
    decreases s.len(),
{
    if s.len() > 0 {
        assert(s.last() == s[s.len() - 1]);
        assert forall|k: int| 0 <= k < s.drop_last().len() implies text::is_white_space(
            #[trigger] s.drop_last()[k],
        ) by {
            assert(s.drop_last()[k] == s[k]);
        }
        lemma_blank_words(s.drop_last());
    }
}

proof fn lemma_one_word(w: Seq<char>)
    requires
        w.len() > 0,
        forall|k: int| 0 <= k < w.len() ==> !text::is_white_space(#[trigger] w[k]),
    ensures
        text::spec_words(w) == seq![w],
    decreases w.len(),
{
    let t = w.drop_last();
    assert(w.last() == w[w.len() - 1]);
    if w.len() == 1 {
        assert(text::spec_words(t) =~= Seq::<Seq<char>>::empty());
        assert(w =~= seq![w.last()]);
    } else {
        assert forall|k: int| 0 <= k < t.len() implies !text::is_white_space(#[trigger] t[k]) by {
            assert(t[k] == w[k]);
        }
        lemma_one_word(t);
        assert(!text::is_white_space(w[w.len() - 2]));
        assert(t.push(w.last()) =~= w);
        assert(seq![t].drop_last().push(t.push(w.last())) =~= seq![w]);
    }
}

/// The words of a text are its unbroken pieces: white space alone holds none, and a word
/// that begins a text, after white space perhaps, is the first one if the text ends there
/// or goes on with white space.
pub proof fn law_words(left: Seq<char>, word: Seq<char>, space: char, rest: Seq<char>)
    requires
        is_blank(left),
        word.len() > 0,
        forall|k: int| 0 <= k < word.len() ==> !text::is_white_space(#[trigger] word[k]),
        text::is_white_space(space),
    ensures
        text::spec_words(left) == Seq::<Seq<char>>::empty(),
        text::spec_words(left + word) == seq![word],
        text::spec_words((left + word).push(space) + rest) == seq![word] + text::spec_words(rest),
{
    lemma_blank_words(left);
    lemma_one_word(word);
    if left.len() > 0 {
        assert(left.last() == left[left.len() - 1]);
    }
    lemma_words_join(left, word);
    assert(text::spec_words(left + word) =~= seq![word]);
    let head = (left + word).push(space);
    assert(head.drop_last() =~= left + word);
    assert(head.last() == space);
    lemma_words_join(head, rest);
}

// ---------------------------------------------------------------------------
// Letters
// ---------------------------------------------------------------------------
/// Lower case turns the letters of the English alphabet that are in upper case into those
/// that stand 32 places behind them, and changes nothing else.
pub proof fn law_lower_case(s: Seq<char>, k: int)
    requires
        0 <= k < s.len(),
    ensures
        text::ascii_lowercase(s).len() == s.len(),
        'A' <= s[k] <= 'Z' ==> text::ascii_lowercase(s)[k] as u32 == s[k] as u32 + 32,
        !('A' <= s[k] <= 'Z') ==> text::ascii_lowercase(s)[k] == s[k],
{
}

// ---------------------------------------------------------------------------
// Reading numbers
// ---------------------------------------------------------------------------
/// A digit by itself is read as its value.
pub proof fn law_digit_is_a_number(c: char, max: nat)
    requires
        '0' <= c <= '9',
    ensures
        number::spec_parse_unsigned(seq![c], max) == if c as u32 - '0' as u32 <= max {
            Some((c as u32 - '0' as u32) as nat)
        } else {
            None
        },
{
    let s = seq![c];
    assert(s.drop_last() =~= Seq::<char>::empty());
    assert(number::digits_value(s.drop_last()) == 0);
    assert(s.last() == c);
}

/// One more digit makes a number ten times as large, and adds the digit's value. A number
/// that is too large is none.
pub proof fn law_digit_appended(s: Seq<char>, v: nat, bound: nat, c: char, max: nat)
    requires
        number::spec_parse_unsigned(s, bound) == Some(v),
        '0' <= c <= '9',
    ensures
        v <= bound,
        number::spec_parse_unsigned(s.push(c), max) == if 10 * v + (c as u32 - '0' as u32) <= max {
            Some((10 * v + (c as u32 - '0' as u32)) as nat)
        } else {
            None
        },
{
    let all = s.push(c);
    let digits = if s[0] == '+' {
        s.drop_first()
    } else {
        s
    };
    let more = digits.push(c);
    assert(all[0] == s[0]);
    if s[0] == '+' {
        assert(all.drop_first() =~= more);
    }
    assert(more.drop_last() =~= digits);
    assert(more.last() == c);
    assert forall|k: int| 0 <= k < more.len() implies number::is_digit(#[trigger] more[k]) by {
        if k < digits.len() {
            assert(more[k] == digits[k]);
        }
    }
}

/// A plus sign in front of a digit makes no difference.
pub proof fn law_plus_sign(s: Seq<char>, max: nat)
    requires
        s.len() > 0,
        s[0] != '+',
    ensures
        number::spec_parse_unsigned(seq!['+'] + s, max) == number::spec_parse_unsigned(s, max),
        number::spec_parse_unsigned(seq!['+', '+'] + s, max) is None,
        number::spec_parse_unsigned(seq!['+'], max) is None,
{
    assert((seq!['+'] + s).drop_first() =~= s);
    let twice = (seq!['+', '+'] + s).drop_first();
    assert(twice[0] == '+');
    assert(!number::is_digit(twice[0]));
    assert(seq!['+'].drop_first() =~= Seq::<char>::empty());
}

/// Nothing else is a number: it holds at least one digit, no other character but for one
/// plus sign at its start, and is not larger than the limit.
pub proof fn law_what_a_number_is(s: Seq<char>, max: nat)
    requires
        number::spec_parse_unsigned(s, max) is Some,
    ensures
        s.len() > 0,
        s[0] == '+' ==> s.len() > 1,
        s[0] == '+' || '0' <= s[0] <= '9',
        forall|k: int| 1 <= k < s.len() ==> '0' <= #[trigger] s[k] <= '9',
        number::spec_parse_unsigned(s, max)->0 <= max,
{
    if s[0] == '+' {
        assert forall|k: int| 1 <= k < s.len() implies '0' <= #[trigger] s[k] <= '9' by {
            assert(s.drop_first()[k - 1] == s[k]);
        }
    } else {
        assert(number::is_digit(s[0]));
        assert forall|k: int| 1 <= k < s.len() implies '0' <= #[trigger] s[k] <= '9' by {
            assert(number::is_digit(s[k]));
        }
    }
}

/// A signed number is an unsigned one within the limits, or an unsigned one without a
/// sign of its own after a minus sign, and then stands for the opposite value.
pub proof fn law_signed_number(s: Seq<char>, min: int, max: int, v: int)
    ensures
        (s.len() == 0 || s[0] != '-') ==> (number::spec_parse_signed(s, min, max) == Some(v) <==> {
            &&& min <= v <= max
            &&& v >= 0
            &&& number::spec_parse_unsigned(s, v as nat) == Some(v as nat)
        }),
        (s.len() > 0 && s[0] == '-') ==> (number::spec_parse_signed(s, min, max) == Some(v) <==> {
            &&& min <= v <= max
            &&& v <= 0
            &&& s.len() > 1
            &&& s[1] != '+'
            &&& number::spec_parse_unsigned(s.drop_first(), (-v) as nat) == Some((-v) as nat)
        }),
{
    if s.len() > 0 && s[0] == '-' {
        let rest = s.drop_first();
        if s.len() > 1 {
            assert(rest[0] == s[1]);
        }
        if number::magnitude(rest) is Some {
            assert(number::is_digit(rest[0]));
        }
    } else if s.len() > 0 && s[0] == '+' {
    }
}

// ---------------------------------------------------------------------------
// Writing numbers
// ---------------------------------------------------------------------------
/// Decimal text has no zero in front, unless it is the number zero, and differs in its
/// last digit alone from that of a number with the same tens.
pub proof fn law_decimal(n: nat, d: nat)
    requires
        d < 10,
    ensures
        number::decimal(d) == seq![('0' as u32 + d) as char],
        n > 0 ==> number::decimal(n)[0] != '0',
        n > 0 ==> number::decimal(10 * n + d) == number::decimal(n).push(('0' as u32 + d) as char),
    decreases n,
{
    if n > 0 {
        let m = 10 * n + d;
        assert(m / 10 == n && m % 10 == d);
        if n >= 10 {
            law_decimal(n / 10, 0);
            assert(number::decimal(n / 10).len() > 0) by {
                number::law_decimal_reads_back(n / 10);
            }
            assert(number::decimal(n)[0] == number::decimal(n / 10)[0]);
        } else {
            assert(number::decimal(n)[0] == ('0' as u32 + n) as char);
        }
    }
}

/// A negative number is written as its opposite after a minus sign.
pub proof fn law_signed_decimal(n: nat)
    ensures
        number::signed_decimal(n as int) == number::decimal(n),
        n > 0 ==> number::signed_decimal(-(n as int)) == seq!['-'] + number::decimal(n),
{
}

/// Padding puts zeros in front up to the width, and changes nothing that is wide enough.
pub proof fn law_zero_padded(s: Seq<char>, width: nat)
    ensures
        ({
            let p = number::zero_padded(s, width);
            let zeros = p.len() - s.len();
            &&& p.len() == if s.len() >= width {
                s.len()
            } else {
                width
            }
            &&& p.skip(zeros) == s
            &&& forall|k: int| 0 <= k < zeros ==> #[trigger] p[k] == '0'
        }),
    decreases width - s.len(),
{
    let p = number::zero_padded(s, width);
    if s.len() >= width {
        assert(p.skip(0) =~= s);
    } else {
        let longer = seq!['0'] + s;
        law_zero_padded(longer, width);
        let zeros = p.len() - longer.len();
        assert(p.skip(zeros)[0] == '0');
        assert(p[zeros] == '0');
        assert(p.skip(zeros + 1) =~= p.skip(zeros).skip(1));
        assert(longer.skip(1) =~= s);
    }
}

} // verus!
