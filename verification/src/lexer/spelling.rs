//! How text is read back: the token that the tokenizer finds where a
//! given spelling stands in the input.

use vstd::prelude::*;
use crate::lexer::scan::{
    in_class, is_digit, is_word_start, lemma_span_bounds, next_token, span_end, symbol,
    token_at, word_token, ByteClass,
};
use crate::lexer::tokens::{keyword_of, TokenView};
use crate::text::{decimal_nat, digit_char, digits_value, is_digit_char, parse_decimal, text_of};

verus! {

/// The bytes of a text of ASCII characters, one per character.
pub open spec fn ascii_bytes(s: Seq<char>) -> Seq<u8> {
    Seq::new(s.len(), |i: int| s[i] as u8)
}

/// Every character of the text is an ASCII character.
pub open spec fn is_ascii_text(s: Seq<char>) -> bool {
    forall|i: int| 0 <= i < s.len() ==> 0 <= (#[trigger] s[i]) as int <= 127
}

/// The input holds the text `s` at position `q`.
pub open spec fn has(input: Seq<u8>, q: int, s: Seq<char>) -> bool {
    &&& 0 <= q
    &&& q + s.len() <= input.len()
    &&& input.subrange(q, q + s.len()) == ascii_bytes(s)
}

/// The input holds `k` spaces at position `q`.
pub open spec fn blank(input: Seq<u8>, q: int, k: int) -> bool {
    &&& 0 <= q
    &&& 0 <= k
    &&& q + k <= input.len()
    &&& forall|i: int| q <= i < q + k ==> #[trigger] input[i] == 32
}

/// Whether the character is a letter, a digit or the underscore.
pub open spec fn is_word_char(c: char) -> bool {
    in_class(ByteClass::Word, c as u8) && 0 <= c as int <= 127
}

/// Whether the text is a name: a letter or underscore, then letters,
/// digits and underscores, and no keyword.
pub open spec fn is_name(s: Seq<char>) -> bool {
    &&& s.len() > 0
    &&& is_word_start(s[0] as u8)
    &&& forall|i: int| 0 <= i < s.len() ==> is_word_char(#[trigger] s[i])
    &&& keyword_of(s) is None
}

/// Whether the text can stand between double quotes: ASCII characters, and
/// no double quote.
pub open spec fn is_plain(s: Seq<char>) -> bool {
    forall|i: int| 0 <= i < s.len() ==> 0 <= (#[trigger] s[i]) as int <= 127 && s[i] as int != 34
}

/// Whether the byte ends every token before it and starts a token of
/// punctuation: one of `) ] } , ; : ( [ + - * / = ! < > %`.
pub open spec fn is_delimiter(b: u8) -> bool {
    b == 41 || b == 93 || b == 125 || b == 44 || b == 59 || b == 58 || b == 40 || b == 91 || b
        == 43 || b == 45 || b == 42 || b == 47 || b == 61 || b == 33 || b == 60 || b == 62 || b
        == 37
}

/// A delimiter stands at position `q`.
pub open spec fn stops(input: Seq<u8>, q: int) -> bool {
    0 <= q < input.len() && is_delimiter(input[q])
}

/// A text that the input holds is there byte by byte.
pub proof fn lemma_has_byte(input: Seq<u8>, q: int, s: Seq<char>, i: int)
    requires
        has(input, q, s),
        0 <= i < s.len(),
    ensures
        input[q + i] == s[i] as u8,
{
    assert(input.subrange(q, q + s.len())[i] == ascii_bytes(s)[i]);
}

/// The input holds two texts one behind the other where it holds their
/// concatenation, and the other way round.
pub proof fn lemma_has_concat(input: Seq<u8>, q: int, a: Seq<char>, b: Seq<char>)
    ensures
        has(input, q, a + b) <==> has(input, q, a) && has(input, q + a.len(), b),
{
    if has(input, q, a + b) {
        assert forall|i: int| 0 <= i < a.len() implies input.subrange(q, q + a.len())[i]
            == ascii_bytes(a)[i] by {
            lemma_has_byte(input, q, a + b, i);
        }
        assert(input.subrange(q, q + a.len()) =~= ascii_bytes(a));
        assert forall|i: int| 0 <= i < b.len() implies input.subrange(
            q + a.len(),
            q + a.len() + b.len(),
        )[i] == ascii_bytes(b)[i] by {
            lemma_has_byte(input, q, a + b, a.len() + i);
        }
        assert(input.subrange(q + a.len(), q + a.len() + b.len()) =~= ascii_bytes(b));
    }
    if has(input, q, a) && has(input, q + a.len(), b) {
        assert forall|i: int| 0 <= i < (a + b).len() implies input.subrange(
            q,
            q + (a + b).len(),
        )[i] == ascii_bytes(a + b)[i] by {
            if i < a.len() {
                lemma_has_byte(input, q, a, i);
            } else {
                lemma_has_byte(input, q + a.len(), b, i - a.len());
            }
        }
        assert(input.subrange(q, q + (a + b).len()) =~= ascii_bytes(a + b));
    }
}

/// A run of bytes of one class, with a byte of another class or the end of
/// the input behind it, is what `span_end` finds.
pub proof fn lemma_span_run(input: Seq<u8>, from: int, to: int, c: ByteClass)
    requires
        0 <= from <= to <= input.len(),
        forall|i: int| from <= i < to ==> in_class(c, #[trigger] input[i]),
        to == input.len() || !in_class(c, input[to]),
    ensures
        span_end(input, from, c) == to,
    decreases to - from,
{
    if from < to {
        lemma_span_run(input, from + 1, to, c);
    }
}

/// The token behind `k` spaces is the token at the position behind them.
pub proof fn lemma_skip_blank(input: Seq<u8>, q: int, k: int)
    requires
        blank(input, q, k),
        q + k < input.len(),
        !in_class(ByteClass::Space, input[q + k]),
    ensures
        next_token(input, q) == Some(token_at(input, q + k)),
{
    lemma_span_run(input, q, q + k, ByteClass::Space);
}

/// A byte of punctuation behind spaces is read as its token.
pub proof fn lemma_read_symbol(input: Seq<u8>, q: int, k: int, b: u8)
    requires
        blank(input, q, k),
        q + k < input.len(),
        input[q + k] == b,
        b == 41 || b == 93 || b == 44 || b == 59 || b == 58 || b == 40 || b == 91 || b == 43 || b
            == 45 || b == 42 || b == 47 || b == 60 || b == 62 || b == 37 || b == 123 || b == 125,
    ensures
        next_token(input, q) == Some((symbol(b), q + k + 1)),
{
    lemma_skip_blank(input, q, k);
}

/// `==` behind spaces is read as one token.
pub proof fn lemma_read_eq(input: Seq<u8>, q: int, k: int)
    requires
        blank(input, q, k),
        q + k + 1 < input.len(),
        input[q + k] == 61,
        input[q + k + 1] == 61,
    ensures
        next_token(input, q) == Some((TokenView::Eq, q + k + 2)),
{
    lemma_skip_blank(input, q, k);
}

/// `!=` behind spaces is read as one token.
pub proof fn lemma_read_neq(input: Seq<u8>, q: int, k: int)
    requires
        blank(input, q, k),
        q + k + 1 < input.len(),
        input[q + k] == 33,
        input[q + k + 1] == 61,
    ensures
        next_token(input, q) == Some((TokenView::Neq, q + k + 2)),
{
    lemma_skip_blank(input, q, k);
}

/// `=` behind spaces, with no second `=` behind it, is read as the
/// assignment sign.
pub proof fn lemma_read_assign(input: Seq<u8>, q: int, k: int)
    requires
        blank(input, q, k),
        q + k + 1 < input.len(),
        input[q + k] == 61,
        input[q + k + 1] != 61,
    ensures
        next_token(input, q) == Some((TokenView::Assign, q + k + 1)),
{
    lemma_skip_blank(input, q, k);
}

/// `!` behind spaces, with no `=` behind it, is read as the negation sign.
pub proof fn lemma_read_bang(input: Seq<u8>, q: int, k: int)
    requires
        blank(input, q, k),
        q + k + 1 < input.len(),
        input[q + k] == 33,
        input[q + k + 1] != 61,
    ensures
        next_token(input, q) == Some((TokenView::Bang, q + k + 1)),
{
    lemma_skip_blank(input, q, k);
}

/// The characters of the bytes of an ASCII text are the text.
pub proof fn lemma_text_of_ascii(input: Seq<u8>, q: int, s: Seq<char>)
    requires
        has(input, q, s),
        is_ascii_text(s),
    ensures
        text_of(input.subrange(q, q + s.len())) == s,
{
    assert forall|i: int| 0 <= i < s.len() implies text_of(input.subrange(q, q + s.len()))[i]
        == s[i] by {
        lemma_has_byte(input, q, s, i);
        let c = s[i];
        assert(0 <= c as int <= 127);
        assert((c as u8) as char == c);
    }
    assert(text_of(input.subrange(q, q + s.len())) =~= s);
}

/// A word behind spaces, with no letter, digit or underscore behind it,
/// is read as one token: a keyword where it spells one, else an identifier.
pub proof fn lemma_read_word(input: Seq<u8>, q: int, k: int, w: Seq<char>)
    requires
        blank(input, q, k),
        has(input, q + k, w),
        w.len() > 0,
        is_word_start(w[0] as u8),
        forall|i: int| 0 <= i < w.len() ==> is_word_char(#[trigger] w[i]),
        q + k + w.len() == input.len() || !in_class(ByteClass::Word, input[q + k + w.len()]),
    ensures
        next_token(input, q) == Some((word_token(w), q + k + w.len())),
{
    let p = q + k;
    lemma_has_byte(input, p, w, 0);
    lemma_skip_blank(input, q, k);
    assert forall|i: int| p <= i < p + w.len() implies in_class(
        ByteClass::Word,
        #[trigger] input[i],
    ) by {
        lemma_has_byte(input, p, w, i - p);
        assert(is_word_char(w[i - p]));
    }
    lemma_span_run(input, p, p + w.len(), ByteClass::Word);
    assert forall|i: int| 0 <= i < w.len() implies 0 <= (#[trigger] w[i]) as int <= 127 by {
        assert(is_word_char(w[i]));
    }
    lemma_text_of_ascii(input, p, w);
}

/// A string literal behind spaces is read as one token.
pub proof fn lemma_read_string(input: Seq<u8>, q: int, k: int, s: Seq<char>)
    requires
        blank(input, q, k),
        q + k + s.len() + 1 < input.len(),
        input[q + k] == 34,
        has(input, q + k + 1, s),
        is_plain(s),
        input[q + k + 1 + s.len()] == 34,
    ensures
        next_token(input, q) == Some((TokenView::String(s), q + k + s.len() + 2)),
{
    let p = q + k;
    lemma_skip_blank(input, q, k);
    assert forall|i: int| p + 1 <= i < p + 1 + s.len() implies in_class(
        ByteClass::Unquoted,
        #[trigger] input[i],
    ) by {
        lemma_has_byte(input, p + 1, s, i - p - 1);
        assert(s[i - p - 1] as int != 34);
    }
    lemma_span_run(input, p + 1, p + 1 + s.len(), ByteClass::Unquoted);
    assert(is_ascii_text(s));
    lemma_text_of_ascii(input, p + 1, s);
}

/// The numeral of a natural number is made of digits, and is the numeral
/// of no other number.
pub proof fn lemma_decimal_nat(n: nat)
    ensures
        decimal_nat(n).len() > 0,
        forall|i: int| 0 <= i < decimal_nat(n).len() ==> is_digit_char(#[trigger] decimal_nat(n)[i]),
        digits_value(decimal_nat(n)) == n,
    decreases n,
{
    if n >= 10 {
        lemma_decimal_nat(n / 10);
        let s = decimal_nat(n);
        assert(s.drop_last() =~= decimal_nat(n / 10));
        assert(s.last() == digit_char((n % 10) as int));
    } else {
        let s = decimal_nat(n);
        assert(s.drop_last() =~= Seq::<char>::empty());
        assert(digits_value(s.drop_last()) == 0);
    }
}

/// A numeral behind spaces, with no digit behind it, is read as one
/// integer token, whose text is the numeral of that number.
pub proof fn lemma_read_number(input: Seq<u8>, q: int, k: int, n: nat)
    requires
        blank(input, q, k),
        has(input, q + k, decimal_nat(n)),
        q + k + decimal_nat(n).len() == input.len() || !in_class(
            ByteClass::Digit,
            input[q + k + decimal_nat(n).len()],
        ),
    ensures
        next_token(input, q) == Some(
            (TokenView::Int(decimal_nat(n)), q + k + decimal_nat(n).len()),
        ),
        n <= i64::MAX ==> parse_decimal(decimal_nat(n)) == Some(n as i64),
{
    let p = q + k;
    let w = decimal_nat(n);
    lemma_decimal_nat(n);
    lemma_has_byte(input, p, w, 0);
    assert(is_digit_char(w[0]));
    lemma_skip_blank(input, q, k);
    assert forall|i: int| p <= i < p + w.len() implies in_class(
        ByteClass::Digit,
        #[trigger] input[i],
    ) by {
        lemma_has_byte(input, p, w, i - p);
        assert(is_digit_char(w[i - p]));
    }
    lemma_span_run(input, p, p + w.len(), ByteClass::Digit);
    assert forall|i: int| 0 <= i < w.len() implies 0 <= (#[trigger] w[i]) as int <= 127 by {
        assert(is_digit_char(decimal_nat(n)[i]));
    }
    lemma_text_of_ascii(input, p, w);
}

/// Every byte of the input is an ASCII character.
pub open spec fn is_ascii_input(input: Seq<u8>) -> bool {
    forall|i: int| 0 <= i < input.len() ==> #[trigger] input[i] <= 127
}

/// Every byte of a run is of the class of the run.
pub proof fn lemma_span_all(input: Seq<u8>, pos: int, c: ByteClass, i: int)
    requires
        0 <= pos <= i < span_end(input, pos, c),
    ensures
        i < input.len(),
        in_class(c, input[i]),
    decreases input.len() - pos,
{
    if pos < input.len() && in_class(c, input[pos]) {
        if i > pos {
            lemma_span_all(input, pos + 1, c, i);
        }
    }
}

/// In an input of ASCII characters, every identifier is a name and every
/// string can stand between double quotes.
pub proof fn lemma_token_shapes(input: Seq<u8>, pos: int)
    requires
        is_ascii_input(input),
        0 <= pos <= input.len(),
    ensures
        match next_token(input, pos) {
            Some((TokenView::Ident(w), _)) => is_name(w),
            Some((TokenView::String(s), _)) => is_plain(s),
            _ => true,
        },
{
    lemma_span_bounds(input, pos, ByteClass::Space);
    let p = span_end(input, pos, ByteClass::Space);
    if p < input.len() {
        let b = input[p];
        if is_word_start(b) {
            let e = span_end(input, p, ByteClass::Word);
            lemma_span_bounds(input, p + 1, ByteClass::Word);
            let w = text_of(input.subrange(p, e));
            assert forall|i: int| 0 <= i < w.len() implies is_word_char(#[trigger] w[i]) by {
                lemma_span_all(input, p, ByteClass::Word, p + i);
                let x = input[p + i];
                assert(w[i] == x as char);
                assert(x <= 127);
                assert((x as char) as u8 == x);
                assert((x as char) as int == x as int);
            }
            assert(w[0] == b as char);
            assert((b as char) as u8 == b);
        } else if is_digit(b) {
        } else if b == 34 {
            let q = span_end(input, p + 1, ByteClass::Unquoted);
            lemma_span_bounds(input, p + 1, ByteClass::Unquoted);
            if q < input.len() {
                let s = text_of(input.subrange(p + 1, q));
                assert forall|i: int| 0 <= i < s.len() implies 0 <= (#[trigger] s[i]) as int
                    <= 127 && s[i] as int != 34 by {
                    lemma_span_all(input, p + 1, ByteClass::Unquoted, p + 1 + i);
                    let x = input[p + 1 + i];
                    assert(s[i] == x as char);
                    assert(x <= 127);
                    assert((x as char) as int == x as int);
                }
            }
        }
    }
}

} // verus!
