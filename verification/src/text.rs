//! Text helpers: comparing, replacing and writing numbers.

use vstd::prelude::*;
use vstd::string::StringExecFns;
use vstd::utf8::{encode_utf8, encode_utf8_decode_utf8};

verus! {

/// `String::push` of the standard library appends one character to the end
/// of the string and leaves the rest as it was.
pub assume_specification[ String::push ](text: &mut String, ch: char)
    ensures
        final(text)@ == old(text)@.push(ch),
;

/// Whether two texts hold the same characters.
pub fn same_text(a: &str, b: &str) -> (same: bool)
    ensures
        same == (a@ == b@),
{
    let x = a.as_bytes();
    let y = b.as_bytes();
    proof {
        encode_utf8_decode_utf8(a@);
        encode_utf8_decode_utf8(b@);
    }
    if x.len() != y.len() {
        return false;
    }
    let mut i: usize = 0;
    while i < x.len()
        invariant
            i <= x@.len(),
            x@.len() == y@.len(),
            x@ == encode_utf8(a@),
            y@ == encode_utf8(b@),
            forall|j: int| 0 <= j < i ==> x@[j] == y@[j],
        decreases x@.len() - i,
    {
        if x[i] != y[i] {
            return false;
        }
        i += 1;
    }
    proof {
        assert(x@ =~= y@);
    }
    true
}

/// The characters of a text, one by one.
pub fn chars_of(text: &str) -> (chars: Vec<char>)
    ensures
        chars@ == text@,
{
    let mut chars: Vec<char> = Vec::new();
    for ch in it: text.chars()
        invariant
            it.seq() == text@,
            chars@ == text@.subrange(0, it.index() as int),
    {
        chars.push(ch);
        proof {
            assert(chars@ =~= text@.subrange(0, it.index() + 1));
        }
    }
    proof {
        assert(text@.subrange(0, text@.len() as int) =~= text@);
    }
    chars
}

/// `text` with every occurrence of `from` replaced by `to`. Occurrences are
/// taken from left to right and do not overlap; an empty `from` occurs
/// nowhere.
pub open spec fn replaced(text: Seq<char>, from: Seq<char>, to: Seq<char>) -> Seq<char>
    decreases text.len(),
{
    if from.len() == 0 || text.len() < from.len() {
        text
    } else if text.subrange(0, from.len() as int) == from {
        to + replaced(text.skip(from.len() as int), from, to)
    } else {
        seq![text[0]] + replaced(text.skip(1), from, to)
    }
}

/// Whether `part` stands in `text` at position `at`.
fn stands_at(text: &Vec<char>, at: usize, part: &Vec<char>) -> (found: bool)
    requires
        at <= text@.len(),
    ensures
        found == (part@.len() <= text@.len() - at && text@.subrange(
            at as int,
            at + part@.len(),
        ) == part@),
{
    if part.len() > text.len() - at {
        return false;
    }
    let mut k: usize = 0;
    while k < part.len()
        invariant
            k <= part@.len(),
            at + part@.len() <= text@.len() <= usize::MAX,
            forall|j: int| 0 <= j < k ==> text@[at + j] == part@[j],
        decreases part@.len() - k,
    {
        if text[at + k] != part[k] {
            proof {
                assert(text@.subrange(at as int, at + part@.len())[k as int] == text@[at + k]);
            }
            return false;
        }
        k += 1;
    }
    proof {
        assert(text@.subrange(at as int, at + part@.len()) =~= part@);
    }
    true
}

/// Replaces every occurrence of `from` in `text` by `to`.
pub fn replace_all(text: &str, from: &str, to: &str) -> (out: String)
    ensures
        out@ == replaced(text@, from@, to@),
{
    let source = chars_of(text);
    let pattern = chars_of(from);
    if pattern.len() == 0 {
        return text.to_owned();
    }
    let mut out = String::new();
    let mut i: usize = 0;
    proof {
        assert(source@.skip(0) =~= source@);
        assert(out@ + replaced(source@, pattern@, to@) =~= replaced(source@, pattern@, to@));
    }
    while i < source.len()
        invariant
            i <= source@.len(),
            pattern@.len() > 0,
            out@ + replaced(source@.skip(i as int), pattern@, to@) == replaced(
                source@,
                pattern@,
                to@,
            ),
        decreases source@.len() - i,
    {
        let ghost rest = source@.skip(i as int);
        let ghost out_before = out@;
        if stands_at(&source, i, &pattern) {
            out.append(to);
            proof {
                assert(rest.subrange(0, pattern@.len() as int) =~= source@.subrange(
                    i as int,
                    i + pattern@.len(),
                ));
                assert(rest.skip(pattern@.len() as int) =~= source@.skip(i + pattern@.len()));
                assert(out@ + replaced(source@.skip(i + pattern@.len()), pattern@, to@)
                    =~= out_before + replaced(rest, pattern@, to@));
            }
            i += pattern.len();
        } else {
            out.push(source[i]);
            proof {
                if rest.len() >= pattern@.len() {
                    assert(rest.subrange(0, pattern@.len() as int) =~= source@.subrange(
                        i as int,
                        i + pattern@.len(),
                    ));
                    assert(rest.skip(1) =~= source@.skip(i + 1));
                    assert(out@ + replaced(source@.skip(i + 1), pattern@, to@) =~= out_before
                        + replaced(rest, pattern@, to@));
                } else {
                    lemma_short_text_stays(rest, pattern@, to@);
                    lemma_short_text_stays(rest.skip(1), pattern@, to@);
                    assert(rest.skip(1) =~= source@.skip(i + 1));
                    assert(out@ + source@.skip(i + 1) =~= out_before + rest);
                }
            }
            i += 1;
        }
    }
    proof {
        assert(out@ + replaced(source@.skip(i as int), pattern@, to@) =~= out@);
    }
    out
}

/// A text shorter than what is looked for holds no occurrence of it.
proof fn lemma_short_text_stays(text: Seq<char>, from: Seq<char>, to: Seq<char>)
    requires
        text.len() < from.len(),
    ensures
        replaced(text, from, to) == text,
{
}

/// The character that writes the digit `d`.
pub open spec fn digit(d: int) -> char {
    (48 + d) as u8 as char
}

/// The decimal digits of `n`, without leading zeros.
pub open spec fn decimal(n: nat) -> Seq<char>
    decreases n,
{
    if n < 10 {
        seq![digit(n as int)]
    } else {
        decimal(n / 10).push(digit((n % 10) as int))
    }
}

/// The decimal digits of `n`, with a minus sign before them where `n` is
/// negative.
pub open spec fn signed_decimal(n: int) -> Seq<char> {
    if n < 0 {
        seq!['-'] + decimal((-n) as nat)
    } else {
        decimal(n as nat)
    }
}

/// Writes `n` in decimal digits.
pub fn decimal_text(n: u64) -> (text: String)
    ensures
        text@ == decimal(n as nat),
    decreases n,
{
    let mut text = if n < 10 {
        String::new()
    } else {
        decimal_text(n / 10)
    };
    let last: u8 = (n % 10) as u8;
    text.push((48u8 + last) as char);
    proof {
        if n < 10 {
            assert(text@ =~= seq![digit(n as int)]);
        }
    }
    text
}

} // verus!
