//! Numbers and line ends in text.

use vstd::arithmetic::div_mod::lemma_div_denominator;
use vstd::arithmetic::power::{lemma_pow_positive, pow};
use vstd::prelude::*;
use vstd::string::StringExecFns;

verus! {

/// The decimal digits of `n`, without leading zeros.
pub open spec fn decimal(n: nat) -> Seq<char>
    decreases n,
{
    if n < 10 {
        seq![(48 + n) as char]
    } else {
        decimal(n / 10).push((48 + n % 10) as char)
    }
}

/// The digits of a number, in arithmetic: the one of weight 10^k stands k places from the end, there
/// are as many as the number needs, and one at least.
pub proof fn law_decimal_digits(n: nat)
    ensures
        0 < decimal(n).len(),
        n < pow(10, decimal(n).len()),
        1 < decimal(n).len() ==> pow(10, (decimal(n).len() - 1) as nat) <= n,
        forall|k: nat|
            k < decimal(n).len() ==> decimal(n)[decimal(n).len() - 1 - k] as int == 48 + (n as int
                / #[trigger] pow(10, k)) % 10,
    decreases n,
{
    reveal(pow);
    let len = decimal(n).len();
    if n < 10 {
        assert(pow(10, 1) == 10 * pow(10, 0));
        assert(n as int / 1 == n);
    } else {
        law_decimal_digits(n / 10);
        let rest = decimal(n / 10);
        assert(pow(10, len) == 10 * pow(10, rest.len()));
        assert(pow(10, rest.len()) == 10 * pow(10, (rest.len() - 1) as nat));
        assert(pow(10, 0) == 1);
        assert forall|k: nat| k < len implies decimal(n)[len - 1 - k] as int == 48 + (n as int
            / #[trigger] pow(10, k)) % 10 by {
            if 0 < k {
                let j = (k - 1) as nat;
                assert(decimal(n)[len - 1 - k] == rest[rest.len() - 1 - j]);
                assert(pow(10, k) == 10 * pow(10, j));
                lemma_pow_positive(10, j);
                lemma_div_denominator(n as int, 10, pow(10, j));
                assert((n / 10) as int / pow(10, j) == n as int / pow(10, k));
            } else {
                assert(n as int / 1 == n);
            }
        }
    }
}

/// One decimal digit.
fn digit_text(d: usize) -> (text: &'static str)
    requires
        d < 10,
    ensures
        text@ == seq![(48 + d) as char],
{
    proof {
        reveal_strlit("0");
        reveal_strlit("1");
        reveal_strlit("2");
        reveal_strlit("3");
        reveal_strlit("4");
        reveal_strlit("5");
        reveal_strlit("6");
        reveal_strlit("7");
        reveal_strlit("8");
        reveal_strlit("9");
    }
    match d {
        0 => "0",
        1 => "1",
        2 => "2",
        3 => "3",
        4 => "4",
        5 => "5",
        6 => "6",
        7 => "7",
        8 => "8",
        _ => "9",
    }
}

/// `n` in decimal.
pub fn decimal_text(n: usize) -> (text: String)
    ensures
        text@ == decimal(n as nat),
        0 < text@.len(),
        n < pow(10, text@.len()),
        1 < text@.len() ==> pow(10, (text@.len() - 1) as nat) <= n,
        forall|k: nat|
            k < text@.len() ==> text@[text@.len() - 1 - k] as int == 48 + (n as int
                / #[trigger] pow(10, k)) % 10,
    decreases n,
{
    proof {
        law_decimal_digits(n as nat);
    }
    if n < 10 {
        digit_text(n).to_string()
    } else {
        let mut text: String = decimal_text(n / 10);
        let last: &str = digit_text(n % 10);
        text.append(last);
        assert(text@ =~= decimal(n as nat));
        text
    }
}

/// The characters with the Unicode property `White_Space`.
pub open spec fn is_white_space(c: char) -> bool {
    ||| 0x9 <= c as u32 <= 0xd
    ||| c as u32 == 0x20
    ||| c as u32 == 0x85
    ||| c as u32 == 0xa0
    ||| c as u32 == 0x1680
    ||| 0x2000 <= c as u32 <= 0x200a
    ||| c as u32 == 0x2028
    ||| c as u32 == 0x2029
    ||| c as u32 == 0x202f
    ||| c as u32 == 0x205f
    ||| c as u32 == 0x3000
}

/// `text` without the white space at its end.
pub open spec fn trimmed_end(text: Seq<char>) -> Seq<char>
    decreases text.len(),
{
    if 0 < text.len() && is_white_space(text.last()) {
        trimmed_end(text.drop_last())
    } else {
        text
    }
}

/// Which characters are white space, by their code points.
pub proof fn law_white_space(c: char)
    ensures
        is_white_space(c) <==> {
            let point = c as int;
            ||| point == 9 || point == 10 || point == 11 || point == 12 || point == 13
            ||| point == 32 || point == 133 || point == 160 || point == 5760
            ||| 8192 <= point <= 8202
            ||| point == 8232 || point == 8233 || point == 8239 || point == 8287 || point == 12288
        },
{
}

/// What is left of a text is its beginning up to the last character that is not white space: all
/// that is cut off is white space, and what is left does not end in any.
pub proof fn law_trimmed(text: Seq<char>)
    ensures
        ({
            let left = trimmed_end(text);
            &&& left.len() <= text.len()
            &&& left == text.take(left.len() as int)
            &&& forall|i: int| left.len() <= i < text.len() ==> is_white_space(#[trigger] text[i])
            &&& 0 < left.len() ==> !is_white_space(left.last())
        }),
    decreases text.len(),
{
    if 0 < text.len() && is_white_space(text.last()) {
        law_trimmed(text.drop_last());
        let left = trimmed_end(text);
        assert(left =~= text.take(left.len() as int));
        assert forall|i: int| left.len() <= i < text.len() implies is_white_space(
            #[trigger] text[i],
        ) by {
            if i < text.len() - 1 {
                assert(text.drop_last()[i] == text[i]);
            }
        }
    } else {
        assert(text =~= text.take(text.len() as int));
    }
}

/// White space put behind a text makes no difference to what is left of it. So of a text that does
/// not itself end in white space, all is left.
pub proof fn law_only_line_end_trimmed(text: Seq<char>, end: Seq<char>)
    requires
        forall|i: int| 0 <= i < end.len() ==> is_white_space(#[trigger] end[i]),
    ensures
        trimmed_end(text + end) == trimmed_end(text),
        text.len() == 0 || !is_white_space(text.last()) ==> trimmed_end(text + end) == text,
    decreases end.len(),
{
    if end.len() == 0 {
        assert(text + end =~= text);
    } else {
        assert((text + end).drop_last() =~= text + end.drop_last());
        assert((text + end).last() == end[end.len() - 1]);
        law_only_line_end_trimmed(text, end.drop_last());
    }
}

/// `str::trim_end`: what is left of `text` when all white space at its end, in the sense of the
/// Unicode property `White_Space`, is taken away.
pub assume_specification[ str::trim_end ](text: &str) -> (trimmed: &str)
    ensures
        trimmed@ == trimmed_end(text@),
;

} // verus!
