//! Unsigned integers as bytes, in either byte order.

use vstd::arithmetic::div_mod::lemma_div_denominator;
use vstd::arithmetic::power::{lemma_pow_positive, pow};
use vstd::prelude::*;

verus! {

/// The order in which a machine stores the bytes of an integer.
#[derive(Debug, Clone, Copy, PartialEq, Eq, Structural)]
pub enum ByteOrder {
    /// Least significant byte first.
    Little,
    /// Most significant byte first.
    Big,
}

/// How many values `width` bytes can tell apart.
pub open spec fn span(width: nat) -> nat
    decreases width,
{
    if width == 0 {
        1
    } else {
        256 * span((width - 1) as nat)
    }
}

/// The lowest `width` base-256 digits of `value`, least significant first.
pub open spec fn digits(value: nat, width: nat) -> Seq<u8>
    decreases width,
{
    if width == 0 {
        Seq::empty()
    } else {
        seq![(value % 256) as u8] + digits(value / 256, (width - 1) as nat)
    }
}

/// The number whose base-256 digits are `bytes`, least significant first.
pub open spec fn number(bytes: Seq<u8>) -> nat
    decreases bytes.len(),
{
    if bytes.len() == 0 {
        0
    } else {
        bytes[0] as nat + 256 * number(bytes.drop_first())
    }
}

impl ByteOrder {
    /// `bytes` as they lie in memory, for digits given least significant first, and back.
    pub open spec fn arrange(self, bytes: Seq<u8>) -> Seq<u8> {
        match self {
            ByteOrder::Little => bytes,
            ByteOrder::Big => bytes.reverse(),
        }
    }

    /// The `width` bytes that hold `value` in memory.
    pub open spec fn encode(self, value: nat, width: nat) -> Seq<u8> {
        self.arrange(digits(value, width))
    }

    /// The value that `bytes` hold in memory.
    pub open spec fn decode(self, bytes: Seq<u8>) -> nat {
        number(self.arrange(bytes))
    }

    /// The byte order in which the number one has the given bytes.
    pub fn of_one(bytes: [u8; 4]) -> (order: ByteOrder)
        requires
            bytes@ == ByteOrder::Little.encode(1, 4) || bytes@ == ByteOrder::Big.encode(1, 4),
        ensures
            bytes@ == order.encode(1, 4),
            order is Little <==> bytes@ == seq![1u8, 0, 0, 0],
            order is Big <==> bytes@ == seq![0u8, 0, 0, 1],
    {
        proof {
            reveal_with_fuel(digits, 5);
            assert(digits(1, 4) =~= seq![1u8, 0, 0, 0]);
            assert(seq![1u8, 0, 0, 0].reverse() =~= seq![0u8, 0, 0, 1]);
            assert(seq![0u8, 0, 0, 1][0] != seq![1u8, 0, 0, 0][0]);
        }
        if bytes[0] == 1 {
            ByteOrder::Little
        } else {
            ByteOrder::Big
        }
    }
}

pub proof fn lemma_span_of_words()
    ensures
        span(4) == 0x1_0000_0000,
        span(8) == 0x1_0000_0000_0000_0000,
{
    reveal_with_fuel(span, 9);
}

proof fn lemma_span_grows(a: nat, b: nat)
    requires
        a <= b,
    ensures
        1 <= span(a) <= span(b),
    decreases b,
{
    if a < b {
        lemma_span_grows(a, (b - 1) as nat);
    } else if 0 < a {
        lemma_span_grows((a - 1) as nat, (b - 1) as nat);
    }
}

pub proof fn lemma_digits_len(value: nat, width: nat)
    ensures
        digits(value, width).len() == width,
    decreases width,
{
    if 0 < width {
        lemma_digits_len(value / 256, (width - 1) as nat);
    }
}

proof fn lemma_number_bounded(bytes: Seq<u8>)
    ensures
        number(bytes) < span(bytes.len()),
    decreases bytes.len(),
{
    if 0 < bytes.len() {
        lemma_number_bounded(bytes.drop_first());
    }
}

proof fn lemma_number_of_digits(value: nat, width: nat)
    requires
        value < span(width),
    ensures
        number(digits(value, width)) == value,
    decreases width,
{
    if 0 < width {
        let rest = digits(value / 256, (width - 1) as nat);
        lemma_number_of_digits(value / 256, (width - 1) as nat);
        assert(digits(value, width).drop_first() =~= rest);
    }
}

/// What `width` bytes hold can be read back from them, in either byte order.
pub proof fn law_decode_encode(order: ByteOrder, value: nat, width: nat)
    requires
        value < span(width),
    ensures
        order.encode(value, width).len() == width,
        order.decode(order.encode(value, width)) == value,
{
    lemma_digits_len(value, width);
    lemma_number_of_digits(value, width);
    assert(order.arrange(order.arrange(digits(value, width))) =~= digits(value, width));
}

proof fn lemma_span_is_power(width: nat)
    ensures
        span(width) == pow(256, width),
    decreases width,
{
    reveal(pow);
    if 0 < width {
        lemma_span_is_power((width - 1) as nat);
    }
}

proof fn lemma_digit(value: nat, width: nat, k: nat)
    requires
        k < width,
    ensures
        digits(value, width).len() == width,
        digits(value, width)[k as int] == (value as int / pow(256, k)) % 256,
    decreases width,
{
    lemma_digits_len(value, width);
    lemma_digits_len(value / 256, (width - 1) as nat);
    reveal(pow);
    if 0 < k {
        lemma_digit(value / 256, (width - 1) as nat, (k - 1) as nat);
        lemma_pow_positive(256, (k - 1) as nat);
        lemma_div_denominator(value as int, 256, pow(256, (k - 1) as nat));
        assert(digits(value, width)[k as int] == digits(value / 256, (width - 1) as nat)[k - 1]);
    }
}

proof fn lemma_digits_of_number(bytes: Seq<u8>)
    ensures
        digits(number(bytes), bytes.len()) == bytes,
    decreases bytes.len(),
{
    if 0 < bytes.len() {
        lemma_digits_of_number(bytes.drop_first());
        assert(digits(number(bytes), bytes.len()) =~= bytes);
    } else {
        assert(digits(number(bytes), bytes.len()) =~= bytes);
    }
}

/// Each byte of a value in memory is its base-256 digit: the one of weight 256^k lies at place k if
/// the least significant byte comes first, and at place k from the end if it comes last.
pub proof fn law_byte_is_digit(order: ByteOrder, value: nat, width: nat, k: nat)
    requires
        k < width,
    ensures
        order.encode(value, width).len() == width,
        order is Little ==> order.encode(value, width)[k as int] == (value as int / pow(256, k))
            % 256,
        order is Big ==> order.encode(value, width)[width - 1 - k] == (value as int / pow(256, k))
            % 256,
{
    lemma_digit(value, width, k);
}

/// The value that bytes hold is the number of which they are the base-256 digits: it needs no more
/// of them than there are, and each byte is its digit.
pub proof fn law_value_has_the_digits(order: ByteOrder, bytes: Seq<u8>, k: nat)
    requires
        k < bytes.len(),
    ensures
        0 <= order.decode(bytes) < pow(256, bytes.len()),
        order is Little ==> bytes[k as int] == (order.decode(bytes) as int / pow(256, k)) % 256,
        order is Big ==> bytes[bytes.len() - 1 - k] == (order.decode(bytes) as int / pow(256, k))
            % 256,
{
    let low_first = order.arrange(bytes);
    lemma_number_bounded(low_first);
    lemma_span_is_power(bytes.len());
    lemma_digits_of_number(low_first);
    lemma_digit(number(low_first), bytes.len(), k);
}

/// The value that four bytes hold, as a sum.
pub proof fn law_value_of_four_bytes(order: ByteOrder, bytes: Seq<u8>)
    requires
        bytes.len() == 4,
    ensures
        order is Little ==> order.decode(bytes) == bytes[0] + 0x100 * bytes[1] + 0x1_0000 * bytes[2]
            + 0x100_0000 * bytes[3],
        order is Big ==> order.decode(bytes) == bytes[3] + 0x100 * bytes[2] + 0x1_0000 * bytes[1]
            + 0x100_0000 * bytes[0],
{
    reveal_with_fuel(number, 5);
}

/// The value that eight bytes hold, as a sum.
pub proof fn law_value_of_eight_bytes(order: ByteOrder, bytes: Seq<u8>)
    requires
        bytes.len() == 8,
    ensures
        order is Little ==> order.decode(bytes) == bytes[0] + 0x100 * bytes[1] + 0x1_0000 * bytes[2]
            + 0x100_0000 * bytes[3] + 0x1_0000_0000 * bytes[4] + 0x100_0000_0000 * bytes[5]
            + 0x1_0000_0000_0000 * bytes[6] + 0x100_0000_0000_0000 * bytes[7],
        order is Big ==> order.decode(bytes) == bytes[7] + 0x100 * bytes[6] + 0x1_0000 * bytes[5]
            + 0x100_0000 * bytes[4] + 0x1_0000_0000 * bytes[3] + 0x100_0000_0000 * bytes[2]
            + 0x1_0000_0000_0000 * bytes[1] + 0x100_0000_0000_0000 * bytes[0],
{
    reveal_with_fuel(number, 9);
}

/// The bytes that hold `value`: the lowest `width` bytes of it, in the given order.
pub fn encode_uint(order: ByteOrder, value: u64, width: usize) -> (out: Vec<u8>)
    ensures
        out@ == order.encode(value as nat, width as nat),
        out@.len() == width,
        order is Little ==> forall|k: nat|
            k < width ==> out@[k as int] == (value as int / #[trigger] pow(256, k)) % 256,
        order is Big ==> forall|k: nat|
            k < width ==> out@[width - 1 - k] == (value as int / #[trigger] pow(256, k)) % 256,
{
    proof {
        lemma_digits_len(value as nat, width as nat);
        let bytes = order.encode(value as nat, width as nat);
        assert forall|k: nat| k < width implies bytes[if order is Little {
            k as int
        } else {
            width - 1 - k
        }] == (value as int / #[trigger] pow(256, k)) % 256 by {
            law_byte_is_digit(order, value as nat, width as nat, k);
        }
    }
    let mut low_first: Vec<u8> = Vec::new();
    let mut rest: u64 = value;
    let mut done: usize = 0;
    while done < width
        invariant
            done <= width,
            low_first@ + digits(rest as nat, (width - done) as nat) == digits(
                value as nat,
                width as nat,
            ),
        decreases width - done,
    {
        let ghost before = low_first@;
        let ghost left = (width - done) as nat;
        proof {
            assert(digits(rest as nat, left) == seq![(rest as nat % 256) as u8] + digits(
                rest as nat / 256,
                (left - 1) as nat,
            ));
        }
        low_first.push((rest % 256) as u8);
        rest = rest / 256;
        done = done + 1;
        assert(low_first@ + digits(rest as nat, (left - 1) as nat) =~= before + (seq![
            low_first@[before.len() as int],
        ] + digits(rest as nat, (left - 1) as nat)));
    }
    assert(low_first@ =~= digits(value as nat, width as nat));
    match order {
        ByteOrder::Little => low_first,
        ByteOrder::Big => {
            let mut out: Vec<u8> = Vec::new();
            let mut left: usize = low_first.len();
            while 0 < left
                invariant
                    left <= low_first@.len(),
                    out@ == low_first@.skip(left as int).reverse(),
                decreases left,
            {
                left = left - 1;
                out.push(low_first[left]);
                assert(out@ =~= low_first@.skip(left as int).reverse());
            }
            assert(low_first@.skip(0) =~= low_first@);
            out
        },
    }
}

/// The value that the `width` bytes of `buffer` from `at` on hold.
pub fn decode_uint(order: ByteOrder, buffer: &[u8], at: usize, width: usize) -> (value: u64)
    requires
        width <= 8,
        at + width <= buffer@.len(),
    ensures
        value == order.decode(buffer@.subrange(at as int, at + width)),
        value < span(width as nat),
        value < pow(256, width as nat),
        order is Little ==> forall|k: nat|
            k < width ==> buffer@[at + k] == (value as int / #[trigger] pow(256, k)) % 256,
        order is Big ==> forall|k: nat|
            k < width ==> buffer@[at + width - 1 - k] == (value as int / #[trigger] pow(256, k))
                % 256,
{
    let ghost low_first = order.arrange(buffer@.subrange(at as int, at + width));
    let len: usize = buffer.len();
    let mut value: u64 = 0;
    let mut left: usize = width;
    while 0 < left
        invariant
            left <= width <= 8,
            at + width <= len == buffer@.len(),
            low_first == order.arrange(buffer@.subrange(at as int, at + width)),
            low_first.len() == width,
            value == number(low_first.skip(left as int)),
        decreases left,
    {
        left = left - 1;
        let byte: u8 = match order {
            ByteOrder::Little => buffer[at + left],
            ByteOrder::Big => buffer[at + (width - 1 - left)],
        };
        proof {
            let tail = low_first.skip(left as int);
            assert(tail.drop_first() =~= low_first.skip(left + 1));
            assert(byte == tail[0]);
            lemma_number_bounded(tail);
            lemma_span_grows(tail.len(), 8);
            lemma_span_of_words();
        }
        value = value * 256 + byte as u64;
    }
    proof {
        assert(low_first.skip(0) =~= low_first);
        lemma_number_bounded(low_first);
        lemma_span_is_power(width as nat);
        let read = buffer@.subrange(at as int, at + width);
        assert forall|k: nat| k < width implies buffer@[if order is Little {
            at + k
        } else {
            at + width - 1 - k
        }] == (value as int / #[trigger] pow(256, k)) % 256 by {
            law_value_has_the_digits(order, read, k);
        }
    }
    value
}

} // verus!
