//! Headers seen as text: the pieces that a header is written with, and what
//! the parser makes of them.

use vstd::prelude::*;
use vstd::seq_lib::lemma_concat_associative;
use crate::error::{ErrorKind, Outcome};
use crate::header::{
    data_type_of, dimension_outcome, field, field_end, field_start, header_outcome,
    max_value_outcome, Header,
};
use crate::number::{decimal_value, digit_value, is_decimal};
use crate::scan::{all_in, lemma_run_end_between, stops, ByteClass};

verus! {

/// A header as it is written: the type digit, and each numeric field with
/// the whitespace in front of it, and the whitespace behind the last field.
pub struct HeaderText {
    pub digit: u8,
    pub width_gap: Seq<u8>,
    pub width: Seq<u8>,
    pub height_gap: Seq<u8>,
    pub height: Seq<u8>,
    pub max_gap: Seq<u8>,
    pub max_value: Seq<u8>,
    pub tail_gap: Seq<u8>,
}

impl HeaderText {
    /// The bytes of the header, piece after piece.
    pub open spec fn bytes(self) -> Seq<u8> {
        seq![0x50u8, self.digit] + self.width_gap + self.width + self.height_gap + self.height
            + self.max_gap + self.max_value + self.tail_gap
    }

    /// The type digit is `3` or `6`, the gaps are whitespace, the gaps
    /// between two numbers are not empty, and each field is a non-empty
    /// sequence of decimal digits.
    pub open spec fn is_laid_out(self) -> bool {
        &&& self.digit == 0x33 || self.digit == 0x36
        &&& all_in(self.width_gap, ByteClass::Whitespace)
        &&& all_in(self.height_gap, ByteClass::Whitespace)
        &&& all_in(self.max_gap, ByteClass::Whitespace)
        &&& all_in(self.tail_gap, ByteClass::Whitespace)
        &&& self.height_gap.len() > 0
        &&& self.max_gap.len() > 0
        &&& is_decimal(self.width)
        &&& is_decimal(self.height)
        &&& is_decimal(self.max_value)
    }

    /// Where the width field begins.
    pub open spec fn width_offset(self) -> int {
        2 + self.width_gap.len() as int
    }

    /// Where the height field begins.
    pub open spec fn height_offset(self) -> int {
        self.width_offset() + self.width.len() + self.height_gap.len()
    }

    /// Where the field of the maximum intensity begins.
    pub open spec fn max_offset(self) -> int {
        self.height_offset() + self.height.len() + self.max_gap.len()
    }

    /// What the three numbers amount to: the header they write, or the
    /// error of the first one that is out of range, at the offset of its
    /// field.
    pub open spec fn outcome(self) -> Outcome<Header> {
        match dimension_outcome(self.width) {
            Err(kind) => Outcome::Fail(kind, self.width_offset()),
            Ok(width) => match dimension_outcome(self.height) {
                Err(kind) => Outcome::Fail(kind, self.height_offset()),
                Ok(height) => match max_value_outcome(self.max_value) {
                    Err(kind) => Outcome::Fail(kind, self.max_offset()),
                    Ok(max_value) => Outcome::Done(
                        Header { data_type: data_type_of(self.digit), width, height, max_value },
                        self.bytes().len() as int,
                    ),
                },
            },
        }
    }

    /// The header is laid out and its three numbers are in range.
    pub open spec fn is_well_formed(self) -> bool {
        &&& self.is_laid_out()
        &&& dimension_outcome(self.width) is Ok
        &&& dimension_outcome(self.height) is Ok
        &&& max_value_outcome(self.max_value) is Ok
    }

    /// The header that the pieces write.
    pub open spec fn header(self) -> Header {
        Header {
            data_type: data_type_of(self.digit),
            width: dimension_outcome(self.width).unwrap(),
            height: dimension_outcome(self.height).unwrap(),
            max_value: max_value_outcome(self.max_value).unwrap(),
        }
    }

    /// `rest` can stand behind the header without running into it: it does
    /// not begin with whitespace, nor, where no whitespace ends the header,
    /// with a letter or a digit.
    pub open spec fn may_precede(self, rest: Seq<u8>) -> bool {
        &&& stops(rest, ByteClass::Whitespace)
        &&& self.tail_gap.len() > 0 || stops(rest, ByteClass::Alphanumeric)
    }

    /// The same header with the width and height fields exchanged.
    pub open spec fn transposed(self) -> HeaderText {
        HeaderText { width: self.height, height: self.width, ..self }
    }
}

/// A decimal number is a run of letters and digits and does not begin with
/// whitespace.
proof fn lemma_decimal_is_field(digits: Seq<u8>)
    requires
        is_decimal(digits),
    ensures
        digits.len() > 0,
        all_in(digits, ByteClass::Alphanumeric),
        !ByteClass::Whitespace.holds(digits[0]),
{
    assert forall|i: int| 0 <= i < digits.len() implies ByteClass::Alphanumeric.holds(
        #[trigger] digits[i],
    ) by {
        assert(digit_value(digits[i]) < 10);
    }
    assert(digit_value(digits[0]) < 10);
}

/// Where a gap of whitespace and then a decimal number stand behind
/// `prefix`, and what follows is no letter or digit, the field behind
/// `prefix` is that number.
proof fn lemma_field_between(prefix: Seq<u8>, gap: Seq<u8>, digits: Seq<u8>, suffix: Seq<u8>)
    requires
        all_in(gap, ByteClass::Whitespace),
        is_decimal(digits),
        stops(suffix, ByteClass::Alphanumeric),
    ensures
        field_start(prefix + gap + digits + suffix, prefix.len() as int) == prefix.len()
            + gap.len(),
        field_end(prefix + gap + digits + suffix, prefix.len() as int) == prefix.len() + gap.len()
            + digits.len(),
        field(prefix + gap + digits + suffix, prefix.len() as int) == digits,
{
    let s = prefix + gap + digits + suffix;
    lemma_decimal_is_field(digits);
    assert(stops(digits + suffix, ByteClass::Whitespace)) by {
        assert((digits + suffix)[0] == digits[0]);
    }
    lemma_concat_associative(prefix + gap, digits, suffix);
    lemma_run_end_between(prefix, gap, digits + suffix, ByteClass::Whitespace);
    lemma_run_end_between(prefix + gap, digits, suffix, ByteClass::Alphanumeric);
    let start = (prefix.len() + gap.len()) as int;
    assert(s.subrange(start, start + digits.len()) =~= digits);
}

/// A header that is laid out parses to what its three numbers amount to,
/// whatever whitespace separates them: to the header they write, where
/// parsing stops at the end of the text, or to the error of the first
/// number that is out of range.
pub proof fn lemma_header_of_layout(text: HeaderText, rest: Seq<u8>)
    requires
        text.is_laid_out(),
        text.may_precede(rest),
    ensures
        header_outcome(text.bytes() + rest) == text.outcome(),
{
    let s = text.bytes() + rest;
    let magic = seq![0x50u8, text.digit];
    let to_width = magic + text.width_gap + text.width;
    let to_height = to_width + text.height_gap + text.height;
    let to_max = to_height + text.max_gap + text.max_value;
    let after_max = text.tail_gap + rest;
    let after_height = text.max_gap + (text.max_value + after_max);
    let after_width = text.height_gap + (text.height + after_height);
    assert(s == to_max + text.tail_gap + rest);
    assert(s[0] == 0x50 && s[1] == text.digit && s.len() >= 2) by {
        assert(text.bytes()[0] == magic[0] && text.bytes()[1] == magic[1]);
    }

    // The whitespace behind the last field.
    lemma_run_end_between(to_max, text.tail_gap, rest, ByteClass::Whitespace);

    // The maximum intensity.
    assert(stops(after_max, ByteClass::Alphanumeric)) by {
        if text.tail_gap.len() > 0 {
            assert(after_max[0] == text.tail_gap[0]);
        } else {
            assert(after_max =~= rest);
        }
    }
    lemma_concat_associative(to_max, text.tail_gap, rest);
    assert(s == to_height + text.max_gap + text.max_value + after_max);
    lemma_field_between(to_height, text.max_gap, text.max_value, after_max);

    // The height.
    assert(stops(after_height, ByteClass::Alphanumeric)) by {
        assert(after_height[0] == text.max_gap[0]);
    }
    lemma_concat_associative(to_height + text.max_gap, text.max_value, after_max);
    lemma_concat_associative(to_height, text.max_gap, text.max_value + after_max);
    assert(s == to_width + text.height_gap + text.height + after_height);
    lemma_field_between(to_width, text.height_gap, text.height, after_height);

    // The width.
    assert(stops(after_width, ByteClass::Alphanumeric)) by {
        assert(after_width[0] == text.height_gap[0]);
    }
    lemma_concat_associative(to_width + text.height_gap, text.height, after_height);
    lemma_concat_associative(to_width, text.height_gap, text.height + after_height);
    assert(s == magic + text.width_gap + text.width + after_width);
    lemma_field_between(magic, text.width_gap, text.width, after_width);

    assert(magic.len() == 2);
    assert(to_width.len() == 2 + text.width_gap.len() + text.width.len());
    assert(to_height.len() == to_width.len() + text.height_gap.len() + text.height.len());
    assert(to_max.len() == to_height.len() + text.max_gap.len() + text.max_value.len());
    assert(text.bytes().len() == to_max.len() + text.tail_gap.len());
}

/// A well-formed header parses to the values of its fields, and parsing
/// stops where the header ends.
pub proof fn lemma_header_of_fields(text: HeaderText, rest: Seq<u8>)
    requires
        text.is_well_formed(),
        text.may_precede(rest),
    ensures
        header_outcome(text.bytes() + rest) == Outcome::Done(
            text.header(),
            text.bytes().len() as int,
        ),
{
    lemma_header_of_layout(text, rest);
}

/// Exchanging the width and height fields of a well-formed header exchanges
/// the width and height of the result and changes nothing else.
pub proof fn lemma_header_transposed(text: HeaderText, rest: Seq<u8>)
    requires
        text.is_well_formed(),
        text.may_precede(rest),
    ensures
        header_outcome(text.bytes() + rest) == Outcome::Done(
            text.header(),
            text.bytes().len() as int,
        ),
        header_outcome(text.transposed().bytes() + rest) == Outcome::Done(
            Header {
                width: text.header().height,
                height: text.header().width,
                ..text.header()
            },
            text.bytes().len() as int,
        ),
{
    lemma_header_of_layout(text, rest);
    lemma_header_of_layout(text.transposed(), rest);
}

/// Two well-formed headers that parse to the same result have the same type
/// digit and write the same three numbers: no two different headers are
/// taken for one another.
pub proof fn lemma_header_injective(a: HeaderText, a_rest: Seq<u8>, b: HeaderText, b_rest: Seq<u8>)
    requires
        a.is_well_formed(),
        a.may_precede(a_rest),
        b.is_well_formed(),
        b.may_precede(b_rest),
        header_outcome(a.bytes() + a_rest)->Done_0 == header_outcome(b.bytes() + b_rest)->Done_0,
    ensures
        a.digit == b.digit,
        decimal_value(a.width) == decimal_value(b.width),
        decimal_value(a.height) == decimal_value(b.height),
        decimal_value(a.max_value) == decimal_value(b.max_value),
{
    lemma_header_of_layout(a, a_rest);
    lemma_header_of_layout(b, b_rest);
}

/// A header whose dimensions are in range and whose maximum intensity is
/// written as zero fails with `InvalidMaxValue` at that field.
pub proof fn lemma_zero_max_value(text: HeaderText, rest: Seq<u8>)
    requires
        text.is_laid_out(),
        text.may_precede(rest),
        dimension_outcome(text.width) is Ok,
        dimension_outcome(text.height) is Ok,
        decimal_value(text.max_value) == 0,
    ensures
        header_outcome(text.bytes() + rest) == Outcome::<Header>::Fail(
            ErrorKind::InvalidMaxValue,
            text.max_offset(),
        ),
{
    lemma_header_of_layout(text, rest);
}

} // verus!
