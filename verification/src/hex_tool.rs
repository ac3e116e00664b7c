//! The pieces of a hexadecimal file tool: reading an offset, reading a
//! string of hexadecimal byte pairs, and laying bytes out as dump lines.

use crate::numeral::{
    parse_unsigned, spec_all_digits, spec_digit, spec_digits_value, spec_parse_unsigned,
    spec_unsigned_digits,
};
use vstd::prelude::*;
use vstd::slice::slice_subrange;
use vstd::string::StringSliceAdditionalSpecFns;

verus! {

/// Why a string is no offset.
#[derive(Clone, Copy, Debug, PartialEq, Eq, Structural)]
pub enum OffsetError {
    /// It begins with `0x`, and what follows is no hexadecimal number that
    /// fits in 64 bits.
    InvalidHex,
    /// It does not begin with `0x` and is no decimal number that fits in 64
    /// bits.
    InvalidDecimal,
}

/// Whether `text` begins with the two characters `0x`.
pub open spec fn spec_has_hex_prefix(text: Seq<u8>) -> bool {
    text.len() >= 2 && text[0] == 0x30 && text[1] == 0x78
}

/// The offset that `text` spells: hexadecimal after a leading `0x`, decimal
/// otherwise.
pub open spec fn spec_parse_offset(text: Seq<u8>) -> Result<u64, OffsetError> {
    if spec_has_hex_prefix(text) {
        match spec_parse_unsigned(text.subrange(2, text.len() as int), 16, u64::MAX as int) {
            Some(value) => Ok(value as u64),
            None => Err(OffsetError::InvalidHex),
        }
    } else {
        match spec_parse_unsigned(text, 10, u64::MAX as int) {
            Some(value) => Ok(value as u64),
            None => Err(OffsetError::InvalidDecimal),
        }
    }
}

/// Reads an offset given in decimal, or in hexadecimal after `0x`, and says
/// which kind of number was expected when it is none.
pub fn try_parse_offset(offset_str: &str) -> (offset: Result<u64, OffsetError>)
    ensures
        offset == spec_parse_offset(offset_str.spec_bytes()),
{
    let text = offset_str.as_bytes();
    if text.len() >= 2 && text[0] == 0x30 && text[1] == 0x78 {
        match parse_unsigned(slice_subrange(text, 2, text.len()), 16, u64::MAX) {
            Some(value) => Ok(value),
            None => Err(OffsetError::InvalidHex),
        }
    } else {
        match parse_unsigned(text, 10, u64::MAX) {
            Some(value) => Ok(value),
            None => Err(OffsetError::InvalidDecimal),
        }
    }
}

/// Reads an offset given in decimal, or in hexadecimal after `0x`.
///
/// The string must spell an offset; [`try_parse_offset`] tells whether it
/// does.
pub fn parse_offset(offset_str: &str) -> (offset: u64)
    requires
        spec_parse_offset(offset_str.spec_bytes()) is Ok,
    ensures
        spec_parse_offset(offset_str.spec_bytes()) == Ok::<u64, OffsetError>(offset),
{
    match try_parse_offset(offset_str) {
        Ok(offset) => offset,
        Err(_) => 0,
    }
}

/// The byte that the `k`-th pair of characters of `text` spells, if it
/// spells one: two hexadecimal digits, or a `+` and one digit.
pub open spec fn spec_hex_pair(text: Seq<u8>, k: int) -> Option<int> {
    spec_parse_unsigned(text.subrange(2 * k, 2 * k + 2), 16, 255)
}

/// Whether `text` is a string of byte pairs: of even length, each pair
/// spelling a byte.
pub open spec fn spec_is_hex_string(text: Seq<u8>) -> bool {
    &&& text.len() % 2 == 0
    &&& forall|k: int| 0 <= k < text.len() / 2 ==> (#[trigger] spec_hex_pair(text, k)) is Some
}

/// The bytes that a string of byte pairs spells.
pub open spec fn spec_decode_hex(text: Seq<u8>) -> Seq<u8> {
    Seq::new(
        text.len() / 2,
        |k: int|
            match spec_hex_pair(text, k) {
                Some(value) => value as u8,
                None => 0u8,
            },
    )
}

/// Reads a string of hexadecimal byte pairs, such as `48656c6c6f`.
///
/// Each pair is read as a number in its own right, so a `+` may stand in
/// place of a leading zero. Returns `None` exactly when the string has odd
/// length or one of its pairs spells no byte.
pub fn decode_hex(hex: &str) -> (bytes: Option<Vec<u8>>)
    ensures
        bytes is Some <==> spec_is_hex_string(hex.spec_bytes()),
        bytes matches Some(v) ==> v@ == spec_decode_hex(hex.spec_bytes()),
{
    let text = hex.as_bytes();
    if text.len() % 2 != 0 {
        return None;
    }
    let count = text.len() / 2;
    let mut bytes: Vec<u8> = Vec::with_capacity(count);
    let mut k: usize = 0;
    while k < count
        invariant
            text@ == hex.spec_bytes(),
            text@.len() == 2 * count,
            2 * count <= usize::MAX,
            k <= count,
            bytes@.len() == k,
            forall|j: int| 0 <= j < k ==> (#[trigger] spec_hex_pair(text@, j)) == Some(bytes@[j] as int),
        decreases count - k,
    {
        match parse_unsigned(slice_subrange(text, 2 * k, 2 * k + 2), 16, 255) {
            Some(value) => {
                bytes.push(value as u8);
            },
            None => {
                assert(spec_hex_pair(text@, k as int) is None);
                return None;
            },
        }
        k += 1;
    }
    Some(bytes)
}

/// The number of bytes shown on one full dump line.
pub const BYTES_PER_LINE: usize = 16;

/// The least number of digits in which an offset is shown.
pub const OFFSET_WIDTH: usize = 8;

/// The lower-case hexadecimal digit for a value below sixteen.
pub open spec fn spec_hex_digit(value: int) -> u8
    recommends
        0 <= value < 16,
{
    if value < 10 {
        (0x30 + value) as u8
    } else {
        (0x61 + value - 10) as u8
    }
}

/// `n` in hexadecimal, without leading zeros.
pub open spec fn spec_hex_digits(n: nat) -> Seq<u8>
    decreases n,
{
    if n < 16 {
        seq![spec_hex_digit(n as int)]
    } else {
        spec_hex_digits(n / 16).push(spec_hex_digit((n % 16) as int))
    }
}

/// `digits` with zeros in front up to `width`; longer strings stay as they
/// are.
pub open spec fn spec_zero_padded(digits: Seq<u8>, width: nat) -> Seq<u8> {
    if digits.len() < width {
        Seq::new((width - digits.len()) as nat, |i: int| 0x30u8) + digits
    } else {
        digits
    }
}

/// The offset as it stands at the start of a dump line: hexadecimal, at
/// least eight digits.
pub open spec fn spec_offset_label(offset: u64) -> Seq<u8> {
    spec_zero_padded(spec_hex_digits(offset as nat), OFFSET_WIDTH as nat)
}

/// One byte as two hexadecimal digits and a space.
pub open spec fn spec_hex_cell(byte: u8) -> Seq<u8> {
    seq![spec_hex_digit((byte / 16) as int), spec_hex_digit((byte % 16) as int), 0x20u8]
}

/// The bytes of a chunk, each as a cell, in order.
pub open spec fn spec_hex_cells(chunk: Seq<u8>) -> Seq<u8>
    decreases chunk.len(),
{
    if chunk.len() == 0 {
        Seq::empty()
    } else {
        spec_hex_cells(chunk.drop_last()) + spec_hex_cell(chunk.last())
    }
}

/// The blanks that stand for the bytes a short chunk lacks: three for each.
pub open spec fn spec_missing_cells(present: nat) -> Seq<u8> {
    if present < BYTES_PER_LINE {
        Seq::new((3 * (BYTES_PER_LINE - present)) as nat, |i: int| 0x20u8)
    } else {
        Seq::empty()
    }
}

/// A byte as it stands in the text column: itself when it is printable
/// ASCII, a dot otherwise.
pub open spec fn spec_printable(byte: u8) -> u8 {
    if 32 <= byte <= 126 {
        byte
    } else {
        0x2e
    }
}

/// The text column of a chunk.
pub open spec fn spec_text_column(chunk: Seq<u8>) -> Seq<u8> {
    Seq::new(chunk.len(), |i: int| spec_printable(chunk[i]))
}

/// One dump line, without a line ending: the offset, a colon and a space,
/// the cells, blanks for missing cells, a space, and the text column between
/// bars.
pub open spec fn spec_dump_line(offset: u64, chunk: Seq<u8>) -> Seq<u8> {
    spec_offset_label(offset) + seq![0x3au8, 0x20u8] + spec_hex_cells(chunk) + spec_missing_cells(
        chunk.len(),
    ) + seq![0x20u8, 0x7cu8] + spec_text_column(chunk) + seq![0x7cu8]
}

/// The number of dump lines that `len` bytes take.
pub open spec fn spec_line_count(len: nat) -> nat {
    (len + BYTES_PER_LINE - 1) as nat / BYTES_PER_LINE as nat
}

/// The bytes shown on line `index` of a dump of `data`.
pub open spec fn spec_chunk(data: Seq<u8>, index: int) -> Seq<u8> {
    data.subrange(
        BYTES_PER_LINE * index,
        if BYTES_PER_LINE * index + BYTES_PER_LINE <= data.len() {
            BYTES_PER_LINE * index + BYTES_PER_LINE
        } else {
            data.len() as int
        },
    )
}

/// The offset shown on line `index` of a dump that starts at `offset`. It
/// wraps at 2^64.
pub open spec fn spec_line_offset(offset: u64, index: int) -> u64 {
    ((offset + BYTES_PER_LINE * index) % 0x1_0000_0000_0000_0000) as u64
}

/// The digit for a value below sixteen.
fn hex_digit(value: u8) -> (digit: u8)
    requires
        value < 16,
    ensures
        digit == spec_hex_digit(value as int),
{
    if value < 10 {
        0x30 + value
    } else {
        0x61 + (value - 10)
    }
}

/// Writes an offset in hexadecimal with at least eight digits.
pub fn offset_label(offset: u64) -> (label: Vec<u8>)
    ensures
        label@ == spec_offset_label(offset),
{
    let mut backwards: Vec<u8> = Vec::new();
    let mut rest: u64 = offset;
    while rest >= 16
        invariant
            spec_hex_digits(offset as nat) == spec_hex_digits(rest as nat) + backwards@.reverse(),
        decreases rest,
    {
        backwards.push(hex_digit((rest % 16) as u8));
        rest = rest / 16;
    }
    backwards.push(hex_digit(rest as u8));
    let ghost digits = backwards@;
    while backwards.len() < OFFSET_WIDTH
        invariant
            digits.len() <= backwards@.len(),
            digits.len() < OFFSET_WIDTH ==> backwards@.len() <= OFFSET_WIDTH,
            digits.len() >= OFFSET_WIDTH ==> backwards@ == digits,
            backwards@.subrange(0, digits.len() as int) == digits,
            forall|i: int| digits.len() <= i < backwards@.len() ==> backwards@[i] == 0x30u8,
        decreases OFFSET_WIDTH - backwards@.len(),
    {
        backwards.push(0x30);
    }
    let mut label: Vec<u8> = Vec::with_capacity(backwards.len());
    let mut k: usize = backwards.len();
    while k > 0
        invariant
            k <= backwards@.len(),
            label@.len() == backwards@.len() - k,
            forall|i: int|
                0 <= i < label@.len() ==> label@[i] == backwards@[backwards@.len() - 1 - i],
        decreases k,
    {
        k -= 1;
        label.push(backwards[k]);
    }
    assert(label@ =~= spec_zero_padded(digits.reverse(), OFFSET_WIDTH as nat));
    label
}

/// Lays out one dump line, without a line ending.
pub fn dump_line(offset: u64, chunk: &[u8]) -> (line: Vec<u8>)
    ensures
        line@ == spec_dump_line(offset, chunk@),
{
    let mut line = offset_label(offset);
    line.push(0x3a);
    line.push(0x20);
    let ghost head = line@;
    let mut i: usize = 0;
    while i < chunk.len()
        invariant
            i <= chunk@.len(),
            line@ == head + spec_hex_cells(chunk@.take(i as int)),
        decreases chunk@.len() - i,
    {
        let byte = chunk[i];
        line.push(hex_digit(byte / 16));
        line.push(hex_digit(byte % 16));
        line.push(0x20);
        proof {
            assert(chunk@.take(i + 1).drop_last() =~= chunk@.take(i as int));
        }
        i += 1;
    }
    assert(chunk@.take(i as int) =~= chunk@);
    let ghost cells = line@;
    if chunk.len() < BYTES_PER_LINE {
        let missing: usize = 3 * (BYTES_PER_LINE - chunk.len());
        let mut j: usize = 0;
        while j < missing
            invariant
                j <= missing,
                line@.len() == cells.len() + j,
                line@.subrange(0, cells.len() as int) == cells,
                forall|k: int| cells.len() <= k < line@.len() ==> line@[k] == 0x20u8,
            decreases missing - j,
        {
            line.push(0x20);
            j += 1;
        }
    }
    assert(line@ =~= cells + spec_missing_cells(chunk@.len()));
    line.push(0x20);
    line.push(0x7c);
    let ghost middle = line@;
    let mut t: usize = 0;
    while t < chunk.len()
        invariant
            t <= chunk@.len(),
            line@.len() == middle.len() + t,
            line@.subrange(0, middle.len() as int) == middle,
            forall|k: int| 0 <= k < t ==> line@[middle.len() + k] == spec_printable(chunk@[k]),
        decreases chunk@.len() - t,
    {
        let byte = chunk[t];
        if 32 <= byte && byte <= 126 {
            line.push(byte);
        } else {
            line.push(0x2e);
        }
        t += 1;
    }
    assert(line@ =~= middle + spec_text_column(chunk@));
    line.push(0x7c);
    line
}

/// Lays out `data` as dump lines of sixteen bytes each, the last one
/// shorter if need be. The first line is labelled `offset`, each further
/// line sixteen more.
pub fn hex_dump(offset: u64, data: &[u8]) -> (lines: Vec<Vec<u8>>)
    ensures
        lines@.len() == spec_line_count(data@.len()),
        forall|i: int|
            0 <= i < lines@.len() ==> (#[trigger] lines@[i])@ == spec_dump_line(
                spec_line_offset(offset, i),
                spec_chunk(data@, i),
            ),
{
    let mut lines: Vec<Vec<u8>> = Vec::new();
    let mut start: usize = 0;
    let mut label: u64 = offset;
    while start < data.len()
        invariant
            start <= data@.len(),
            start == BYTES_PER_LINE * lines@.len() || start == data@.len(),
            lines@.len() == spec_line_count(start as nat),
            label == spec_line_offset(offset, lines@.len() as int),
            forall|i: int|
                0 <= i < lines@.len() ==> (#[trigger] lines@[i])@ == spec_dump_line(
                    spec_line_offset(offset, i),
                    spec_chunk(data@, i),
                ),
        decreases data@.len() - start,
    {
        let end: usize = if data.len() - start >= BYTES_PER_LINE {
            start + BYTES_PER_LINE
        } else {
            data.len()
        };
        let line = dump_line(label, slice_subrange(data, start, end));
        lines.push(line);
        label = label.wrapping_add(BYTES_PER_LINE as u64);
        start = end;
    }
    lines
}

/// The digits written for a number are digits, and they spell the number.
pub proof fn lemma_digits_spell_number(n: nat)
    ensures
        spec_hex_digits(n).len() > 0,
        spec_all_digits(spec_hex_digits(n), 16),
        spec_digits_value(spec_hex_digits(n), 16) == n,
    decreases n,
{
    let digits = spec_hex_digits(n);
    if n < 16 {
        assert(digits.drop_last() =~= Seq::<u8>::empty());
        assert(spec_digits_value(digits.drop_last(), 16) == 0);
    } else {
        lemma_digits_spell_number(n / 16);
        assert(digits.drop_last() =~= spec_hex_digits(n / 16));
        assert forall|i: int| 0 <= i < digits.len() implies (#[trigger] spec_digit(
            digits[i],
            16,
        )) is Some by {
            if i < digits.len() - 1 {
                assert(digits[i] == spec_hex_digits(n / 16)[i]);
            }
        }
    }
}

/// Zeros in front of digits change neither that they are digits nor the
/// number they spell.
pub proof fn lemma_leading_zeros_spell_nothing(zeros: nat, digits: Seq<u8>)
    requires
        spec_all_digits(digits, 16),
    ensures
        spec_all_digits(Seq::new(zeros, |i: int| 0x30u8) + digits, 16),
        spec_digits_value(Seq::new(zeros, |i: int| 0x30u8) + digits, 16) == spec_digits_value(
            digits,
            16,
        ),
    decreases zeros + digits.len(),
{
    let front = Seq::new(zeros, |i: int| 0x30u8);
    let whole = front + digits;
    assert forall|i: int| 0 <= i < whole.len() implies (#[trigger] spec_digit(whole[i], 16))
        is Some by {
        if i >= zeros {
            assert(whole[i] == digits[i - zeros]);
            assert(spec_digit(digits[i - zeros], 16) is Some);
        }
    }
    if digits.len() > 0 {
        assert(spec_all_digits(digits.drop_last(), 16)) by {
            assert forall|i: int| 0 <= i < digits.drop_last().len() implies (#[trigger] spec_digit(
                digits.drop_last()[i],
                16,
            )) is Some by {
                assert(spec_digit(digits[i], 16) is Some);
            }
        }
        lemma_leading_zeros_spell_nothing(zeros, digits.drop_last());
        assert(whole.drop_last() =~= front + digits.drop_last());
    } else if zeros > 0 {
        lemma_leading_zeros_spell_nothing((zeros - 1) as nat, digits);
        assert(whole.drop_last() =~= Seq::new((zeros - 1) as nat, |i: int| 0x30u8) + digits);
    } else {
        assert(whole =~= Seq::<u8>::empty());
    }
}

/// What is written is read back: the label of an offset, read as a
/// hexadecimal number, is that offset.
pub proof fn lemma_label_reads_back(offset: u64)
    ensures
        spec_parse_unsigned(spec_offset_label(offset), 16, u64::MAX as int) == Some(offset as int),
        spec_parse_offset(seq![0x30u8, 0x78u8] + spec_offset_label(offset)) == Ok::<
            u64,
            OffsetError,
        >(offset),
{
    let digits = spec_hex_digits(offset as nat);
    let label = spec_offset_label(offset);
    lemma_digits_spell_number(offset as nat);
    if digits.len() < OFFSET_WIDTH {
        lemma_leading_zeros_spell_nothing((OFFSET_WIDTH - digits.len()) as nat, digits);
    }
    assert(spec_digit(label[0], 16) is Some);
    assert(spec_unsigned_digits(label) == label);
    let text = seq![0x30u8, 0x78u8] + label;
    assert(text.subrange(2, text.len() as int) =~= label);
}

} // verus!
