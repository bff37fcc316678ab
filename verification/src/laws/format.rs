//! Laws of the binary form of programs.

use crate::binparser::{
    be_value, decode_any_word, decode_data, decode_size, decode_word, digit, encode, encode_size,
    encode_word, has_size, is_item, payload_of, size_len, size_width, MAX_SIZE,
};
use crate::error::ParseError;
use crate::words::{
    ASSOC, ASSOCQ, COMMIT, CONCAT, DEPTH, DROP, DUP, EVAL, OVER, READ, READ_END, RETR, ROT, SWAP,
    WRITE, WRITE_END,
};
use vstd::prelude::*;

verus! {

/// A size field has the length that it is said to have.
pub proof fn law_size_field_len(size: nat)
    ensures
        encode_size(size).len() == size_len(size),
{
}

proof fn lemma_be_value_push(bytes: Seq<u8>, byte: u8)
    ensures
        be_value(bytes.push(byte)) == be_value(bytes) * 256 + byte as nat,
{
    assert(bytes.push(byte).drop_last() =~= bytes);
}

proof fn lemma_be_value_4(a: u8, b: u8, c: u8, d: u8)
    ensures
        be_value(seq![a]) == a as nat,
        be_value(seq![a, b]) == a as nat * 256 + b as nat,
        be_value(seq![a, b, c, d]) == a as nat * 16777216 + b as nat * 65536 + c as nat * 256
            + d as nat,
{
    let none = Seq::<u8>::empty();
    lemma_be_value_push(none, a);
    lemma_be_value_push(none.push(a), b);
    lemma_be_value_push(none.push(a).push(b), c);
    lemma_be_value_push(none.push(a).push(b).push(c), d);
    assert(none.push(a) =~= seq![a]);
    assert(none.push(a).push(b) =~= seq![a, b]);
    assert(none.push(a).push(b).push(c).push(d) =~= seq![a, b, c, d]);
}

/// A size can be read back from its size field, whatever follows.
pub proof fn law_size_read_back(size: nat, rest: Seq<u8>)
    requires
        size < MAX_SIZE,
    ensures
        decode_size(encode_size(size) + rest) == Ok::<nat, ParseError>(size),
{
    let field = encode_size(size);
    let bytes = field + rest;
    if size <= 120 {
    } else if size <= 255 {
        lemma_be_value_4(field[1], 0, 0, 0);
        assert(bytes.subrange(1, 2) =~= seq![field[1]]);
    } else if size <= 65535 {
        lemma_be_value_4(field[1], field[2], 0, 0);
        assert(bytes.subrange(1, 3) =~= seq![field[1], field[2]]);
    } else {
        lemma_be_value_4(field[1], field[2], field[3], field[4]);
        assert(bytes.subrange(1, 5) =~= seq![field[1], field[2], field[3], field[4]]);
        assert(size / 65536 == size / 16777216 * 256 + size / 65536 % 256);
        assert(size / 256 == size / 65536 * 256 + size / 256 % 256);
    }
}

proof fn lemma_digits_4(a: u8, b: u8, c: u8, d: u8)
    ensures
        ({
            let n = (a * 16777216 + b * 65536 + c * 256 + d) as nat;
            &&& digit(n, 16777216) == a
            &&& digit(n, 65536) == b
            &&& digit(n, 256) == c
            &&& digit(n, 1) == d
        }),
{
    let n = (a * 16777216 + b * 65536 + c * 256 + d) as nat;
    assert(n / 16777216 == a);
    assert(n / 65536 == a * 256 + b);
    assert(n / 256 == a * 65536 + b * 256 + c);
}

/// There is only one size field for a size.
pub proof fn law_size_field_unique(bytes: Seq<u8>)
    requires
        has_size(bytes),
    ensures
        decode_size(bytes)->Ok_0 < MAX_SIZE,
        size_len(decode_size(bytes)->Ok_0) <= bytes.len(),
        bytes.take(size_len(decode_size(bytes)->Ok_0) as int) == encode_size(
            decode_size(bytes)->Ok_0,
        ),
{
    let size = decode_size(bytes)->Ok_0;
    let width = size_width(bytes[0])->Some_0;
    if width == 0 {
        assert(bytes.take(1) =~= encode_size(size));
    } else if width == 1 {
        lemma_be_value_4(bytes[1], 0, 0, 0);
        assert(bytes.subrange(1, 2) =~= seq![bytes[1]]);
        assert(bytes.take(2) =~= encode_size(size));
    } else if width == 2 {
        lemma_be_value_4(bytes[1], bytes[2], 0, 0);
        assert(bytes.subrange(1, 3) =~= seq![bytes[1], bytes[2]]);
        assert(bytes.take(3) =~= encode_size(size));
    } else {
        lemma_be_value_4(bytes[1], bytes[2], bytes[3], bytes[4]);
        lemma_digits_4(bytes[1], bytes[2], bytes[3], bytes[4]);
        assert(bytes.subrange(1, 5) =~= seq![bytes[1], bytes[2], bytes[3], bytes[4]]);
        assert(bytes.take(5) =~= encode_size(size));
    }
}

/// A value can be read back from the instruction that pushes it, whatever follows.
pub proof fn law_value_read_back(value: Seq<u8>, rest: Seq<u8>)
    requires
        value.len() < MAX_SIZE,
    ensures
        is_item(encode(value)),
        decode_data(encode(value) + rest) == Ok::<nat, ParseError>(
            encode(value).len(),
        ),
        payload_of(encode(value)) == value,
{
    law_size_read_back(value.len(), value);
    law_size_read_back(value.len(), value + rest);
    assert(encode(value) + rest =~= encode_size(value.len()) + (value + rest));
    assert(payload_of(encode(value)) =~= value);
}

/// There is only one instruction that pushes a value.
pub proof fn law_item_unique(item: Seq<u8>)
    requires
        is_item(item),
    ensures
        payload_of(item).len() < MAX_SIZE,
        item == encode(payload_of(item)),
{
    law_size_field_unique(item);
    let len = size_len(decode_size(item)->Ok_0) as int;
    assert(item =~= item.take(len) + item.skip(len));
}

/// Where a data push instruction ends does not depend on what follows it.
pub proof fn law_data_delimits_itself(bytes: Seq<u8>, rest: Seq<u8>)
    requires
        decode_data(bytes) is Ok,
    ensures
        is_item(bytes.take(decode_data(bytes)->Ok_0 as int)),
        decode_data(bytes + rest) == decode_data(bytes),
        decode_data(bytes.take(decode_data(bytes)->Ok_0 as int) + rest) == decode_data(bytes),
{
    law_size_field_unique(bytes);
    let size = decode_size(bytes)->Ok_0;
    let len = decode_data(bytes)->Ok_0 as int;
    let value = bytes.subrange(size_len(size) as int, len);
    assert(bytes.take(len) =~= bytes.take(size_len(size) as int) + value);
    assert(bytes + rest =~= encode(value) + (bytes.skip(len) + rest));
    law_value_read_back(value, bytes.skip(len) + rest);
    law_value_read_back(value, rest);
}

/// A word of up to 127 letters can be read back from its instruction, whatever follows, and so
/// can an internal word, which is not mistaken for one that is not internal.
pub proof fn law_word_read_back(letters: Seq<u8>, rest: Seq<u8>)
    requires
        0 < letters.len() <= 127,
    ensures
        ({
            let word = encode_word(letters);
            let internal = seq![128u8] + word;
            &&& decode_word(word + rest) == Ok::<nat, ParseError>(word.len())
            &&& decode_any_word(word + rest) == Ok::<nat, ParseError>(word.len())
            &&& decode_any_word(internal + rest) == Ok::<nat, ParseError>(internal.len())
            &&& decode_word(internal + rest) is Err
        }),
{
    let word = encode_word(letters);
    let internal = seq![128u8] + word;
    assert((internal + rest).skip(1) =~= word + rest);
}

/// Where a word ends does not depend on what follows it.
pub proof fn law_word_delimits_itself(bytes: Seq<u8>, rest: Seq<u8>)
    requires
        decode_any_word(bytes) is Ok,
    ensures
        decode_any_word(bytes + rest) == decode_any_word(bytes),
        decode_any_word(bytes.take(decode_any_word(bytes)->Ok_0 as int) + rest)
            == decode_any_word(bytes),
{
    let len = decode_any_word(bytes)->Ok_0 as int;
    let word = bytes.take(len);
    assert((bytes + rest).skip(1) =~= bytes.skip(1) + rest);
    assert((word + rest).skip(1) =~= word.skip(1) + rest);
}

/// An instruction either pushes data or is a word.
pub proof fn law_data_or_word(bytes: Seq<u8>)
    ensures
        !(decode_data(bytes) is Ok && decode_any_word(bytes) is Ok),
{
}

/// How long a size field is: one byte for sizes up to 120, two up to 255, three up to 65535 and
/// five for what is larger.
pub proof fn law_size_len(size: nat)
    ensures
        size <= 120 ==> size_len(size) == 1,
        121 <= size <= 255 ==> size_len(size) == 2,
        256 <= size <= 65535 ==> size_len(size) == 3,
        65536 <= size ==> size_len(size) == 5,
{
}

/// Sizes up to 120 are their own field, and those up to 255 are one byte after 121. No other
/// byte after 121 is a size.
pub proof fn law_size_in_one_byte(n: u8, rest: Seq<u8>)
    ensures
        n <= 120 ==> encode_size(n as nat) == seq![n],
        n <= 120 ==> decode_size(seq![n] + rest) == Ok::<nat, ParseError>(n as nat),
        n > 120 ==> encode_size(n as nat) == seq![121, n],
        decode_size(seq![121, n] + rest) == if n > 120 {
            Ok::<nat, ParseError>(n as nat)
        } else {
            Err(ParseError::UnknownErr)
        },
{
    let bytes = seq![121, n] + rest;
    lemma_be_value_4(n, 0, 0, 0);
    assert(bytes.subrange(1, 2) =~= seq![n]);
    if n <= 120 {
        assert(encode_size(n as nat) =~= seq![n]);
    } else {
        assert(encode_size(n as nat) =~= seq![121, n]);
    }
}

/// Sizes from 256 to 65535 are two bytes after 122, the more significant one first. No other
/// two bytes after 122 are a size.
pub proof fn law_size_in_two_bytes(a: u8, b: u8, rest: Seq<u8>)
    ensures
        a > 0 ==> encode_size((a * 256 + b) as nat) == seq![122, a, b],
        decode_size(seq![122, a, b] + rest) == if a > 0 {
            Ok::<nat, ParseError>((a * 256 + b) as nat)
        } else {
            Err(ParseError::UnknownErr)
        },
{
    let bytes = seq![122, a, b] + rest;
    lemma_be_value_4(a, b, 0, 0);
    assert(bytes.subrange(1, 3) =~= seq![a, b]);
    if a > 0 {
        assert(encode_size((a * 256 + b) as nat) =~= seq![122, a, b]);
    }
}

/// Sizes from 65536 to 4294967295 are four bytes after 123, the most significant one first. No
/// other four bytes after 123 are a size.
pub proof fn law_size_in_four_bytes(a: u8, b: u8, c: u8, d: u8, rest: Seq<u8>)
    ensures
        ({
            let size = (a * 16777216 + b * 65536 + c * 256 + d) as nat;
            &&& a > 0 || b > 0 ==> encode_size(size) == seq![123, a, b, c, d]
            &&& decode_size(seq![123, a, b, c, d] + rest) == if a > 0 || b > 0 {
                Ok::<nat, ParseError>(size)
            } else {
                Err(ParseError::UnknownErr)
            }
        }),
{
    let bytes = seq![123, a, b, c, d] + rest;
    lemma_be_value_4(a, b, c, d);
    lemma_digits_4(a, b, c, d);
    assert(bytes.subrange(1, 5) =~= seq![a, b, c, d]);
    if a > 0 || b > 0 {
        let size = (a * 16777216 + b * 65536 + c * 256 + d) as nat;
        assert(encode_size(size) =~= seq![123, a, b, c, d]);
    }
}

/// A size field that is cut short is incomplete, and the tags from 124 on are not those of data,
/// whatever follows.
pub proof fn law_no_size(bytes: Seq<u8>)
    ensures
        bytes.len() == 0 ==> decode_size(bytes) == Err::<nat, ParseError>(ParseError::Incomplete),
        bytes.len() > 0 && bytes[0] >= 124 ==> decode_size(bytes) == Err::<nat, ParseError>(
            ParseError::UnknownErr,
        ),
        bytes.len() == 1 && 121 <= bytes[0] <= 123 ==> decode_size(bytes) == Err::<
            nat,
            ParseError,
        >(ParseError::Incomplete),
        bytes.len() == 2 && 122 <= bytes[0] <= 123 ==> decode_size(bytes) == Err::<
            nat,
            ParseError,
        >(ParseError::Incomplete),
        3 <= bytes.len() <= 4 && bytes[0] == 123 ==> decode_size(bytes) == Err::<nat, ParseError>(
            ParseError::Incomplete,
        ),
{
}

/// A data push instruction is a size field and as many bytes as it says. It is incomplete where
/// there are fewer, and where there is no size field there is no such instruction.
pub proof fn law_data_is_size_and_bytes(size: nat, held: Seq<u8>, bytes: Seq<u8>)
    requires
        size < 4294967296,
    ensures
        held.len() >= size ==> decode_data(encode_size(size) + held) == Ok::<nat, ParseError>(
            encode_size(size).len() + size,
        ),
        held.len() < size ==> decode_data(encode_size(size) + held) == Err::<nat, ParseError>(
            ParseError::Incomplete,
        ),
        encode(held) == encode_size(held.len()) + held,
        decode_size(bytes) matches Err(error) ==> decode_data(bytes) == Err::<nat, ParseError>(
            error,
        ),
        has_size(bytes) <==> decode_size(bytes) is Ok,
{
    law_size_read_back(size, held);
    law_size_field_len(size);
}

/// A word is a tag from 129 on and as many letters as the tag is above 128. It is incomplete
/// where there are fewer, and no other tag is that of a word.
pub proof fn law_word_is_tag_and_letters(tag: u8, letters: Seq<u8>)
    ensures
        tag > 128 && letters.len() >= tag - 128 ==> decode_word(seq![tag] + letters) == Ok::<
            nat,
            ParseError,
        >((tag - 127) as nat),
        tag > 128 && letters.len() < tag - 128 ==> decode_word(seq![tag] + letters) == Err::<
            nat,
            ParseError,
        >(ParseError::Incomplete),
        tag <= 128 ==> decode_word(seq![tag] + letters) == Err::<nat, ParseError>(
            ParseError::UnknownErr,
        ),
        decode_word(Seq::empty()) == Err::<nat, ParseError>(ParseError::Incomplete),
{
}

/// An internal word is a word behind 128, and what does not start with 128 is an internal word or
/// not if it is a word or not.
pub proof fn law_internal_word_is_prefixed(bytes: Seq<u8>)
    ensures
        decode_any_word(seq![128] + bytes) == match decode_word(bytes) {
            Ok(len) => Ok::<nat, ParseError>(len + 1),
            Err(error) => Err(error),
        },
        bytes.len() == 0 || bytes[0] != 128 ==> decode_any_word(bytes) == decode_word(bytes),
{
    assert((seq![128] + bytes).skip(1) =~= bytes);
}

/// Whether a word is the instruction for a name.
pub open spec fn spells(word: Seq<u8>, name: Seq<char>) -> bool {
    &&& word.len() == name.len() + 1
    &&& word[0] == 128 + name.len()
    &&& forall|i: int| 0 <= i < name.len() ==> word[i + 1] as int == (#[trigger] name[i]) as int
}

/// The built-in words are the instructions for their names, and the internal ones have a further
/// byte in front.
pub proof fn law_words_are_spelled()
    ensures
        spells(DROP@, "DROP"@),
        spells(DUP@, "DUP"@),
        spells(SWAP@, "SWAP"@),
        spells(ROT@, "ROT"@),
        spells(OVER@, "OVER"@),
        spells(DEPTH@, "DEPTH"@),
        spells(CONCAT@, "CONCAT"@),
        spells(EVAL@, "EVAL"@),
        spells(WRITE@, "WRITE"@),
        spells(READ@, "READ"@),
        spells(ASSOC@, "ASSOC"@),
        spells(ASSOCQ@, "ASSOC?"@),
        spells(RETR@, "RETR"@),
        spells(COMMIT@, "COMMIT"@),
        WRITE_END@ == seq![128u8] + WRITE@,
        READ_END@ == seq![128u8] + READ@,
{
    reveal_strlit("DROP");
    reveal_strlit("DUP");
    reveal_strlit("SWAP");
    reveal_strlit("ROT");
    reveal_strlit("OVER");
    reveal_strlit("DEPTH");
    reveal_strlit("CONCAT");
    reveal_strlit("EVAL");
    reveal_strlit("WRITE");
    reveal_strlit("READ");
    reveal_strlit("ASSOC");
    reveal_strlit("ASSOC?");
    reveal_strlit("RETR");
    reveal_strlit("COMMIT");
    assert(WRITE_END@ =~= seq![128u8] + WRITE@);
    assert(READ_END@ =~= seq![128u8] + READ@);
}

} // verus!
