//! The source identifier and the request of one copy.
//!
//! The object store takes the source of a copy as one string, bucket and key
//! joined by a slash and percent-encoded: every byte of its UTF-8 form that is
//! no ASCII letter or digit is written as a percent sign and two hexadecimal
//! digits.

use crate::record::{CopyInstruction, InstructionView};
use vstd::prelude::*;
use vstd::string::StringExecFns;
use vstd::utf8::encode_utf8;

verus! {

/// Whether the byte is an ASCII letter or digit. These are the bytes that
/// percent-encoding leaves as they are.
pub open spec fn is_unreserved(byte: u8) -> bool {
    ||| 0x30 <= byte <= 0x39
    ||| 0x41 <= byte <= 0x5A
    ||| 0x61 <= byte <= 0x7A
}

/// The hexadecimal digit, in upper case, of a number below sixteen.
pub open spec fn hex_digit(nibble: u8) -> char {
    if nibble < 10 {
        ((0x30 + nibble) as u8) as char
    } else {
        ((0x37 + nibble) as u8) as char
    }
}

/// The percent-encoding of one byte.
pub open spec fn escape(byte: u8) -> Seq<char> {
    if is_unreserved(byte) {
        seq![byte as char]
    } else {
        seq!['%', hex_digit(byte / 16), hex_digit(byte % 16)]
    }
}

/// The percent-encoding of a byte string: the encodings of its bytes, one
/// after the other.
pub open spec fn percent_encoded(bytes: Seq<u8>) -> Seq<char>
    decreases bytes.len(),
{
    if bytes.len() == 0 {
        Seq::empty()
    } else {
        escape(bytes[0]) + percent_encoded(bytes.drop_first())
    }
}

/// Whether the character is an ASCII letter or digit.
pub open spec fn is_letter_or_digit(c: char) -> bool {
    ||| '0' <= c <= '9'
    ||| 'A' <= c <= 'Z'
    ||| 'a' <= c <= 'z'
}

/// The source identifier of an instruction: the percent-encoding of the UTF-8
/// form of its source path.
pub open spec fn source_identifier_of(instruction: InstructionView) -> Seq<char> {
    percent_encoded(encode_utf8(instruction.source_path()))
}

/// Percent-encoding goes byte by byte: the encoding of two strings joined is
/// the two encodings joined.
pub proof fn lemma_percent_encoded_concat(first: Seq<u8>, second: Seq<u8>)
    ensures
        percent_encoded(first + second) == percent_encoded(first) + percent_encoded(second),
    decreases first.len(),
{
    if first.len() == 0 {
        assert(first + second =~= second);
        assert(percent_encoded(first) + percent_encoded(second) =~= percent_encoded(second));
    } else {
        lemma_percent_encoded_concat(first.drop_first(), second);
        assert((first + second).drop_first() =~= first.drop_first() + second);
        assert(percent_encoded(first + second) =~= percent_encoded(first) + percent_encoded(
            second,
        ));
    }
}

/// The encoding of one byte holds percent signs, letters and digits only.
proof fn lemma_escape_alphabet(byte: u8)
    ensures
        forall|i: int|
            0 <= i < escape(byte).len() ==> {
                let c = #[trigger] escape(byte)[i];
                c == '%' || is_letter_or_digit(c)
            },
{
    let high: u8 = byte / 16;
    let low: u8 = byte % 16;
    assert(is_letter_or_digit(hex_digit(high)));
    assert(is_letter_or_digit(hex_digit(low)));
    if is_unreserved(byte) {
        assert(is_letter_or_digit(byte as char));
    }
}

/// A percent-encoded string holds percent signs, ASCII letters and ASCII
/// digits, and nothing else: no space, no slash, no other punctuation.
pub proof fn lemma_percent_encoded_alphabet(bytes: Seq<u8>)
    ensures
        forall|i: int|
            0 <= i < percent_encoded(bytes).len() ==> {
                let c = #[trigger] percent_encoded(bytes)[i];
                c == '%' || is_letter_or_digit(c)
            },
    decreases bytes.len(),
{
    if bytes.len() > 0 {
        lemma_escape_alphabet(bytes[0]);
        lemma_percent_encoded_alphabet(bytes.drop_first());
        let head = escape(bytes[0]);
        let tail = percent_encoded(bytes.drop_first());
        assert forall|i: int| 0 <= i < percent_encoded(bytes).len() implies {
            let c = #[trigger] percent_encoded(bytes)[i];
            c == '%' || is_letter_or_digit(c)
        } by {
            if i < head.len() {
                assert(percent_encoded(bytes)[i] == head[i]);
            } else {
                assert(percent_encoded(bytes)[i] == tail[i - head.len()]);
            }
        }
    }
}

/// A string of ASCII letters and digits is its own percent-encoding.
pub proof fn lemma_percent_encoded_plain(bytes: Seq<u8>)
    requires
        forall|i: int| 0 <= i < bytes.len() ==> is_unreserved(#[trigger] bytes[i]),
    ensures
        percent_encoded(bytes) == bytes.map_values(|byte: u8| byte as char),
    decreases bytes.len(),
{
    let plain = bytes.map_values(|byte: u8| byte as char);
    if bytes.len() == 0 {
        assert(percent_encoded(bytes) =~= plain);
    } else {
        let rest = bytes.drop_first();
        assert forall|i: int| 0 <= i < rest.len() implies is_unreserved(#[trigger] rest[i]) by {
            assert(rest[i] == bytes[i + 1]);
        }
        lemma_percent_encoded_plain(rest);
        assert(is_unreserved(bytes[0]));
        assert(percent_encoded(bytes) =~= plain);
    }
}

/// The UTF-8 form of two texts joined is the two forms joined.
pub proof fn lemma_encode_utf8_concat(first: Seq<char>, second: Seq<char>)
    ensures
        encode_utf8(first + second) == encode_utf8(first) + encode_utf8(second),
    decreases first.len(),
{
    if first.len() == 0 {
        assert(first + second =~= second);
        assert(encode_utf8(first) + encode_utf8(second) =~= encode_utf8(second));
    } else {
        lemma_encode_utf8_concat(first.drop_first(), second);
        assert((first + second).drop_first() =~= first.drop_first() + second);
        assert((first + second)[0] == first[0]);
        assert(encode_utf8(first + second) =~= encode_utf8(first) + encode_utf8(second));
    }
}

/// The slash between bucket and key is always encoded: the source identifier
/// is the encoded bucket, then `%2F`, then the encoded key.
pub proof fn lemma_source_identifier_parts(instruction: InstructionView)
    ensures
        source_identifier_of(instruction) == percent_encoded(encode_utf8(instruction.src_bucket))
            + seq!['%', '2', 'F'] + percent_encoded(encode_utf8(instruction.src_key)),
{
    let bucket = encode_utf8(instruction.src_bucket);
    let key = encode_utf8(instruction.src_key);
    let slash: Seq<char> = seq!['/'];
    assert(encode_utf8(slash) =~= seq![0x2Fu8]) by {
        let scalar: u32 = '/' as u32;
        assert(scalar == 0x2F);
        assert((0x2Fu32 & 0x7F) as u8 == 0x2Fu8) by (bit_vector);
        assert(slash.drop_first() =~= Seq::<char>::empty());
        assert(encode_utf8(slash.drop_first()) =~= Seq::<u8>::empty());
    }
    assert(percent_encoded(seq![0x2Fu8]) =~= seq!['%', '2', 'F']) by {
        reveal_with_fuel(percent_encoded, 2);
        let byte: u8 = 0x2F;
        assert(hex_digit(byte / 16) == '2');
        assert(hex_digit(byte % 16) == 'F');
    }
    lemma_encode_utf8_concat(instruction.src_bucket, slash);
    lemma_encode_utf8_concat(instruction.src_bucket + slash, instruction.src_key);
    lemma_percent_encoded_concat(bucket, seq![0x2Fu8]);
    lemma_percent_encoded_concat(bucket + seq![0x2Fu8], key);
}

/// Percent-encodes a text with `percent_encoding::utf8_percent_encode` over
/// the set `NON_ALPHANUMERIC`. Trusted: the result is the percent-encoding,
/// as [`percent_encoded`] defines it, of the text's UTF-8 form. The outside
/// function walks the bytes in order, leaves ASCII letters and digits as they
/// are and writes each other byte as `%` and two upper-case hexadecimal
/// digits.
#[verifier::external_body]
fn percent_encode(text: &str) -> (encoded: String)
    ensures
        encoded@ == percent_encoded(encode_utf8(text@)),
{
    percent_encoding::utf8_percent_encode(text, percent_encoding::NON_ALPHANUMERIC).to_string()
}

impl CopyInstruction {
    /// The source as the row names it: bucket, a slash, key.
    pub fn source_path(&self) -> (path: String)
        ensures
            path@ == self@.source_path(),
    {
        proof {
            reveal_strlit("/");
        }
        let path = self.src_bucket.clone().concat("/").concat(self.src_key.as_str());
        assert(path@ =~= self@.source_path());
        path
    }

    /// The source as the object store takes it: the source path,
    /// percent-encoded.
    pub fn source_identifier(&self) -> (identifier: String)
        ensures
            identifier@ == source_identifier_of(self@),
    {
        let path = self.source_path();
        percent_encode(path.as_str())
    }

    /// The key under which the copy is stored: the destination key where the
    /// row gave one, the source key otherwise.
    pub fn destination_key(&self) -> (key: String)
        ensures
            key@ == self@.destination_key(),
    {
        match &self.dst_key {
            Some(key) => key.clone(),
            None => self.src_key.clone(),
        }
    }
}

/// One remote copy, ready to be requested.
#[derive(Debug, PartialEq, Eq)]
pub struct CopyRequest {
    /// The row that asks for the copy.
    pub row: u64,
    /// The source as the row names it.
    pub source: String,
    /// The source as the object store takes it.
    pub copy_source: String,
    pub dst_bucket: String,
    pub dst_key: String,
}

/// The content of a [`CopyRequest`].
pub struct RequestView {
    pub row: nat,
    pub source: Seq<char>,
    pub copy_source: Seq<char>,
    pub dst_bucket: Seq<char>,
    pub dst_key: Seq<char>,
}

impl View for CopyRequest {
    type V = RequestView;

    open spec fn view(&self) -> RequestView {
        RequestView {
            row: self.row as nat,
            source: self.source@,
            copy_source: self.copy_source@,
            dst_bucket: self.dst_bucket@,
            dst_key: self.dst_key@,
        }
    }
}

impl Clone for CopyRequest {
    fn clone(&self) -> (copy: Self)
        ensures
            copy == *self,
    {
        CopyRequest {
            row: self.row,
            source: self.source.clone(),
            copy_source: self.copy_source.clone(),
            dst_bucket: self.dst_bucket.clone(),
            dst_key: self.dst_key.clone(),
        }
    }
}

/// The request that an instruction stands for.
pub open spec fn request_of(row: nat, instruction: InstructionView) -> RequestView {
    RequestView {
        row,
        source: instruction.source_path(),
        copy_source: source_identifier_of(instruction),
        dst_bucket: instruction.dst_bucket,
        dst_key: instruction.destination_key(),
    }
}

impl CopyRequest {
    /// Builds the request of the instruction of the given row.
    pub fn new(row: u64, instruction: &CopyInstruction) -> (request: CopyRequest)
        ensures
            request@ == request_of(row as nat, instruction@),
    {
        let source = instruction.source_path();
        let copy_source = percent_encode(source.as_str());
        CopyRequest {
            row,
            source,
            copy_source,
            dst_bucket: instruction.dst_bucket.clone(),
            dst_key: instruction.destination_key(),
        }
    }
}

} // verus!
