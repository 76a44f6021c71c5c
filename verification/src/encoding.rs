use vstd::prelude::*;

use crate::errors::ExtractError;

verus! {

/// The characters of a byte string read one character per byte, as both
/// ASCII and every ASCII-compatible encoding read ASCII bytes.
pub open spec fn ascii_chars_of(b: Seq<u8>) -> Seq<char> {
    Seq::new(b.len(), |i: int| b[i] as char)
}

/// All bytes are ASCII and none is the ESC byte 0x1b. ESC is excluded
/// because the detector treats an ESC sequence as a sign of a legacy
/// shift-state encoding, under which ASCII bytes need not decode to
/// themselves.
pub open spec fn ascii_no_escape(b: Seq<u8>) -> bool {
    forall|i: int| 0 <= i < b.len() ==> b[i] < 0x80 && b[i] != 0x1b
}

/// Whether the encoding detector, fed the whole byte string at once,
/// reports its guess as likely correct.
pub uninterp spec fn guess_is_likely(b: Seq<u8>) -> bool;

/// The text obtained by decoding the byte string with the detector's
/// guessed encoding.
pub uninterp spec fn decoded_name_of(b: Seq<u8>) -> Seq<char>;

/// Whether decoding the byte string with the guessed encoding replaced
/// malformed sequences with replacement characters.
pub uninterp spec fn decode_malformed(b: Seq<u8>) -> bool;

/// Relies on chardetng's `EncodingDetector` and encoding_rs's
/// `Encoding::decode`. The whole byte string is fed once with the
/// final-chunk flag set, the guess is assessed with no TLD hint and with
/// UTF-8 allowed, and the string is decoded with the guessed encoding, so
/// guess, decoded text and the malformed flag are functions of the bytes
/// alone. For bytes that are all ASCII with no ESC byte, `feed` returns
/// before scoring any candidate, `guess_assess` then reports the UTF-8
/// candidate as likely, and `decode` maps each ASCII byte to the same
/// character with no replacements.
#[verifier::external_body]
fn detect_and_decode(b: &[u8]) -> (r: (String, bool, bool))
    ensures
        r.0@ == decoded_name_of(b@),
        r.1 == decode_malformed(b@),
        r.2 == guess_is_likely(b@),
        ascii_no_escape(b@) ==> r.2 && !r.1 && r.0@ == ascii_chars_of(b@),
{
    let mut detector = chardetng::EncodingDetector::new();
    detector.feed(b, true);
    let (encoding, is_likely_correct) = detector.guess_assess(None, true);
    let (text, _, malformed) = encoding.decode(b);
    (text.into_owned(), malformed, is_likely_correct)
}

/// What decoding a raw entry name yields: `EncodingUncertain` when the
/// detector's guess is not likely correct, `MalformedName` when decoding
/// replaced malformed content or produced an empty name (a decoded entry
/// name must be non-empty), `EmbeddedNul` when the decoded text holds a
/// NUL character, and the decoded text otherwise.
pub open spec fn decode_spec(raw: Seq<u8>) -> Result<Seq<char>, ExtractError> {
    if !guess_is_likely(raw) {
        Err(ExtractError::EncodingUncertain)
    } else if decode_malformed(raw) {
        Err(ExtractError::MalformedName)
    } else if decoded_name_of(raw).len() == 0 {
        Err(ExtractError::MalformedName)
    } else if decoded_name_of(raw).contains('\0') {
        Err(ExtractError::EmbeddedNul)
    } else {
        Ok(decoded_name_of(raw))
    }
}

/// Guess the character encoding of a raw entry name and decode it.
///
/// A name is refused when the guess is uncertain, when decoding produced
/// replacement characters, when the decoded name is empty (a decoded
/// entry name must be non-empty), or when the decoded text holds a NUL
/// character (path system calls on some platforms silently truncate at
/// NUL). A non-empty pure-ASCII name without ESC bytes always decodes to
/// exactly its bytes read as characters.
pub fn decode_entry_name(raw: &[u8]) -> (r: Result<String, ExtractError>)
    ensures
        r is Ok <==> decode_spec(raw@) is Ok,
        r matches Ok(s) ==> decode_spec(raw@) matches Ok(d) && s@ == d,
        r matches Err(e) ==> decode_spec(raw@) matches Err(d) && d == e,
        raw@.len() > 0 && ascii_no_escape(raw@) && (forall|i: int|
            0 <= i < raw@.len() ==> raw@[i] != 0) ==> (r matches Ok(s) && s@ == ascii_chars_of(
            raw@,
        )),
{
    let (text, malformed, is_likely_correct) = detect_and_decode(raw);
    if !is_likely_correct {
        return Err(ExtractError::EncodingUncertain);
    }
    if malformed {
        return Err(ExtractError::MalformedName);
    }
    let n = text.as_str().unicode_len();
    if n == 0 {
        return Err(ExtractError::MalformedName);
    }
    let mut i: usize = 0;
    while i < n
        invariant
            n == text@.len(),
            0 <= i <= n,
            text@ == decoded_name_of(raw@),
            guess_is_likely(raw@),
            !decode_malformed(raw@),
            ascii_no_escape(raw@) ==> text@ == ascii_chars_of(raw@),
            forall|j: int| 0 <= j < i ==> text@[j] != '\0',
        decreases n - i,
    {
        if text.as_str().get_char(i) == '\0' {
            proof {
                assert(decoded_name_of(raw@).contains('\0')) by {
                    assert(decoded_name_of(raw@)[i as int] == '\0');
                }
                if ascii_no_escape(raw@) && (forall|j: int|
                    0 <= j < raw@.len() ==> raw@[j] != 0) {
                    assert(text@[i as int] == ascii_chars_of(raw@)[i as int]);
                    assert(raw@[i as int] as char == '\0');
                    assert(raw@[i as int] == 0);
                }
            }
            return Err(ExtractError::EmbeddedNul);
        }
        i += 1;
    }
    proof {
        assert(!decoded_name_of(raw@).contains('\0')) by {
            if decoded_name_of(raw@).contains('\0') {
                let j = choose|j: int|
                    0 <= j < decoded_name_of(raw@).len() && decoded_name_of(raw@)[j] == '\0';
                assert(text@[j] != '\0');
            }
        }
    }
    Ok(text)
}

} // verus!
