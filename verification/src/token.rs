//! Pipeline tokens: the record of a pipeline in URL-safe base64 without
//! padding, fit to stand as one segment of a path.

use crate::pb::{ImageSpec, Spec};
use crate::wire::{
    decode_record, encode_record, lemma_parse_frame, lemma_parse_wire, parse, wire,
};
use base64::{decode_config, encode_config, URL_SAFE_NO_PAD};
use vstd::prelude::*;

verus! {

/// Why a token is no pipeline's token.
#[derive(Clone, Copy, Debug, PartialEq, Eq, Structural)]
pub enum DecodeError {
    /// The token is no base64 text, or what it holds is no pipeline's record:
    /// cut short, under an unknown tag, or with a number out of its range.
    Malformed,
}

/// The text that `base64::encode_config` gives for `data` under
/// `URL_SAFE_NO_PAD`.
pub uninterp spec fn base64_text(data: Seq<u8>) -> Seq<char>;

/// The bytes that `base64::decode_config` gives for `text` under
/// `URL_SAFE_NO_PAD`; none where it refuses the text.
pub uninterp spec fn base64_bytes(text: Seq<char>) -> Option<Seq<u8>>;

/// The characters of the URL-safe base64 alphabet.
pub open spec fn is_url_safe(c: char) -> bool {
    ||| 'A' <= c <= 'Z'
    ||| 'a' <= c <= 'z'
    ||| '0' <= c <= '9'
    ||| c == '-'
    ||| c == '_'
}

/// The length of unpadded base64 text for `n` bytes: four characters for
/// every three bytes, and two or three for one or two bytes left over.
pub open spec fn encoded_len(n: nat) -> nat {
    (n / 3) * 4 + if n % 3 == 0 {
        0nat
    } else {
        n % 3 + 1
    }
}

/// `base64::encode_config` under `URL_SAFE_NO_PAD`. Believed of it: the text
/// is made of the URL-safe alphabet alone, with no padding and so of the
/// length that the bytes call for, and the crate's decoder under the same
/// configuration reads the same bytes back from it.
#[verifier::external_body]
fn base64_encode(data: &[u8]) -> (text: String)
    ensures
        text@ == base64_text(data@),
        text@.len() == encoded_len(data@.len()),
        base64_bytes(text@) == Some(data@),
        forall|i: int| 0 <= i < text@.len() ==> is_url_safe(#[trigger] text@[i]),
{
    encode_config(data, URL_SAFE_NO_PAD)
}

/// `base64::decode_config` under `URL_SAFE_NO_PAD`: the bytes, or none where
/// the crate's decoder refuses the text.
#[verifier::external_body]
fn base64_decode(text: &str) -> (data: Option<Vec<u8>>)
    ensures
        match data {
            Some(bytes) => base64_bytes(text@) == Some(bytes@),
            None => base64_bytes(text@) is None,
        },
{
    decode_config(text, URL_SAFE_NO_PAD).ok()
}

/// The token of a pipeline: the empty text for the empty pipeline, else the
/// base64 text of its record.
pub open spec fn token_of(p: Seq<Spec>) -> Seq<char> {
    if p.len() == 0 {
        Seq::empty()
    } else {
        base64_text(wire(p))
    }
}

/// Whether `token` holds the record of `p` as `wire` writes it.
pub open spec fn holds_pipeline(token: Seq<char>, p: Seq<Spec>) -> bool {
    if token.len() == 0 {
        p.len() == 0
    } else {
        base64_bytes(token) == Some(wire(p))
    }
}

/// What decoding makes of a token: the empty pipeline for the empty token;
/// else the pipeline that its bytes are a record of, or `Malformed` where it
/// is no base64 text or its bytes are no record.
pub open spec fn decoded(token: Seq<char>) -> Result<Seq<Spec>, DecodeError> {
    if token.len() == 0 {
        Ok(Seq::empty())
    } else {
        match base64_bytes(token) {
            Some(bytes) => match parse(bytes) {
                Some(p) => Ok(p),
                None => Err(DecodeError::Malformed),
            },
            None => Err(DecodeError::Malformed),
        }
    }
}

/// A token that holds the record of a pipeline as `wire` writes it decodes to
/// that pipeline.
pub proof fn lemma_decoded(token: Seq<char>, p: Seq<Spec>)
    requires
        holds_pipeline(token, p),
    ensures
        decoded(token) == Ok::<Seq<Spec>, DecodeError>(p),
{
    if token.len() == 0 {
        assert(p =~= Seq::<Spec>::empty());
    } else {
        lemma_parse_wire(p);
    }
}

/// The empty pipeline: its token is the empty text, and the empty text
/// decodes to it.
pub proof fn lemma_empty_pipeline()
    ensures
        token_of(Seq::<Spec>::empty()) == Seq::<char>::empty(),
        decoded(Seq::<char>::empty()) == Ok::<Seq<Spec>, DecodeError>(Seq::<Spec>::empty()),
        wire(Seq::<Spec>::empty()) == Seq::<u8>::empty(),
{
}

impl ImageSpec {
    /// The token of this pipeline. Decoding it gives the pipeline back.
    pub fn encode(&self) -> (token: String)
        ensures
            token@ == token_of(self@),
            holds_pipeline(token@, self@),
            decoded(token@) == Ok::<Seq<Spec>, DecodeError>(self@),
            forall|i: int| 0 <= i < token@.len() ==> is_url_safe(#[trigger] token@[i]),
    {
        if self.specs.len() == 0 {
            let token = String::new();
            proof {
                lemma_decoded(token@, self@);
            }
            return token;
        }
        let record = encode_record(&self.specs);
        let token = base64_encode(record.as_slice());
        proof {
            lemma_parse_frame(self@[0], wire(self@.skip(1)));
            assert(record@.len() >= 4);
            assert(token@.len() > 0);
            lemma_decoded(token@, self@);
        }
        token
    }

    /// The pipeline that `token` stands for: `Ok` exactly where the token is
    /// base64 text whose bytes are a pipeline's record, as `parse` reads it,
    /// and `Malformed` for every other token. The empty token stands for the
    /// empty pipeline, and the token that `encode` made of a pipeline for that
    /// pipeline.
    pub fn decode(token: &str) -> (r: Result<ImageSpec, DecodeError>)
        ensures
            match r {
                Ok(p) => decoded(token@) == Ok::<Seq<Spec>, DecodeError>(p@),
                Err(e) => e == DecodeError::Malformed && decoded(token@) == Err::<
                    Seq<Spec>,
                    DecodeError,
                >(e),
            },
            forall|p: Seq<Spec>| #[trigger]
                holds_pipeline(token@, p) ==> (r matches Ok(q) && q@ == p),
    {
        if token.is_empty() {
            return Ok(ImageSpec { specs: Vec::new() });
        }
        match base64_decode(token) {
            Some(bytes) => match decode_record(bytes.as_slice()) {
                Some(specs) => Ok(ImageSpec { specs }),
                None => Err(DecodeError::Malformed),
            },
            None => Err(DecodeError::Malformed),
        }
    }
}

impl From<&ImageSpec> for String {
    /// The token of `pipeline`, as `ImageSpec::encode` gives it.
    fn from(pipeline: &ImageSpec) -> (token: String)
        ensures
            token@ == token_of(pipeline@),
            decoded(token@) == Ok::<Seq<Spec>, DecodeError>(pipeline@),
    {
        pipeline.encode()
    }
}

impl vstd::std_specs::convert::FromSpecImpl<&ImageSpec> for String {
    open spec fn obeys_from_spec() -> bool {
        false
    }

    open spec fn from_spec(pipeline: &ImageSpec) -> String {
        arbitrary()
    }
}

impl TryFrom<&str> for ImageSpec {
    type Error = DecodeError;

    /// The pipeline that `token` holds, as `ImageSpec::decode` gives it.
    fn try_from(token: &str) -> (r: Result<ImageSpec, DecodeError>)
        ensures
            match r {
                Ok(p) => decoded(token@) == Ok::<Seq<Spec>, DecodeError>(p@),
                Err(e) => decoded(token@) == Err::<Seq<Spec>, DecodeError>(e),
            },
    {
        ImageSpec::decode(token)
    }
}

impl vstd::std_specs::convert::TryFromSpecImpl<&str> for ImageSpec {
    open spec fn obeys_try_from_spec() -> bool {
        false
    }

    open spec fn try_from_spec(token: &str) -> Result<ImageSpec, DecodeError> {
        arbitrary()
    }
}

} // verus!
