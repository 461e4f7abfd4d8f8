//! Decoding of transmitted image data: base64, then optionally zlib.

use vstd::prelude::*;

verus! {

/// Compression applied to the payload before base64 encoding.
#[derive(Debug, Clone, Copy, PartialEq, Eq, Structural)]
pub enum Compression {
    Uncompressed,
    Zlib,
}

/// Why a payload could not be decoded; each carries the decoder's message.
#[derive(Debug)]
pub enum DecodeError {
    InvalidBase64(String),
    DecompressionFailed(String),
}

/// Mathematical value of a decoding error.
pub enum DecodeErrorView {
    InvalidBase64(Seq<char>),
    DecompressionFailed(Seq<char>),
}

impl View for DecodeError {
    type V = DecodeErrorView;

    open spec fn view(&self) -> DecodeErrorView {
        match self {
            DecodeError::InvalidBase64(m) => DecodeErrorView::InvalidBase64(m@),
            DecodeError::DecompressionFailed(m) => DecodeErrorView::DecompressionFailed(m@),
        }
    }
}

impl DecodeErrorView {
    /// The error's text: what went wrong, then the decoder's message.
    pub open spec fn text(self) -> Seq<char> {
        match self {
            DecodeErrorView::InvalidBase64(m) => "invalid base64: "@ + m,
            DecodeErrorView::DecompressionFailed(m) => "decompression failed: "@ + m,
        }
    }
}

impl DecodeError {
    /// The error's text: what went wrong, then the decoder's message.
    pub fn message(&self) -> (r: String)
        ensures
            r@ == self@.text(),
    {
        match self {
            DecodeError::InvalidBase64(e) => {
                let mut s = String::from_str("invalid base64: ");
                s.append(e.as_str());
                s
            },
            DecodeError::DecompressionFailed(e) => {
                let mut s = String::from_str("decompression failed: ");
                s.append(e.as_str());
                s
            },
        }
    }
}

/// What `base64::decode` (standard alphabet) gives for these bytes: the
/// decoded bytes, or the text of its error.
pub uninterp spec fn base64_decoded(data: Seq<u8>) -> Result<Seq<u8>, Seq<char>>;

/// What reading a `flate2::read::ZlibDecoder` over these bytes to the end
/// gives: the inflated bytes, or the text of the I/O error.
pub uninterp spec fn zlib_inflated(data: Seq<u8>) -> Result<Seq<u8>, Seq<char>>;

/// Calls `base64::decode` (standard alphabet, with padding). Trusted: the
/// outcome is `base64_decoded` of the input; an error is handed on as its
/// display text. Nothing more is stated of the decoding itself.
#[verifier::external_body]
fn base64_decode(data: &[u8]) -> (r: Result<Vec<u8>, String>)
    ensures
        match r {
            Ok(v) => base64_decoded(data@) == Ok::<Seq<u8>, Seq<char>>(v@),
            Err(m) => base64_decoded(data@) == Err::<Seq<u8>, Seq<char>>(m@),
        },
{
    match base64::decode(data) {
        Ok(v) => Ok(v),
        Err(e) => Err(e.to_string()),
    }
}

/// Reads a `flate2::read::ZlibDecoder` over `data` to the end. Trusted: the
/// outcome is `zlib_inflated` of the input; an error is handed on as its
/// display text. Nothing more is stated of the inflation itself.
#[verifier::external_body]
fn zlib_inflate(data: &[u8]) -> (r: Result<Vec<u8>, String>)
    ensures
        match r {
            Ok(v) => zlib_inflated(data@) == Ok::<Seq<u8>, Seq<char>>(v@),
            Err(m) => zlib_inflated(data@) == Err::<Seq<u8>, Seq<char>>(m@),
        },
{
    let mut decoder = flate2::read::ZlibDecoder::new(data);
    let mut out: Vec<u8> = Vec::new();
    match std::io::Read::read_to_end(&mut decoder, &mut out) {
        Ok(_) => Ok(out),
        Err(e) => Err(e.to_string()),
    }
}

/// The outcome of decoding a payload: base64 first, then zlib when asked.
pub open spec fn payload_result(data: Seq<u8>, compression: Compression) -> Result<
    Seq<u8>,
    DecodeErrorView,
> {
    match base64_decoded(data) {
        Err(m) => Err(DecodeErrorView::InvalidBase64(m)),
        Ok(decoded) => match compression {
            Compression::Uncompressed => Ok(decoded),
            Compression::Zlib => match zlib_inflated(decoded) {
                Ok(inflated) => Ok(inflated),
                Err(m) => Err(DecodeErrorView::DecompressionFailed(m)),
            },
        },
    }
}

/// Mathematical value of a decoding outcome.
pub open spec fn result_view(r: Result<Vec<u8>, DecodeError>) -> Result<Seq<u8>, DecodeErrorView> {
    match r {
        Ok(v) => Ok(v@),
        Err(e) => Err(e@),
    }
}

/// Decode a Kitty graphics protocol payload.
/// The payload is base64-encoded raw bytes, optionally zlib-compressed.
pub fn decode_kitty_payload(data: &[u8], compression: Compression) -> (r: Result<
    Vec<u8>,
    DecodeError,
>)
    ensures
        result_view(r) == payload_result(data@, compression),
{
    let decoded = match base64_decode(data) {
        Ok(v) => v,
        Err(m) => {
            return Err(DecodeError::InvalidBase64(m));
        },
    };
    match compression {
        Compression::Uncompressed => Ok(decoded),
        Compression::Zlib => match zlib_inflate(decoded.as_slice()) {
            Ok(v) => Ok(v),
            Err(m) => Err(DecodeError::DecompressionFailed(m)),
        },
    }
}

} // verus!
