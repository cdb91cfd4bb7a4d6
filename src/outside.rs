use vstd::prelude::*;

verus! {

/// The transport error of hyper, carried through unread.
#[verifier::external_type_specification]
#[verifier::external_body]
pub struct ExHyperError(hyper::error::Error);

/// An I/O error of std, carried through unread.
#[verifier::external_type_specification]
#[verifier::external_body]
pub struct ExIoError(std::io::Error);

/// A JSON decoding error of rustc-serialize, carried through unread.
#[verifier::external_type_specification]
#[verifier::external_body]
pub struct ExDecoderError(rustc_serialize::json::DecoderError);

/// The URL parse error of the url crate, carried through unread.
#[verifier::external_type_specification]
#[verifier::external_body]
pub struct ExParseError(url::ParseError);

} // verus!
