//! Decoding of asset-protocol request paths.
//!
//! The display layer asks for an image over a custom URI scheme; the path
//! of such a request is percent-encoded.  The decoding itself is done by
//! the `percent-encoding` crate; what the request path denotes — drop the
//! leading slash, then percent-decode the rest — is stated and verified
//! here.

use vstd::prelude::*;
use vstd::string::StrSliceExecFns;

verus! {

/// What percent-decoding makes of a string: every `%` followed by two hex
/// digits becomes the byte they spell, everything else passes through, and
/// byte sequences that are not well-formed UTF-8 are replaced lossily.
/// The result depends on the input characters alone.
pub uninterp spec fn percent_decoded(s: Seq<char>) -> Seq<char>;

/// Relies on percent_encoding::percent_decode_str and
/// PercentDecode::decode_utf8_lossy: a pure function of the input string;
/// an input without `%` has nothing to decode and passes through whole.
#[verifier::external_body]
fn percent_decode_lossy(s: &str) -> (r: String)
    ensures
        r@ == percent_decoded(s@),
        (forall|i: int| 0 <= i < s@.len() ==> s@[i] != '%') ==> r@ == s@,
{
    percent_encoding::percent_decode_str(s).decode_utf8_lossy().into_owned()
}

/// Turn an asset-protocol request path into the resource it names: strip
/// the leading `/`, percent-decode the remainder.  A path without the
/// leading slash is no asset request.
pub fn decode_asset_path(uri_path: &str) -> (r: Option<String>)
    ensures
        match r {
            Some(decoded) => uri_path@.len() >= 1 && uri_path@[0] == '/' && decoded@
                == percent_decoded(uri_path@.skip(1)),
            None => uri_path@.len() == 0 || uri_path@[0] != '/',
        },
{
    let n = uri_path.unicode_len();
    if n == 0 {
        return None;
    }
    if uri_path.get_char(0) != '/' {
        return None;
    }
    let rest = uri_path.substring_char(1, n);
    proof {
        assert(uri_path@.subrange(1, n as int) =~= uri_path@.skip(1));
    }
    Some(percent_decode_lossy(rest))
}

} // verus!
