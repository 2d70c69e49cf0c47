//! Reading the peer identifier and the path out of a `kulfi://` URL.

use vstd::prelude::*;
use vstd::string::*;
use vstd::utf8::*;

use crate::text::{
    find_byte, find_bytes, split_before_ascii, split_after_ascii, first_index_of, first_occurrence,
    lemma_first_index_of, lemma_no_index_of, lemma_first_occurrence, lemma_no_occurrence, utf8_of,
};

verus! {

broadcast use group_utf8_lib;

/// Separator between the peer identifier and the path.
pub const PATH_SEPARATOR: u8 = 0x2f;

/// Why a string is not a bridge URL.
#[derive(Debug, PartialEq, Eq)]
pub enum UrlError {
    /// `kulfi://` does not occur in the string.
    MissingScheme,
    /// `kulfi://` occurs first after this text.
    UnexpectedPrefix(String),
}

/// The bytes of `kulfi://`.
pub open spec fn scheme() -> Seq<u8> {
    seq![0x6bu8, 0x75u8, 0x6cu8, 0x66u8, 0x69u8, 0x3au8, 0x2fu8, 0x2fu8]
}

/// What follows the scheme at the start of a URL.
pub open spec fn after_scheme(url: Seq<u8>) -> Seq<u8> {
    url.subrange(scheme().len() as int, url.len() as int)
}

/// The peer identifier of a URL: what follows the scheme, up to the first `/`.
pub open spec fn url_id52(url: Seq<u8>) -> Seq<u8> {
    let rest = after_scheme(url);
    match first_index_of(rest, PATH_SEPARATOR) {
        Some(k) => rest.subrange(0, k),
        None => rest,
    }
}

/// The path of a URL: what follows the first `/` after the scheme, or nothing.
pub open spec fn url_path(url: Seq<u8>) -> Seq<u8> {
    let rest = after_scheme(url);
    match first_index_of(rest, PATH_SEPARATOR) {
        Some(k) => rest.subrange(k + 1, rest.len() as int),
        None => Seq::empty(),
    }
}

/// Splits `kulfi://<id52>/<path>` into its peer identifier and its path; a URL
/// without `/` after the scheme has an empty path.
pub fn parse_url(url: &str) -> (r: Result<(&str, &str), UrlError>)
    ensures
        (r is Ok) <==> first_occurrence(url.spec_bytes(), scheme()) == Some(0int),
        r matches Ok((id52, path)) ==> id52.spec_bytes() == url_id52(url.spec_bytes())
            && path.spec_bytes() == url_path(url.spec_bytes()),
        (r == Err::<(&str, &str), UrlError>(UrlError::MissingScheme)) <==> first_occurrence(url.spec_bytes(), scheme()) is None,
        r matches Err(UrlError::UnexpectedPrefix(p)) ==> {
            let k = first_occurrence(url.spec_bytes(), scheme())->0;
            &&& first_occurrence(url.spec_bytes(), scheme()) is Some
            &&& k > 0
            &&& utf8_of(p@) == url.spec_bytes().subrange(0, k)
        },
{
    let pattern: [u8; 8] = [0x6b, 0x75, 0x6c, 0x66, 0x69, 0x3a, 0x2f, 0x2f];
    let pat = pattern.as_slice();
    assert(pat@ =~= scheme());
    let ub = url.as_bytes();
    let at = match find_bytes(ub, pat) {
        Some(at) => at,
        None => {
            proof {
                lemma_no_occurrence(url.spec_bytes(), scheme());
            }
            return Err(UrlError::MissingScheme);
        },
    };
    proof {
        lemma_first_occurrence(url.spec_bytes(), scheme(), at as int);
    }
    if at != 0 {
        assert(ub@.subrange(at as int, at + 8)[0] == 0x6bu8);
        let (before, _) = split_before_ascii(url, at);
        return Err(UrlError::UnexpectedPrefix(before.to_owned()));
    }
    assert(ub@.subrange(0, 8)[7] == 0x2fu8);
    let (_, rest) = split_after_ascii(url, 7);
    assert(rest.spec_bytes() =~= after_scheme(url.spec_bytes()));
    let rb = rest.as_bytes();
    match find_byte(rb, PATH_SEPARATOR) {
        Some(k) => {
            proof {
                lemma_first_index_of(rest.spec_bytes(), PATH_SEPARATOR, k as int);
            }
            let (id52, _) = split_before_ascii(rest, k);
            let (_, path) = split_after_ascii(rest, k);
            Ok((id52, path))
        },
        None => {
            proof {
                lemma_no_index_of(rest.spec_bytes(), PATH_SEPARATOR);
            }
            let (id52, path) = split_before_ascii(rest, rb.len());
            assert(id52.spec_bytes() =~= rest.spec_bytes());
            assert(path.spec_bytes() =~= Seq::<u8>::empty());
            Ok((id52, path))
        },
    }
}

} // verus!
