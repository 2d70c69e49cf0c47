//! Choosing the remote peer of an HTTP request from its `Host` header.

use vstd::prelude::*;
use vstd::string::*;
use vstd::utf8::*;

use crate::text::{find_byte, bytes_equal, char_count_upto, split_before_ascii, first_index_of, lemma_first_index_of, lemma_no_index_of, utf8_of};

verus! {

broadcast use group_utf8_lib;

/// Length in characters of a peer identifier.
pub const PEER_ID_LEN: usize = 52;

/// Separator between the peer label and the rest of a host name.
pub const LABEL_SEPARATOR: u8 = 0x2e;

/// Why a request's host names no peer that this bridge may reach.
#[derive(Debug, Clone, Copy, PartialEq, Eq, Structural)]
pub enum HostError {
    /// No host was given, or it holds no `.`.
    MissingHost,
    /// Without a fixed target, the label is not a peer identifier.
    InvalidPeerId,
    /// A fixed target is configured and the label names another peer.
    PeerNotPermitted,
}

/// The label of a host name: its bytes before the first `.`.
pub open spec fn host_label(host: Seq<u8>) -> Option<Seq<u8>> {
    match first_index_of(host, LABEL_SEPARATOR) {
        Some(i) => Some(host.subrange(0, i)),
        None => None,
    }
}

/// The label `127`, by which a browser reaches the bridge through its raw loopback address.
pub open spec fn loopback_label() -> Seq<u8> {
    seq![0x31u8, 0x32u8, 0x37u8]
}

/// The peer (as UTF-8 bytes) that a request goes to, given the bytes of its host,
/// if any, and those of the fixed target, if one is configured.
pub open spec fn resolve_peer(host: Option<Seq<u8>>, target: Option<Seq<u8>>) -> Result<Seq<u8>, HostError> {
    let label = match host {
        Some(h) => host_label(h),
        None => None,
    };
    match label {
        None => Err(HostError::MissingHost),
        Some(l) => {
            if l == loopback_label() && target is Some {
                Ok(target->0)
            } else if decode_utf8(l).len() != PEER_ID_LEN && target is None {
                Err(HostError::InvalidPeerId)
            } else if target is Some && l != target->0 {
                Err(HostError::PeerNotPermitted)
            } else {
                Ok(l)
            }
        }
    }
}

/// The UTF-8 bytes of an optional host.
pub open spec fn host_bytes(host: Option<&str>) -> Option<Seq<u8>> {
    match host {
        Some(h) => Some(h.spec_bytes()),
        None => None,
    }
}

/// The UTF-8 bytes of an optional fixed target.
pub open spec fn target_bytes(target: Option<String>) -> Option<Seq<u8>> {
    match target {
        Some(t) => Some(utf8_of(t@)),
        None => None,
    }
}

/// What a call of `get_peer_id52_from_host` with these arguments may return.
pub open spec fn resolves_to(host: Option<&str>, target: Option<String>, r: Result<String, HostError>) -> bool {
    match r {
        Ok(p) => resolve_peer(host_bytes(host), target_bytes(target)) == Ok::<Seq<u8>, HostError>(utf8_of(p@)),
        Err(e) => resolve_peer(host_bytes(host), target_bytes(target)) == Err::<Seq<u8>, HostError>(e),
    }
}

/// The peer that a request with this `Host` value goes to, where `proxy_target`
/// is the peer that the bridge is fixed to, if any.
pub fn get_peer_id52_from_host(host: Option<&str>, proxy_target: Option<String>) -> (r: Result<String, HostError>)
    ensures
        resolves_to(host, proxy_target, r),
{
    let h = match host {
        Some(h) => h,
        None => return Err(HostError::MissingHost),
    };
    let hb = h.as_bytes();
    let dot = match find_byte(hb, LABEL_SEPARATOR) {
        Some(i) => i,
        None => {
            proof {
                lemma_no_index_of(h.spec_bytes(), LABEL_SEPARATOR);
            }
            return Err(HostError::MissingHost);
        },
    };
    proof {
        lemma_first_index_of(h.spec_bytes(), LABEL_SEPARATOR, dot as int);
    }
    let (first, _rest) = split_before_ascii(h, dot);
    let fb = first.as_bytes();
    let ghost label = h.spec_bytes().subrange(0, dot as int);
    assert(fb@ == label);
    let is_loopback = fb.len() == 3 && fb[0] == 0x31u8 && fb[1] == 0x32u8 && fb[2] == 0x37u8;
    assert(is_loopback == (label == loopback_label())) by {
        if label == loopback_label() {
            assert(fb@[0] == loopback_label()[0]);
            assert(fb@[1] == loopback_label()[1]);
            assert(fb@[2] == loopback_label()[2]);
        }
        if is_loopback {
            assert(label =~= loopback_label());
        }
    }
    match proxy_target {
        Some(target) => {
            if is_loopback {
                return Ok(target);
            }
            if !bytes_equal(fb, target.as_str().as_bytes()) {
                return Err(HostError::PeerNotPermitted);
            }
            Ok(first.to_owned())
        },
        None => {
            proof {
                encode_utf8_decode_utf8(first@);
            }
            if char_count_upto(first, PEER_ID_LEN + 1) != PEER_ID_LEN {
                Err(HostError::InvalidPeerId)
            } else {
                Ok(first.to_owned())
            }
        },
    }
}

/// Resolution depends on the host and the fixed target alone: any two results
/// that calls with the same arguments may return are the same peer, or the same
/// rejection.
pub proof fn law_resolution_is_pure(
    host: Option<&str>,
    target: Option<String>,
    r1: Result<String, HostError>,
    r2: Result<String, HostError>,
)
    requires
        resolves_to(host, target, r1),
        resolves_to(host, target, r2),
    ensures
        r1 is Ok <==> r2 is Ok,
        r1 is Ok ==> r1->Ok_0@ == r2->Ok_0@,
        r1 is Err ==> r1->Err_0 == r2->Err_0,
{
    if r1 is Ok && r2 is Ok {
        encode_utf8_decode_utf8(r1->Ok_0@);
        encode_utf8_decode_utf8(r2->Ok_0@);
    }
}

} // verus!
