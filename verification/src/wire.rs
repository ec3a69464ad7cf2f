//! Classification of the declared wire format of an export request.
//!
//! Only binary protobuf and OTLP-JSON are accepted; any other
//! declared content type is rejected before decoding is attempted.

use vstd::prelude::*;

verus! {

/// Whether `needle` occurs in `hay` starting at position `i`.
pub open spec fn matches_at(hay: Seq<char>, needle: Seq<char>, i: int) -> bool {
    0 <= i && i + needle.len() <= hay.len() && hay.subrange(i, i + needle.len()) == needle
}

/// Whether `needle` occurs anywhere in `hay`.
pub open spec fn contains_seq(hay: Seq<char>, needle: Seq<char>) -> bool {
    exists|i: int| matches_at(hay, needle, i)
}

/// Whether one string contains another.
#[verifier::loop_isolation(false)]
pub fn contains_str(hay: &str, needle: &str) -> (r: bool)
    ensures
        r == contains_seq(hay@, needle@),
{
    let hn = hay.unicode_len();
    let nn = needle.unicode_len();
    if nn > hn {
        proof {
            assert forall|i: int| !matches_at(hay@, needle@, i) by {}
        }
        return false;
    }
    let mut i: usize = 0;
    while i <= hn - nn
        invariant
            nn <= hn,
            i <= hn - nn + 1,
            forall|i2: int| 0 <= i2 < i ==> !matches_at(hay@, needle@, i2),
        decreases hn - nn - i + 1,
    {
        let mut j: usize = 0;
        let mut ok: bool = true;
        while j < nn && ok
            invariant
                i + nn <= hn,
                j <= nn,
                ok ==> forall|j2: int| 0 <= j2 < j ==> hay@[i + j2] == needle@[j2],
                !ok ==> j < nn && hay@[i + j] != needle@[j as int],
            decreases nn - j + (if ok {
                1int
            } else {
                0int
            }),
        {
            if hay.get_char(i + j) != needle.get_char(j) {
                ok = false;
            } else {
                j = j + 1;
            }
        }
        if ok {
            proof {
                assert(hay@.subrange(i as int, i + nn) =~= needle@);
                assert(matches_at(hay@, needle@, i as int));
            }
            return true;
        }
        proof {
            assert(!matches_at(hay@, needle@, i as int)) by {
                if matches_at(hay@, needle@, i as int) {
                    assert(hay@.subrange(i as int, i + nn)[j as int] == needle@[j as int]);
                }
            }
        }
        i = i + 1;
    }
    proof {
        assert forall|i2: int| !matches_at(hay@, needle@, i2) by {
            if 0 <= i2 <= hn - nn {
                assert(!matches_at(hay@, needle@, i2));
            }
        }
    }
    false
}

/// The wire formats an ingestion endpoint accepts.
#[derive(Clone, Copy, Debug, PartialEq, Eq, Structural)]
pub enum WireFormat {
    Protobuf,
    Json,
    Unsupported,
}

/// The format a declared content type names: binary protobuf for the
/// protobuf media types, OTLP-JSON for a JSON media type, and
/// unsupported for everything else.
pub open spec fn wire_format_of(ct: Seq<char>) -> WireFormat {
    if contains_seq(ct, "application/x-protobuf"@) || contains_seq(ct, "application/protobuf"@) {
        WireFormat::Protobuf
    } else if contains_seq(ct, "application/json"@) {
        WireFormat::Json
    } else {
        WireFormat::Unsupported
    }
}

/// Classifies a declared content type before any decoding: protobuf
/// and OTLP-JSON pass, anything else is unsupported.
pub fn classify_content_type(ct: &str) -> (r: WireFormat)
    ensures
        r == wire_format_of(ct@),
{
    if contains_str(ct, "application/x-protobuf") || contains_str(ct, "application/protobuf") {
        WireFormat::Protobuf
    } else if contains_str(ct, "application/json") {
        WireFormat::Json
    } else {
        WireFormat::Unsupported
    }
}

} // verus!
