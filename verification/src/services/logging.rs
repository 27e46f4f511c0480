//! The context of a logged request, and masking secrets before they are
//! logged.
use vstd::prelude::*;
use vstd::string::{StringExecFns, StringSliceAdditionalSpecFns};
use vstd::utf8::{decode_utf8, encode_utf8, is_char_boundary};

verus! {

#[verifier::external_type_specification]
#[verifier::external_body]
pub struct ExInstant(std::time::Instant);

/// Calls `std::time::Instant::now`. Nothing is claimed of the instant.
#[verifier::external_body]
fn now_instant() -> (r: std::time::Instant) {
    std::time::Instant::now()
}

/// The context of one request: its identifier, the name of the function
/// that serves it, and when it started.
pub struct LogContext {
    pub request_id: String,
    pub function_name: String,
    pub start_time: std::time::Instant,
}

impl LogContext {
    /// A new context for the named function with the given request
    /// identifier, started now.
    pub fn new(function_name: &str, request_id: String) -> (r: Self)
        ensures
            r.function_name@ == function_name@,
            r.request_id@ == request_id@,
    {
        LogContext {
            request_id,
            function_name: function_name.to_owned(),
            start_time: now_instant(),
        }
    }
}

/// Three asterisks.
pub open spec fn stars() -> Seq<char> {
    seq!['*', '*', '*']
}

/// A secret of at most 8 bytes becomes `***`; a longer one keeps its first
/// 4 bytes, followed by `***`. A longer secret must not have a character
/// across its fourth byte (slicing there would panic).
pub fn mask_sensitive(s: &str) -> (r: String)
    requires
        encode_utf8(s@).len() > 8 ==> is_char_boundary(encode_utf8(s@), 4),
    ensures
        encode_utf8(s@).len() <= 8 ==> r@ == stars(),
        encode_utf8(s@).len() > 8 ==> r@ == decode_utf8(encode_utf8(s@).take(4)) + stars(),
{
    proof {
        reveal_strlit("***");
    }
    assert(s.spec_bytes() == encode_utf8(s@));
    if s.as_bytes().len() <= 8 {
        let r = "***".to_owned();
        assert(r@ =~= stars());
        r
    } else {
        let (head, _) = s.split_at(4);
        proof {
            vstd::utf8::encode_utf8_decode_utf8(head@);
            assert(encode_utf8(head@) =~= encode_utf8(s@).take(4));
        }
        let mut r = head.to_owned();
        r.append("***");
        assert(r@ =~= decode_utf8(encode_utf8(s@).take(4)) + stars());
        r
    }
}

} // verus!
