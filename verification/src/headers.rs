//! The fixed header set that goes with every request.

use vstd::prelude::*;
use vstd::utf8::encode_utf8;
use crate::error::PipelineError;

verus! {

/// A byte that may stand in a header value: a tab, or any byte from 32 on but
/// 127.
pub open spec fn byte_transmittable(b: u8) -> bool {
    (b >= 32 && b != 127) || b == 9
}

/// Every byte of `bytes` may stand in a header value.
pub open spec fn transmittable(bytes: Seq<u8>) -> bool {
    forall|i: int| 0 <= i < bytes.len() ==> byte_transmittable(#[trigger] bytes[i])
}

/// Every byte of the UTF-8 form of `text` may stand in a header value.
pub open spec fn value_transmittable(text: Seq<char>) -> bool {
    transmittable(encode_utf8(text))
}

/// The three header values of a run, each checked for transmission.
#[derive(Debug)]
pub struct HeaderSet {
    pub origin: String,
    pub referer: String,
    pub user_agent: String,
}

impl HeaderSet {
    /// Each of the three values can be transmitted.
    pub open spec fn well_formed(&self) -> bool {
        &&& value_transmittable(self.origin@)
        &&& value_transmittable(self.referer@)
        &&& value_transmittable(self.user_agent@)
    }

    /// This set holds exactly the three given values.
    pub open spec fn holds(&self, origin: Seq<char>, referer: Seq<char>, user_agent: Seq<char>) -> bool {
        &&& self.origin@ == origin
        &&& self.referer@ == referer
        &&& self.user_agent@ == user_agent
    }
}

/// Asks `reqwest::header::HeaderValue::from_str` whether it accepts `text`.
/// It scans the bytes of the text and refuses it exactly where one of them is
/// neither a tab nor a byte from 32 on other than 127.
#[verifier::external_body]
fn header_value_accepts(text: &str) -> (ok: bool)
    ensures
        ok == value_transmittable(text@),
{
    reqwest::header::HeaderValue::from_str(text).is_ok()
}

/// Checks the three header values before any request is made.
///
/// Succeeds exactly where every byte of every value can be transmitted.
pub fn check_headers(origin: &str, referer: &str, user_agent: &str) -> (r: Result<
    HeaderSet,
    PipelineError,
>)
    ensures
        match r {
            Ok(set) => set.well_formed() && set.holds(origin@, referer@, user_agent@),
            Err(PipelineError::HeaderConstruction) => !(value_transmittable(origin@)
                && value_transmittable(referer@) && value_transmittable(user_agent@)),
            Err(_) => false,
        },
{
    if header_value_accepts(origin) && header_value_accepts(referer) && header_value_accepts(
        user_agent,
    ) {
        Ok(
            HeaderSet {
                origin: origin.to_owned(),
                referer: referer.to_owned(),
                user_agent: user_agent.to_owned(),
            },
        )
    } else {
        Err(PipelineError::HeaderConstruction)
    }
}

} // verus!
