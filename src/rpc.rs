use vstd::prelude::*;

use crate::db::MAX_CONTENT_LEN;

verus! {

/// Protocol tag negotiated when a connection is made.
pub const ROSTRA_P2P_V0_ALPN: &'static str = "rostra-p2p-v0";

/// The largest request either side accepts, in bytes.
pub const MAX_REQUEST_SIZE: u32 = 16384;

/// The largest response either side accepts, in bytes: room for content of
/// the largest size kept, twice over.
pub const MAX_RESPONSE_SIZE: u32 = 2 * MAX_CONTENT_LEN + 16384;

/// Why a call to a peer failed.
#[derive(Clone, Copy, Debug, PartialEq, Eq)]
pub enum RpcError {
    Connection,
    Write,
    Read,
    RequestTooLarge { len: u32 },
    ResponseTooLarge { len: u32 },
    ResponseDecoding,
}

/// Refuses a request frame longer than `MAX_REQUEST_SIZE`.
pub fn check_request_len(len: u32) -> (r: Result<(), RpcError>)
    ensures
        len <= MAX_REQUEST_SIZE ==> r == Ok::<(), RpcError>(()),
        len > MAX_REQUEST_SIZE ==> r == Err::<(), RpcError>(RpcError::RequestTooLarge { len }),
{
    if len > MAX_REQUEST_SIZE {
        Err(RpcError::RequestTooLarge { len })
    } else {
        Ok(())
    }
}

/// Refuses a response frame longer than `MAX_RESPONSE_SIZE`.
pub fn check_response_len(len: u32) -> (r: Result<(), RpcError>)
    ensures
        len <= MAX_RESPONSE_SIZE ==> r == Ok::<(), RpcError>(()),
        len > MAX_RESPONSE_SIZE ==> r == Err::<(), RpcError>(RpcError::ResponseTooLarge { len }),
{
    if len > MAX_RESPONSE_SIZE {
        Err(RpcError::ResponseTooLarge { len })
    } else {
        Ok(())
    }
}

} // verus!
