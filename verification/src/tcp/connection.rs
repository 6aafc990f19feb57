use vstd::prelude::*;

verus! {

/// Why a payload from a client could not be read.
#[derive(Clone, Copy, Debug, PartialEq, Eq, Structural)]
pub enum PayloadError {
    /// The payload is not UTF-8 text.
    NotText,
}

/// The keep-alive request a client sends.
pub open spec fn ping_bytes() -> Seq<u8> {
    seq![80u8, 73u8, 78u8, 71u8]
}

/// The answer to a keep-alive request.
pub open spec fn pong_bytes() -> Seq<u8> {
    seq![80u8, 79u8, 78u8, 71u8]
}

/// Calls `std::str::from_utf8` and tells whether it accepted the bytes.
#[verifier::external_body]
fn is_utf8(bytes: &[u8]) -> (res: bool)
    ensures
        res == vstd::utf8::valid_utf8(bytes@),
{
    std::str::from_utf8(bytes).is_ok()
}

/// The reply to a payload received from a client: `PONG` to `PING`,
/// nothing to any other text, an error for bytes that are not text.
pub fn handle_incoming_payload(tcp_data: &Vec<u8>) -> (res: Result<Option<Vec<u8>>, PayloadError>)
    ensures
        match res {
            Ok(Some(reply)) => tcp_data@ == ping_bytes() && reply@ == pong_bytes(),
            Ok(None) => vstd::utf8::valid_utf8(tcp_data@) && tcp_data@ != ping_bytes(),
            Err(e) => !vstd::utf8::valid_utf8(tcp_data@) && e == PayloadError::NotText,
        },
{
    if !is_utf8(tcp_data.as_slice()) {
        return Err(PayloadError::NotText);
    }
    if tcp_data.len() == 4 && tcp_data[0] == 80 && tcp_data[1] == 73 && tcp_data[2] == 78
        && tcp_data[3] == 71 {
        assert(tcp_data@ =~= ping_bytes());
        let pong: Vec<u8> = vec![80u8, 79u8, 78u8, 71u8];
        assert(pong@ =~= pong_bytes());
        return Ok(Some(pong));
    }
    Ok(None)
}

} // verus!
