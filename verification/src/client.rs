//! What a client makes of the replies of the store.
use vstd::prelude::*;
use vstd::utf8::*;
use crate::frame::{Frame, FrameModel};

verus! {

/// Why a request failed.
#[derive(Debug)]
pub enum ClientError {
    /// The store answered with an error frame holding this message.
    Server(String),
    /// The connection closed before a reply came.
    Closed,
    /// The reply is not one the request can have.
    Unexpected(Frame),
}

/// The reply read from the connection, or why there is none: an error frame
/// is the store's error.
pub fn read_response(response: Option<Frame>) -> (r: Result<Frame, ClientError>)
    ensures
        match response {
            Some(Frame::Error(msg)) => r matches Err(ClientError::Server(m)) && m@ == msg@,
            Some(f) => r matches Ok(g) && g.model() == f.model(),
            None => r matches Err(ClientError::Closed),
        },
{
    match response {
        Some(Frame::Error(msg)) => Err(ClientError::Server(msg)),
        Some(frame) => Ok(frame),
        None => Err(ClientError::Closed),
    }
}

/// What a client reads from a reply to `get`: the bytes of a simple frame's
/// text or of a bulk frame, nothing for the null frame; `None` for a reply
/// `get` cannot have.
pub open spec fn client_value(f: FrameModel) -> Option<Option<Seq<u8>>> {
    match f {
        FrameModel::Simple(s) => Some(Some(encode_utf8(s))),
        FrameModel::Bulk(b) => Some(Some(b)),
        FrameModel::Null => Some(None),
        _ => None,
    }
}

/// The value that a reply to `get` carries: the text of a simple frame, the
/// bytes of a bulk frame, nothing for the null frame.
pub fn get_reply(frame: Frame) -> (r: Result<Option<Vec<u8>>, ClientError>)
    ensures
        match client_value(frame.model()) {
            Some(Some(b)) => r matches Ok(Some(v)) && v@ == b,
            Some(None) => r matches Ok(None),
            None => r matches Err(ClientError::Unexpected(g)) && g.model() == frame.model(),
        },
{
    match frame {
        Frame::Simple(value) => Ok(Some(vstd::slice::slice_to_vec(value.as_str().as_bytes()))),
        Frame::Bulk(value) => Ok(Some(value)),
        Frame::Null => Ok(None),
        frame => Err(ClientError::Unexpected(frame)),
    }
}

/// A reply to `set` succeeds only as the simple frame `OK`.
pub fn set_reply(frame: Frame) -> (r: Result<(), ClientError>)
    ensures
        frame.model() == FrameModel::Simple("OK"@) <==> r is Ok,
        r matches Err(e) ==> (e matches ClientError::Unexpected(g) && g.model() == frame.model()),
{
    let ok = {
        proof {
            broadcast use vstd::string::to_string_from_display_ensures_for_str;
        }
        "OK".to_string()
    };
    match frame {
        Frame::Simple(response) => if response == ok {
            Ok(())
        } else {
            Err(ClientError::Unexpected(Frame::Simple(response)))
        },
        frame => Err(ClientError::Unexpected(frame)),
    }
}

/// A client's `get` after a `set` of its key reads back the value set (the
/// store's reply to `get` on the store after the `set`); a key that was never
/// set reads as nothing.
pub proof fn law_client_get_after_set(
    m: Map<Seq<char>, Seq<u8>>,
    k: Seq<char>,
    v: Seq<u8>,
    other: Seq<char>,
)
    ensures
        client_value(crate::command::get_reply(m.insert(k, v), k)) == Some(Some(v)),
        other != k && !m.contains_key(other) ==> client_value(
            crate::command::get_reply(m.insert(k, v), other),
        ) == Some(None::<Seq<u8>>),
{
}

} // verus!
