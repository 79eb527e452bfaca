//! How the consensus layer reads the store's requests: it takes a frame off a
//! client's bytes and tells reads from writes, and writes replies back.
use vstd::prelude::*;
use crate::frame::{
    Frame, FrameModel, Error, Scan, Decoded, scan_frame, decode_frame, take_frame, write_frame,
    encode,
};
use crate::command::{Command, CommandModel, ErrKind, command_of, matches_err, applied};
use crate::parse::ParseError;

verus! {

/// What the consensus layer carries for the store it serves.
pub trait ClientData {

}

impl ClientData for Frame {

}

/// A client's request: one that only reads the store, or one that writes it
/// (and is replicated before it is carried out).
#[derive(Debug)]
pub enum Kind<T: ClientData> {
    Read(T),
    Write(T),
}

/// Why a client's bytes could not be read as a request.
#[derive(Debug)]
pub enum ParserError {
    Frame(Error),
    Command(ParseError),
}

/// The parser of the key-value store's protocol.
#[derive(Debug)]
pub struct KvsParser;

/// Commands that change the store: `set` and `load`.
pub open spec fn is_write(c: CommandModel) -> bool {
    c is SetCmd || c is Load
}

/// `k` holds the frame `f`, as a write when its command `c` writes.
pub open spec fn kind_of(k: Kind<Frame>, f: FrameModel, c: CommandModel) -> bool {
    match k {
        Kind::Read(x) => x.model() == f && !is_write(c),
        Kind::Write(x) => x.model() == f && is_write(c),
    }
}

/// What `KvsParser::parse` answers on the bytes `before`, and the bytes
/// `after` it leaves: a whole, valid frame is taken off the front and read as
/// a command, a read or a write; the start of a frame is left as it is, with
/// no answer yet; anything else is an error and leaves the bytes as they are.
pub open spec fn parsed(
    before: Seq<u8>,
    after: Seq<u8>,
    r: Result<Option<Kind<Frame>>, ParserError>,
) -> bool {
    match scan_frame(before, 0) {
        Scan::Done(q) => match decode_frame(before, 0) {
            Decoded::Done(f, _) => after == before.subrange(q, before.len() as int) && match command_of(f) {
                Ok(c) => r matches Ok(Some(k)) && kind_of(k, f, c),
                Err(e) => r matches Err(ParserError::Command(pe)) && matches_err(pe, e),
            },
            _ => r matches Err(ParserError::Frame(Error::Other(_))) && after == before,
        },
        Scan::Incomplete => r matches Ok(None) && after == before,
        _ => r matches Err(ParserError::Frame(Error::Other(_))) && after == before,
    }
}

impl KvsParser {
    pub fn new() -> (p: KvsParser) {
        KvsParser
    }

    /// Takes one request off the front of `buffer` (see `took_frame`) and
    /// tells whether it reads or writes the store (see `parsed`).
    pub fn parse(&self, buffer: &mut Vec<u8>) -> (r: Result<Option<Kind<Frame>>, ParserError>)
        requires
            !(scan_frame(old(buffer)@, 0) is Aborts),
        ensures
            parsed(old(buffer)@, final(buffer)@, r),
    {
        match take_frame(buffer) {
            Ok(None) => Ok(None),
            Err(e) => Err(ParserError::Frame(e)),
            Ok(Some(frame)) => {
                match Command::from_frame(frame.duplicate()) {
                    Ok(cmd) => {
                        let write = cmd.writes();
                        if write {
                            Ok(Some(Kind::Write(frame)))
                        } else {
                            Ok(Some(Kind::Read(frame)))
                        }
                    },
                    Err(e) => Err(ParserError::Command(e)),
                }
            },
        }
    }

    /// The bytes of a reply: its RESP encoding, as `write_frame` writes it.
    pub fn unparse(&self, data: Frame) -> (r: Vec<u8>)
        ensures
            r@ == encode(data.model()),
    {
        let mut buf: Vec<u8> = Vec::new();
        write_frame(&mut buf, &data);
        proof {
            assert(buf@ =~= encode(data.model()));
        }
        buf
    }
}

/// A request the parser reads as a read leaves the store as it is when it is
/// carried out, so it needs no replication; one read as a write is a `set`
/// or a `load`.
pub proof fn law_reads_leave_the_store(m: Map<Seq<char>, Seq<u8>>, c: CommandModel)
    ensures
        !is_write(c) ==> applied(m, c) == m,
        is_write(c) <==> (c is SetCmd || c is Load),
{
}

} // verus!
