//! Reading the parts of a command frame one after the other.
use vstd::prelude::*;
use vstd::utf8::*;
use crate::frame::{Frame, FrameModel, models, utf8_to_string};
use crate::command::text;

verus! {

/// Errors met while reading the parts of a frame.
#[derive(Debug)]
pub enum ParseError {
    /// Every part has been read.
    EndOfStream,
    /// A part is not of the kind asked for.
    Other(String),
}

impl From<String> for ParseError {
    fn from(src: String) -> (r: ParseError) {
        ParseError::Other(src)
    }
}

impl vstd::std_specs::convert::FromSpecImpl<String> for ParseError {
    open spec fn obeys_from_spec() -> bool {
        true
    }

    open spec fn from_spec(v: String) -> ParseError {
        ParseError::Other(v)
    }
}

impl ParseError {
    /// The text of the error: `End of stream`, or the message it holds.
    pub fn message(&self) -> (r: String)
        ensures
            self is EndOfStream ==> r@ == "End of stream"@,
            self matches ParseError::Other(m) ==> r@ == m@,
    {
        match self {
            ParseError::EndOfStream => {
                proof {
                    broadcast use vstd::string::to_string_from_display_ensures_for_str;
                }
                "End of stream".to_string()
            },
            ParseError::Other(m) => m.clone(),
        }
    }
}

/// The text that a part stands for: a simple frame's text, or a bulk frame's
/// bytes when they are UTF-8.
pub open spec fn text_of(f: FrameModel) -> Option<Seq<char>> {
    match f {
        FrameModel::Simple(s) => Some(s),
        FrameModel::Bulk(b) => if valid_utf8(b) {
            Some(decode_utf8(b))
        } else {
            None
        },
        _ => None,
    }
}

/// The bytes that a part stands for: a simple frame's text in UTF-8, or a bulk
/// frame's bytes.
pub open spec fn bytes_of(f: FrameModel) -> Option<Seq<u8>> {
    match f {
        FrameModel::Simple(s) => Some(encode_utf8(s)),
        FrameModel::Bulk(b) => Some(b),
        _ => None,
    }
}

/// The parts of an array frame that are left to read.
#[derive(Debug)]
pub struct Parse {
    parts: Vec<Frame>,
}

impl Parse {
    /// The models of the parts left to read, in order.
    pub closed spec fn remaining(&self) -> Seq<FrameModel> {
        models(self.parts@)
    }

    /// Starts reading the parts of `frame`, which must be an array.
    pub fn new(frame: Frame) -> (r: Result<Parse, ParseError>)
        ensures
            match frame.model() {
                FrameModel::Array(items) => r matches Ok(p) && p.remaining() == items,
                _ => r matches Err(ParseError::Other(m)) && m@ == "protocol error; expected array"@,
            },
    {
        match frame {
            Frame::Array(array) => {
                proof {
                    crate::frame::lemma_array_model(array);
                }
                Ok(Parse { parts: array })
            },
            _ => Err(ParseError::Other(text("protocol error; expected array"))),
        }
    }

    /// Reads the next part.
    pub fn next(&mut self) -> (r: Result<Frame, ParseError>)
        ensures
            old(self).remaining().len() == 0 ==> (r matches Err(ParseError::EndOfStream))
                && final(self).remaining() == old(self).remaining(),
            old(self).remaining().len() > 0 ==> (r matches Ok(f) && f.model() == old(
                self,
            ).remaining()[0]) && final(self).remaining() == old(self).remaining().drop_first(),
    {
        if self.parts.len() == 0 {
            return Err(ParseError::EndOfStream);
        }
        let ghost before = self.parts@;
        let f = self.parts.remove(0);
        proof {
            assert(models(self.parts@) =~= models(before).drop_first());
        }
        Ok(f)
    }

    /// Reads the next part as a text.
    pub fn next_string(&mut self) -> (r: Result<String, ParseError>)
        ensures
            old(self).remaining().len() == 0 ==> (r matches Err(ParseError::EndOfStream))
                && final(self).remaining() == old(self).remaining(),
            old(self).remaining().len() > 0 ==> final(self).remaining() == old(
                self,
            ).remaining().drop_first() && match text_of(old(self).remaining()[0]) {
                Some(t) => r matches Ok(s) && s@ == t,
                None => r matches Err(ParseError::Other(m)) && m@ == if old(
                    self,
                ).remaining()[0] is Bulk {
                    "protocol error; invalid string"@
                } else {
                    "protocol error; expected simple frame or bulk frame"@
                },
            },
    {
        match self.next()? {
            Frame::Simple(s) => Ok(s),
            Frame::Bulk(data) => match utf8_to_string(data.as_slice()) {
                Some(s) => Ok(s),
                None => Err(ParseError::Other(text("protocol error; invalid string"))),
            },
            _ => Err(ParseError::Other(text("protocol error; expected simple frame or bulk frame"))),
        }
    }

    /// Reads the next part as bytes.
    pub fn next_bytes(&mut self) -> (r: Result<Vec<u8>, ParseError>)
        ensures
            old(self).remaining().len() == 0 ==> (r matches Err(ParseError::EndOfStream))
                && final(self).remaining() == old(self).remaining(),
            old(self).remaining().len() > 0 ==> final(self).remaining() == old(
                self,
            ).remaining().drop_first() && match bytes_of(old(self).remaining()[0]) {
                Some(b) => r matches Ok(v) && v@ == b,
                None => r matches Err(ParseError::Other(m)) && m@
                    == "protocol error; expected simple frame or bulk frame"@,
            },
    {
        match self.next()? {
            Frame::Simple(s) => Ok(vstd::slice::slice_to_vec(s.as_str().as_bytes())),
            Frame::Bulk(data) => Ok(data),
            _ => Err(ParseError::Other(text("protocol error; expected simple frame or bulk frame"))),
        }
    }

    /// Reads the next part as an array, whose parts can then be read in turn.
    pub fn next_array(&mut self) -> (r: Result<Parse, ParseError>)
        ensures
            old(self).remaining().len() == 0 ==> (r matches Err(ParseError::EndOfStream))
                && final(self).remaining() == old(self).remaining(),
            old(self).remaining().len() > 0 ==> final(self).remaining() == old(
                self,
            ).remaining().drop_first() && match old(self).remaining()[0] {
                FrameModel::Array(items) => r matches Ok(p) && p.remaining() == items,
                _ => r matches Err(ParseError::Other(m)) && m@ == "protocol error; expected array frame"@,
            },
    {
        match self.next()? {
            Frame::Array(items) => {
                proof {
                    crate::frame::lemma_array_model(items);
                }
                Ok(Parse { parts: items })
            },
            _ => Err(ParseError::Other(text("protocol error; expected array frame"))),
        }
    }

    /// Succeeds when every part has been read.
    pub fn finish(&mut self) -> (r: Result<(), ParseError>)
        ensures
            *final(self) == *old(self),
            old(self).remaining().len() == 0 <==> r is Ok,
            r is Err ==> (r matches Err(ParseError::Other(m)) && m@
                == "protocol error; expected end of frame, but there was more"@),
    {
        if self.parts.len() == 0 {
            Ok(())
        } else {
            Err(ParseError::Other(text("protocol error; expected end of frame, but there was more")))
        }
    }
}

} // verus!
