//! Dispatches, which carry bytes through the server.
use crate::error::{JsonError, MsgFromPaketError};
use crate::message::{is_read_by, paket_text, Message};
use vstd::prelude::*;

verus! {

/// Dispatch is the type of packet unit used exclusively by the server. It associates a byte vector
/// with an identifier, so that the clients can avoid to receive their own messages in cases of
/// multiple equal nicknames. The bytes are not assured to be a valid paket, even though this is
/// auspicable.
#[derive(Debug)]
pub struct Dispatch {
    userid: usize,
    bytes: Vec<u8>,
}

/// The identifier and the bytes of a dispatch.
#[verifier::ext_equal]
pub struct DispatchView {
    pub userid: usize,
    pub bytes: Seq<u8>,
}

impl View for Dispatch {
    type V = DispatchView;

    closed spec fn view(&self) -> DispatchView {
        DispatchView { userid: self.userid, bytes: self.bytes@ }
    }
}

impl Clone for Dispatch {
    fn clone(&self) -> (r: Self)
        ensures
            r@ == self@,
    {
        Dispatch { userid: self.userid, bytes: self.get_bytes() }
    }
}

/// The bytes that the client with the identifier `userid` gets of a dispatch: all, unless the
/// dispatch is its own.
pub open spec fn delivered(dispatch: DispatchView, userid: usize) -> Option<Seq<u8>> {
    if dispatch.userid != userid {
        Some(dispatch.bytes)
    } else {
        None
    }
}

/// The outcome for a dispatch whose text the parser `parse` is asked to read.
pub open spec fn is_dispatch_read_by<F: FnOnce(&str) -> Result<(String, String), JsonError>>(
    dispatch: DispatchView,
    parse: F,
    r: Result<Message, MsgFromPaketError>,
) -> bool {
    is_read_by(dispatch.bytes, parse, r)
}

impl Dispatch {
    /// A dispatch of the client with the identifier `userid`.
    pub fn new(userid: usize, bytes: Vec<u8>) -> (r: Dispatch)
        ensures
            r@ == (DispatchView { userid, bytes: bytes@ }),
    {
        Dispatch { userid, bytes }
    }

    /// The identifier of the client that the dispatch comes from.
    pub fn get_userid(&self) -> (r: usize)
        ensures
            r == self@.userid,
    {
        self.userid
    }

    /// The bytes of the dispatch.
    pub fn get_bytes(&self) -> (r: Vec<u8>)
        ensures
            r@ == self@.bytes,
    {
        let bytes = self.bytes.clone();
        assert(bytes@ =~= self.bytes@);
        bytes
    }

    /// What is written to the connection of the client with the identifier `userid`.
    pub fn bytes_for(&self, userid: usize) -> (r: Option<Vec<u8>>)
        ensures
            match r {
                Some(bytes) => delivered(self@, userid) == Some(bytes@),
                None => delivered(self@, userid) is None,
            },
    {
        if self.get_userid() != userid {
            Some(self.get_bytes())
        } else {
            None
        }
    }

    /// The message that the bytes carry. `parse` is the JSON parser, as for
    /// `Message::from_paket`.
    pub fn into_msg<F: FnOnce(&str) -> Result<(String, String), JsonError>>(
        self,
        parse: F,
    ) -> (r: Result<Message, MsgFromPaketError>)
        requires
            forall|text: &str|
                paket_text(self@.bytes) == Some(text@) ==> #[trigger] parse.requires((text,)),
        ensures
            is_dispatch_read_by(self@, parse, r),
    {
        Message::from_paket(self.bytes, parse)
    }
}

} // verus!
