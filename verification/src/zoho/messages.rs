//! Zoho messages: what a folder listing says of each message, and the paging
//! of listings.
use vstd::prelude::*;
use crate::text::str_eq;

verus! {

/// A message as the remote listing reports it.
#[derive(Clone, Debug)]
pub struct RemoteMessage {
    pub message_id: String,
    pub folder_id: String,
    pub read: bool,
    pub important: bool,
}

/// The mathematical value of a [`RemoteMessage`].
pub struct RemoteMessageView {
    pub message_id: Seq<char>,
    pub folder_id: Seq<char>,
    pub read: bool,
    pub important: bool,
}

impl View for RemoteMessage {
    type V = RemoteMessageView;

    open spec fn view(&self) -> RemoteMessageView {
        RemoteMessageView {
            message_id: self.message_id@,
            folder_id: self.folder_id@,
            read: self.read,
            important: self.important,
        }
    }
}

/// Whether an optional listing field holds exactly `text`.
pub open spec fn field_is(field: Option<Seq<char>>, text: Seq<char>) -> bool {
    field == Some(text)
}

impl RemoteMessage {
    /// The message of one listing entry: it is read when its `status` is
    /// `1`, and important when its `flagid` is `important`.
    pub fn from_entry(
        message_id: String,
        folder_id: String,
        status: Option<String>,
        flagid: Option<String>,
    ) -> (m: RemoteMessage)
        ensures
            m.message_id == message_id,
            m.folder_id == folder_id,
            m.read == field_is(status.deep_view(), "1"@),
            m.important == field_is(flagid.deep_view(), "important"@),
    {
        let read = match &status {
            Some(s) => str_eq(s.as_str(), "1"),
            None => false,
        };
        let important = match &flagid {
            Some(f) => str_eq(f.as_str(), "important"),
            None => false,
        };
        RemoteMessage { message_id, folder_id, read, important }
    }
}

/// What follows a page of a folder listing.
#[derive(Clone, Copy, Debug, PartialEq, Eq, Structural)]
pub enum PageStep {
    /// The page was short: the listing is complete.
    Done,
    /// Ask for the page that starts at this (1-based) position.
    Next(u32),
    /// The next start position does not fit in 32 bits.
    Overflow,
}

/// After a page of `returned` messages, asked for from position `start`
/// with a page size of `page_limit`: a short page ends the listing; a full
/// one moves the start on by a page.
pub fn next_page(start: u32, page_limit: u32, returned: usize) -> (step: PageStep)
    ensures
        returned < page_limit ==> step == PageStep::Done,
        returned >= page_limit && start + page_limit <= u32::MAX ==> step == PageStep::Next(
            (start + page_limit) as u32,
        ),
        returned >= page_limit && start + page_limit > u32::MAX ==> step == PageStep::Overflow,
{
    if returned < page_limit as usize {
        return PageStep::Done;
    }
    match start.checked_add(page_limit) {
        Some(n) => PageStep::Next(n),
        None => PageStep::Overflow,
    }
}

} // verus!
