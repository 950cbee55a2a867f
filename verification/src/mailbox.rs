//! Mailbox delivery between team members.
use vstd::prelude::*;
use crate::store::{store_error_text, StoreErrorView, StoreView, TeamStore, TeamStoreError};
use crate::text::{concat_str, owned, str_eq};
use crate::types::{MailboxKind, MailboxMessage, MailboxMessageView};

verus! {

#[derive(Debug)]
pub enum MailboxError {
    Store(TeamStoreError),
    UnknownSender(String),
    UnknownRecipient(String),
    SelfSend,
}

pub enum MailboxErrorView {
    Store(StoreErrorView),
    UnknownSender(Seq<char>),
    UnknownRecipient(Seq<char>),
    SelfSend,
}

impl View for MailboxError {
    type V = MailboxErrorView;

    open spec fn view(&self) -> MailboxErrorView {
        match self {
            MailboxError::Store(e) => MailboxErrorView::Store(e@),
            MailboxError::UnknownSender(s) => MailboxErrorView::UnknownSender(s@),
            MailboxError::UnknownRecipient(s) => MailboxErrorView::UnknownRecipient(s@),
            MailboxError::SelfSend => MailboxErrorView::SelfSend,
        }
    }
}

impl StoreView {
    /// Appends one message to `to`'s inbox. Self-sends and unknown members
    /// fail before anything is written.
    pub open spec fn send_message(
        self,
        t: Seq<char>,
        from: Seq<char>,
        to: Seq<char>,
        kind: MailboxKind,
        subject: Option<Seq<char>>,
        body: Seq<char>,
        now: i64,
        id: Seq<char>,
    ) -> (StoreView, Result<MailboxMessageView, MailboxErrorView>) {
        if from == to {
            (self, Err(MailboxErrorView::SelfSend))
        } else {
            match self.load(t) {
                Err(e) => (self, Err(MailboxErrorView::Store(e))),
                Ok(c) => if c.member(from) is None {
                    (self, Err(MailboxErrorView::UnknownSender(from)))
                } else if c.member(to) is None {
                    (self, Err(MailboxErrorView::UnknownRecipient(to)))
                } else {
                    let msg = MailboxMessageView {
                        id,
                        from,
                        to,
                        kind,
                        subject,
                        body,
                        created_unix_ms: now,
                    };
                    match self.read_inbox(t, to) {
                        Err(e) => (self, Err(MailboxErrorView::Store(e))),
                        Ok(inbox) => (self.write_inbox(t, to, inbox.push(msg)), Ok(msg)),
                    }
                },
            }
        }
    }
}

pub open spec fn message_result_view(r: Result<MailboxMessage, MailboxError>) -> Result<
    MailboxMessageView,
    MailboxErrorView,
> {
    match r {
        Ok(m) => Ok(m@),
        Err(e) => Err(e@),
    }
}

/// Append one message to `to`'s inbox. Unknown members fail before the
/// inbox is touched.
pub fn send_message(
    store: &mut TeamStore,
    team_id: &str,
    from: &str,
    to: &str,
    kind: MailboxKind,
    subject: Option<String>,
    body: String,
    now_unix_ms: i64,
    id: String,
) -> (r: Result<MailboxMessage, MailboxError>)
    requires
        old(store).wf(),
    ensures
        final(store).wf(),
        (final(store)@, message_result_view(r)) == old(store)@.send_message(
            team_id@,
            from@,
            to@,
            kind,
            subject.deep_view(),
            body@,
            now_unix_ms,
            id@,
        ),
{
    if str_eq(from, to) {
        return Err(MailboxError::SelfSend);
    }
    let config = match store.load(team_id) {
        Ok(c) => c,
        Err(e) => return Err(MailboxError::Store(e)),
    };
    if config.member(from).is_none() {
        return Err(MailboxError::UnknownSender(owned(from)));
    }
    if config.member(to).is_none() {
        return Err(MailboxError::UnknownRecipient(owned(to)));
    }
    let message = MailboxMessage {
        id,
        from: owned(from),
        to: owned(to),
        kind,
        subject,
        body,
        created_unix_ms: now_unix_ms,
    };
    let mut inbox = match store.read_inbox(team_id, to) {
        Ok(v) => v,
        Err(e) => return Err(MailboxError::Store(e)),
    };
    let ghost before = inbox.deep_view();
    inbox.push(message.clone());
    proof {
        assert(inbox.deep_view() =~= before.push(message@));
        assert(inbox@.map_values(|m: MailboxMessage| m@) =~= inbox.deep_view());
    }
    let _ = store.write_inbox(team_id, to, inbox.as_slice());
    Ok(message)
}

/// The error's message.
pub open spec fn mailbox_error_text(e: MailboxErrorView) -> Seq<char> {
    match e {
        MailboxErrorView::Store(e) => store_error_text(e),
        MailboxErrorView::UnknownSender(m) => "sender is not a team member: "@ + m,
        MailboxErrorView::UnknownRecipient(m) => "recipient is not a team member: "@ + m,
        MailboxErrorView::SelfSend => "cannot send a mailbox message to self"@,
    }
}

impl MailboxError {
    /// The error's message.
    pub fn message(&self) -> (s: String)
        ensures
            s@ == mailbox_error_text(self@),
    {
        proof {
            reveal_strlit("sender is not a team member: ");
            reveal_strlit("recipient is not a team member: ");
            reveal_strlit("cannot send a mailbox message to self");
        }
        match self {
            MailboxError::Store(e) => e.message(),
            MailboxError::UnknownSender(m) => concat_str("sender is not a team member: ", m.as_str()),
            MailboxError::UnknownRecipient(m) => concat_str(
                "recipient is not a team member: ",
                m.as_str(),
            ),
            MailboxError::SelfSend => owned("cannot send a mailbox message to self"),
        }
    }
}

} // verus!
