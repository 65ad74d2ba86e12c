//! Outgoing mail: the parts a message is made of, and the message built from
//! exactly those parts.
use vstd::prelude::*;

verus! {

/// An email message of the lettre crate.
#[verifier::external_type_specification]
#[verifier::external_body]
pub struct ExMessage(lettre::Message);

/// A mailbox as its parts: display name, user and domain of the address.
pub struct MailboxParts {
    pub name: Option<String>,
    pub user: String,
    pub domain: String,
}

impl View for MailboxParts {
    type V = (Option<Seq<char>>, Seq<char>, Seq<char>);

    open spec fn view(&self) -> (Option<Seq<char>>, Seq<char>, Seq<char>) {
        (match self.name { Some(n) => Some(n@), None => None }, self.user@, self.domain@)
    }
}

/// What a plain-text message is made of: sender, recipient, subject, body.
pub struct Draft {
    pub from: MailboxParts,
    pub to: MailboxParts,
    pub subject: String,
    pub body: String,
}

impl View for Draft {
    type V = (
        (Option<Seq<char>>, Seq<char>, Seq<char>),
        (Option<Seq<char>>, Seq<char>, Seq<char>),
        Seq<char>,
        Seq<char>,
    );

    open spec fn view(&self) -> Self::V {
        (self.from@, self.to@, self.subject@, self.body@)
    }
}

/// The texts of the errors lettre can give when it builds a message with one
/// From and one To: a missing source, several sources, a missing destination.
pub open spec fn build_refusal(m: Seq<char>) -> bool {
    ||| m == "missing source address, invalid envelope"@
    ||| m == "there can only be one source address"@
    ||| m == "missing destination address, invalid envelope"@
}

/// A built message together with the draft it was built from.
pub struct Email {
    message: lettre::Message,
    draft: Draft,
}

impl Email {
    /// The draft the message was built from.
    pub closed spec fn draft(&self) -> (
        (Option<Seq<char>>, Seq<char>, Seq<char>),
        (Option<Seq<char>>, Seq<char>, Seq<char>),
        Seq<char>,
        Seq<char>,
    ) {
        self.draft@
    }

    /// `lettre::Message::builder()` with `from` and `to` made from the
    /// draft's mailboxes (`Mailbox::new` over `Address::new_dangerous` of
    /// the user and domain), its `subject`, `date_now` and its plain `body`;
    /// a building error is given as its `Display` text.
    ///
    /// Claimed: a message that is built holds the draft it was built from.
    /// lettre reads the From and To headers back from their text, and whether
    /// that succeeds is not stated; when it does not, the error is one of
    /// those `build_refusal` lists (lettre's `build` and
    /// `Envelope::try_from` fail only for a missing From, several From or a
    /// missing To). The current time goes into the message and is not
    /// described.
    #[verifier::external_body]
    pub(crate) fn build(d: Draft) -> (r: Result<Email, String>)
        ensures
            r matches Ok(e) ==> e.draft() == d@,
            r matches Err(m) ==> build_refusal(m@),
    {
        let from = lettre::message::Mailbox::new(d.from.name.clone(), lettre::Address::new_dangerous(&d.from.user, &d.from.domain));
        let to = lettre::message::Mailbox::new(d.to.name.clone(), lettre::Address::new_dangerous(&d.to.user, &d.to.domain));
        let built = lettre::Message::builder().from(from).to(to).subject(d.subject.clone()).date_now().body(d.body.clone());
        built.map(|message| Email { message, draft: d }).map_err(|e| e.to_string())
    }

    /// The parts the message was built from.
    pub fn parts(&self) -> (r: &Draft)
        ensures
            r@ == self.draft(),
    {
        &self.draft
    }

    /// The built message.
    pub fn message(&self) -> &lettre::Message {
        &self.message
    }
}

} // verus!
