//! A message as the attachment extractor reads it: the first-level parts, each
//! with its headers and its body. Parsing is done by the `mailparse` crate;
//! this module holds the plain values that come out of it.

use vstd::prelude::*;

verus! {

/// One header line of a part: its name and its unfolded, decoded value.
#[derive(Debug, PartialEq, Eq)]
pub struct Header {
    pub key: String,
    pub value: String,
}

/// A first-level part of a message.
#[derive(Debug, PartialEq, Eq)]
pub struct Part {
    /// The headers in the order in which they stand in the part.
    pub headers: Vec<Header>,
    /// The body with its transfer encoding undone, or `None` where the body
    /// is not valid in the encoding that the part declares.
    pub body: Option<Vec<u8>>,
}

/// A parsed message: the direct subparts of its root. A message that is not
/// multipart has none.
#[derive(Debug, PartialEq, Eq)]
pub struct Message {
    pub parts: Vec<Part>,
}

/// What a disposition header says is to be done with a part.
#[derive(Debug, PartialEq, Eq)]
pub enum DispositionKind {
    Inline,
    Attachment,
    FormData,
    /// Any other kind, in lower case.
    Extension(String),
}

/// One `name=value` parameter of a header value.
#[derive(Debug, PartialEq, Eq)]
pub struct Param {
    pub name: String,
    pub value: String,
}

/// A decoded disposition header: the kind and the parameters.
#[derive(Debug, PartialEq, Eq)]
pub struct Disposition {
    pub kind: DispositionKind,
    pub params: Vec<Param>,
}

pub struct HeaderView {
    pub key: Seq<char>,
    pub value: Seq<char>,
}

pub struct PartView {
    pub headers: Seq<HeaderView>,
    pub body: Option<Seq<u8>>,
}

pub struct MessageView {
    pub parts: Seq<PartView>,
}

pub enum DispositionKindView {
    Inline,
    Attachment,
    FormData,
    Extension(Seq<char>),
}

pub struct ParamView {
    pub name: Seq<char>,
    pub value: Seq<char>,
}

pub struct DispositionView {
    pub kind: DispositionKindView,
    pub params: Seq<ParamView>,
}

/// The views of a run of headers.
pub open spec fn header_views(headers: Seq<Header>) -> Seq<HeaderView> {
    headers.map_values(|header: Header| header@)
}

/// The views of a run of parameters.
pub open spec fn param_views(params: Seq<Param>) -> Seq<ParamView> {
    params.map_values(|param: Param| param@)
}

/// The views of a run of parts.
pub open spec fn part_views(parts: Seq<Part>) -> Seq<PartView> {
    parts.map_values(|part: Part| part@)
}

impl View for Header {
    type V = HeaderView;

    open spec fn view(&self) -> HeaderView {
        HeaderView { key: self.key@, value: self.value@ }
    }
}

impl View for Part {
    type V = PartView;

    open spec fn view(&self) -> PartView {
        PartView {
            headers: header_views(self.headers@),
            body: match self.body {
                Some(bytes) => Some(bytes@),
                None => None,
            },
        }
    }
}

impl View for Message {
    type V = MessageView;

    open spec fn view(&self) -> MessageView {
        MessageView { parts: part_views(self.parts@) }
    }
}

impl View for DispositionKind {
    type V = DispositionKindView;

    open spec fn view(&self) -> DispositionKindView {
        match self {
            DispositionKind::Inline => DispositionKindView::Inline,
            DispositionKind::Attachment => DispositionKindView::Attachment,
            DispositionKind::FormData => DispositionKindView::FormData,
            DispositionKind::Extension(name) => DispositionKindView::Extension(name@),
        }
    }
}

impl View for Param {
    type V = ParamView;

    open spec fn view(&self) -> ParamView {
        ParamView { name: self.name@, value: self.value@ }
    }
}

impl View for Disposition {
    type V = DispositionView;

    open spec fn view(&self) -> DispositionView {
        DispositionView { kind: self.kind@, params: param_views(self.params@) }
    }
}

#[verifier::external_type_specification]
#[verifier::external_body]
pub struct ExMailParseError(mailparse::MailParseError);

/// What `mailparse::parse_mail` makes of the bytes `raw`: the first-level
/// parts of the message, or `None` where it refuses the bytes.
pub uninterp spec fn parsed_message(raw: Seq<u8>) -> Option<MessageView>;

/// What `mailparse::parse_content_disposition` makes of a header value.
pub uninterp spec fn parsed_disposition(value: Seq<char>) -> DispositionView;

/// Parses a raw message with `mailparse::parse_mail` and copies out of the
/// result what the extractor reads: for each direct subpart its headers,
/// by `MailHeader::get_key` and `MailHeader::get_value`, and its body, by
/// `ParsedMail::get_body_raw`. The contract claims only that the outcome is
/// a function of the bytes; it says nothing of what the parts hold.
#[verifier::external_body]
pub(crate) fn parse_message(raw: &[u8]) -> (parsed: Result<Message, mailparse::MailParseError>)
    ensures
        match parsed {
            Ok(message) => parsed_message(raw@) == Some(message@),
            Err(_) => parsed_message(raw@) is None,
        },
{
    let mail = mailparse::parse_mail(raw)?;
    let header = |h: &mailparse::MailHeader| Header { key: h.get_key(), value: h.get_value() };
    let part = |p: &mailparse::ParsedMail| Part {
        headers: p.headers.iter().map(header).collect(),
        body: p.get_body_raw().ok(),
    };
    Ok(Message { parts: mail.subparts.iter().map(part).collect() })
}

/// Decodes the value of a disposition header with
/// `mailparse::parse_content_disposition`, and copies the kind and the
/// parameters, in the order of their names, out of the result. The contract
/// claims only that the outcome is a function of the value.
#[verifier::external_body]
pub(crate) fn parse_disposition(value: &str) -> (disposition: Disposition)
    ensures
        disposition@ == parsed_disposition(value@),
{
    let parsed = mailparse::parse_content_disposition(value);
    let kind = match parsed.disposition {
        mailparse::DispositionType::Inline => DispositionKind::Inline,
        mailparse::DispositionType::Attachment => DispositionKind::Attachment,
        mailparse::DispositionType::FormData => DispositionKind::FormData,
        mailparse::DispositionType::Extension(name) => DispositionKind::Extension(name),
    };
    let param = |(name, value): (String, String)| Param { name, value };
    Disposition { kind, params: parsed.params.into_iter().map(param).collect() }
}

/// The text of a parse error, as `mailparse::MailParseError` displays it.
/// Nothing is claimed of the text.
#[verifier::external_body]
pub(crate) fn describe(error: &mailparse::MailParseError) -> String {
    error.to_string()
}

} // verus!
