//! The REST API backend: what to send, and what an answer means.

use vstd::prelude::*;
use vstd::utf8::{encode_utf8, is_char_boundary};
use crate::backend::BackendError;
use crate::parser::{recipient_views, EmailAddress};
use crate::text::optional_text;

verus! {

/// A backend that posts each message to a REST API.
#[derive(Debug)]
pub struct ApiBackend {
    /// URL of the mail endpoint.
    pub url: String,
    /// The sender to use where the envelope names none.
    pub sender: String,
    /// The token that is sent as a bearer.
    pub token: String,
}

/// The text `text` as the crate `url` writes it once it has read it as a
/// URL; `None` where `text` is no URL.
pub uninterp spec fn parsed_url(text: Seq<char>) -> Option<Seq<char>>;

/// `Url::parse` of the crate `url`, which `reqwest` hands on, reads the
/// text as a URL, and the text that comes back is that URL as `url`
/// displays it. It is `None` where `Url::parse` refuses the text. Nothing
/// more is claimed than that the same text always gives the same result.
#[verifier::external_body]
fn parse_url(text: &str) -> (r: Option<String>)
    ensures
        optional_text(r) == parsed_url(text@),
{
    match reqwest::Url::parse(text) {
        Ok(url) => Some(url.to_string()),
        Err(_) => None,
    }
}

/// A text that `url` reads as a URL and writes as it stands.
pub open spec fn is_url(text: Seq<char>) -> bool {
    parsed_url(text) == Some(text)
}

/// The URL `url` has room for the pair of `key` and `value`: with the
/// pair in its query it is no longer than `url` can hold a URL, which is
/// `u32::MAX` bytes. A pair takes two bytes for its signs, and for each
/// byte of the key and of the value up to three, the length of an escape.
pub open spec fn pair_fits(url: Seq<char>, key: Seq<char>, value: Seq<char>) -> bool {
    encode_utf8(url).len() + 3 * encode_utf8(key).len() + 3 * encode_utf8(value).len() + 2
        <= u32::MAX
}

/// The URL `url` with the pair of `key` and `value` added to its query,
/// as the crate `url` writes it.
pub uninterp spec fn url_with_pair(url: Seq<char>, key: Seq<char>, value: Seq<char>) -> Option<
    Seq<char>,
>;

/// `Serializer::append_pair` adds a pair to the query of the URL that
/// `Url::parse` reads in `url`, with the encoding of HTML forms, and the
/// text that comes back is the URL as `url` displays it afterwards.
/// Nothing more is claimed than that the same texts always give the same
/// result.
///
/// The crate keeps the length of a URL in 32 bits and stops the program
/// where a query grows beyond that. So the text has to be a URL as `url`
/// writes it, whose length is then the length that the crate starts from,
/// and the pair has to fit.
#[verifier::external_body]
fn append_pair(url: &str, key: &str, value: &str) -> (r: Option<String>)
    requires
        is_url(url@),
        pair_fits(url@, key@, value@),
    ensures
        optional_text(r) == url_with_pair(url@, key@, value@),
{
    match reqwest::Url::parse(url) {
        Ok(mut parsed) => {
            parsed.query_pairs_mut().append_pair(key, value);
            Some(parsed.to_string())
        },
        Err(_) => None,
    }
}

/// What adding a pair to `url` comes to: the longer URL, where `url` is a
/// URL as it is written and has room for the pair, and `None` otherwise.
#[verifier::opaque]
pub open spec fn with_pair(url: Seq<char>, key: Seq<char>, value: Seq<char>) -> Option<
    Seq<char>,
> {
    if is_url(url) && pair_fits(url, key, value) {
        url_with_pair(url, key, value)
    } else {
        None
    }
}

/// Adds the pair of `key` and `value` to the query of `url`, if `url` is a
/// URL as it is written and has room for the pair.
pub fn add_pair(url: &str, key: &str, value: &str) -> (r: Option<String>)
    ensures
        optional_text(r) == with_pair(url@, key@, value@),
{
    reveal(with_pair);
    let written = match parse_url(url) {
        Some(again) => again == url.to_owned(),
        None => false,
    };
    if !written {
        return None;
    }
    let room: u128 = url.as_bytes().len() as u128 + 3 * (key.as_bytes().len() as u128) + 3 * (
    value.as_bytes().len() as u128) + 2;
    if room > 0xffff_ffff {
        return None;
    }
    append_pair(url, key, value)
}

/// The URL `url` with a pair `recipients` added to its query for each of
/// `recipients`, in their order.
pub open spec fn with_recipients(url: Option<Seq<char>>, recipients: Seq<Seq<char>>) -> Option<
    Seq<char>,
>
    decreases recipients.len(),
{
    if recipients.len() == 0 {
        url
    } else {
        match with_recipients(url, recipients.drop_last()) {
            Some(so_far) => with_pair(so_far, "recipients"@, recipients.last()),
            None => None,
        }
    }
}

/// The URL of the endpoint with the sender in its query.
pub open spec fn with_sender(url: Seq<char>, sender: Seq<char>) -> Option<Seq<char>> {
    match parsed_url(url) {
        Some(endpoint) => with_pair(endpoint, "sender"@, sender),
        None => None,
    }
}

/// The URL that a message is posted to: the URL of the endpoint with the
/// sender and then each recipient in its query. There is none where the
/// endpoint is no URL, and none where the URL grows longer than a URL can
/// be.
pub open spec fn request_url_text(
    url: Seq<char>,
    sender: Seq<char>,
    recipients: Seq<Seq<char>>,
) -> Option<Seq<char>> {
    with_recipients(with_sender(url, sender), recipients)
}

/// The URL for one recipient more is the URL for those before it with a
/// pair added for that recipient.
pub proof fn lemma_one_more_recipient(url: Option<Seq<char>>, recipients: Seq<Seq<char>>, k: int)
    requires
        0 <= k < recipients.len(),
    ensures
        with_recipients(url, recipients.take(k + 1)) == (match with_recipients(
            url,
            recipients.take(k),
        ) {
            Some(so_far) => with_pair(so_far, "recipients"@, recipients[k]),
            None => None,
        }),
{
    assert(recipients.take(k + 1).drop_last() =~= recipients.take(k));
    assert(recipients.take(k + 1).last() == recipients[k]);
}

/// Without a URL to start from there is no URL to post to.
pub proof fn lemma_no_url(recipients: Seq<Seq<char>>)
    ensures
        with_recipients(None, recipients) is None,
    decreases recipients.len(),
{
    if recipients.len() > 0 {
        lemma_no_url(recipients.drop_last());
    }
}

/// Where a pair cannot be added for one of the recipients, there is no URL
/// to post to.
pub proof fn lemma_url_stays_none(url: Option<Seq<char>>, recipients: Seq<Seq<char>>, k: int)
    requires
        0 <= k <= recipients.len(),
        with_recipients(url, recipients.take(k)) is None,
    ensures
        with_recipients(url, recipients) is None,
    decreases recipients.len(),
{
    if k < recipients.len() {
        assert(recipients.drop_last().take(k) =~= recipients.take(k));
        lemma_url_stays_none(url, recipients.drop_last(), k);
    } else {
        assert(recipients.take(k) =~= recipients);
    }
}

impl ApiBackend {
    /// A backend that posts to `url` with `token`, and for `sender` where
    /// the envelope names no sender.
    pub fn new(url: String, sender: String, token: String) -> (r: Self)
        ensures
            r.url == url,
            r.sender == sender,
            r.token == token,
    {
        Self { url, sender, token }
    }

    /// Decides what is to be sent for a message from `envelope_from` to
    /// `recipients` recipients: without a URL nothing can be sent; without
    /// recipients nothing is to be sent, which is `None`; otherwise the
    /// message is posted for the envelope sender, or for the default sender
    /// of the backend where the envelope sender is empty.
    pub fn sender_for(&self, envelope_from: &str, recipients: usize) -> (r: Result<
        Option<String>,
        BackendError,
    >)
        ensures
            match r {
                Err(error) => self.url@.len() == 0 && error is ApiUrlNotProvided,
                Ok(None) => self.url@.len() > 0 && recipients == 0,
                Ok(Some(sender)) => self.url@.len() > 0 && recipients > 0 && sender@ == (if
                    envelope_from@.len() > 0 {
                    envelope_from@
                } else {
                    self.sender@
                }),
            },
    {
        if self.url.as_str().is_empty() {
            Err(BackendError::ApiUrlNotProvided)
        } else if recipients == 0 {
            Ok(None)
        } else if !envelope_from.is_empty() {
            Ok(Some(envelope_from.to_owned()))
        } else {
            Ok(Some(self.sender.clone()))
        }
    }

    /// Writes the URL that a message from `sender` to `recipients` is
    /// posted to. An endpoint whose URL cannot be read is an error, and so
    /// is a URL that would grow longer than a URL can be.
    pub fn request_url(&self, sender: &str, recipients: &[&EmailAddress]) -> (r: Result<
        String,
        BackendError,
    >)
        ensures
            match r {
                Ok(url) => request_url_text(self.url@, sender@, recipient_views(recipients@))
                    == Some(url@),
                Err(error) => request_url_text(self.url@, sender@, recipient_views(recipients@))
                    is None && error.text() == "Invalid API URL"@ && error is NetworkError,
            },
    {
        let ghost list = recipient_views(recipients@);
        let ghost first = with_sender(self.url@, sender@);
        let started = match parse_url(self.url.as_str()) {
            Some(endpoint) => add_pair(endpoint.as_str(), "sender", sender),
            None => None,
        };
        let mut url = match started {
            Some(url) => url,
            None => {
                proof {
                    lemma_no_url(list);
                }
                return Err(BackendError::NetworkError(String::from_str("Invalid API URL")));
            },
        };
        let mut i: usize = 0;
        assert(list.take(0) =~= Seq::empty());
        while i < recipients.len()
            invariant
                i <= recipients.len(),
                list == recipient_views(recipients@),
                first == with_sender(self.url@, sender@),
                with_recipients(first, list.take(i as int)) == Some(url@),
            decreases recipients.len() - i,
        {
            proof {
                lemma_one_more_recipient(first, list, i as int);
            }
            match add_pair(url.as_str(), "recipients", recipients[i].as_str()) {
                Some(next) => {
                    url = next;
                },
                None => {
                    proof {
                        lemma_url_stays_none(first, list, i + 1);
                    }
                    return Err(
                        BackendError::NetworkError(String::from_str("Invalid API URL")),
                    );
                },
            }
            i += 1;
        }
        assert(list.take(list.len() as int) =~= list);
        Ok(url)
    }

    /// The value of the `Authorization` header: `Bearer ` and the token.
    pub fn authorization(&self) -> (r: String)
        ensures
            r@ == "Bearer "@ + self.token@,
    {
        String::from_str("Bearer ").concat(self.token.as_str())
    }
}

/// The longest error text that is kept from an answer of the API, in bytes.
pub const MAX_DETAIL: usize = 100;

/// What an answer of the API is taken to say where its body cannot be read.
pub open spec fn default_detail(status: u16) -> Seq<char> {
    if status == 400 {
        "Invalid request"@
    } else if status == 401 {
        "Unauthorized"@
    } else if status == 402 {
        "Quota exceeded"@
    } else if status == 403 {
        "Forbidden"@
    } else if status == 413 {
        "Message too large"@
    } else if 500 <= status <= 599 {
        "Server error"@
    } else {
        "Unexpected error"@
    }
}

/// The bytes of `text`, and of a text of more than a hundred bytes the
/// first hundred.
pub open spec fn detail_bytes(text: Seq<char>) -> Seq<u8> {
    if encode_utf8(text).len() <= MAX_DETAIL {
        encode_utf8(text)
    } else {
        encode_utf8(text).subrange(0, MAX_DETAIL as int)
    }
}

/// `error` is the error that stands for the status `status`, and its
/// text is written with `bytes`.
pub open spec fn is_status_error(error: BackendError, status: u16, bytes: Seq<u8>) -> bool {
    if status == 400 {
        error matches BackendError::ApiBadRequest(d) && encode_utf8(d@) == bytes
    } else if status == 401 {
        error matches BackendError::ApiUnauthorized(d) && encode_utf8(d@) == bytes
    } else if status == 402 {
        error matches BackendError::ApiQuotaExceeded(d) && encode_utf8(d@) == bytes
    } else if status == 403 {
        error matches BackendError::ApiForbidden(d) && encode_utf8(d@) == bytes
    } else if status == 413 {
        error matches BackendError::ApiMessageTooLarge(d) && encode_utf8(d@) == bytes
    } else if 500 <= status <= 599 {
        error matches BackendError::ApiServerError(s, d) && s == status && encode_utf8(d@)
            == bytes
    } else {
        error matches BackendError::ApiUnexpectedStatus(s, d) && s == status && encode_utf8(d@)
            == bytes
    }
}

/// The text of the body of an answer, or what stands for it.
pub open spec fn detail_of(status: u16, body: Option<String>) -> Seq<char> {
    match body {
        Some(text) => text@,
        None => default_detail(status),
    }
}

/// Whether a text can be cut to a hundred bytes: it is short enough as it
/// is, or its hundredth byte is the last of a character.
pub open spec fn can_cut(text: Seq<char>) -> bool {
    encode_utf8(text).len() > MAX_DETAIL ==> is_char_boundary(
        encode_utf8(text),
        MAX_DETAIL as int,
    )
}

/// Tests whether [`response_result`] accepts the text `body`.
pub fn detail_fits(body: &str) -> (r: bool)
    ensures
        r == can_cut(body@),
{
    body.as_bytes().len() <= MAX_DETAIL || body.is_char_boundary(MAX_DETAIL)
}

/// Cuts `text` to its first hundred bytes.
fn cut_detail(text: String) -> (r: String)
    requires
        can_cut(text@),
    ensures
        encode_utf8(r@) == detail_bytes(text@),
{
    if text.as_str().as_bytes().len() <= MAX_DETAIL {
        text
    } else {
        let (head, _) = text.as_str().split_at(MAX_DETAIL);
        head.to_owned()
    }
}

/// The text for a status whose body could not be read.
fn default_text(status: u16) -> (r: String)
    ensures
        r@ == default_detail(status),
{
    if status == 400 {
        String::from_str("Invalid request")
    } else if status == 401 {
        String::from_str("Unauthorized")
    } else if status == 402 {
        String::from_str("Quota exceeded")
    } else if status == 403 {
        String::from_str("Forbidden")
    } else if status == 413 {
        String::from_str("Message too large")
    } else if 500 <= status && status <= 599 {
        String::from_str("Server error")
    } else {
        String::from_str("Unexpected error")
    }
}

/// What the answer of the API means: status 202 says that the message was
/// accepted, and any other status is an error. The error keeps the first
/// hundred bytes of the body of the answer, or of a text that stands for
/// the status where the body could not be read and `body` is `None`.
///
/// The body of an answer other than 202, if it has more than a hundred
/// bytes, must be one that can be cut there.
pub fn response_result(status: u16, body: Option<String>) -> (r: Result<(), BackendError>)
    requires
        status != 202 ==> can_cut(detail_of(status, body)),
    ensures
        match r {
            Ok(()) => status == 202,
            Err(error) => status != 202 && is_status_error(
                error,
                status,
                detail_bytes(detail_of(status, body)),
            ),
        },
{
    if status == 202 {
        return Ok(());
    }
    let text = match body {
        Some(text) => text,
        None => default_text(status),
    };
    let detail = cut_detail(text);
    if status == 400 {
        Err(BackendError::ApiBadRequest(detail))
    } else if status == 401 {
        Err(BackendError::ApiUnauthorized(detail))
    } else if status == 402 {
        Err(BackendError::ApiQuotaExceeded(detail))
    } else if status == 403 {
        Err(BackendError::ApiForbidden(detail))
    } else if status == 413 {
        Err(BackendError::ApiMessageTooLarge(detail))
    } else if 500 <= status && status <= 599 {
        Err(BackendError::ApiServerError(status, detail))
    } else {
        Err(BackendError::ApiUnexpectedStatus(status, detail))
    }
}

} // verus!
