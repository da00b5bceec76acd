//! A sendmail-compatible mail submission library.
//!
//! A raw message is taken apart into its header fields, the envelope is
//! found from the command line or from the headers, every address is
//! validated against the `addr-spec` grammar of RFC 5322, the headers that
//! every message must have are added, and the result is ready for one of
//! the backends.

use vstd::prelude::*;
use crate::args::SendmailArgs;
use crate::backend::EmailBackend;
use crate::parser::{
    address_views, domain_of, field_views, first_mailbox_of, has_field, has_header, header_fields,
    header_values, mailbox_addresses, mailboxes_of, nobody_at_localhost, parse_email_headers,
    parse_mailbox_header, parse_mailboxes_header, str_views, values_of, EmailAddress, HeaderField,
    ParseError,
};
use crate::text::{
    chars_of, has_prefix, join_strings, joined, lines, lines_of, optional_str, optional_text,
    starts_with, string_of, string_views, texts, trim_range, trimmed,
};

pub mod args;
pub mod backend;
pub mod parser;
pub mod text;

verus! {

/// A display name as it stands between double quotes: with a backslash in
/// front of each backslash and of each double quote.
pub open spec fn escaped(name: Seq<char>) -> Seq<char>
    decreases name.len(),
{
    if name.len() == 0 {
        Seq::empty()
    } else if name.last() == '\\' || name.last() == '"' {
        escaped(name.drop_last()).push('\\').push(name.last())
    } else {
        escaped(name.drop_last()).push(name.last())
    }
}

/// Escapes a display name for use between double quotes.
pub fn escape_display_name(name: &str) -> (r: String)
    ensures
        r@ == escaped(name@),
{
    let chars = chars_of(name);
    let mut out: Vec<char> = Vec::new();
    let mut i: usize = 0;
    assert(chars@.take(0) =~= Seq::empty());
    while i < chars.len()
        invariant
            i <= chars.len(),
            out@ == escaped(chars@.take(i as int)),
        decreases chars.len() - i,
    {
        assert(chars@.take(i + 1).drop_last() =~= chars@.take(i as int));
        let c = chars[i];
        if c == '\\' || c == '"' {
            out.push('\\');
        }
        out.push(c);
        i += 1;
    }
    assert(chars@.take(chars@.len() as int) =~= chars@);
    string_of(out.as_slice())
}

/// The `From` header for the sender `from`: the bare address, or, with a
/// full name, the name between double quotes and the address between
/// angle brackets.
pub open spec fn from_header(from: Seq<char>, fullname: Option<Seq<char>>) -> Seq<char> {
    match fullname {
        Some(name) => "From: \""@ + escaped(name) + "\" <"@ + from + ">"@,
        None => "From: "@ + from,
    }
}

/// A message identifier: `uuid`, an `@` and the domain of the sender,
/// between angle brackets.
pub open spec fn message_id_text(uuid: Seq<char>, from: Seq<char>) -> Seq<char> {
    "<"@ + uuid + "@"@ + domain_of(from) + ">"@
}

/// The headers that a message with the fields `fields` lacks, in the
/// order `From`, `Date`, `Message-ID`. Each is made where no field of that
/// name exists, and only there.
pub open spec fn missing_headers(
    fields: Seq<(Seq<char>, Seq<char>)>,
    from: Seq<char>,
    fullname: Option<Seq<char>>,
    date: Seq<char>,
    uuid: Seq<char>,
) -> Seq<Seq<char>> {
    let first = if has_field(fields, "From"@) {
        Seq::empty()
    } else {
        seq![from_header(from, fullname)]
    };
    let second = if has_field(fields, "Date"@) {
        Seq::empty()
    } else {
        seq!["Date: "@ + date]
    };
    let third = if has_field(fields, "Message-ID"@) {
        Seq::empty()
    } else {
        seq!["Message-ID: "@ + message_id_text(uuid, from)]
    };
    first + second + third
}

/// A digit of a number written to the base 16 in lower case.
pub open spec fn is_lower_hex(c: char) -> bool {
    ('0' <= c && c <= '9') || ('a' <= c && c <= 'f')
}

/// The form in which a UUID is written: 32 digits to the base 16 in lower
/// case, in groups of 8, 4, 4, 4 and 12 with a hyphen between each two.
pub open spec fn is_uuid_text(text: Seq<char>) -> bool {
    &&& text.len() == 36
    &&& forall|i: int|
        0 <= i < 36 ==> if i == 8 || i == 13 || i == 18 || i == 23 {
            #[trigger] text[i] == '-'
        } else {
            is_lower_hex(text[i])
        }
}

/// `Uuid::new_v4` of the crate `uuid` makes an identifier from random
/// bits, and the text that comes back is that identifier as `uuid`
/// displays it: hyphenated, in lower case. It differs from call to call,
/// and nothing is claimed of it but its form.
#[verifier::external_body]
fn random_uuid() -> (r: String)
    ensures
        is_uuid_text(r@),
{
    uuid::Uuid::new_v4().to_string()
}

/// `MessageBuilder` of `lettre` builds a message with an empty body, from
/// and to the mailbox that `Mailbox::from_str` reads in `address`, and
/// `MessageBuilder::date_now` gives it the date of this moment. The text
/// that comes back is that message as `Message::formatted` writes it, or
/// `None` where `lettre` refuses the address or the message.
///
/// The text changes with the time. What is claimed of it is claimed for
/// the address `nobody@localhost` alone, and holds at any time: `lettre`
/// reads that address as a mailbox and gives a message for it, and it
/// writes each header of the message on a line of its own, the name, a
/// colon, a space and the value, so that one line begins with `Date: `.
#[verifier::external_body]
fn message_dated_now(address: &str) -> (r: Option<String>)
    ensures
        address@ == "nobody@localhost"@ ==> r is Some && date_in(lines_of(r->0@)) is Some,
{
    match address.parse::<lettre::message::Mailbox>() {
        Ok(mailbox) => {
            let builder = lettre::message::MessageBuilder::new().from(mailbox.clone()).to(mailbox);
            match builder.date_now().body(String::new()) {
                Ok(message) => Some(String::from_utf8_lossy(&message.formatted()).into_owned()),
                Err(_) => None,
            }
        },
        Err(_) => None,
    }
}

/// The date that the lines `lines` of a formatted message give: what
/// stands behind `Date: ` in the first line that begins so, without the
/// white space around it.
pub open spec fn date_in(lines: Seq<Seq<char>>) -> Option<Seq<char>>
    decreases lines.len(),
{
    if lines.len() == 0 {
        None
    } else if has_prefix(lines.first(), "Date: "@) {
        Some(trimmed(lines.first().subrange("Date: "@.len() as int, lines.first().len() as int)))
    } else {
        date_in(lines.drop_first())
    }
}

/// Finds the value of the `Date` header in a formatted message.
pub fn date_of_message(formatted: &str) -> (r: Option<String>)
    ensures
        optional_text(r) == date_in(lines_of(formatted@)),
{
    let chars = chars_of(formatted);
    let all = lines(chars.as_slice());
    let prefix = chars_of("Date: ");
    let ghost model = lines_of(formatted@);
    let mut i: usize = 0;
    assert(model.skip(0) =~= model);
    while i < all.len()
        invariant
            i <= all.len(),
            model == texts(all@),
            model == lines_of(formatted@),
            prefix@ == "Date: "@,
            date_in(model) == date_in(model.skip(i as int)),
        decreases all.len() - i,
    {
        assert(model.skip(i as int).first() == all@[i as int]@);
        assert(model.skip(i as int).drop_first() =~= model.skip(i + 1));
        if starts_with(all[i].as_slice(), prefix.as_slice()) {
            let value = trim_range(all[i].as_slice(), prefix.len(), all[i].len());
            assert(date_in(model.skip(i as int)) == Some(value@));
            return Some(string_of(value.as_slice()));
        }
        i += 1;
    }
    None
}

/// The date and time of this moment in the format of RFC 5322, as `lettre`
/// writes it into a message: the value of the `Date` header of a message
/// that is built for it.
pub fn format_rfc5322_date() -> (r: String)
    ensures
        exists|message: Seq<char>| date_in(#[trigger] lines_of(message)) == Some(r@),
{
    match message_dated_now("nobody@localhost") {
        Some(formatted) => {
            match date_of_message(formatted.as_str()) {
                Some(date) => {
                    assert(date_in(lines_of(formatted@)) == Some(date@));
                    date
                },
                None => vstd::pervasive::unreached(),
            }
        },
        None => vstd::pervasive::unreached(),
    }
}

/// Writes a message identifier from `uuid` and the domain of `from`.
pub fn message_id(uuid: &str, from: &EmailAddress) -> (r: String)
    ensures
        r@ == message_id_text(uuid@, from@),
{
    String::from_str("<").concat(uuid).concat("@").concat(from.domain()).concat(">")
}

/// Makes a message identifier that is unique: a random UUID, an `@` and
/// the domain of `from`, between angle brackets.
pub fn generate_message_id(from: &EmailAddress) -> (r: String)
    ensures
        exists|uuid: Seq<char>| is_uuid_text(uuid) && r@ == #[trigger] message_id_text(uuid, from@),
{
    let uuid = random_uuid();
    let r = message_id(uuid.as_str(), from);
    assert(is_uuid_text(uuid@) && r@ == message_id_text(uuid@, from@));
    r
}

/// Makes the headers that a message lacks, given the date and the UUID to
/// use for them.
pub fn missing_headers_with(
    headers: &[HeaderField],
    from: &EmailAddress,
    fullname: Option<&str>,
    date: &str,
    uuid: &str,
) -> (r: Vec<String>)
    ensures
        string_views(r@) == missing_headers(
            field_views(headers@),
            from@,
            optional_str(fullname),
            date@,
            uuid@,
        ),
{
    let mut r: Vec<String> = Vec::new();
    assert(string_views(r@) =~= Seq::empty());
    if !has_header(headers, "From") {
        let line = match fullname {
            Some(name) => String::from_str("From: \"").concat(
                escape_display_name(name).as_str(),
            ).concat("\" <").concat(from.as_str()).concat(">"),
            None => String::from_str("From: ").concat(from.as_str()),
        };
        r.push(line);
    }
    let ghost first = string_views(r@);
    if !has_header(headers, "Date") {
        r.push(String::from_str("Date: ").concat(date));
    }
    let ghost second = string_views(r@);
    if !has_header(headers, "Message-ID") {
        r.push(String::from_str("Message-ID: ").concat(message_id(uuid, from).as_str()));
    }
    assert(string_views(r@) =~= missing_headers(
        field_views(headers@),
        from@,
        optional_str(fullname),
        date@,
        uuid@,
    ));
    r
}

/// Generates the required headers that the message lacks: `From`, from
/// the sender and the full name; `Date`, with the date of this moment;
/// `Message-ID`, with a random UUID and the domain of the sender.
pub fn generate_missing_headers(
    headers: &[HeaderField],
    from: &EmailAddress,
    fullname: Option<&str>,
) -> (r: Vec<String>)
    ensures
        exists|date: Seq<char>, uuid: Seq<char>|
            is_uuid_text(uuid) && string_views(r@) == #[trigger] missing_headers(
                field_views(headers@),
                from@,
                optional_str(fullname),
                date,
                uuid,
            ),
{
    let date = format_rfc5322_date();
    let uuid = random_uuid();
    let r = missing_headers_with(headers, from, fullname, date.as_str(), uuid.as_str());
    assert(is_uuid_text(uuid@) && string_views(r@) == missing_headers(
        field_views(headers@),
        from@,
        optional_str(fullname),
        date@,
        uuid@,
    ));
    r
}

/// The message `raw_email` with the header lines `headers` in front of
/// it, each followed by a carriage return and a line feed.
pub open spec fn prepended(raw_email: Seq<char>, headers: Seq<Seq<char>>) -> Seq<char> {
    if headers.len() == 0 {
        raw_email
    } else {
        joined(headers, "\r\n"@) + "\r\n"@ + raw_email
    }
}

/// Puts the header lines `headers` at the top of the raw message.
pub fn prepend_headers(raw_email: &str, headers: &[String]) -> (r: String)
    ensures
        r@ == prepended(raw_email@, string_views(headers@)),
{
    if headers.len() == 0 {
        return raw_email.to_owned();
    }
    join_strings(headers, "\r\n").concat("\r\n").concat(raw_email)
}

/// The addresses that the header values `values` name, in order: those of
/// each value as [`parse_mailboxes_header`] reads them, or the first error.
pub open spec fn recipients_in(values: Seq<Seq<char>>) -> Result<Seq<Seq<char>>, Seq<char>>
    decreases values.len(),
{
    if values.len() == 0 {
        Ok(Seq::empty())
    } else {
        match recipients_in(values.drop_last()) {
            Ok(before) => match mailboxes_of(values.last(), mailbox_addresses(values.last())) {
                Ok(more) => Ok(before + more),
                Err(text) => Err(text),
            },
            Err(text) => Err(text),
        }
    }
}

/// The values of the headers that name recipients: of all `To`, then of
/// all `Cc`, then of all `Bcc`.
pub open spec fn recipient_values(fields: Seq<(Seq<char>, Seq<char>)>) -> Seq<Seq<char>> {
    values_of(fields, "To"@) + values_of(fields, "Cc"@) + values_of(fields, "Bcc"@)
}

/// The result `r` holds what the model `m` says: the same addresses, or an
/// error with the same text.
pub open spec fn same_recipients(
    r: Result<Vec<EmailAddress>, ParseError>,
    m: Result<Seq<Seq<char>>, Seq<char>>,
) -> bool {
    match (r, m) {
        (Ok(a), Ok(b)) => address_views(a@) == b,
        (Err(a), Err(b)) => a.text() == b,
        _ => false,
    }
}

/// Reads the recipients of a message from its headers `To`, `Cc` and
/// `Bcc`, in this order. The first value that cannot be read is the error.
pub fn header_recipients(headers: &[HeaderField]) -> (r: Result<Vec<EmailAddress>, ParseError>)
    ensures
        same_recipients(r, recipients_in(recipient_values(field_views(headers@)))),
{
    let mut values = header_values(headers, "To");
    let mut cc = header_values(headers, "Cc");
    let mut bcc = header_values(headers, "Bcc");
    let ghost to_views = str_views(values@);
    let ghost cc_views = str_views(cc@);
    let ghost bcc_views = str_views(bcc@);
    values.append(&mut cc);
    values.append(&mut bcc);
    let ghost all = recipient_values(field_views(headers@));
    assert(str_views(values@) =~= all);
    let mut recipients: Vec<EmailAddress> = Vec::new();
    let mut i: usize = 0;
    assert(all.take(0) =~= Seq::empty());
    assert(address_views(recipients@) =~= Seq::empty());
    while i < values.len()
        invariant
            i <= values.len(),
            str_views(values@) == all,
            all == recipient_values(field_views(headers@)),
            recipients_in(all.take(i as int)) == Ok::<Seq<Seq<char>>, Seq<char>>(
                address_views(recipients@),
            ),
        decreases values.len() - i,
    {
        assert(all.take(i + 1).drop_last() =~= all.take(i as int));
        assert(all.take(i + 1).last() == values@[i as int]@);
        let ghost before = address_views(recipients@);
        match parse_mailboxes_header(values[i]) {
            Ok(mut more) => {
                let ghost added = address_views(more@);
                recipients.append(&mut more);
                assert(address_views(recipients@) =~= before + added);
            },
            Err(error) => {
                proof {
                    assert(recipients_in(all.take(i + 1)) == Err::<Seq<Seq<char>>, Seq<char>>(
                        error.text(),
                    ));
                    lemma_recipients_error(all, i as int);
                }
                return Err(error);
            },
        }
        i += 1;
    }
    assert(all.take(values@.len() as int) =~= all);
    Ok(recipients)
}

/// An error in reading a prefix of the values is the error in reading
/// them all.
pub proof fn lemma_recipients_error(values: Seq<Seq<char>>, i: int)
    requires
        0 <= i < values.len(),
        recipients_in(values.take(i + 1)) is Err,
    ensures
        recipients_in(values) == recipients_in(values.take(i + 1)),
    decreases values.len(),
{
    if i + 1 < values.len() {
        assert(values.drop_last().take(i + 1) =~= values.take(i + 1));
        lemma_recipients_error(values.drop_last(), i);
    } else {
        assert(values.take(i + 1) =~= values);
    }
}

/// The sender that the headers name: the first mailbox of the first
/// `From` header, if there is one and it can be read.
pub open spec fn sender_in(fields: Seq<(Seq<char>, Seq<char>)>) -> Option<Seq<char>> {
    let values = values_of(fields, "From"@);
    if values.len() == 0 {
        None
    } else {
        match first_mailbox_of(values[0], mailbox_addresses(values[0])) {
            Ok(found) => found,
            Err(_) => None,
        }
    }
}

/// The text of an optional address.
pub open spec fn optional_address(a: Option<EmailAddress>) -> Option<Seq<char>> {
    match a {
        Some(a) => Some(a@),
        None => None,
    }
}

/// Reads the sender of a message from its first `From` header. A header
/// that cannot be read gives no sender, and no error.
pub fn header_sender(headers: &[HeaderField]) -> (r: Option<EmailAddress>)
    ensures
        optional_address(r) == sender_in(field_views(headers@)),
{
    let values = header_values(headers, "From");
    if values.len() == 0 {
        None
    } else {
        assert(str_views(values@)[0] == values@[0]@);
        match parse_mailbox_header(values[0]) {
            Ok(found) => found,
            Err(_) => None,
        }
    }
}

/// The envelope sender: the one that the command line gives, else the one
/// that the headers give, else `nobody@localhost`.
pub open spec fn envelope_sender_text(given: Option<Seq<char>>, found: Option<Seq<char>>) -> Seq<
    char,
> {
    match given {
        Some(a) => a,
        None => match found {
            Some(a) => a,
            None => "nobody@localhost"@,
        },
    }
}

/// Chooses the envelope sender.
pub fn envelope_sender(given: Option<EmailAddress>, found: Option<EmailAddress>) -> (r:
    EmailAddress)
    ensures
        r@ == envelope_sender_text(optional_address(given), optional_address(found)),
{
    match given {
        Some(a) => a,
        None => match found {
            Some(a) => a,
            None => nobody_at_localhost(),
        },
    }
}

/// Why a message is not handed to a backend.
#[derive(Debug)]
pub enum SubmitError {
    /// A header that names recipients could not be read.
    InvalidRecipients(ParseError),
    /// No recipient is named, neither on the command line nor, where they
    /// are asked for, in the headers.
    NoRecipients,
}

impl SubmitError {
    /// The error in words.
    pub open spec fn text(self) -> Seq<char> {
        match self {
            SubmitError::InvalidRecipients(error) => "Invalid email address: "@ + error.text(),
            SubmitError::NoRecipients => "No recipients specified"@,
        }
    }

    /// Writes the error in words.
    pub fn message(&self) -> (m: String)
        ensures
            m@ == self.text(),
    {
        match self {
            SubmitError::InvalidRecipients(error) => error.message(),
            SubmitError::NoRecipients => String::from_str("No recipients specified"),
        }
    }
}

/// A message that is ready for a backend.
#[derive(Debug)]
pub struct Submission {
    /// The envelope sender.
    pub envelope_from: EmailAddress,
    /// The envelope recipients.
    pub recipients: Vec<EmailAddress>,
    /// The raw message, with the headers that it lacked in front of it.
    pub raw_email: String,
}

/// The recipients of a message: those of its headers where `args` asks
/// for them, and else those of the command line. There must be one at
/// least. The error is the header value that could not be read, or `None`
/// where no recipient is named.
pub open spec fn recipients_for(args: SendmailArgs, raw_email: Seq<char>) -> Result<
    Seq<Seq<char>>,
    Option<Seq<char>>,
> {
    if args.read_recipients_from_headers {
        match recipients_in(recipient_values(header_fields(raw_email))) {
            Ok(list) => if list.len() == 0 {
                Err(None)
            } else {
                Ok(list)
            },
            Err(text) => Err(Some(text)),
        }
    } else if args.recipients.len() == 0 {
        Err(None)
    } else {
        Ok(address_views(args.recipients@))
    }
}

/// `r` is what [`prepare_submission`] owes for `args` and `raw_email`.
pub open spec fn prepares(
    args: SendmailArgs,
    raw_email: Seq<char>,
    r: Result<Submission, SubmitError>,
) -> bool {
    let fields = header_fields(raw_email);
    match r {
        Ok(submission) => {
            &&& recipients_for(args, raw_email) == Ok::<Seq<Seq<char>>, Option<Seq<char>>>(
                address_views(submission.recipients@),
            )
            &&& submission.envelope_from@ == envelope_sender_text(
                optional_address(args.from),
                sender_in(fields),
            )
            &&& exists|date: Seq<char>, uuid: Seq<char>|
                is_uuid_text(uuid) && submission.raw_email@ == prepended(
                    raw_email,
                    #[trigger] missing_headers(
                        fields,
                        submission.envelope_from@,
                        optional_text(args.fullname),
                        date,
                        uuid,
                    ),
                )
        },
        Err(SubmitError::InvalidRecipients(error)) => recipients_for(args, raw_email) == Err::<
            Seq<Seq<char>>,
            Option<Seq<char>>,
        >(Some(error.text())),
        Err(SubmitError::NoRecipients) => recipients_for(args, raw_email) == Err::<
            Seq<Seq<char>>,
            Option<Seq<char>>,
        >(None),
    }
}

/// Prepares a raw message for delivery.
///
/// The recipients are read from the headers `To`, `Cc` and `Bcc` where
/// `args` asks for that, and are those of the command line otherwise; a
/// message without a recipient is refused. The envelope sender is the one of the command line, else the first mailbox
/// of the `From` header, else `nobody@localhost`. The headers `From`,
/// `Date` and `Message-ID` are put in front of the message where it has
/// none of that name.
pub fn prepare_submission(args: &SendmailArgs, raw_email: &str) -> (r: Result<
    Submission,
    SubmitError,
>)
    ensures
        prepares(*args, raw_email@, r),
{
    let headers = parse_email_headers(raw_email);
    let recipients = if args.read_recipients_from_headers {
        match header_recipients(headers.as_slice()) {
            Ok(list) => list,
            Err(error) => {
                return Err(SubmitError::InvalidRecipients(error));
            },
        }
    } else {
        clone_addresses(&args.recipients)
    };
    proof {
        assert(address_views(recipients@).len() == recipients@.len());
        assert(address_views(args.recipients@).len() == args.recipients@.len());
        if args.read_recipients_from_headers {
            assert(recipients_in(recipient_values(header_fields(raw_email@))) == Ok::<
                Seq<Seq<char>>,
                Seq<char>,
            >(address_views(recipients@)));
        }
    }
    if recipients.len() == 0 {
        return Err(SubmitError::NoRecipients);
    }
    let given = match &args.from {
        Some(a) => Some(a.clone()),
        None => None,
    };
    let envelope_from = envelope_sender(given, header_sender(headers.as_slice()));
    let missing = match &args.fullname {
        Some(name) => generate_missing_headers(
            headers.as_slice(),
            &envelope_from,
            Some(name.as_str()),
        ),
        None => generate_missing_headers(headers.as_slice(), &envelope_from, None),
    };
    let text = prepend_headers(raw_email, missing.as_slice());
    proof {
        let fields = header_fields(raw_email@);
        let (date, uuid) = choose|date: Seq<char>, uuid: Seq<char>|
            is_uuid_text(uuid) && string_views(missing@) == #[trigger] missing_headers(
                fields,
                envelope_from@,
                optional_text(args.fullname),
                date,
                uuid,
            );
        assert(is_uuid_text(uuid) && text@ == prepended(
            raw_email@,
            missing_headers(fields, envelope_from@, optional_text(args.fullname), date, uuid),
        ));
        assert(recipients_for(*args, raw_email@) == Ok::<Seq<Seq<char>>, Option<Seq<char>>>(
            address_views(recipients@),
        ));
        assert(envelope_from@ == envelope_sender_text(
            optional_address(args.from),
            sender_in(fields),
        ));
    }
    Ok(Submission { envelope_from, recipients, raw_email: text })
}

/// How a call ends: the exit code, and what is to be said on the error
/// output if the call failed.
#[derive(Debug)]
pub struct Outcome {
    /// 0 if the message was handed over, 1 if it was not.
    pub code: i32,
    /// The line for the error output, without its line end.
    pub message: Option<String>,
}

/// The line that reports the error with the text `text`.
pub open spec fn error_line(text: Seq<char>) -> Seq<char> {
    "sendmail: "@ + text
}

/// Writes the line that reports an error.
fn failure(text: String) -> (r: Outcome)
    ensures
        r.code == 1,
        optional_text(r.message) == Some(error_line(text@)),
{
    Outcome { code: 1, message: Some(String::from_str("sendmail: ").concat(text.as_str())) }
}

/// Submits the raw message `raw_email` with the options `args` through
/// `backend`, and returns how the call ends.
///
/// The message is prepared as [`prepare_submission`] says. If that fails
/// nothing is sent, and the error is reported. Otherwise the message is
/// handed to the backend with its envelope, and the call succeeds if the
/// backend does; what the backend answers is its own affair, and an error
/// of the backend is reported in its own words.
pub fn run_sendmail<B: EmailBackend>(args: &SendmailArgs, raw_email: &str, backend: &B) -> (r:
    Outcome)
    ensures
        match recipients_for(*args, raw_email@) {
            Err(Some(text)) => r.code == 1 && optional_text(r.message) == Some(
                error_line("Invalid email address: "@ + text),
            ),
            Err(None) => r.code == 1 && optional_text(r.message) == Some(
                error_line("No recipients specified"@),
            ),
            Ok(_) => (r.code == 0 && r.message is None) || (r.code == 1 && exists|text: Seq<char>|
                optional_text(r.message) == Some(#[trigger] error_line(text))),
        },
{
    match prepare_submission(args, raw_email) {
        Ok(submission) => {
            let mut recipients: Vec<&EmailAddress> = Vec::new();
            let mut i: usize = 0;
            while i < submission.recipients.len()
                invariant
                    i <= submission.recipients.len(),
                decreases submission.recipients.len() - i,
            {
                recipients.push(&submission.recipients[i]);
                i += 1;
            }
            match backend.send(
                &submission.envelope_from,
                recipients.as_slice(),
                submission.raw_email.as_str(),
            ) {
                Ok(()) => Outcome { code: 0, message: None },
                Err(error) => {
                    let text = error.message();
                    let r = failure(text);
                    assert(optional_text(r.message) == Some(error_line(text@)));
                    r
                },
            }
        },
        Err(error) => failure(error.message()),
    }
}

/// Copies a list of addresses.
fn clone_addresses(list: &Vec<EmailAddress>) -> (r: Vec<EmailAddress>)
    ensures
        address_views(r@) == address_views(list@),
{
    let mut r: Vec<EmailAddress> = Vec::new();
    let mut i: usize = 0;
    while i < list.len()
        invariant
            i <= list.len(),
            r@.len() == i,
            forall|k: int| 0 <= k < i ==> (#[trigger] r@[k])@ == list@[k]@,
        decreases list.len() - i,
    {
        r.push(list[i].clone());
        i += 1;
    }
    assert(address_views(r@) =~= address_views(list@));
    r
}

} // verus!
