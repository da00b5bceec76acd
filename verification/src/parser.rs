//! Header fields and email addresses of a raw message.

use vstd::prelude::*;
use crate::parser::grammar::{addr_spec, cfws_end, domain, end_of, local_part, text_of};
use crate::parser::normal_form::lemma_addr_spec_parts;
use crate::parser::simple::lemma_plain_address;
use crate::text::{
    chars_of, colon_of, copy_range, eq_ignoring_case, find_colon, find_line_end, lemma_colon_of,
    lemma_line_end, line_end, push_all, same_ignoring_case, string_of, string_views, trim_range,
    trimmed,
};

pub mod alphabet;
pub mod email_parser;
pub mod grammar;
pub mod normal_form;
pub mod simple;
pub mod stripping;

verus! {

/// Why a text was refused.
#[derive(Debug, Clone, PartialEq, Eq)]
pub enum ParseError {
    /// The text, given here as it was received, is no email address.
    InvalidEmail(String),
}

impl ParseError {
    /// The text that was refused.
    pub open spec fn text(self) -> Seq<char> {
        match self {
            ParseError::InvalidEmail(text) => text@,
        }
    }

    /// The error in words: `Invalid email address: ` and the text that was refused.
    pub fn message(&self) -> (m: String)
        ensures
            m@ == "Invalid email address: "@ + self.text(),
    {
        match self {
            ParseError::InvalidEmail(text) => {
                let mut m = String::from_str("Invalid email address: ");
                m.append(text.as_str());
                m
            },
        }
    }
}

/// The local part of the address `s`: what stands in front of the `@`
/// that separates the two parts, in normalized form.
pub open spec fn local_part_of(s: Seq<char>) -> Seq<char> {
    text_of(local_part(s, cfws_end(s, 0)))
}

/// The domain of the address `s`: what stands behind the `@` that
/// separates the two parts, in normalized form.
pub open spec fn domain_of(s: Seq<char>) -> Seq<char> {
    text_of(domain(s, end_of(local_part(s, cfws_end(s, 0))) + 1))
}

/// An email address that is known to be valid.
///
/// The only way to make one is [`parse_email_address`], so every value
/// holds an address in normalized form.
#[derive(Debug)]
pub struct EmailAddress {
    text: String,
    local: String,
    domain: String,
}

impl View for EmailAddress {
    type V = Seq<char>;

    /// The address as text.
    closed spec fn view(&self) -> Seq<char> {
        self.text@
    }
}

impl EmailAddress {
    /// The address is its own normalized form, and its two parts are those
    /// that the grammar finds in it.
    #[verifier::type_invariant]
    spec fn well_formed(self) -> bool {
        &&& addr_spec(self.text@) == Some(self.text@)
        &&& self.local@ == local_part_of(self.text@)
        &&& self.domain@ == domain_of(self.text@)
        &&& self.text@ == self.local@ + seq!['@'] + self.domain@
    }

    /// The whole address, `local-part@domain`. It is valid, in normalized
    /// form, and made of its local part, an `@` and its domain.
    pub fn as_str(&self) -> (r: &str)
        ensures
            r@ == self@,
            addr_spec(self@) == Some(self@),
            self@ == local_part_of(self@) + seq!['@'] + domain_of(self@),
    {
        proof {
            use_type_invariant(self);
        }
        self.text.as_str()
    }

    /// The part in front of the `@`: a dot-atom, a quoted string with its
    /// quotes, or words of both kinds joined by dots.
    pub fn local_part(&self) -> (r: &str)
        ensures
            r@ == local_part_of(self@),
    {
        proof {
            use_type_invariant(self);
        }
        self.local.as_str()
    }

    /// The part behind the `@`: a dot-atom, or a domain literal with its
    /// brackets.
    pub fn domain(&self) -> (r: &str)
        ensures
            r@ == domain_of(self@),
    {
        proof {
            use_type_invariant(self);
        }
        self.domain.as_str()
    }

    /// The whole address as a string of its own.
    pub fn to_string(&self) -> (r: String)
        ensures
            r@ == self@,
    {
        self.text.clone()
    }
}

impl Clone for EmailAddress {
    /// A copy of the address.
    fn clone(&self) -> (r: Self)
        ensures
            r@ == self@,
    {
        proof {
            use_type_invariant(self);
        }
        EmailAddress {
            text: self.text.clone(),
            local: self.local.clone(),
            domain: self.domain.clone(),
        }
    }
}

impl PartialEq for EmailAddress {
    /// Two addresses are equal if their texts are the same, character by
    /// character.
    fn eq(&self, other: &Self) -> (r: bool)
    {
        self.text == other.text
    }
}

impl vstd::std_specs::cmp::PartialEqSpecImpl for EmailAddress {
    open spec fn obeys_eq_spec() -> bool {
        true
    }

    open spec fn eq_spec(&self, other: &Self) -> bool {
        self@ == other@
    }
}

impl Eq for EmailAddress {

}

impl std::str::FromStr for EmailAddress {
    type Err = ParseError;

    /// Parses and validates an address, as [`parse_email_address`] does:
    /// the address holds the normalized form of `s`, and a text that is no
    /// address comes back in the error.
    fn from_str(s: &str) -> (r: Result<Self, ParseError>)
        ensures
            match r {
                Ok(address) => addr_spec(s@) == Some(address@) && addr_spec(address@) == Some(
                    address@,
                ),
                Err(error) => addr_spec(s@) is None && error.text() == s@,
            },
    {
        parse_email_address(s)
    }
}

/// Parses and validates an email address.
///
/// The text has to be one `addr-spec` of RFC 5322 from its first character
/// to its last. The address that comes back holds the normalized form; a
/// text that is no address comes back in the error.
pub fn parse_email_address(email: &str) -> (r: Result<EmailAddress, ParseError>)
    ensures
        match r {
            Ok(address) => addr_spec(email@) == Some(address@) && addr_spec(address@) == Some(
                address@,
            ),
            Err(error) => addr_spec(email@) is None && error.text() == email@,
        },
{
    let chars = chars_of(email);
    match email_parser::addr_spec_parts(chars.as_slice(), 0) {
        Some((end, local, dom)) => {
            if end == chars.len() {
                let mut all = copy_range(local.as_slice(), 0, local.len());
                all.push('@');
                push_all(&mut all, dom.as_slice());
                proof {
                    assert(local@.subrange(0, local@.len() as int) =~= local@);
                    assert(all@ =~= local@ + seq!['@'] + dom@);
                    lemma_addr_spec_parts(email@);
                }
                Ok(
                    EmailAddress {
                        text: string_of(all.as_slice()),
                        local: string_of(local.as_slice()),
                        domain: string_of(dom.as_slice()),
                    },
                )
            } else {
                Err(ParseError::InvalidEmail(email.to_owned()))
            }
        },
        None => Err(ParseError::InvalidEmail(email.to_owned())),
    }
}

/// The addresses of the mailboxes that `lettre` reads in a header value,
/// in their order, each as `lettre` writes it; `None` where `lettre`
/// refuses the value.
pub uninterp spec fn mailbox_addresses(value: Seq<char>) -> Option<Seq<Seq<char>>>;

/// The text of each address of `list`.
pub open spec fn address_views(list: Seq<EmailAddress>) -> Seq<Seq<char>> {
    Seq::new(list.len(), |i: int| list[i]@)
}

/// The text of each address that `list` refers to.
pub open spec fn recipient_views(list: Seq<&EmailAddress>) -> Seq<Seq<char>> {
    Seq::new(list.len(), |i: int| list[i]@)
}

/// `Mailboxes::from_str` of `lettre` reads a list of mailboxes, each with
/// or without a display name. The list that comes back holds the address
/// of each mailbox as `lettre` displays it, `user@domain`, and is `None`
/// where `lettre` refuses the value. Nothing more is claimed than that the
/// same value always gives the same list.
#[verifier::external_body]
fn mailbox_list(value: &str) -> (r: Option<Vec<String>>)
    ensures
        match r {
            Some(list) => mailbox_addresses(value@) == Some(string_views(list@)),
            None => mailbox_addresses(value@) is None,
        },
{
    match value.parse::<lettre::message::Mailboxes>() {
        Ok(list) => Some(list.iter().map(|mailbox| mailbox.email.to_string()).collect()),
        Err(_) => None,
    }
}

/// The first position of `list` whose text is no address, or its length
/// if every text is one.
pub open spec fn first_invalid(list: Seq<Seq<char>>) -> int
    decreases list.len(),
{
    if list.len() > 0 && addr_spec(list.first()) is Some {
        1 + first_invalid(list.drop_first())
    } else {
        0
    }
}

/// The normalized form of each text of `list`.
pub open spec fn normalized(list: Seq<Seq<char>>) -> Seq<Seq<char>> {
    Seq::new(list.len(), |i: int| addr_spec(list[i])->0)
}

/// What validating each text of `list` comes to: the normalized
/// addresses if all are valid, and else the first text that is not.
pub open spec fn validated(list: Seq<Seq<char>>) -> Result<Seq<Seq<char>>, Seq<char>> {
    let k = first_invalid(list);
    if 0 <= k < list.len() {
        Err(list[k])
    } else {
        Ok(normalized(list))
    }
}

/// The result `r` holds what the model `m` says: the same addresses, or an
/// error with the same text.
pub open spec fn same_addresses(
    r: Result<Vec<EmailAddress>, ParseError>,
    m: Result<Seq<Seq<char>>, Seq<char>>,
) -> bool {
    match (r, m) {
        (Ok(a), Ok(b)) => address_views(a@) == b,
        (Err(a), Err(b)) => a.text() == b,
        _ => false,
    }
}

/// The first invalid text is inside the list or at its end, and every text
/// in front of it is an address.
pub proof fn lemma_first_invalid(list: Seq<Seq<char>>)
    ensures
        0 <= first_invalid(list) <= list.len(),
        first_invalid(list) < list.len() ==> addr_spec(list[first_invalid(list)]) is None,
        forall|i: int| 0 <= i < first_invalid(list) ==> addr_spec(#[trigger] list[i]) is Some,
    decreases list.len(),
{
    if list.len() > 0 && addr_spec(list.first()) is Some {
        let rest = list.drop_first();
        lemma_first_invalid(rest);
        assert forall|i: int| 0 <= i < first_invalid(list) implies addr_spec(
            #[trigger] list[i],
        ) is Some by {
            if i > 0 {
                assert(list[i] == rest[i - 1]);
            }
        }
    }
}

/// Validates each text of `list` as an email address, in order, and stops
/// at the first that is none.
pub fn validate_addresses(list: &[String]) -> (r: Result<Vec<EmailAddress>, ParseError>)
    ensures
        same_addresses(r, validated(string_views(list@))),
{
    let ghost texts = string_views(list@);
    let mut addresses: Vec<EmailAddress> = Vec::new();
    let mut i: usize = 0;
    proof {
        lemma_first_invalid(texts);
    }
    while i < list.len()
        invariant
            i <= list.len(),
            texts == string_views(list@),
            i <= first_invalid(texts),
            addresses@.len() == i,
            forall|k: int| 0 <= k < i ==> (#[trigger] addresses@[k])@ == addr_spec(texts[k])->0,
        decreases list.len() - i,
    {
        proof {
            lemma_first_invalid(texts);
        }
        match parse_email_address(list[i].as_str()) {
            Ok(address) => {
                addresses.push(address);
            },
            Err(error) => {
                assert(addr_spec(texts[i as int]) is None);
                assert(first_invalid(texts) == i);
                return Err(error);
            },
        }
        i += 1;
    }
    proof {
        lemma_first_invalid(texts);
        assert(address_views(addresses@) =~= normalized(texts));
    }
    Ok(addresses)
}

/// What [`parse_mailboxes_header`] makes of a value in which `lettre`
/// reads the mailboxes `list`.
pub open spec fn mailboxes_of(value: Seq<char>, list: Option<Seq<Seq<char>>>) -> Result<
    Seq<Seq<char>>,
    Seq<char>,
> {
    match list {
        Some(list) => validated(list),
        None => Err(value),
    }
}

/// Parses a header value as a list of mailboxes, as the headers `To`, `Cc`
/// and `Bcc` hold one, and returns the address of each.
///
/// The value is split into mailboxes by `lettre`; each address then has to
/// pass [`parse_email_address`]. A value that is no list of mailboxes is
/// refused as a whole, and otherwise the first address that is not valid.
pub fn parse_mailboxes_header(value: &str) -> (r: Result<Vec<EmailAddress>, ParseError>)
    ensures
        same_addresses(r, mailboxes_of(value@, mailbox_addresses(value@))),
{
    match mailbox_list(value) {
        Some(list) => validate_addresses(list.as_slice()),
        None => Err(ParseError::InvalidEmail(value.to_owned())),
    }
}

/// What [`parse_mailbox_header`] makes of a value in which `lettre` reads
/// the mailboxes `list`.
pub open spec fn first_mailbox_of(value: Seq<char>, list: Option<Seq<Seq<char>>>) -> Result<
    Option<Seq<char>>,
    Seq<char>,
> {
    match list {
        Some(list) => if list.len() == 0 {
            Ok(None)
        } else {
            match addr_spec(list[0]) {
                Some(address) => Ok(Some(address)),
                None => Err(list[0]),
            }
        },
        None => Err(value),
    }
}

/// The result `r` holds what the model `m` says.
pub open spec fn same_address(
    r: Result<Option<EmailAddress>, ParseError>,
    m: Result<Option<Seq<char>>, Seq<char>>,
) -> bool {
    match (r, m) {
        (Ok(Some(a)), Ok(Some(b))) => a@ == b,
        (Ok(None), Ok(None)) => true,
        (Err(a), Err(b)) => a.text() == b,
        _ => false,
    }
}

/// Validates the first text of `list`, if there is one.
pub fn validate_first(list: &[String]) -> (r: Result<Option<EmailAddress>, ParseError>)
    ensures
        same_address(r, first_mailbox_of(Seq::empty(), Some(string_views(list@)))),
{
    if list.len() == 0 {
        Ok(None)
    } else {
        match parse_email_address(list[0].as_str()) {
            Ok(address) => Ok(Some(address)),
            Err(error) => Err(error),
        }
    }
}

/// Parses a header value as a list of mailboxes, as the header `From`
/// holds one, and returns the address of the first, or `None` where the
/// list is empty. Further mailboxes are not looked at.
pub fn parse_mailbox_header(value: &str) -> (r: Result<Option<EmailAddress>, ParseError>)
    ensures
        same_address(r, first_mailbox_of(value@, mailbox_addresses(value@))),
{
    match mailbox_list(value) {
        Some(list) => validate_first(list.as_slice()),
        None => Err(ParseError::InvalidEmail(value.to_owned())),
    }
}

/// The address `nobody@localhost`, the sender where nothing names one.
pub fn nobody_at_localhost() -> (r: EmailAddress)
    ensures
        r@ == "nobody@localhost"@,
{
    proof {
        reveal_strlit("nobody@localhost");
        reveal_strlit("nobody");
        reveal_strlit("localhost");
        assert("nobody@localhost"@ =~= "nobody"@ + seq!['@'] + "localhost"@);
        lemma_plain_address("nobody"@, "localhost"@);
    }
    match parse_email_address("nobody@localhost") {
        Ok(address) => address,
        Err(_) => vstd::pervasive::unreached(),
    }
}

/// A header field of a message, with its value unfolded.
#[derive(Debug, Clone)]
pub struct HeaderField {
    /// The name in front of the colon, without white space around it.
    pub name: String,
    /// The value behind the colon: each continuation line is joined to the
    /// line before it by a single space.
    pub value: String,
}

impl View for HeaderField {
    type V = (Seq<char>, Seq<char>);

    /// The name and the value.
    open spec fn view(&self) -> (Seq<char>, Seq<char>) {
        (self.name@, self.value@)
    }
}

/// The name and the value of each field of `fields`.
pub open spec fn field_views(fields: Seq<HeaderField>) -> Seq<(Seq<char>, Seq<char>)> {
    Seq::new(fields.len(), |i: int| fields[i]@)
}

/// A line that is empty once the white space around it is removed: the end
/// of the header block.
pub open spec fn is_blank(line: Seq<char>) -> bool {
    trimmed(line).len() == 0
}

/// A line that continues the field before it: one that begins with a space
/// or a tab.
pub open spec fn is_continuation(line: Seq<char>) -> bool {
    line.len() > 0 && (line[0] == ' ' || line[0] == '\t')
}

/// What one line of the header block does to the fields read so far.
/// `open` says whether the line before it belongs to the last field.
///
/// - A continuation line adds a space and its trimmed text to the last
///   field if that is open, and is dropped otherwise.
/// - A line with a colon starts a field: the trimmed text in front of
///   the first colon is its name, the trimmed text behind it its value.
/// - A line without a colon is dropped and leaves no field open.
pub open spec fn after_line(
    fields: Seq<(Seq<char>, Seq<char>)>,
    open: bool,
    line: Seq<char>,
) -> (Seq<(Seq<char>, Seq<char>)>, bool) {
    if is_continuation(line) {
        if open && fields.len() > 0 {
            let (name, value) = fields.last();
            (fields.drop_last().push((name, value + seq![' '] + trimmed(line))), true)
        } else {
            (fields, false)
        }
    } else {
        let colon = colon_of(line);
        if colon < line.len() {
            let name = trimmed(line.subrange(0, colon));
            let value = trimmed(line.subrange(colon + 1, line.len() as int));
            (fields.push((name, value)), true)
        } else {
            (fields, false)
        }
    }
}

/// The fields of the header block of `s` whose lines start at `i`, given
/// the fields of the lines in front of `i`. The block ends in front of the
/// first blank line, or with `s`.
pub open spec fn fields_from(
    s: Seq<char>,
    i: int,
    fields: Seq<(Seq<char>, Seq<char>)>,
    open: bool,
) -> Seq<(Seq<char>, Seq<char>)>
    decreases s.len() + 1 - i,
{
    if 0 <= i < s.len() {
        let end = line_end(s, i);
        let line = s.subrange(i, end);
        if is_blank(line) {
            fields
        } else {
            proof {
                lemma_line_end(s, i);
            }
            let (more, still) = after_line(fields, open, line);
            fields_from(s, end + 1, more, still)
        }
    } else {
        fields
    }
}

/// The header fields of the message `s`, in the order in which they appear.
pub open spec fn header_fields(s: Seq<char>) -> Seq<(Seq<char>, Seq<char>)> {
    fields_from(s, 0, Seq::empty(), false)
}

/// A line that is not blank, does not continue a field and has no colon
/// adds no field and changes none.
pub proof fn lemma_line_without_colon(
    fields: Seq<(Seq<char>, Seq<char>)>,
    open: bool,
    line: Seq<char>,
)
    requires
        !is_continuation(line),
        forall|i: int| 0 <= i < line.len() ==> line[i] != ':',
    ensures
        after_line(fields, open, line).0 == fields,
{
    lemma_colon_of(line);
}

/// The fields that are closed, and behind them the open one if there is one.
spec fn with_current(fields: Seq<HeaderField>, current: Option<HeaderField>) -> Seq<
    (Seq<char>, Seq<char>),
> {
    match current {
        Some(field) => field_views(fields).push(field@),
        None => field_views(fields),
    }
}

/// Parses the header block of a raw message into its fields, unfolded.
///
/// The message is read line by line up to the first blank line. A line
/// that begins with a space or a tab continues the field before it: its
/// trimmed text is appended to that field's value behind a single space.
/// Any other line is split at its first colon into name and value, each
/// trimmed. A line without a colon is passed over, and so is a continuation
/// line with no field to continue.
pub fn parse_email_headers(email: &str) -> (headers: Vec<HeaderField>)
    ensures
        field_views(headers@) == header_fields(email@),
{
    let chars = chars_of(email);
    let s = chars.as_slice();
    let mut headers: Vec<HeaderField> = Vec::new();
    let mut current: Option<HeaderField> = None;
    let mut i: usize = 0;
    assert(field_views(headers@) =~= Seq::empty());
    loop
        invariant_except_break
            s@ == email@,
            i <= s.len(),
            header_fields(email@) == fields_from(
                s@,
                i as int,
                with_current(headers@, current),
                current is Some,
            ),
        ensures
            header_fields(email@) == with_current(headers@, current),
        decreases s.len() - i,
    {
        if i >= s.len() {
            break;
        }
        let end = find_line_end(s, i);
        let ghost before = with_current(headers@, current);
        let ghost was_open = current is Some;
        let ghost line = s@.subrange(i as int, end as int);
        let body = trim_range(s, i, end);
        if body.len() == 0 {
            break;
        }
        assert(line.len() > 0 && line[0] == s@[i as int]);
        if s[i] == ' ' || s[i] == '\t' {
            match current {
                Some(field) => {
                    let ghost old_value = field.value@;
                    let mut value = field.value;
                    value.push(' ');
                    value.append(string_of(body.as_slice()).as_str());
                    assert(value@ =~= old_value + seq![' '] + trimmed(line));
                    current = Some(HeaderField { name: field.name, value });
                    assert(before.drop_last() =~= field_views(headers@));
                    assert(with_current(headers@, current) =~= after_line(before, true, line).0);
                },
                None => {},
            }
        } else {
            match current {
                Some(field) => {
                    headers.push(field);
                    assert(field_views(headers@) =~= before);
                },
                None => {},
            }
            let text = copy_range(s, i, end);
            let colon = find_colon(text.as_slice());
            if colon < text.len() {
                let name = string_of(trim_range(text.as_slice(), 0, colon).as_slice());
                let value = string_of(
                    trim_range(text.as_slice(), colon + 1, text.len()).as_slice(),
                );
                current = Some(HeaderField { name, value });
            } else {
                current = None;
            }
            assert(with_current(headers@, current) =~= after_line(before, was_open, line).0);
        }
        assert(fields_from(s@, i as int, before, was_open) == fields_from(
            s@,
            end + 1,
            after_line(before, was_open, line).0,
            after_line(before, was_open, line).1,
        ));
        if end >= s.len() {
            i = s.len();
        } else {
            i = end + 1;
        }
    }
    match current {
        Some(field) => {
            let ghost before = with_current(headers@, current);
            headers.push(field);
            assert(field_views(headers@) =~= before);
        },
        None => {},
    }
    headers
}

/// The values, in order, of the fields whose name is `name` but for the
/// case of ASCII letters.
pub open spec fn values_of(fields: Seq<(Seq<char>, Seq<char>)>, name: Seq<char>) -> Seq<Seq<char>>
    decreases fields.len(),
{
    if fields.len() == 0 {
        Seq::empty()
    } else if same_ignoring_case(fields.last().0, name) {
        values_of(fields.drop_last(), name).push(fields.last().1)
    } else {
        values_of(fields.drop_last(), name)
    }
}

/// The text of each string of `values`.
pub open spec fn str_views(values: Seq<&str>) -> Seq<Seq<char>> {
    Seq::new(values.len(), |i: int| values[i]@)
}

/// Returns the values of all the fields called `name`, in their order;
/// the case of ASCII letters in the name makes no difference.
pub fn header_values<'a>(headers: &'a [HeaderField], name: &str) -> (values: Vec<&'a str>)
    ensures
        str_views(values@) == values_of(field_views(headers@), name@),
{
    let wanted = chars_of(name);
    let mut values: Vec<&'a str> = Vec::new();
    let mut i: usize = 0;
    assert(field_views(headers@).take(0) =~= Seq::empty());
    assert(str_views(values@) =~= Seq::empty());
    while i < headers.len()
        invariant
            i <= headers.len(),
            wanted@ == name@,
            str_views(values@) == values_of(field_views(headers@).take(i as int), name@),
        decreases headers.len() - i,
    {
        let ghost so_far = field_views(headers@).take(i as int);
        let ghost next = field_views(headers@).take(i + 1);
        assert(next.drop_last() =~= so_far);
        assert(next.last() == headers@[i as int]@);
        let ghost old_values = str_views(values@);
        let own = chars_of(headers[i].name.as_str());
        if eq_ignoring_case(own.as_slice(), wanted.as_slice()) {
            values.push(headers[i].value.as_str());
            assert(str_views(values@) =~= old_values.push(headers@[i as int].value@));
        }
        i += 1;
    }
    assert(field_views(headers@).take(headers@.len() as int) =~= field_views(headers@));
    values
}

/// Whether some field is called `name` but for the case of ASCII letters.
pub open spec fn has_field(fields: Seq<(Seq<char>, Seq<char>)>, name: Seq<char>) -> bool {
    exists|i: int| 0 <= i < fields.len() && same_ignoring_case(#[trigger] fields[i].0, name)
}

/// Tells whether a field called `name` exists; the case of ASCII letters in
/// the name makes no difference.
pub fn has_header(headers: &[HeaderField], name: &str) -> (found: bool)
    ensures
        found == has_field(field_views(headers@), name@),
{
    let wanted = chars_of(name);
    let mut i: usize = 0;
    while i < headers.len()
        invariant
            i <= headers.len(),
            wanted@ == name@,
            forall|k: int|
                0 <= k < i ==> !same_ignoring_case(#[trigger] field_views(headers@)[k].0, name@),
        decreases headers.len() - i,
    {
        let own = chars_of(headers[i].name.as_str());
        if eq_ignoring_case(own.as_slice(), wanted.as_slice()) {
            assert(same_ignoring_case(field_views(headers@)[i as int].0, name@));
            return true;
        }
        i += 1;
    }
    false
}

} // verus!
