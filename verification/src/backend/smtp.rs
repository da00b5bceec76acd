//! The SMTP relay backend: what is checked before a message is handed to
//! the relay, and how the raw message is taken apart for it.

use vstd::prelude::*;
use crate::backend::BackendError;
use crate::text::{
    chars_of, colon_of, copy_range, eq_ignoring_case, find_colon, join_chars, joined, lines,
    lines_of, optional_text, same_ignoring_case, string_of, string_views, texts, trim_range,
    trimmed,
};

verus! {

/// A backend that hands each message to an SMTP relay.
#[derive(Debug)]
pub struct SmtpBackend {
    /// The host of the relay.
    pub host: String,
    /// The port of the relay.
    pub port: u16,
    /// The user name to log in with, if any.
    pub username: Option<String>,
    /// The password to log in with, if any.
    pub password: Option<String>,
}

impl SmtpBackend {
    /// A backend for the relay at `host` and `port`, which logs in with
    /// `username` and `password` if they are given.
    pub fn new(host: String, port: u16, username: Option<String>, password: Option<String>) -> (r:
        Self)
        ensures
            r.host == host,
            r.port == port,
            r.username == username,
            r.password == password,
    {
        Self { host, port, username, password }
    }

    /// Checks what has to hold before a message goes to the relay, in this
    /// order: the relay has a host; the envelope has a sender; there is a
    /// recipient, without which nothing is to be sent and the answer is
    /// `false`; user name and password are both set or both not.
    pub fn check(&self, envelope_from: &str, recipients: usize) -> (r: Result<bool, BackendError>)
        ensures
            r matches Err(BackendError::HostNotProvided) <==> self.host@.len() == 0,
            r matches Err(BackendError::FromNotProvided) <==> self.host@.len() > 0
                && envelope_from@.len() == 0,
            r matches Ok(false) <==> self.host@.len() > 0 && envelope_from@.len() > 0
                && recipients == 0,
            r matches Err(BackendError::OnlyUsernameOrPasswordProvided) <==> self.host@.len() > 0
                && envelope_from@.len() > 0 && recipients > 0 && (self.username is Some) != (
            self.password is Some),
            r matches Ok(true) <==> self.host@.len() > 0 && envelope_from@.len() > 0 && recipients
                > 0 && (self.username is Some) == (self.password is Some),
    {
        if self.host.as_str().is_empty() {
            Err(BackendError::HostNotProvided)
        } else if envelope_from.is_empty() {
            Err(BackendError::FromNotProvided)
        } else if recipients == 0 {
            Ok(false)
        } else if self.username.is_some() != self.password.is_some() {
            Err(BackendError::OnlyUsernameOrPasswordProvided)
        } else {
            Ok(true)
        }
    }
}

/// The position of the first line that holds nothing but white space, or
/// the number of lines if there is none.
pub open spec fn first_blank(lines: Seq<Seq<char>>) -> int
    decreases lines.len(),
{
    if lines.len() > 0 && trimmed(lines.first()).len() > 0 {
        1 + first_blank(lines.drop_first())
    } else {
        0
    }
}

/// The header lines of a message with the lines `lines`: those in front
/// of the first blank line.
pub open spec fn raw_headers(lines: Seq<Seq<char>>) -> Seq<Seq<char>> {
    lines.take(first_blank(lines))
}

/// The body of a message with the lines `lines`: the lines behind the
/// first blank line, joined by line feeds. Where no line is blank, all the
/// lines are the body as well.
pub open spec fn raw_body(lines: Seq<Seq<char>>) -> Seq<char> {
    let blank = first_blank(lines);
    let start = if blank < lines.len() {
        blank + 1
    } else {
        0
    };
    if start < lines.len() {
        joined(lines.skip(start), seq!['\n'])
    } else {
        Seq::empty()
    }
}

/// The first blank line is inside the lines or at their end, and no line in
/// front of it is blank.
pub proof fn lemma_first_blank(lines: Seq<Seq<char>>)
    ensures
        0 <= first_blank(lines) <= lines.len(),
    decreases lines.len(),
{
    if lines.len() > 0 && trimmed(lines.first()).len() > 0 {
        lemma_first_blank(lines.drop_first());
    }
}

/// Splits a raw message into its header lines and its body.
///
/// The header lines are the lines in front of the first blank line. The
/// body is made of the lines behind it, joined by line feeds; a message
/// without a blank line is all header lines, and all body.
pub fn parse_raw_email(email: &str) -> (r: (Vec<String>, String))
    ensures
        string_views(r.0@) == raw_headers(lines_of(email@)),
        r.1@ == raw_body(lines_of(email@)),
{
    let chars = chars_of(email);
    let all = lines(chars.as_slice());
    let ghost model = lines_of(email@);
    let mut headers: Vec<String> = Vec::new();
    let mut i: usize = 0;
    assert(model.skip(0) =~= model);
    assert(string_views(headers@) =~= model.take(0));
    while i < all.len() && trim_range(all[i].as_slice(), 0, all[i].len()).len() > 0
        invariant
            i <= all.len(),
            model == texts(all@),
            string_views(headers@) == model.take(i as int),
            first_blank(model) == i + first_blank(model.skip(i as int)),
        decreases all.len() - i,
    {
        let ghost before = string_views(headers@);
        assert(all@[i as int]@.subrange(0, all@[i as int]@.len() as int) =~= all@[i as int]@);
        assert(model.skip(i as int).first() == all@[i as int]@);
        assert(model.skip(i as int).drop_first() =~= model.skip(i + 1));
        headers.push(string_of(all[i].as_slice()));
        assert(string_views(headers@) =~= before.push(model[i as int]));
        assert(model.take(i + 1) =~= model.take(i as int).push(model[i as int]));
        i += 1;
    }
    proof {
        if i < all.len() {
            assert(all@[i as int]@.subrange(0, all@[i as int]@.len() as int) =~= all@[i as int]@);
            assert(model.skip(i as int).first() == all@[i as int]@);
        }
        assert(first_blank(model) == i);
    }
    let start = if i < all.len() {
        i + 1
    } else {
        0
    };
    if start < all.len() {
        let mut rest: Vec<Vec<char>> = Vec::new();
        let mut k = start;
        assert(texts(rest@) =~= model.skip(start as int).take(0));
        while k < all.len()
            invariant
                start <= k <= all.len(),
                model == texts(all@),
                texts(rest@) == model.skip(start as int).take(k - start),
            decreases all.len() - k,
        {
            let ghost before = texts(rest@);
            rest.push(copy_range(all[k].as_slice(), 0, all[k].len()));
            assert(all@[k as int]@.subrange(0, all@[k as int]@.len() as int) =~= all@[k as int]@);
            assert(texts(rest@) =~= before.push(model[k as int]));
            assert(model.skip(start as int).take(k + 1 - start) =~= model.skip(start as int).take(
                k - start,
            ).push(model[k as int]));
            k += 1;
        }
        assert(model.skip(start as int).take(all.len() - start) =~= model.skip(start as int));
        let mut feed: Vec<char> = Vec::new();
        feed.push('\n');
        assert(feed@ =~= seq!['\n']);
        let body = join_chars(rest.as_slice(), feed.as_slice());
        (headers, string_of(body.as_slice()))
    } else {
        (headers, String::new())
    }
}

/// The subject that the header lines `lines` give: the value of the first
/// line that has a colon, once the white space around it is removed, and
/// the name `Subject` in front of the colon, in any case of letters. Name
/// and value are taken without the white space around them.
pub open spec fn subject_in(lines: Seq<Seq<char>>) -> Option<Seq<char>>
    decreases lines.len(),
{
    if lines.len() == 0 {
        None
    } else {
        let line = trimmed(lines.first());
        let colon = colon_of(line);
        if colon < line.len() && same_ignoring_case(
            trimmed(line.subrange(0, colon)),
            "Subject"@,
        ) {
            Some(trimmed(line.subrange(colon + 1, line.len() as int)))
        } else {
            subject_in(lines.drop_first())
        }
    }
}

/// Finds the subject among the header lines of a message.
pub fn subject_of(headers: &[String]) -> (r: Option<String>)
    ensures
        optional_text(r) == subject_in(string_views(headers@)),
{
    let wanted = chars_of("Subject");
    let ghost model = string_views(headers@);
    let mut i: usize = 0;
    assert(model.skip(0) =~= model);
    while i < headers.len()
        invariant
            i <= headers.len(),
            model == string_views(headers@),
            wanted@ == "Subject"@,
            subject_in(model) == subject_in(model.skip(i as int)),
        decreases headers.len() - i,
    {
        assert(model.skip(i as int).first() == headers@[i as int]@);
        assert(model.skip(i as int).drop_first() =~= model.skip(i + 1));
        let chars = chars_of(headers[i].as_str());
        let line = trim_range(chars.as_slice(), 0, chars.len());
        assert(chars@.subrange(0, chars@.len() as int) =~= chars@);
        let colon = find_colon(line.as_slice());
        if colon < line.len() {
            let name = trim_range(line.as_slice(), 0, colon);
            if eq_ignoring_case(name.as_slice(), wanted.as_slice()) {
                let value = trim_range(line.as_slice(), colon + 1, line.len());
                return Some(string_of(value.as_slice()));
            }
        }
        i += 1;
    }
    None
}

} // verus!
