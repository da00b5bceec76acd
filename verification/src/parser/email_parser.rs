//! A parser for RFC 5322 email addresses (`addr-spec`).
//!
//! Every function reads one production of the grammar from a position in the
//! input and is proved to compute what [`crate::parser::grammar`] defines
//! for that production. Comments and folding white space around the parts
//! of an address are dropped, folds inside quoted strings and domain
//! literals become single spaces, and everything else is kept as it was
//! written.

use vstd::prelude::*;
use crate::parser::grammar::{
    addr_spec, addr_spec_at, atext_end, atom, cfws_end, comment_end, comment_rest, delimited,
    delimited_rest, domain, domain_literal, dot_atom, dot_atom_rest_end, dot_atom_text, end_of,
    fold_at, folds_end, folds_text, fws_end, fws_text, is_atext, is_ctext, is_dtext, is_qtext,
    is_vchar, is_wsp, local_part, obs_domain, obs_fws_end, obs_local_part, prepend,
    quoted_pair_at, quoted_string, text_of, word, words, words_rest, wsp_end, Delimited,
};
use crate::parser::normal_form::lemma_addr_spec_idempotent;
use crate::parser::ParseError;
use crate::text::{chars_of, copy_range, push_all, string_of};

verus! {

/// `WSP = SP / HTAB`.
fn wsp(c: char) -> (r: bool)
    ensures
        r == is_wsp(c),
{
    c == ' ' || c == '\t'
}

/// `VCHAR`: the printable ASCII characters.
fn vchar(c: char) -> (r: bool)
    ensures
        r == is_vchar(c),
{
    '!' <= c && c <= '~'
}

/// `atext = ALPHA / DIGIT / "!" / "#" / "$" / "%" / "&" / "'" / "*" / "+" / "-" /
/// "/" / "=" / "?" / "^" / "_" / "`" / "{" / "|" / "}" / "~"`, ASCII only.
fn atext(c: char) -> (r: bool)
    ensures
        r == is_atext(c),
{
    ('a' <= c && c <= 'z') || ('A' <= c && c <= 'Z') || ('0' <= c && c <= '9') || c == '!'
        || c == '#' || c == '$' || c == '%' || c == '&' || c == '\'' || c == '*' || c == '+'
        || c == '-' || c == '/' || c == '=' || c == '?' || c == '^' || c == '_' || c == '`'
        || c == '{' || c == '|' || c == '}' || c == '~'
}

/// `qtext = %d33 / %d35-91 / %d93-126`.
fn qtext(c: char) -> (r: bool)
    ensures
        r == is_qtext(c),
{
    vchar(c) && c != '"' && c != '\\'
}

/// `dtext = %d33-90 / %d94-126`; the escapes that the obsolete syntax adds
/// are read by [`quoted_pair`].
fn dtext(c: char) -> (r: bool)
    ensures
        r == is_dtext(c),
{
    vchar(c) && c != '[' && c != ']' && c != '\\'
}

/// `ctext = %d33-39 / %d42-91 / %d93-126`.
fn ctext(c: char) -> (r: bool)
    ensures
        r == is_ctext(c),
{
    vchar(c) && c != '(' && c != ')' && c != '\\'
}

/// `quoted-pair = "\" (VCHAR / WSP)`: whether one starts at `i`.
fn quoted_pair(s: &[char], i: usize) -> (r: bool)
    requires
        i < s.len(),
    ensures
        r == quoted_pair_at(s@, i as int),
{
    s[i] == '\\' && i + 1 < s.len() && (vchar(s[i + 1]) || wsp(s[i + 1]))
}

/// Whether `CRLF` and a `WSP` start at `i`.
fn fold(s: &[char], i: usize) -> (r: bool)
    requires
        i <= s.len(),
    ensures
        r == fold_at(s@, i as int),
{
    s.len() - i > 2 && s[i] == '\r' && s[i + 1] == '\n' && wsp(s[i + 2])
}

/// The end of the run of `WSP` that starts at `i`.
fn wsp_run(s: &[char], i: usize) -> (j: usize)
    requires
        i <= s.len(),
    ensures
        j == wsp_end(s@, i as int),
        i <= j <= s.len(),
{
    let mut j = i;
    while j < s.len() && wsp(s[j])
        invariant
            i <= j <= s.len(),
            wsp_end(s@, i as int) == wsp_end(s@, j as int),
        decreases s.len() - j,
    {
        j += 1;
    }
    j
}

/// The end of the run of `atext` that starts at `i`.
fn atext_run(s: &[char], i: usize) -> (j: usize)
    requires
        i <= s.len(),
    ensures
        j == atext_end(s@, i as int),
        i <= j <= s.len(),
{
    let mut j = i;
    while j < s.len() && atext(s[j])
        invariant
            i <= j <= s.len(),
            atext_end(s@, i as int) == atext_end(s@, j as int),
        decreases s.len() - j,
    {
        j += 1;
    }
    j
}

/// `obs-FWS = 1*WSP *(CRLF 1*WSP)`: its end, or `i` where there is none.
fn obs_fws(s: &[char], i: usize) -> (j: usize)
    requires
        i <= s.len(),
    ensures
        j == obs_fws_end(s@, i as int),
        i <= j <= s.len(),
{
    if i < s.len() && wsp(s[i]) {
        let mut j = wsp_run(s, i);
        while fold(s, j)
            invariant
                i <= j <= s.len(),
                obs_fws_end(s@, i as int) == folds_end(s@, j as int),
            decreases s.len() - j,
        {
            j = wsp_run(s, j + 3);
        }
        j
    } else {
        i
    }
}

/// `FWS = ([*WSP CRLF] 1*WSP) / obs-FWS`: its end, or `i` where there is none.
fn fws(s: &[char], i: usize) -> (j: usize)
    requires
        i <= s.len(),
    ensures
        j == fws_end(s@, i as int),
        i <= j <= s.len(),
{
    if i < s.len() && wsp(s[i]) {
        obs_fws(s, i)
    } else if fold(s, i) {
        wsp_run(s, i + 3)
    } else {
        i
    }
}

/// Reads the `FWS` at `i` as [`fws`] does and appends its normalized text to
/// `out`: the `WSP` in front of the first fold are kept, and each fold with
/// the `WSP` behind it becomes one space.
fn fws_as_space(s: &[char], i: usize, out: &mut Vec<char>) -> (j: usize)
    requires
        i <= s.len(),
    ensures
        j == fws_end(s@, i as int),
        i <= j <= s.len(),
        final(out)@ == old(out)@ + fws_text(s@, i as int),
{
    if i < s.len() && wsp(s[i]) {
        let mut j = wsp_run(s, i);
        let mut k = i;
        while k < j
            invariant
                i <= k <= j <= s.len(),
                out@ == old(out)@ + s@.subrange(i as int, k as int),
            decreases j - k,
        {
            out.push(s[k]);
            k += 1;
            assert(out@ =~= old(out)@ + s@.subrange(i as int, k as int));
        }
        assert(old(out)@ + fws_text(s@, i as int) =~= out@ + folds_text(s@, j as int));
        while fold(s, j)
            invariant
                i <= j <= s.len(),
                fws_end(s@, i as int) == folds_end(s@, j as int),
                old(out)@ + fws_text(s@, i as int) == out@ + folds_text(s@, j as int),
            decreases s.len() - j,
        {
            let ghost before = out@;
            let ghost here = j as int;
            out.push(' ');
            j = wsp_run(s, j + 3);
            assert(before + folds_text(s@, here) =~= out@ + folds_text(s@, j as int));
        }
        assert(out@ + folds_text(s@, j as int) =~= out@);
        j
    } else if fold(s, i) {
        out.push(' ');
        assert(out@ =~= old(out)@ + seq![' ']);
        wsp_run(s, i + 3)
    } else {
        assert(old(out)@ + Seq::<char>::empty() =~= old(out)@);
        i
    }
}

/// `comment = "(" *([FWS] ccontent) [FWS] ")"` with
/// `ccontent = ctext / quoted-pair / comment`: the position behind the
/// comment that starts at `i`.
///
/// Nested comments are followed with a counter, so that the depth of the
/// nesting costs no stack.
fn comment(s: &[char], i: usize) -> (r: Option<usize>)
    requires
        i <= s.len(),
    ensures
        match r {
            Some(k) => comment_end(s@, i as int) == Some(k as int) && i < k <= s.len(),
            None => comment_end(s@, i as int) is None,
        },
{
    if i < s.len() && s[i] == '(' {
        let mut j = i + 1;
        let mut depth: usize = 0;
        loop
            invariant
                i < j <= s.len(),
                depth < j,
                comment_end(s@, i as int) == comment_rest(s@, j as int, depth as nat),
            decreases s.len() - j,
        {
            let k = fws(s, j);
            if k >= s.len() {
                return None;
            }
            let c = s[k];
            if c == ')' {
                if depth == 0 {
                    return Some(k + 1);
                }
                depth -= 1;
                j = k + 1;
            } else if c == '(' {
                depth += 1;
                j = k + 1;
            } else if ctext(c) {
                j = k + 1;
            } else if quoted_pair(s, k) {
                j = k + 2;
            } else {
                return None;
            }
        }
    } else {
        None
    }
}

/// `[CFWS]` with `CFWS = (1*([FWS] comment) [FWS]) / FWS`: its end, or `i`
/// where there is none.
fn cfws(s: &[char], i: usize) -> (j: usize)
    requires
        i <= s.len(),
    ensures
        j == cfws_end(s@, i as int),
        i <= j <= s.len(),
{
    let mut p = i;
    loop
        invariant
            i <= p <= s.len(),
            cfws_end(s@, i as int) == cfws_end(s@, p as int),
        decreases s.len() - p,
    {
        let j = fws(s, p);
        match comment(s, j) {
            Some(k) => {
                p = k;
            },
            None => {
                return j;
            },
        }
    }
}

impl Delimited {
    /// The character that opens the production.
    fn open_char(self) -> (c: char)
        ensures
            c == self.opening(),
    {
        match self {
            Delimited::QuotedString => '"',
            Delimited::DomainLiteral => '[',
        }
    }

    /// The character that closes the production.
    fn close_char(self) -> (c: char)
        ensures
            c == self.closing(),
    {
        match self {
            Delimited::QuotedString => '"',
            Delimited::DomainLiteral => ']',
        }
    }

    /// Whether `c` may stand unescaped between the delimiters.
    fn text(self, c: char) -> (r: bool)
        ensures
            r == self.is_text(c),
    {
        match self {
            Delimited::QuotedString => qtext(c),
            Delimited::DomainLiteral => dtext(c),
        }
    }
}

/// Putting `a` and then `b` in front of a result is putting `a + b` in front of it.
proof fn lemma_prepend_twice(a: Seq<char>, b: Seq<char>, r: Option<(int, Seq<char>)>)
    ensures
        prepend(a, prepend(b, r)) == prepend(a + b, r),
{
    if let Some((end, text)) = r {
        assert(a + (b + text) =~= (a + b) + text);
    }
}

/// `[CFWS] open *([FWS] content) [FWS] close [CFWS]`, read from `i`: a
/// `quoted-string` or a `domain-literal`, as `kind` says. The text that comes
/// back keeps the delimiters, each `FWS` between them in its normalized form
/// and each `quoted-pair` with its backslash.
fn delimited_parser(s: &[char], i: usize, kind: Delimited) -> (r: Option<(usize, Vec<char>)>)
    requires
        i <= s.len(),
    ensures
        match r {
            Some((end, text)) => delimited(s@, i as int, kind) == Some((end as int, text@)) && i
                < end <= s.len(),
            None => delimited(s@, i as int, kind) is None,
        },
{
    let start = cfws(s, i);
    if start < s.len() && s[start] == kind.open_char() {
        let mut out: Vec<char> = Vec::new();
        let mut j = start + 1;
        loop
            invariant
                i <= start < j <= s.len(),
                start == cfws_end(s@, i as int),
                s@[start as int] == kind.opening(),
                delimited_rest(s@, start + 1, kind) == prepend(
                    out@,
                    delimited_rest(s@, j as int, kind),
                ),
            decreases s.len() - j,
        {
            let ghost before = out@;
            let ghost here = j as int;
            let ghost w = fws_text(s@, here);
            let k = fws_as_space(s, j, &mut out);
            if k >= s.len() {
                return None;
            }
            let c = s[k];
            if c == kind.close_char() {
                out.push(c);
                assert(out@ =~= before + w.push(c));
                let end = cfws(s, k + 1);
                let mut text: Vec<char> = Vec::new();
                text.push(kind.open_char());
                push_all(&mut text, out.as_slice());
                assert(text@ =~= seq![kind.opening()] + out@);
                return Some((end, text));
            } else if kind.text(c) {
                out.push(c);
                j = k + 1;
                proof {
                    lemma_prepend_twice(before, w.push(c), delimited_rest(s@, j as int, kind));
                    assert(out@ =~= before + w.push(c));
                }
            } else if quoted_pair(s, k) {
                out.push(c);
                out.push(s[k + 1]);
                j = k + 2;
                proof {
                    lemma_prepend_twice(
                        before,
                        w.push(c).push(s@[k + 1]),
                        delimited_rest(s@, j as int, kind),
                    );
                    assert(out@ =~= before + w.push(c).push(s@[k + 1]));
                }
            } else {
                return None;
            }
        }
    } else {
        None
    }
}

/// `quoted-string = [CFWS] DQUOTE *([FWS] qcontent) [FWS] DQUOTE [CFWS]`
/// with `qcontent = qtext / quoted-pair`. White space between the quotes is
/// kept, a fold as one space; an empty quoted string is accepted.
fn quoted_string_parser(s: &[char], i: usize) -> (r: Option<(usize, Vec<char>)>)
    requires
        i <= s.len(),
    ensures
        match r {
            Some((end, text)) => quoted_string(s@, i as int) == Some((end as int, text@)) && i
                < end <= s.len(),
            None => quoted_string(s@, i as int) is None,
        },
{
    delimited_parser(s, i, Delimited::QuotedString)
}

/// `domain-literal = [CFWS] "[" *([FWS] dtext) [FWS] "]" [CFWS]`, where
/// `dtext` may be a `quoted-pair`. White space between the brackets is kept,
/// a fold as one space; an empty domain literal is accepted.
fn domain_literal_parser(s: &[char], i: usize) -> (r: Option<(usize, Vec<char>)>)
    requires
        i <= s.len(),
    ensures
        match r {
            Some((end, text)) => domain_literal(s@, i as int) == Some((end as int, text@)) && i
                < end <= s.len(),
            None => domain_literal(s@, i as int) is None,
        },
{
    delimited_parser(s, i, Delimited::DomainLiteral)
}

/// `atom = [CFWS] 1*atext [CFWS]`.
fn atom_parser(s: &[char], i: usize) -> (r: Option<(usize, Vec<char>)>)
    requires
        i <= s.len(),
    ensures
        match r {
            Some((end, text)) => atom(s@, i as int) == Some((end as int, text@)) && i < end
                <= s.len(),
            None => atom(s@, i as int) is None,
        },
{
    let j = cfws(s, i);
    let k = atext_run(s, j);
    if j < k {
        Some((cfws(s, k), copy_range(s, j, k)))
    } else {
        None
    }
}

/// `dot-atom-text = 1*atext *("." 1*atext)`: a dot is read only where
/// `atext` follows it, so no dot stands first, last or next to another.
fn dot_atom_text_parser(s: &[char], i: usize) -> (r: Option<(usize, Vec<char>)>)
    requires
        i <= s.len(),
    ensures
        match r {
            Some((end, text)) => dot_atom_text(s@, i as int) == Some((end as int, text@)) && i
                < end <= s.len(),
            None => dot_atom_text(s@, i as int) is None,
        },
{
    let k = atext_run(s, i);
    if i < k {
        let mut e = k;
        while s.len() - e > 1 && s[e] == '.' && atext(s[e + 1])
            invariant
                i < e <= s.len(),
                dot_atom_rest_end(s@, k as int) == dot_atom_rest_end(s@, e as int),
            decreases s.len() - e,
        {
            e = atext_run(s, e + 1);
        }
        Some((e, copy_range(s, i, e)))
    } else {
        None
    }
}

/// `dot-atom = [CFWS] dot-atom-text [CFWS]`.
fn dot_atom_parser(s: &[char], i: usize) -> (r: Option<(usize, Vec<char>)>)
    requires
        i <= s.len(),
    ensures
        match r {
            Some((end, text)) => dot_atom(s@, i as int) == Some((end as int, text@)) && i < end
                <= s.len(),
            None => dot_atom(s@, i as int) is None,
        },
{
    let j = cfws(s, i);
    match dot_atom_text_parser(s, j) {
        Some((end, text)) => Some((cfws(s, end), text)),
        None => None,
    }
}

/// `word = atom / quoted-string` of the obsolete syntax; where `quoted` is
/// false only an `atom` is read.
fn obs_word(s: &[char], i: usize, quoted: bool) -> (r: Option<(usize, Vec<char>)>)
    requires
        i <= s.len(),
    ensures
        match r {
            Some((end, text)) => word(s@, i as int, quoted) == Some((end as int, text@)) && i
                < end <= s.len(),
            None => word(s@, i as int, quoted) is None,
        },
{
    match atom_parser(s, i) {
        Some(r) => Some(r),
        None => {
            if quoted {
                quoted_string_parser(s, i)
            } else {
                None
            }
        },
    }
}

/// The pair `r` with `head` put in front of its text.
spec fn prepend_rest(head: Seq<char>, r: (int, Seq<char>)) -> (int, Seq<char>) {
    (r.0, head + r.1)
}

/// `word *("." word)`: the words, without the `CFWS` around them, joined by
/// single dots. A dot is read only where a word follows it.
fn words_parser(s: &[char], i: usize, quoted: bool) -> (r: Option<(usize, Vec<char>)>)
    requires
        i <= s.len(),
    ensures
        match r {
            Some((end, text)) => words(s@, i as int, quoted) == Some((end as int, text@)) && i
                < end <= s.len(),
            None => words(s@, i as int, quoted) is None,
        },
{
    match obs_word(s, i, quoted) {
        Some((first_end, first)) => {
            let mut out = first;
            let mut j = first_end;
            loop
                invariant
                    i < j <= s.len(),
                    words(s@, i as int, quoted) == Some(
                        prepend_rest(out@, words_rest(s@, j as int, quoted)),
                    ),
                decreases s.len() - j,
            {
                if j < s.len() && s[j] == '.' {
                    match obs_word(s, j + 1, quoted) {
                        Some((end, text)) => {
                            let ghost before = out@;
                            out.push('.');
                            push_all(&mut out, text.as_slice());
                            proof {
                                let rest = words_rest(s@, end as int, quoted);
                                assert(before + (seq!['.'] + text@ + rest.1) =~= out@ + rest.1);
                            }
                            j = end;
                        },
                        None => {
                            assert(out@ + Seq::<char>::empty() =~= out@);
                            return Some((j, out));
                        },
                    }
                } else {
                    assert(out@ + Seq::<char>::empty() =~= out@);
                    return Some((j, out));
                }
            }
        },
        None => None,
    }
}

/// `obs-local-part = word *("." word)` with `word = atom / quoted-string`.
fn obs_local_part_parser(s: &[char], i: usize) -> (r: Option<(usize, Vec<char>)>)
    requires
        i <= s.len(),
    ensures
        match r {
            Some((end, text)) => obs_local_part(s@, i as int) == Some((end as int, text@)) && i
                < end <= s.len(),
            None => obs_local_part(s@, i as int) is None,
        },
{
    words_parser(s, i, true)
}

/// `obs-domain = atom *("." atom)`.
fn obs_domain_parser(s: &[char], i: usize) -> (r: Option<(usize, Vec<char>)>)
    requires
        i <= s.len(),
    ensures
        match r {
            Some((end, text)) => obs_domain(s@, i as int) == Some((end as int, text@)) && i
                < end <= s.len(),
            None => obs_domain(s@, i as int) is None,
        },
{
    words_parser(s, i, false)
}

/// `local-part = dot-atom / obs-local-part / quoted-string`: the first of
/// the three that matches is the result, whatever follows it.
fn local_part_parser(s: &[char], i: usize) -> (r: Option<(usize, Vec<char>)>)
    requires
        i <= s.len(),
    ensures
        match r {
            Some((end, text)) => local_part(s@, i as int) == Some((end as int, text@)) && i
                < end <= s.len(),
            None => local_part(s@, i as int) is None,
        },
{
    match dot_atom_parser(s, i) {
        Some(r) => Some(r),
        None => match obs_local_part_parser(s, i) {
            Some(r) => Some(r),
            None => quoted_string_parser(s, i),
        },
    }
}

/// `domain = domain-literal / obs-domain / dot-atom`: the first of the three
/// that matches is the result, whatever follows it.
fn domain_parser(s: &[char], i: usize) -> (r: Option<(usize, Vec<char>)>)
    requires
        i <= s.len(),
    ensures
        match r {
            Some((end, text)) => domain(s@, i as int) == Some((end as int, text@)) && i < end
                <= s.len(),
            None => domain(s@, i as int) is None,
        },
{
    match domain_literal_parser(s, i) {
        Some(r) => Some(r),
        None => match obs_domain_parser(s, i) {
            Some(r) => Some(r),
            None => dot_atom_parser(s, i),
        },
    }
}

/// Reads `[CFWS] local-part "@" domain [CFWS]` from position `i` and gives
/// the two parts one by one: the position behind the address, the local
/// part and the domain.
pub(crate) fn addr_spec_parts(s: &[char], i: usize) -> (r: Option<(usize, Vec<char>, Vec<char>)>)
    requires
        i <= s.len(),
    ensures
        match r {
            Some((end, local, dom)) => {
                &&& addr_spec_at(s@, i as int) == Some(
                    (end as int, local@ + seq!['@'] + dom@),
                )
                &&& text_of(local_part(s@, cfws_end(s@, i as int))) == local@
                &&& text_of(
                    domain(s@, end_of(local_part(s@, cfws_end(s@, i as int))) + 1),
                ) == dom@
                &&& i < end <= s.len()
            },
            None => addr_spec_at(s@, i as int) is None,
        },
{
    let j = cfws(s, i);
    match local_part_parser(s, j) {
        Some((at, local)) => {
            if at < s.len() && s[at] == '@' {
                match domain_parser(s, at + 1) {
                    Some((end, dom)) => Some((cfws(s, end), local, dom)),
                    None => None,
                }
            } else {
                None
            }
        },
        None => None,
    }
}

/// Reads `[CFWS] local-part "@" domain [CFWS]` from position `i` of `s` and
/// does not ask that the input ends there: this is the form to use where an
/// address is part of a larger structure.
///
/// Returns the position behind the address and the normalized address, or
/// `None` where no address starts at `i`.
pub fn addr_spec_parser_internal(s: &[char], i: usize) -> (r: Option<(usize, Vec<char>)>)
    ensures
        match r {
            Some((end, text)) => addr_spec_at(s@, i as int) == Some((end as int, text@)) && i
                < end <= s.len(),
            None => addr_spec_at(s@, i as int) is None,
        },
{
    if i > s.len() {
        return None;
    }
    match addr_spec_parts(s, i) {
        Some((end, local, dom)) => {
            let mut text = local;
            text.push('@');
            push_all(&mut text, dom.as_slice());
            Some((end, text))
        },
        None => None,
    }
}

/// Reads `s` as one `addr-spec` that takes up all of it.
fn addr_spec_parser(s: &[char]) -> (r: Option<Vec<char>>)
    ensures
        match r {
            Some(text) => addr_spec(s@) == Some(text@),
            None => addr_spec(s@) is None,
        },
{
    match addr_spec_parser_internal(s, 0) {
        Some((end, text)) => {
            if end == s.len() {
                Some(text)
            } else {
                None
            }
        },
        None => None,
    }
}

/// Parses an RFC 5322 email address (`addr-spec = local-part "@" domain`).
///
/// The whole of `value` has to be one address, with nothing but comments and
/// folding white space around it. On success the normalized address comes
/// back: comments and the white space around the parts are removed, quoted
/// strings and domain literals are kept with their delimiters and escapes.
/// Anything else is refused with the text as it was given.
pub fn parse_email_address(value: &str) -> (r: Result<String, ParseError>)
    ensures
        match r {
            Ok(address) => addr_spec(value@) == Some(address@) && addr_spec(address@) == Some(
                address@,
            ),
            Err(ParseError::InvalidEmail(text)) => addr_spec(value@) is None && text@ == value@,
        },
{
    let chars = chars_of(value);
    proof {
        if addr_spec(value@) is Some {
            lemma_addr_spec_idempotent(value@);
        }
    }
    match addr_spec_parser(chars.as_slice()) {
        Some(text) => Ok(string_of(text.as_slice())),
        None => Err(ParseError::InvalidEmail(value.to_owned())),
    }
}

} // verus!
