//! What an address may be written with.
//!
//! Every production reads nothing but printable ASCII characters, spaces,
//! tabs, and the carriage returns and line feeds of folds. An input with
//! any other character, a control character or one outside ASCII, is
//! therefore no address, wherever that character stands, and neither is
//! one with a line break that is not folded.

use vstd::prelude::*;
use crate::parser::grammar::{
    addr_spec, addr_spec_at, atext_end, atom, cfws_end, comment_end, comment_rest, delimited,
    delimited_rest, domain, dot_atom, dot_atom_rest_end, end_of, fold_at, folds_end, fws_end,
    is_atext, is_ctext, is_vchar, is_wsp, lemma_atext_end, lemma_cfws_end, lemma_comment_rest,
    lemma_delimited_rest, lemma_fws_end, lemma_word, lemma_wsp_end, local_part, word, words,
    words_rest, wsp_end, Delimited,
};
use crate::parser::normal_form::{lemma_dot_atom_rest, lemma_local_part_end, lemma_words_end};

verus! {

/// The character at position `k` of `s` is one that some production of
/// the grammar reads there: a printable ASCII character, a space or a tab,
/// or the carriage return or the line feed of a fold, which is followed by
/// a space or a tab.
pub open spec fn legal_at(s: Seq<char>, k: int) -> bool {
    is_vchar(s[k]) || is_wsp(s[k]) || (s[k] == '\r' && fold_at(s, k)) || (s[k] == '\n' && fold_at(
        s,
        k - 1,
    ))
}

/// All characters of `s` from `i` up to `j` are legal where they stand.
pub open spec fn legal_between(s: Seq<char>, i: int, j: int) -> bool {
    forall|k: int| i <= k < j ==> #[trigger] legal_at(s, k)
}

/// A sequence of folds holds nothing but legal characters.
pub proof fn lemma_folds_legal(s: Seq<char>, i: int)
    requires
        0 <= i <= s.len(),
    ensures
        legal_between(s, i, folds_end(s, i)),
    decreases s.len() - i,
{
    if fold_at(s, i) {
        lemma_wsp_end(s, i + 3);
        lemma_folds_legal(s, wsp_end(s, i + 3));
    }
}

/// Folding white space holds nothing but legal characters.
pub proof fn lemma_fws_legal(s: Seq<char>, i: int)
    requires
        0 <= i <= s.len(),
    ensures
        legal_between(s, i, fws_end(s, i)),
{
    if i < s.len() && is_wsp(s[i]) {
        lemma_wsp_end(s, i);
        lemma_folds_legal(s, wsp_end(s, i));
    } else if fold_at(s, i) {
        lemma_wsp_end(s, i + 3);
    }
}

/// A comment holds nothing but legal characters.
pub proof fn lemma_comment_legal(s: Seq<char>, i: int, depth: nat)
    requires
        0 <= i <= s.len(),
        comment_rest(s, i, depth) is Some,
    ensures
        legal_between(s, i, comment_rest(s, i, depth)->0),
    decreases s.len() - i,
{
    lemma_fws_end(s, i);
    lemma_fws_legal(s, i);
    let j = fws_end(s, i);
    if s[j] == ')' {
        if depth > 0 {
            lemma_comment_legal(s, j + 1, (depth - 1) as nat);
        }
    } else if s[j] == '(' {
        lemma_comment_legal(s, j + 1, depth + 1);
    } else if is_ctext(s[j]) {
        lemma_comment_legal(s, j + 1, depth);
    } else {
        lemma_comment_legal(s, j + 2, depth);
    }
}

/// Comments and folding white space hold nothing but legal characters.
pub proof fn lemma_cfws_legal(s: Seq<char>, i: int)
    requires
        0 <= i <= s.len(),
    ensures
        legal_between(s, i, cfws_end(s, i)),
    decreases s.len() - i,
{
    lemma_fws_end(s, i);
    lemma_fws_legal(s, i);
    let j = fws_end(s, i);
    if let Some(k) = comment_end(s, j) {
        lemma_comment_rest(s, j + 1, 0);
        lemma_comment_legal(s, j + 1, 0);
        lemma_cfws_legal(s, k);
    }
}

/// What stands between two delimiters holds nothing but legal characters.
pub proof fn lemma_delimited_rest_legal(s: Seq<char>, i: int, kind: Delimited)
    requires
        0 <= i <= s.len(),
        delimited_rest(s, i, kind) is Some,
    ensures
        legal_between(s, i, end_of(delimited_rest(s, i, kind))),
    decreases s.len() - i,
{
    lemma_fws_end(s, i);
    lemma_fws_legal(s, i);
    let j = fws_end(s, i);
    if s[j] == kind.closing() {
    } else if kind.is_text(s[j]) {
        lemma_delimited_rest_legal(s, j + 1, kind);
    } else {
        lemma_delimited_rest_legal(s, j + 2, kind);
    }
}

/// A quoted string or a domain literal holds nothing but legal characters.
pub proof fn lemma_delimited_legal(s: Seq<char>, i: int, kind: Delimited)
    requires
        0 <= i <= s.len(),
        delimited(s, i, kind) is Some,
    ensures
        legal_between(s, i, end_of(delimited(s, i, kind))),
{
    lemma_cfws_end(s, i);
    lemma_cfws_legal(s, i);
    let j = cfws_end(s, i);
    lemma_delimited_rest(s, j + 1, kind);
    lemma_delimited_rest_legal(s, j + 1, kind);
    lemma_cfws_legal(s, end_of(delimited_rest(s, j + 1, kind)));
}

/// An atom holds nothing but legal characters.
pub proof fn lemma_atom_legal(s: Seq<char>, i: int)
    requires
        0 <= i <= s.len(),
        atom(s, i) is Some,
    ensures
        legal_between(s, i, end_of(atom(s, i))),
{
    lemma_cfws_end(s, i);
    lemma_cfws_legal(s, i);
    let j = cfws_end(s, i);
    lemma_atext_end(s, j);
    lemma_cfws_legal(s, atext_end(s, j));
}

/// A word holds nothing but legal characters.
pub proof fn lemma_word_legal(s: Seq<char>, i: int, quoted: bool)
    requires
        0 <= i <= s.len(),
        word(s, i, quoted) is Some,
    ensures
        legal_between(s, i, end_of(word(s, i, quoted))),
{
    if atom(s, i) is Some {
        lemma_atom_legal(s, i);
    } else {
        lemma_delimited_legal(s, i, Delimited::QuotedString);
    }
}

/// Dots and words hold nothing but legal characters.
pub proof fn lemma_words_rest_legal(s: Seq<char>, i: int, quoted: bool)
    requires
        0 <= i <= s.len(),
    ensures
        legal_between(s, i, words_rest(s, i, quoted).0),
    decreases s.len() - i,
{
    if i < s.len() && s[i] == '.' {
        if let Some((end, text)) = word(s, i + 1, quoted) {
            lemma_word(s, i + 1, quoted);
            lemma_word_legal(s, i + 1, quoted);
            lemma_words_rest_legal(s, end, quoted);
        }
    }
}

/// Words joined by dots hold nothing but legal characters.
pub proof fn lemma_words_legal(s: Seq<char>, i: int, quoted: bool)
    requires
        0 <= i <= s.len(),
        words(s, i, quoted) is Some,
    ensures
        legal_between(s, i, end_of(words(s, i, quoted))),
{
    lemma_word(s, i, quoted);
    lemma_word_legal(s, i, quoted);
    lemma_words_rest_legal(s, end_of(word(s, i, quoted)), quoted);
}

/// Dots and runs of `atext` hold nothing but legal characters.
pub proof fn lemma_dot_atom_rest_legal(s: Seq<char>, i: int)
    requires
        0 <= i <= s.len(),
    ensures
        legal_between(s, i, dot_atom_rest_end(s, i)),
    decreases s.len() - i,
{
    if i + 1 < s.len() && s[i] == '.' && is_atext(s[i + 1]) {
        lemma_atext_end(s, i + 1);
        lemma_dot_atom_rest_legal(s, atext_end(s, i + 1));
    }
}

/// A `dot-atom` holds nothing but legal characters.
pub proof fn lemma_dot_atom_legal(s: Seq<char>, i: int)
    requires
        0 <= i <= s.len(),
        dot_atom(s, i) is Some,
    ensures
        legal_between(s, i, end_of(dot_atom(s, i))),
{
    lemma_cfws_end(s, i);
    lemma_cfws_legal(s, i);
    let j = cfws_end(s, i);
    lemma_atext_end(s, j);
    let k = atext_end(s, j);
    lemma_dot_atom_rest(s, k);
    lemma_dot_atom_rest_legal(s, k);
    lemma_cfws_legal(s, dot_atom_rest_end(s, k));
}

/// An address holds nothing but legal characters.
pub proof fn lemma_addr_spec_at_legal(s: Seq<char>, i: int)
    requires
        0 <= i <= s.len(),
        addr_spec_at(s, i) is Some,
    ensures
        legal_between(s, i, end_of(addr_spec_at(s, i))),
{
    lemma_cfws_end(s, i);
    lemma_cfws_legal(s, i);
    let j = cfws_end(s, i);
    lemma_local_part_end(s, j);
    let at = end_of(local_part(s, j));
    if dot_atom(s, j) is Some {
        lemma_dot_atom_legal(s, j);
    } else if words(s, j, true) is Some {
        lemma_words_legal(s, j, true);
    } else {
        lemma_delimited_legal(s, j, Delimited::QuotedString);
    }
    let p = at + 1;
    let e = end_of(domain(s, p));
    if delimited(s, p, Delimited::DomainLiteral) is Some {
        lemma_delimited_legal(s, p, Delimited::DomainLiteral);
        lemma_cfws_end(s, p);
        lemma_delimited_rest(s, cfws_end(s, p) + 1, Delimited::DomainLiteral);
        lemma_cfws_end(
            s,
            end_of(delimited_rest(s, cfws_end(s, p) + 1, Delimited::DomainLiteral)),
        );
    } else if words(s, p, false) is Some {
        lemma_words_legal(s, p, false);
        lemma_words_end(s, p, false);
    } else {
        lemma_dot_atom_legal(s, p);
        lemma_cfws_end(s, p);
        lemma_atext_end(s, cfws_end(s, p));
        lemma_dot_atom_rest(s, atext_end(s, cfws_end(s, p)));
        lemma_cfws_end(s, dot_atom_rest_end(s, atext_end(s, cfws_end(s, p))));
    }
    lemma_cfws_legal(s, e);
}

/// Only what is written with legal characters is an address. A control
/// character, a character outside ASCII, and a carriage return or a line
/// feed that is not part of a fold, which is `CRLF` followed by a space or
/// a tab, make the input invalid wherever they stand, inside a
/// `quoted-pair` too.
pub proof fn lemma_address_is_legal(s: Seq<char>)
    requires
        addr_spec(s) is Some,
    ensures
        forall|k: int| 0 <= k < s.len() ==> #[trigger] legal_at(s, k),
{
    lemma_addr_spec_at_legal(s, 0);
}

/// An input with a character that is not legal where it stands is no
/// address.
pub proof fn lemma_illegal_character_rejected(s: Seq<char>, k: int)
    requires
        0 <= k < s.len(),
        !legal_at(s, k),
    ensures
        addr_spec(s) is None,
{
    if addr_spec(s) is Some {
        lemma_address_is_legal(s);
    }
}

/// An input with a character outside ASCII is no address.
pub proof fn lemma_non_ascii_rejected(s: Seq<char>, k: int)
    requires
        0 <= k < s.len(),
        s[k] > '\u{7f}',
    ensures
        addr_spec(s) is None,
{
    lemma_illegal_character_rejected(s, k);
}

/// An input with a control character other than a tab, a carriage return
/// or a line feed is no address.
pub proof fn lemma_control_character_rejected(s: Seq<char>, k: int)
    requires
        0 <= k < s.len(),
        s[k] < ' ' || s[k] == '\u{7f}',
        s[k] != '\t' && s[k] != '\r' && s[k] != '\n',
    ensures
        addr_spec(s) is None,
{
    lemma_illegal_character_rejected(s, k);
}

/// An input with a carriage return and a line feed that no space and no
/// tab follows is no address.
pub proof fn lemma_crlf_without_wsp_rejected(s: Seq<char>, k: int)
    requires
        0 <= k < s.len(),
        s[k] == '\r',
        !(k + 2 < s.len() && s[k + 1] == '\n' && is_wsp(s[k + 2])),
    ensures
        addr_spec(s) is None,
{
    lemma_illegal_character_rejected(s, k);
}

} // verus!
