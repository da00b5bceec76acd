//! The `addr-spec` grammar of RFC 5322 as a mathematical model.
//!
//! Every production is a function of the input, a sequence of characters, and
//! of the position at which it is tried. Alternatives are tried in the order
//! in which they are written and the first that matches is kept; a repetition
//! takes as many items as it can and is never shortened afterwards.
//!
//! Productions that are only ever optional (`FWS`, `CFWS`) are modelled by the
//! position at which they end, which is the starting position when nothing
//! matches. The others yield `None` when they do not match and otherwise the
//! end position with the normalized text of what was matched.

use vstd::prelude::*;

verus! {

/// `WSP`: a space or a horizontal tab.
pub open spec fn is_wsp(c: char) -> bool {
    c == ' ' || c == '\t'
}

/// `VCHAR`: a printable ASCII character, the space not included.
pub open spec fn is_vchar(c: char) -> bool {
    '!' <= c && c <= '~'
}

/// `atext`: an ASCII letter or digit, or one of ``! # $ % & ' * + - / = ? ^ _ ` { | } ~``.
pub open spec fn is_atext(c: char) -> bool {
    ('a' <= c && c <= 'z') || ('A' <= c && c <= 'Z') || ('0' <= c && c <= '9') || c == '!'
        || c == '#' || c == '$' || c == '%' || c == '&' || c == '\'' || c == '*' || c == '+'
        || c == '-' || c == '/' || c == '=' || c == '?' || c == '^' || c == '_' || c == '`'
        || c == '{' || c == '|' || c == '}' || c == '~'
}

/// `qtext`: a printable ASCII character other than `"` and `\`.
pub open spec fn is_qtext(c: char) -> bool {
    is_vchar(c) && c != '"' && c != '\\'
}

/// `dtext` without its escapes: a printable ASCII character other than `[`, `]` and `\`.
pub open spec fn is_dtext(c: char) -> bool {
    is_vchar(c) && c != '[' && c != ']' && c != '\\'
}

/// `ctext`: a printable ASCII character other than `(`, `)` and `\`.
pub open spec fn is_ctext(c: char) -> bool {
    is_vchar(c) && c != '(' && c != ')' && c != '\\'
}

/// `quoted-pair`: a backslash at `i` followed by a printable character, a space or a tab.
pub open spec fn quoted_pair_at(s: Seq<char>, i: int) -> bool {
    0 <= i && i + 1 < s.len() && s[i] == '\\' && (is_vchar(s[i + 1]) || is_wsp(s[i + 1]))
}

/// The end of the longest run of `WSP` that starts at `i`.
pub open spec fn wsp_end(s: Seq<char>, i: int) -> int
    decreases s.len() - i,
{
    if 0 <= i < s.len() && is_wsp(s[i]) {
        wsp_end(s, i + 1)
    } else {
        i
    }
}

/// The end of the longest run of `atext` that starts at `i`.
pub open spec fn atext_end(s: Seq<char>, i: int) -> int
    decreases s.len() - i,
{
    if 0 <= i < s.len() && is_atext(s[i]) {
        atext_end(s, i + 1)
    } else {
        i
    }
}

/// A fold: `CRLF` at `i`, followed by at least one `WSP`.
pub open spec fn fold_at(s: Seq<char>, i: int) -> bool {
    0 <= i && i + 2 < s.len() && s[i] == '\r' && s[i + 1] == '\n' && is_wsp(s[i + 2])
}

/// The end of the longest sequence of folds, each with all the `WSP` behind
/// it, that starts at `i`: `*(CRLF 1*WSP)`.
pub open spec fn folds_end(s: Seq<char>, i: int) -> int
    decreases s.len() - i,
{
    if fold_at(s, i) {
        proof {
            lemma_wsp_end(s, i + 3);
        }
        folds_end(s, wsp_end(s, i + 3))
    } else {
        i
    }
}

/// What the folds that start at `i` are normalized to: one space for each.
pub open spec fn folds_text(s: Seq<char>, i: int) -> Seq<char>
    decreases s.len() - i,
{
    if fold_at(s, i) {
        proof {
            lemma_wsp_end(s, i + 3);
        }
        seq![' '] + folds_text(s, wsp_end(s, i + 3))
    } else {
        Seq::empty()
    }
}

/// `obs-FWS = 1*WSP *(CRLF 1*WSP)`: where it ends, or `i` if it does not match.
pub open spec fn obs_fws_end(s: Seq<char>, i: int) -> int {
    if 0 <= i < s.len() && is_wsp(s[i]) {
        folds_end(s, wsp_end(s, i))
    } else {
        i
    }
}

/// `FWS = (*WSP CRLF 1*WSP) / (1*WSP *(CRLF 1*WSP))`, the longest match of
/// the two forms: where it ends, or `i` if neither matches.
///
/// Both forms agree up to the first fold, so the longest match is the second
/// form wherever the run starts with a `WSP`, and a single fold otherwise.
pub open spec fn fws_end(s: Seq<char>, i: int) -> int {
    if 0 <= i < s.len() && is_wsp(s[i]) {
        obs_fws_end(s, i)
    } else if fold_at(s, i) {
        wsp_end(s, i + 3)
    } else {
        i
    }
}

/// The normalized text of the `FWS` at `i`: the `WSP` in front of the first
/// fold as they are, and one space for each fold with the `WSP` behind it.
pub open spec fn fws_text(s: Seq<char>, i: int) -> Seq<char> {
    if 0 <= i < s.len() && is_wsp(s[i]) {
        s.subrange(i, wsp_end(s, i)) + folds_text(s, wsp_end(s, i))
    } else if fold_at(s, i) {
        seq![' ']
    } else {
        Seq::empty()
    }
}

/// The rest of a comment: `*([FWS] ccontent) [FWS] ")"` with
/// `ccontent = ctext / quoted-pair / comment`, read from `i`, where `depth`
/// comments inside the outermost one are still open. Yields the position
/// behind the parenthesis that closes the outermost comment.
pub open spec fn comment_rest(s: Seq<char>, i: int, depth: nat) -> Option<int>
    decreases s.len() - i,
{
    let j = fws_end(s, i);
    if i < 0 || j >= s.len() {
        None
    } else {
        proof {
            lemma_fws_end(s, i);
        }
        if s[j] == ')' {
            if depth == 0 {
                Some(j + 1)
            } else {
                comment_rest(s, j + 1, (depth - 1) as nat)
            }
        } else if s[j] == '(' {
            comment_rest(s, j + 1, depth + 1)
        } else if is_ctext(s[j]) {
            comment_rest(s, j + 1, depth)
        } else if quoted_pair_at(s, j) {
            comment_rest(s, j + 2, depth)
        } else {
            None
        }
    }
}

/// `comment = "(" *([FWS] ccontent) [FWS] ")"`, nested to any depth.
pub open spec fn comment_end(s: Seq<char>, i: int) -> Option<int> {
    if 0 <= i < s.len() && s[i] == '(' {
        comment_rest(s, i + 1, 0)
    } else {
        None
    }
}

/// `[CFWS]` with `CFWS = (1*([FWS] comment) [FWS]) / FWS`: where it ends, or
/// `i` if there is none.
pub open spec fn cfws_end(s: Seq<char>, i: int) -> int
    decreases s.len() - i,
{
    let j = fws_end(s, i);
    match comment_end(s, j) {
        Some(k) => {
            proof {
                if 0 <= i <= s.len() {
                    lemma_fws_end(s, i);
                    lemma_comment_rest(s, j + 1, 0);
                }
            }
            cfws_end(s, k)
        },
        None => j,
    }
}

/// The two productions that are delimited and keep white space.
#[derive(Clone, Copy, Debug)]
pub enum Delimited {
    /// `quoted-string`, between double quotes.
    QuotedString,
    /// `domain-literal`, between square brackets.
    DomainLiteral,
}

impl Delimited {
    /// The character that opens the production.
    pub open spec fn opening(self) -> char {
        match self {
            Delimited::QuotedString => '"',
            Delimited::DomainLiteral => '[',
        }
    }

    /// The character that closes the production.
    pub open spec fn closing(self) -> char {
        match self {
            Delimited::QuotedString => '"',
            Delimited::DomainLiteral => ']',
        }
    }

    /// `qtext` or `dtext`: what may stand unescaped between the delimiters.
    pub open spec fn is_text(self, c: char) -> bool {
        match self {
            Delimited::QuotedString => is_qtext(c),
            Delimited::DomainLiteral => is_dtext(c),
        }
    }
}

/// `r` with `head` put in front of its text.
pub open spec fn prepend(head: Seq<char>, r: Option<(int, Seq<char>)>) -> Option<(int, Seq<char>)> {
    match r {
        Some((end, text)) => Some((end, head + text)),
        None => None,
    }
}

/// The end of a match, and 0 where nothing matched.
pub open spec fn end_of(r: Option<(int, Seq<char>)>) -> int {
    match r {
        Some((end, _)) => end,
        None => 0,
    }
}

/// The text of a match, and the empty text where nothing matched.
pub open spec fn text_of(r: Option<(int, Seq<char>)>) -> Seq<char> {
    match r {
        Some((_, text)) => text,
        None => Seq::empty(),
    }
}

/// What follows the opening delimiter: `*([FWS] content) [FWS] close`, where
/// `content` is a `quoted-pair` or a single text character. The text keeps
/// each `FWS` in its normalized form, each `quoted-pair` with its backslash,
/// and ends with the closing delimiter.
pub open spec fn delimited_rest(s: Seq<char>, i: int, kind: Delimited) -> Option<(int, Seq<char>)>
    decreases s.len() - i,
{
    let j = fws_end(s, i);
    let w = fws_text(s, i);
    if i < 0 || j >= s.len() {
        None
    } else {
        proof {
            lemma_fws_end(s, i);
        }
        if s[j] == kind.closing() {
            Some((j + 1, w.push(s[j])))
        } else if kind.is_text(s[j]) {
            prepend(w.push(s[j]), delimited_rest(s, j + 1, kind))
        } else if quoted_pair_at(s, j) {
            prepend(w.push(s[j]).push(s[j + 1]), delimited_rest(s, j + 2, kind))
        } else {
            None
        }
    }
}

/// `[CFWS] open *([FWS] content) [FWS] close [CFWS]`: a `quoted-string` or a
/// `domain-literal`. The text keeps the delimiters.
pub open spec fn delimited(s: Seq<char>, i: int, kind: Delimited) -> Option<(int, Seq<char>)> {
    let j = cfws_end(s, i);
    if 0 <= j < s.len() && s[j] == kind.opening() {
        match delimited_rest(s, j + 1, kind) {
            Some((end, text)) => Some((cfws_end(s, end), seq![kind.opening()] + text)),
            None => None,
        }
    } else {
        None
    }
}

/// `quoted-string = [CFWS] DQUOTE *([FWS] qcontent) [FWS] DQUOTE [CFWS]`.
pub open spec fn quoted_string(s: Seq<char>, i: int) -> Option<(int, Seq<char>)> {
    delimited(s, i, Delimited::QuotedString)
}

/// `domain-literal = [CFWS] "[" *([FWS] dtext) [FWS] "]" [CFWS]`.
pub open spec fn domain_literal(s: Seq<char>, i: int) -> Option<(int, Seq<char>)> {
    delimited(s, i, Delimited::DomainLiteral)
}

/// `atom = [CFWS] 1*atext [CFWS]`.
pub open spec fn atom(s: Seq<char>, i: int) -> Option<(int, Seq<char>)> {
    let j = cfws_end(s, i);
    let k = atext_end(s, j);
    if j < k {
        Some((cfws_end(s, k), s.subrange(j, k)))
    } else {
        None
    }
}

/// The end of `*("." 1*atext)` read from `i`.
pub open spec fn dot_atom_rest_end(s: Seq<char>, i: int) -> int
    decreases s.len() - i,
{
    if 0 <= i && i + 1 < s.len() && s[i] == '.' && is_atext(s[i + 1]) {
        proof {
            lemma_atext_end(s, i + 1);
        }
        dot_atom_rest_end(s, atext_end(s, i + 1))
    } else {
        i
    }
}

/// `dot-atom-text = 1*atext *("." 1*atext)`. The text is what was read.
pub open spec fn dot_atom_text(s: Seq<char>, i: int) -> Option<(int, Seq<char>)> {
    let k = atext_end(s, i);
    if i < k {
        let e = dot_atom_rest_end(s, k);
        Some((e, s.subrange(i, e)))
    } else {
        None
    }
}

/// `dot-atom = [CFWS] dot-atom-text [CFWS]`.
pub open spec fn dot_atom(s: Seq<char>, i: int) -> Option<(int, Seq<char>)> {
    match dot_atom_text(s, cfws_end(s, i)) {
        Some((end, text)) => Some((cfws_end(s, end), text)),
        None => None,
    }
}

/// `word = atom / quoted-string` where `quoted` holds, and `atom` alone
/// where it does not.
pub open spec fn word(s: Seq<char>, i: int, quoted: bool) -> Option<(int, Seq<char>)> {
    match atom(s, i) {
        Some(r) => Some(r),
        None => if quoted {
            quoted_string(s, i)
        } else {
            None
        },
    }
}

/// `*("." word)` read from `i`: the end, and the text with its dots.
pub open spec fn words_rest(s: Seq<char>, i: int, quoted: bool) -> (int, Seq<char>)
    decreases s.len() - i,
{
    if 0 <= i < s.len() && s[i] == '.' {
        match word(s, i + 1, quoted) {
            Some((end, text)) => {
                proof {
                    lemma_word(s, i + 1, quoted);
                }
                let (last, more) = words_rest(s, end, quoted);
                (last, seq!['.'] + text + more)
            },
            None => (i, Seq::empty()),
        }
    } else {
        (i, Seq::empty())
    }
}

/// `word *("." word)`: the words without the `CFWS` around them, joined by dots.
pub open spec fn words(s: Seq<char>, i: int, quoted: bool) -> Option<(int, Seq<char>)> {
    match word(s, i, quoted) {
        Some((end, text)) => {
            let (last, more) = words_rest(s, end, quoted);
            Some((last, text + more))
        },
        None => None,
    }
}

/// `obs-local-part = word *("." word)`.
pub open spec fn obs_local_part(s: Seq<char>, i: int) -> Option<(int, Seq<char>)> {
    words(s, i, true)
}

/// `obs-domain = atom *("." atom)`.
pub open spec fn obs_domain(s: Seq<char>, i: int) -> Option<(int, Seq<char>)> {
    words(s, i, false)
}

/// `local-part = dot-atom / obs-local-part / quoted-string`, tried in this order.
pub open spec fn local_part(s: Seq<char>, i: int) -> Option<(int, Seq<char>)> {
    match dot_atom(s, i) {
        Some(r) => Some(r),
        None => match obs_local_part(s, i) {
            Some(r) => Some(r),
            None => quoted_string(s, i),
        },
    }
}

/// `domain = domain-literal / obs-domain / dot-atom`, tried in this order.
pub open spec fn domain(s: Seq<char>, i: int) -> Option<(int, Seq<char>)> {
    match domain_literal(s, i) {
        Some(r) => Some(r),
        None => match obs_domain(s, i) {
            Some(r) => Some(r),
            None => dot_atom(s, i),
        },
    }
}

/// `[CFWS] local-part "@" domain [CFWS]` read from `i`, whatever follows it:
/// the end, and the normalized address.
pub open spec fn addr_spec_at(s: Seq<char>, i: int) -> Option<(int, Seq<char>)> {
    match local_part(s, cfws_end(s, i)) {
        Some((at, local)) => {
            if 0 <= at < s.len() && s[at] == '@' {
                match domain(s, at + 1) {
                    Some((end, dom)) => Some((cfws_end(s, end), local + seq!['@'] + dom)),
                    None => None,
                }
            } else {
                None
            }
        },
        None => None,
    }
}

/// The normalized form of `s` if all of `s` is one `addr-spec`, and `None`
/// if it is not.
pub open spec fn addr_spec(s: Seq<char>) -> Option<Seq<char>> {
    match addr_spec_at(s, 0) {
        Some((end, text)) => if end == s.len() {
            Some(text)
        } else {
            None
        },
        None => None,
    }
}

/// A run of `WSP` stays inside the input, holds nothing but `WSP`, and is
/// not followed by one.
pub proof fn lemma_wsp_end(s: Seq<char>, i: int)
    requires
        0 <= i <= s.len(),
    ensures
        i <= wsp_end(s, i) <= s.len(),
        forall|n: int| i <= n < wsp_end(s, i) ==> is_wsp(#[trigger] s[n]),
        wsp_end(s, i) < s.len() ==> !is_wsp(s[wsp_end(s, i)]),
    decreases s.len() - i,
{
    if i < s.len() && is_wsp(s[i]) {
        lemma_wsp_end(s, i + 1);
    }
}

/// A run of `atext` stays inside the input, holds nothing but `atext`, and
/// is not followed by one.
pub proof fn lemma_atext_end(s: Seq<char>, i: int)
    requires
        0 <= i <= s.len(),
    ensures
        i <= atext_end(s, i) <= s.len(),
        forall|n: int| i <= n < atext_end(s, i) ==> is_atext(#[trigger] s[n]),
        atext_end(s, i) < s.len() ==> !is_atext(s[atext_end(s, i)]),
    decreases s.len() - i,
{
    if i < s.len() && is_atext(s[i]) {
        lemma_atext_end(s, i + 1);
    }
}

/// A sequence of folds stays inside the input.
pub proof fn lemma_folds_end(s: Seq<char>, i: int)
    requires
        0 <= i <= s.len(),
    ensures
        i <= folds_end(s, i) <= s.len(),
    decreases s.len() - i,
{
    if fold_at(s, i) {
        lemma_wsp_end(s, i + 3);
        lemma_folds_end(s, wsp_end(s, i + 3));
    }
}

/// Folding white space stays inside the input.
pub proof fn lemma_fws_end(s: Seq<char>, i: int)
    requires
        0 <= i <= s.len(),
    ensures
        i <= fws_end(s, i) <= s.len(),
{
    if i < s.len() && is_wsp(s[i]) {
        lemma_wsp_end(s, i);
        lemma_folds_end(s, wsp_end(s, i));
    } else if fold_at(s, i) {
        lemma_wsp_end(s, i + 3);
    }
}

/// A comment that ends does so inside the input, behind where it was read from.
pub proof fn lemma_comment_rest(s: Seq<char>, i: int, depth: nat)
    requires
        0 <= i <= s.len(),
    ensures
        comment_rest(s, i, depth) matches Some(k) ==> i < k <= s.len(),
    decreases s.len() - i,
{
    lemma_fws_end(s, i);
    let j = fws_end(s, i);
    if j < s.len() {
        if s[j] == ')' {
            if depth > 0 {
                lemma_comment_rest(s, j + 1, (depth - 1) as nat);
            }
        } else if s[j] == '(' {
            lemma_comment_rest(s, j + 1, depth + 1);
        } else if is_ctext(s[j]) {
            lemma_comment_rest(s, j + 1, depth);
        } else if quoted_pair_at(s, j) {
            lemma_comment_rest(s, j + 2, depth);
        }
    }
}

/// Comments nest: to read on while `inner + 1 + outer` comments are open
/// is to read to the end of the innermost `inner + 1` of them first, and
/// to read on from there with `outer` comments open. With `inner` at 0 this
/// says that a parenthesis inside a comment opens a whole comment, which
/// is the production `ccontent = ctext / quoted-pair / comment`.
pub proof fn lemma_comment_nesting(s: Seq<char>, i: int, inner: nat, outer: nat)
    requires
        0 <= i <= s.len(),
    ensures
        comment_rest(s, i, inner + 1 + outer) == (match comment_rest(s, i, inner) {
            Some(k) => comment_rest(s, k, outer),
            None => None,
        }),
    decreases s.len() - i,
{
    lemma_fws_end(s, i);
    let j = fws_end(s, i);
    if j < s.len() {
        if s[j] == ')' {
            if inner > 0 {
                lemma_comment_nesting(s, j + 1, (inner - 1) as nat, outer);
            }
        } else if s[j] == '(' {
            lemma_comment_nesting(s, j + 1, inner + 1, outer);
        } else if is_ctext(s[j]) {
            lemma_comment_nesting(s, j + 1, inner, outer);
        } else if quoted_pair_at(s, j) {
            lemma_comment_nesting(s, j + 2, inner, outer);
        }
    }
}

/// Comments and folding white space stay inside the input.
pub proof fn lemma_cfws_end(s: Seq<char>, i: int)
    requires
        0 <= i <= s.len(),
    ensures
        i <= cfws_end(s, i) <= s.len(),
    decreases s.len() - i,
{
    lemma_fws_end(s, i);
    let j = fws_end(s, i);
    if let Some(k) = comment_end(s, j) {
        lemma_comment_rest(s, j + 1, 0);
        lemma_cfws_end(s, k);
    }
}

/// What follows an opening delimiter ends, if it does, inside the input and
/// behind where it was read from.
pub proof fn lemma_delimited_rest(s: Seq<char>, i: int, kind: Delimited)
    requires
        0 <= i <= s.len(),
    ensures
        delimited_rest(s, i, kind) matches Some((end, text)) ==> i < end <= s.len(),
    decreases s.len() - i,
{
    lemma_fws_end(s, i);
    let j = fws_end(s, i);
    if j < s.len() && s[j] != kind.closing() {
        if kind.is_text(s[j]) {
            lemma_delimited_rest(s, j + 1, kind);
        } else if quoted_pair_at(s, j) {
            lemma_delimited_rest(s, j + 2, kind);
        }
    }
}

/// A word ends, if it matches, inside the input and behind where it was read from.
pub proof fn lemma_word(s: Seq<char>, i: int, quoted: bool)
    requires
        0 <= i <= s.len(),
    ensures
        word(s, i, quoted) matches Some((end, text)) ==> i < end <= s.len(),
{
    lemma_cfws_end(s, i);
    let j = cfws_end(s, i);
    lemma_atext_end(s, j);
    lemma_cfws_end(s, atext_end(s, j));
    if j < s.len() {
        lemma_delimited_rest(s, j + 1, Delimited::QuotedString);
        if let Some((end, text)) = delimited_rest(s, j + 1, Delimited::QuotedString) {
            lemma_cfws_end(s, end);
        }
    }
}

} // verus!
