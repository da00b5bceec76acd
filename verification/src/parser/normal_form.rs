//! The normalized form of an address is an address in normalized form.
//!
//! The proofs follow a parse of the input and replay it on the text that it
//! produced: every production that matched in the input matches its own text
//! again, at the place where that text stands, and yields the same text.

use vstd::prelude::*;
use crate::parser::grammar::{
    addr_spec, addr_spec_at, atext_end, atom, cfws_end, comment_end, delimited, delimited_rest,
    domain, domain_literal, dot_atom, dot_atom_rest_end, end_of, fold_at, folds_end, folds_text,
    fws_end, fws_text, is_atext, is_wsp, lemma_atext_end, lemma_cfws_end, lemma_delimited_rest,
    lemma_fws_end, lemma_word, lemma_wsp_end, local_part, obs_domain, obs_local_part,
    quoted_pair_at, text_of, word, words, words_rest, wsp_end, Delimited,
};

verus! {

/// `x` stands in `t` at position `p`.
pub open spec fn stands_at(t: Seq<char>, p: int, x: Seq<char>) -> bool {
    &&& 0 <= p
    &&& p + x.len() <= t.len()
    &&& forall|n: int| 0 <= n < x.len() ==> t[p + n] == #[trigger] x[n]
}

/// Position `q` of `t` is the end of `t` or holds a character with which
/// neither white space nor a comment starts.
pub open spec fn no_cfws_at(t: Seq<char>, q: int) -> bool {
    0 <= q <= t.len() && (q < t.len() ==> !is_wsp(t[q]) && t[q] != '\r' && t[q] != '(')
}

/// Position `q` of `t` is the end of `t` or holds the `@` between the two
/// parts of an address.
pub open spec fn part_ends_at(t: Seq<char>, q: int) -> bool {
    0 <= q <= t.len() && (q < t.len() ==> t[q] == '@')
}

/// Position `q` of `t` is the end of a word: the end of `t`, an `@` or a dot.
pub open spec fn word_ends_at(t: Seq<char>, q: int) -> bool {
    0 <= q <= t.len() && (q < t.len() ==> t[q] == '@' || t[q] == '.')
}

/// All characters of `x` are `WSP`.
pub open spec fn all_wsp(x: Seq<char>) -> bool {
    forall|n: int| 0 <= n < x.len() ==> is_wsp(#[trigger] x[n])
}

/// All characters of `x` are `atext`.
pub open spec fn all_atext(x: Seq<char>) -> bool {
    forall|n: int| 0 <= n < x.len() ==> is_atext(#[trigger] x[n])
}

/// Where neither white space nor a comment starts, `[FWS]` and `[CFWS]` are empty.
pub proof fn lemma_no_cfws(t: Seq<char>, q: int)
    requires
        no_cfws_at(t, q),
    ensures
        fws_end(t, q) == q,
        fws_text(t, q) == Seq::<char>::empty(),
        cfws_end(t, q) == q,
{
    assert(!fold_at(t, q));
    assert(comment_end(t, q) is None);
}

/// A stretch of `WSP` that is followed by something else is a whole run.
pub proof fn lemma_wsp_run(t: Seq<char>, p: int, q: int)
    requires
        0 <= p <= q <= t.len(),
        forall|n: int| p <= n < q ==> is_wsp(#[trigger] t[n]),
        q < t.len() ==> !is_wsp(t[q]),
    ensures
        wsp_end(t, p) == q,
    decreases q - p,
{
    if p < q {
        lemma_wsp_run(t, p + 1, q);
    }
}

/// A stretch of `atext` that is followed by something else is a whole run.
pub proof fn lemma_atext_run(t: Seq<char>, p: int, q: int)
    requires
        0 <= p <= q <= t.len(),
        forall|n: int| p <= n < q ==> is_atext(#[trigger] t[n]),
        q < t.len() ==> !is_atext(t[q]),
    ensures
        atext_end(t, p) == q,
    decreases q - p,
{
    if p < q {
        lemma_atext_run(t, p + 1, q);
    }
}

/// Folds are normalized to spaces.
pub proof fn lemma_folds_text(s: Seq<char>, i: int)
    requires
        0 <= i <= s.len(),
    ensures
        all_wsp(folds_text(s, i)),
    decreases s.len() - i,
{
    if fold_at(s, i) {
        lemma_wsp_end(s, i + 3);
        lemma_folds_text(s, wsp_end(s, i + 3));
    }
}

/// The normalized text of folding white space holds nothing but `WSP`.
pub proof fn lemma_fws_text(s: Seq<char>, i: int)
    requires
        0 <= i <= s.len(),
    ensures
        all_wsp(fws_text(s, i)),
{
    if i < s.len() && is_wsp(s[i]) {
        lemma_wsp_end(s, i);
        lemma_folds_text(s, wsp_end(s, i));
    }
}

/// White space `w` that stands at `p` and is followed by a character that is
/// neither `WSP` nor a carriage return is the `FWS` at `p`, and is its own
/// normalized text.
pub proof fn lemma_fws_again(t: Seq<char>, p: int, w: Seq<char>)
    requires
        all_wsp(w),
        stands_at(t, p, w),
        p + w.len() < t.len(),
        !is_wsp(t[p + w.len()]),
        t[p + w.len()] != '\r',
    ensures
        fws_end(t, p) == p + w.len(),
        fws_text(t, p) == w,
{
    let q = p + w.len();
    assert(!fold_at(t, q));
    if w.len() > 0 {
        assert(t[p] == w[0]);
        assert forall|n: int| p <= n < q implies is_wsp(#[trigger] t[n]) by {
            assert(t[p + (n - p)] == w[n - p]);
        }
        lemma_wsp_run(t, p, q);
        assert(folds_end(t, q) == q);
        assert(folds_text(t, q) =~= Seq::<char>::empty());
        assert(t.subrange(p, q) =~= w);
        assert(fws_text(t, p) =~= w);
    } else {
        assert(fws_text(t, p) =~= w);
    }
}

/// The text behind an opening delimiter, read again where it stands, is
/// matched to its last character and yields itself.
pub proof fn lemma_delimited_rest_again(
    s: Seq<char>,
    i: int,
    kind: Delimited,
    t: Seq<char>,
    p: int,
)
    requires
        0 <= i <= s.len(),
        delimited_rest(s, i, kind) is Some,
        stands_at(t, p, text_of(delimited_rest(s, i, kind))),
    ensures
        delimited_rest(t, p, kind) == Some(
            (p + text_of(delimited_rest(s, i, kind)).len(), text_of(delimited_rest(s, i, kind))),
        ),
    decreases s.len() - i,
{
    let out = text_of(delimited_rest(s, i, kind));
    let j = fws_end(s, i);
    let w = fws_text(s, i);
    let c = s[j];
    lemma_fws_end(s, i);
    lemma_fws_text(s, i);
    let q = p + w.len();
    assert(stands_at(t, p, w) && q < t.len() && t[q] == c) by {
        assert(out.len() > w.len());
        assert(out[w.len() as int] == c);
        assert forall|n: int| 0 <= n < w.len() implies t[p + n] == #[trigger] w[n] by {
            assert(out[n] == w[n]);
        }
    }
    if c == kind.closing() {
        lemma_fws_again(t, p, w);
        assert(out =~= w.push(c));
    } else if kind.is_text(c) {
        lemma_fws_again(t, p, w);
        let rest = text_of(delimited_rest(s, j + 1, kind));
        assert(out =~= w.push(c) + rest);
        assert forall|n: int| 0 <= n < rest.len() implies t[q + 1 + n] == #[trigger] rest[n] by {
            assert(out[w.len() + 1 + n] == rest[n]);
        }
        lemma_delimited_rest_again(s, j + 1, kind, t, q + 1);
    } else {
        assert(quoted_pair_at(s, j));
        lemma_fws_again(t, p, w);
        let d = s[j + 1];
        let rest = text_of(delimited_rest(s, j + 2, kind));
        assert(out =~= w.push(c).push(d) + rest);
        assert(t[q + 1] == d) by {
            assert(out[w.len() as int + 1] == d);
        }
        assert forall|n: int| 0 <= n < rest.len() implies t[q + 2 + n] == #[trigger] rest[n] by {
            assert(out[w.len() + 2 + n] == rest[n]);
        }
        lemma_delimited_rest_again(s, j + 2, kind, t, q + 2);
    }
}

/// The text of a quoted string or of a domain literal, read again where it
/// stands, is matched whole and yields itself.
pub proof fn lemma_delimited_again(s: Seq<char>, i: int, kind: Delimited, t: Seq<char>, p: int)
    requires
        0 <= i <= s.len(),
        delimited(s, i, kind) is Some,
        stands_at(t, p, text_of(delimited(s, i, kind))),
        no_cfws_at(t, p + text_of(delimited(s, i, kind)).len()),
    ensures
        text_of(delimited(s, i, kind)).len() >= 2,
        text_of(delimited(s, i, kind))[0] == kind.opening(),
        delimited(t, p, kind) == Some(
            (p + text_of(delimited(s, i, kind)).len(), text_of(delimited(s, i, kind))),
        ),
{
    let out = text_of(delimited(s, i, kind));
    let j = cfws_end(s, i);
    lemma_cfws_end(s, i);
    let rest = text_of(delimited_rest(s, j + 1, kind));
    lemma_delimited_rest(s, j + 1, kind);
    assert(out =~= seq![kind.opening()] + rest);
    assert(out[0] == kind.opening());
    assert(t[p] == out[0]);
    lemma_no_cfws(t, p);
    assert forall|n: int| 0 <= n < rest.len() implies t[p + 1 + n] == #[trigger] rest[n] by {
        assert(out[1 + n] == rest[n]);
    }
    lemma_delimited_rest_again(s, j + 1, kind, t, p + 1);
    lemma_no_cfws(t, p + out.len());
    assert(rest.len() >= 1) by {
        lemma_rest_not_empty(s, j + 1, kind);
    }
}

/// The text behind an opening delimiter holds at least the closing one.
pub proof fn lemma_rest_not_empty(s: Seq<char>, i: int, kind: Delimited)
    requires
        0 <= i <= s.len(),
        delimited_rest(s, i, kind) is Some,
    ensures
        text_of(delimited_rest(s, i, kind)).len() >= 1,
{
    lemma_fws_end(s, i);
}

/// The text of an atom is not empty and holds nothing but `atext`; read
/// again where it stands, before the end of a word, it yields itself.
pub proof fn lemma_atom_again(s: Seq<char>, i: int, t: Seq<char>, p: int)
    requires
        0 <= i <= s.len(),
        atom(s, i) is Some,
        stands_at(t, p, text_of(atom(s, i))),
        word_ends_at(t, p + text_of(atom(s, i)).len()),
    ensures
        text_of(atom(s, i)).len() >= 1,
        all_atext(text_of(atom(s, i))),
        atom(t, p) == Some((p + text_of(atom(s, i)).len(), text_of(atom(s, i)))),
{
    let x = text_of(atom(s, i));
    let j = cfws_end(s, i);
    lemma_cfws_end(s, i);
    lemma_atext_end(s, j);
    let q = p + x.len();
    assert(all_atext(x));
    assert(t[p] == x[0]);
    lemma_no_cfws(t, p);
    assert forall|n: int| p <= n < q implies is_atext(#[trigger] t[n]) by {
        assert(t[p + (n - p)] == x[n - p]);
    }
    lemma_atext_run(t, p, q);
    lemma_no_cfws(t, q);
    assert(t.subrange(p, q) =~= x);
}

/// The text of a word starts with `atext` or with a double quote; read again
/// where it stands, before the end of a word, it yields itself.
pub proof fn lemma_word_again(s: Seq<char>, i: int, quoted: bool, t: Seq<char>, p: int)
    requires
        0 <= i <= s.len(),
        word(s, i, quoted) is Some,
        stands_at(t, p, text_of(word(s, i, quoted))),
        word_ends_at(t, p + text_of(word(s, i, quoted)).len()),
    ensures
        text_of(word(s, i, quoted)).len() >= 1,
        atom(s, i) is Some ==> is_atext(text_of(word(s, i, quoted))[0]),
        atom(s, i) is None ==> text_of(word(s, i, quoted))[0] == '"',
        word(t, p, quoted) == Some((p + text_of(word(s, i, quoted)).len(), text_of(word(s, i, quoted)))),
{
    let x = text_of(word(s, i, quoted));
    if atom(s, i) is Some {
        lemma_atom_again(s, i, t, p);
        assert(is_atext(x[0]));
    } else {
        lemma_delimited_again(s, i, Delimited::QuotedString, t, p);
        assert(t[p] == x[0]);
        lemma_no_cfws(t, p);
        assert(atext_end(t, p) == p);
    }
}

/// The text of `*("." word)` is empty or starts with a dot; read again
/// where it stands, before the end of a part, it yields itself.
pub proof fn lemma_words_rest_again(s: Seq<char>, i: int, quoted: bool, t: Seq<char>, p: int)
    requires
        0 <= i <= s.len(),
        stands_at(t, p, words_rest(s, i, quoted).1),
        part_ends_at(t, p + words_rest(s, i, quoted).1.len()),
    ensures
        words_rest(s, i, quoted).1.len() > 0 ==> words_rest(s, i, quoted).1[0] == '.',
        words_rest(t, p, quoted) == (
            p + words_rest(s, i, quoted).1.len(),
            words_rest(s, i, quoted).1,
        ),
    decreases s.len() - i,
{
    let m = words_rest(s, i, quoted).1;
    if i < s.len() && s[i] == '.' && word(s, i + 1, quoted) is Some {
        let end = end_of(word(s, i + 1, quoted));
        let x = text_of(word(s, i + 1, quoted));
        let more = words_rest(s, end, quoted).1;
        lemma_word(s, i + 1, quoted);
        assert(m =~= seq!['.'] + x + more);
        assert(m[0] == '.');
        assert(t[p] == m[0]);
        let q = p + 1 + x.len();
        assert forall|n: int| 0 <= n < x.len() implies t[p + 1 + n] == #[trigger] x[n] by {
            assert(m[1 + n] == x[n]);
        }
        assert forall|n: int| 0 <= n < more.len() implies t[q + n] == #[trigger] more[n] by {
            assert(m[1 + x.len() + n] == more[n]);
        }
        lemma_words_rest_again(s, end, quoted, t, q);
        assert(word_ends_at(t, q)) by {
            if more.len() > 0 {
                assert(t[q + 0] == more[0]);
            }
        }
        lemma_word_again(s, i + 1, quoted, t, p + 1);
        assert(words_rest(t, p, quoted).1 =~= m);
    } else {
        assert(m =~= Seq::<char>::empty());
    }
}

/// The text of `word *("." word)`, read again where it stands, before the
/// end of a part, yields itself.
pub proof fn lemma_words_again(s: Seq<char>, i: int, quoted: bool, t: Seq<char>, p: int)
    requires
        0 <= i <= s.len(),
        words(s, i, quoted) is Some,
        stands_at(t, p, text_of(words(s, i, quoted))),
        part_ends_at(t, p + text_of(words(s, i, quoted)).len()),
    ensures
        text_of(words(s, i, quoted)).len() >= 1,
        atom(s, i) is Some ==> is_atext(text_of(words(s, i, quoted))[0]),
        atom(s, i) is None ==> text_of(words(s, i, quoted))[0] == '"',
        words(t, p, quoted) == Some(
            (p + text_of(words(s, i, quoted)).len(), text_of(words(s, i, quoted))),
        ),
{
    let out = text_of(words(s, i, quoted));
    let end = end_of(word(s, i, quoted));
    let x = text_of(word(s, i, quoted));
    let more = words_rest(s, end, quoted).1;
    lemma_word(s, i, quoted);
    assert(out =~= x + more);
    let q = p + x.len();
    assert forall|n: int| 0 <= n < x.len() implies t[p + n] == #[trigger] x[n] by {
        assert(out[n] == x[n]);
    }
    assert forall|n: int| 0 <= n < more.len() implies t[q + n] == #[trigger] more[n] by {
        assert(out[x.len() + n] == more[n]);
    }
    lemma_words_rest_again(s, end, quoted, t, q);
    assert(word_ends_at(t, q)) by {
        if more.len() > 0 {
            assert(t[q + 0] == more[0]);
        }
    }
    lemma_word_again(s, i, quoted, t, p);
    assert(out[0] == x[0]);
    assert(text_of(words(t, p, quoted)) =~= out);
}

/// The end of `*("." 1*atext)` is not in front of where it is read from,
/// and what is read holds nothing but `atext` and dots.
pub proof fn lemma_dot_atom_rest(s: Seq<char>, i: int)
    requires
        0 <= i <= s.len(),
    ensures
        i <= dot_atom_rest_end(s, i) <= s.len(),
    decreases s.len() - i,
{
    if i + 1 < s.len() && s[i] == '.' && is_atext(s[i + 1]) {
        lemma_atext_end(s, i + 1);
        lemma_dot_atom_rest(s, atext_end(s, i + 1));
    }
}

/// What `*("." 1*atext)` read from `i`, read again from `p` where the same
/// characters stand before the end of a part, ends at the same distance.
pub proof fn lemma_dot_atom_rest_again(s: Seq<char>, i: int, t: Seq<char>, p: int)
    requires
        0 <= i <= s.len(),
        stands_at(t, p, s.subrange(i, dot_atom_rest_end(s, i))),
        part_ends_at(t, p + dot_atom_rest_end(s, i) - i),
    ensures
        dot_atom_rest_end(t, p) == p + dot_atom_rest_end(s, i) - i,
    decreases s.len() - i,
{
    lemma_dot_atom_rest(s, i);
    let e = dot_atom_rest_end(s, i);
    let x = s.subrange(i, e);
    if i + 1 < s.len() && s[i] == '.' && is_atext(s[i + 1]) {
        lemma_atext_end(s, i + 1);
        let k = atext_end(s, i + 1);
        lemma_dot_atom_rest(s, k);
        let q = p + (k - i);
        assert(t[p + 0] == x[0] && t[p + 1] == x[1]);
        assert forall|n: int| p + 1 <= n < q implies is_atext(#[trigger] t[n]) by {
            assert(t[p + (n - p)] == x[n - p]);
            assert(x[n - p] == s[i + (n - p)]);
        }
        assert(q < t.len() ==> !is_atext(t[q])) by {
            if k < e {
                assert(t[p + (k - i)] == x[k - i]);
            }
        }
        lemma_atext_run(t, p + 1, q);
        let y = s.subrange(k, e);
        assert forall|n: int| 0 <= n < y.len() implies t[q + n] == #[trigger] y[n] by {
            assert(t[p + (k - i + n)] == x[k - i + n]);
        }
        lemma_dot_atom_rest_again(s, k, t, q);
    } else {
        assert(e == i);
    }
}

/// The text of a `dot-atom` starts with `atext`; read again where it
/// stands, before the end of a part, it yields itself.
pub proof fn lemma_dot_atom_again(s: Seq<char>, i: int, t: Seq<char>, p: int)
    requires
        0 <= i <= s.len(),
        dot_atom(s, i) is Some,
        stands_at(t, p, text_of(dot_atom(s, i))),
        part_ends_at(t, p + text_of(dot_atom(s, i)).len()),
    ensures
        text_of(dot_atom(s, i)).len() >= 1,
        is_atext(text_of(dot_atom(s, i))[0]),
        dot_atom(t, p) == Some((p + text_of(dot_atom(s, i)).len(), text_of(dot_atom(s, i)))),
{
    let x = text_of(dot_atom(s, i));
    lemma_cfws_end(s, i);
    let j = cfws_end(s, i);
    lemma_atext_end(s, j);
    let k = atext_end(s, j);
    lemma_dot_atom_rest(s, k);
    let e = dot_atom_rest_end(s, k);
    assert(x == s.subrange(j, e));
    assert(is_atext(x[0]));
    assert(t[p + 0] == x[0]);
    lemma_no_cfws(t, p);
    let q = p + (k - j);
    assert forall|n: int| p <= n < q implies is_atext(#[trigger] t[n]) by {
        assert(t[p + (n - p)] == x[n - p]);
        assert(x[n - p] == s[j + (n - p)]);
    }
    assert(q < t.len() ==> !is_atext(t[q])) by {
        if k < e {
            assert(t[p + (k - j)] == x[k - j]);
        }
    }
    lemma_atext_run(t, p, q);
    let y = s.subrange(k, e);
    assert forall|n: int| 0 <= n < y.len() implies t[q + n] == #[trigger] y[n] by {
        assert(t[p + (k - j + n)] == x[k - j + n]);
    }
    lemma_dot_atom_rest_again(s, k, t, q);
    lemma_no_cfws(t, p + x.len());
    assert(t.subrange(p, p + x.len()) =~= x);
}

/// The text of a local part starts with `atext` or a double quote; read
/// again where it stands, before the end of a part, it yields itself.
pub proof fn lemma_local_part_again(s: Seq<char>, i: int, t: Seq<char>, p: int)
    requires
        0 <= i <= s.len(),
        local_part(s, i) is Some,
        stands_at(t, p, text_of(local_part(s, i))),
        part_ends_at(t, p + text_of(local_part(s, i)).len()),
    ensures
        text_of(local_part(s, i)).len() >= 1,
        is_atext(text_of(local_part(s, i))[0]) || text_of(local_part(s, i))[0] == '"',
        local_part(t, p) == Some(
            (p + text_of(local_part(s, i)).len(), text_of(local_part(s, i))),
        ),
{
    let x = text_of(local_part(s, i));
    if dot_atom(s, i) is Some {
        lemma_dot_atom_again(s, i, t, p);
    } else {
        assert(atom(s, i) is None);
        assert(obs_local_part(s, i) is Some);
        lemma_words_again(s, i, true, t, p);
        assert(t[p + 0] == x[0]);
        lemma_no_cfws(t, p);
        assert(atext_end(t, p) == p);
        assert(dot_atom(t, p) is None);
    }
}

/// The text of a domain starts with `atext` or an opening bracket; read
/// again where it stands, at the end of the input, it yields itself.
pub proof fn lemma_domain_again(s: Seq<char>, i: int, t: Seq<char>, p: int)
    requires
        0 <= i <= s.len(),
        domain(s, i) is Some,
        stands_at(t, p, text_of(domain(s, i))),
        p + text_of(domain(s, i)).len() == t.len(),
    ensures
        domain(t, p) == Some((p + text_of(domain(s, i)).len(), text_of(domain(s, i)))),
{
    let x = text_of(domain(s, i));
    if domain_literal(s, i) is Some {
        lemma_delimited_again(s, i, Delimited::DomainLiteral, t, p);
    } else {
        assert(obs_domain(s, i) is Some) by {
            if obs_domain(s, i) is None {
                assert(atom(s, i) is None);
                assert(dot_atom(s, i) is None);
            }
        }
        lemma_words_again(s, i, false, t, p);
        assert(atom(s, i) is Some);
        assert(t[p + 0] == x[0]);
        lemma_no_cfws(t, p);
        assert(domain_literal(t, p) is None);
    }
}

/// In the normalized form of an address the grammar finds the two parts
/// that it found in the address, and nothing else.
pub proof fn lemma_addr_spec_parts(s: Seq<char>)
    requires
        addr_spec(s) is Some,
    ensures
        addr_spec(addr_spec(s)->0) == addr_spec(s),
        text_of(local_part(addr_spec(s)->0, cfws_end(addr_spec(s)->0, 0))) == text_of(
            local_part(s, cfws_end(s, 0)),
        ),
        text_of(
            domain(
                addr_spec(s)->0,
                end_of(local_part(addr_spec(s)->0, cfws_end(addr_spec(s)->0, 0))) + 1,
            ),
        ) == text_of(domain(s, end_of(local_part(s, cfws_end(s, 0))) + 1)),
        addr_spec(s)->0 == text_of(local_part(s, cfws_end(s, 0))) + seq!['@'] + text_of(
            domain(s, end_of(local_part(s, cfws_end(s, 0))) + 1),
        ),
{
    let y = addr_spec(s)->0;
    lemma_cfws_end(s, 0);
    let j = cfws_end(s, 0);
    let at = end_of(local_part(s, j));
    let l = text_of(local_part(s, j));
    lemma_local_part_end(s, j);
    let d = text_of(domain(s, at + 1));
    assert(y =~= l + seq!['@'] + d);
    assert forall|n: int| 0 <= n < l.len() implies y[0int + n] == #[trigger] l[n] by {}
    assert(y[l.len() as int] == '@');
    lemma_local_part_again(s, j, y, 0);
    assert(y[0] == l[0]);
    lemma_no_cfws(y, 0);
    let p: int = l.len() as int + 1;
    assert forall|n: int| 0 <= n < d.len() implies y[p + n] == #[trigger] d[n] by {}
    lemma_domain_again(s, at + 1, y, p);
    lemma_no_cfws(y, y.len() as int);
    assert(addr_spec_at(y, 0) == Some((y.len() as int, y)));
}

/// Parsing is idempotent: the normalized form of an address is an address,
/// and is its own normalized form.
pub proof fn lemma_addr_spec_idempotent(s: Seq<char>)
    requires
        addr_spec(s) is Some,
    ensures
        addr_spec(addr_spec(s)->0) == addr_spec(s),
{
    lemma_addr_spec_parts(s);
}

/// A local part ends inside the input.
pub proof fn lemma_local_part_end(s: Seq<char>, i: int)
    requires
        0 <= i <= s.len(),
    ensures
        local_part(s, i) matches Some((end, text)) ==> i <= end <= s.len(),
{
    lemma_cfws_end(s, i);
    let j = cfws_end(s, i);
    lemma_atext_end(s, j);
    lemma_dot_atom_rest(s, atext_end(s, j));
    lemma_cfws_end(s, dot_atom_rest_end(s, atext_end(s, j)));
    lemma_words_end(s, i, true);
    lemma_word(s, i, true);
}

/// `word *("." word)` ends inside the input.
pub proof fn lemma_words_end(s: Seq<char>, i: int, quoted: bool)
    requires
        0 <= i <= s.len(),
    ensures
        words(s, i, quoted) matches Some((end, text)) ==> i <= end <= s.len(),
{
    lemma_word(s, i, quoted);
    if let Some((end, text)) = word(s, i, quoted) {
        lemma_words_rest_end(s, end, quoted);
    }
}

/// `*("." word)` ends inside the input.
pub proof fn lemma_words_rest_end(s: Seq<char>, i: int, quoted: bool)
    requires
        0 <= i <= s.len(),
    ensures
        i <= words_rest(s, i, quoted).0 <= s.len(),
    decreases s.len() - i,
{
    if i < s.len() && s[i] == '.' {
        lemma_word(s, i + 1, quoted);
        if let Some((end, text)) = word(s, i + 1, quoted) {
            lemma_words_rest_end(s, end, quoted);
        }
    }
}

} // verus!
