//! Comments and folding white space around an address are dropped.
//!
//! An address in normalized form that stands between two stretches of
//! `CFWS` is read as if it stood alone: what surrounds it leaves no trace
//! in the result.

use vstd::prelude::*;
use crate::parser::grammar::{
    addr_spec, addr_spec_at, atext_end, atom, cfws_end, delimited, delimited_rest, domain,
    domain_literal, dot_atom, end_of, fold_at, folds_end, fws_end, is_atext, is_wsp,
    lemma_atext_end, lemma_cfws_end, lemma_delimited_rest, lemma_word, local_part, obs_domain,
    text_of, word, words, words_rest, Delimited,
};
use crate::parser::normal_form::{
    all_wsp, lemma_addr_spec_parts, lemma_atext_run, lemma_delimited_rest_again,
    lemma_local_part_again, lemma_local_part_end, lemma_no_cfws, lemma_rest_not_empty,
    lemma_word_again, lemma_wsp_run, stands_at,
};

verus! {

/// Position `q` of `t` is where a part of an address may end with `CFWS`
/// behind it: it holds no `atext`, and no dot follows the `CFWS` there.
pub open spec fn part_stops_at(t: Seq<char>, q: int) -> bool {
    &&& 0 <= q <= t.len()
    &&& q < t.len() ==> !is_atext(t[q])
    &&& cfws_end(t, q) < t.len() ==> t[cfws_end(t, q)] != '.'
}

/// The text of a quoted string or of a domain literal, read again where it
/// stands, yields itself, and the `CFWS` behind it is read with it.
pub proof fn lemma_delimited_then_cfws(
    s: Seq<char>,
    i: int,
    kind: Delimited,
    t: Seq<char>,
    p: int,
)
    requires
        0 <= i <= s.len(),
        delimited(s, i, kind) is Some,
        stands_at(t, p, text_of(delimited(s, i, kind))),
    ensures
        delimited(t, p, kind) == Some(
            (
                cfws_end(t, p + text_of(delimited(s, i, kind)).len()),
                text_of(delimited(s, i, kind)),
            ),
        ),
{
    let out = text_of(delimited(s, i, kind));
    let j = cfws_end(s, i);
    lemma_cfws_end(s, i);
    let rest = text_of(delimited_rest(s, j + 1, kind));
    lemma_delimited_rest(s, j + 1, kind);
    lemma_rest_not_empty(s, j + 1, kind);
    assert(out =~= seq![kind.opening()] + rest);
    assert(t[p] == out[0]);
    lemma_no_cfws(t, p);
    assert forall|n: int| 0 <= n < rest.len() implies t[p + 1 + n] == #[trigger] rest[n] by {
        assert(out[1 + n] == rest[n]);
    }
    lemma_delimited_rest_again(s, j + 1, kind, t, p + 1);
}

/// The text of an atom, read again where it stands in front of something
/// that is no `atext`, yields itself, and the `CFWS` behind it is read with
/// it.
pub proof fn lemma_atom_then_cfws(s: Seq<char>, i: int, t: Seq<char>, p: int)
    requires
        0 <= i <= s.len(),
        atom(s, i) is Some,
        stands_at(t, p, text_of(atom(s, i))),
        p + text_of(atom(s, i)).len() < t.len() ==> !is_atext(t[p + text_of(atom(s, i)).len()]),
    ensures
        atom(t, p) == Some((cfws_end(t, p + text_of(atom(s, i)).len()), text_of(atom(s, i)))),
{
    let x = text_of(atom(s, i));
    let j = cfws_end(s, i);
    lemma_cfws_end(s, i);
    lemma_atext_end(s, j);
    let q = p + x.len();
    assert(t[p] == x[0]);
    lemma_no_cfws(t, p);
    assert forall|n: int| p <= n < q implies is_atext(#[trigger] t[n]) by {
        assert(t[p + (n - p)] == x[n - p]);
    }
    lemma_atext_run(t, p, q);
    assert(t.subrange(p, q) =~= x);
}

/// The text of a word, read again where it stands in front of something
/// that is no `atext`, yields itself, and the `CFWS` behind it is read with
/// it.
pub proof fn lemma_word_then_cfws(s: Seq<char>, i: int, quoted: bool, t: Seq<char>, p: int)
    requires
        0 <= i <= s.len(),
        word(s, i, quoted) is Some,
        stands_at(t, p, text_of(word(s, i, quoted))),
        p + text_of(word(s, i, quoted)).len() < t.len() ==> !is_atext(
            t[p + text_of(word(s, i, quoted)).len()],
        ),
    ensures
        word(t, p, quoted) == Some(
            (
                cfws_end(t, p + text_of(word(s, i, quoted)).len()),
                text_of(word(s, i, quoted)),
            ),
        ),
{
    let x = text_of(word(s, i, quoted));
    if atom(s, i) is Some {
        lemma_atom_then_cfws(s, i, t, p);
    } else {
        lemma_delimited_then_cfws(s, i, Delimited::QuotedString, t, p);
        lemma_cfws_end(s, i);
        lemma_delimited_rest(s, cfws_end(s, i) + 1, Delimited::QuotedString);
        assert(x[0] == '"');
        assert(t[p] == x[0]);
        lemma_no_cfws(t, p);
        assert(atext_end(t, p) == p);
    }
}

/// The text of `*("." word)`, which is not empty, read again where it
/// stands in front of the end of a part, yields itself, and the `CFWS`
/// behind it is read with it.
pub proof fn lemma_words_rest_then_cfws(
    s: Seq<char>,
    i: int,
    quoted: bool,
    t: Seq<char>,
    p: int,
)
    requires
        0 <= i <= s.len(),
        words_rest(s, i, quoted).1.len() > 0,
        stands_at(t, p, words_rest(s, i, quoted).1),
        part_stops_at(t, p + words_rest(s, i, quoted).1.len()),
    ensures
        words_rest(t, p, quoted) == (
            cfws_end(t, p + words_rest(s, i, quoted).1.len()),
            words_rest(s, i, quoted).1,
        ),
    decreases s.len() - i,
{
    let m = words_rest(s, i, quoted).1;
    let end = end_of(word(s, i + 1, quoted));
    let x = text_of(word(s, i + 1, quoted));
    let more = words_rest(s, end, quoted).1;
    lemma_word(s, i + 1, quoted);
    assert(m =~= seq!['.'] + x + more);
    assert(t[p] == m[0]);
    let q = p + 1 + x.len();
    assert forall|n: int| 0 <= n < x.len() implies t[p + 1 + n] == #[trigger] x[n] by {
        assert(m[1 + n] == x[n]);
    }
    assert forall|n: int| 0 <= n < more.len() implies t[q + n] == #[trigger] more[n] by {
        assert(m[1 + x.len() + n] == more[n]);
    }
    if more.len() > 0 {
        lemma_words_rest_then_cfws(s, end, quoted, t, q);
        assert(more[0] == '.') by {
            lemma_word(s, end + 1, quoted);
        }
        assert(t[q + 0] == more[0]);
        lemma_word_again(s, i + 1, quoted, t, p + 1);
        assert(words_rest(t, p, quoted).1 =~= m);
    } else {
        lemma_word_then_cfws(s, i + 1, quoted, t, p + 1);
        let f = cfws_end(t, q);
        lemma_cfws_end(t, q);
        assert(words_rest(t, f, quoted) == (f, Seq::<char>::empty()));
        assert(words_rest(t, p, quoted).1 =~= m);
    }
}

/// The text of `word *("." word)`, read again where it stands in front of
/// the end of a part, yields itself, and the `CFWS` behind it is read with
/// it.
pub proof fn lemma_words_then_cfws(s: Seq<char>, i: int, quoted: bool, t: Seq<char>, p: int)
    requires
        0 <= i <= s.len(),
        words(s, i, quoted) is Some,
        stands_at(t, p, text_of(words(s, i, quoted))),
        part_stops_at(t, p + text_of(words(s, i, quoted)).len()),
    ensures
        words(t, p, quoted) == Some(
            (
                cfws_end(t, p + text_of(words(s, i, quoted)).len()),
                text_of(words(s, i, quoted)),
            ),
        ),
{
    let out = text_of(words(s, i, quoted));
    let end = end_of(word(s, i, quoted));
    let x = text_of(word(s, i, quoted));
    let more = words_rest(s, end, quoted).1;
    lemma_word(s, i, quoted);
    assert(out =~= x + more);
    let q = p + x.len();
    assert forall|n: int| 0 <= n < x.len() implies t[p + n] == #[trigger] x[n] by {
        assert(out[n] == x[n]);
    }
    assert forall|n: int| 0 <= n < more.len() implies t[q + n] == #[trigger] more[n] by {
        assert(out[x.len() + n] == more[n]);
    }
    if more.len() > 0 {
        lemma_words_rest_then_cfws(s, end, quoted, t, q);
        assert(more[0] == '.') by {
            lemma_word(s, end + 1, quoted);
        }
        assert(t[q + 0] == more[0]);
        lemma_word_again(s, i, quoted, t, p);
        assert(text_of(words(t, p, quoted)) =~= out);
    } else {
        lemma_word_then_cfws(s, i, quoted, t, p);
        let f = cfws_end(t, q);
        lemma_cfws_end(t, q);
        assert(words_rest(t, f, quoted) == (f, Seq::<char>::empty()));
        assert(text_of(words(t, p, quoted)) =~= out);
    }
}

/// The text of a domain, read again where it stands in front of the end
/// of a part, yields itself, and the `CFWS` behind it is read with it.
pub proof fn lemma_domain_then_cfws(s: Seq<char>, i: int, t: Seq<char>, p: int)
    requires
        0 <= i <= s.len(),
        domain(s, i) is Some,
        stands_at(t, p, text_of(domain(s, i))),
        part_stops_at(t, p + text_of(domain(s, i)).len()),
    ensures
        domain(t, p) == Some(
            (cfws_end(t, p + text_of(domain(s, i)).len()), text_of(domain(s, i))),
        ),
{
    let x = text_of(domain(s, i));
    if domain_literal(s, i) is Some {
        lemma_delimited_then_cfws(s, i, Delimited::DomainLiteral, t, p);
    } else {
        assert(obs_domain(s, i) is Some) by {
            if obs_domain(s, i) is None {
                assert(atom(s, i) is None);
                assert(dot_atom(s, i) is None);
            }
        }
        lemma_words_then_cfws(s, i, false, t, p);
        lemma_cfws_end(s, i);
        lemma_atext_end(s, cfws_end(s, i));
        lemma_word(s, i, false);
        assert(is_atext(x[0])) by {
            let first = text_of(word(s, i, false));
            assert(x =~= first + words_rest(s, end_of(word(s, i, false)), false).1);
            assert(x[0] == first[0]);
        }
        assert(t[p + 0] == x[0]);
        lemma_no_cfws(t, p);
        assert(domain_literal(t, p) is None);
    }
}

/// Comments and folding white space around an address are dropped: where
/// `before` and `after` are read as `CFWS`, the address `y` in normalized
/// form between them is the result.
pub proof fn lemma_surrounding_cfws_dropped(y: Seq<char>, before: Seq<char>, after: Seq<char>)
    requires
        addr_spec(y) == Some(y),
        cfws_end(before + y + after, 0) == before.len(),
        cfws_end(before + y + after, before.len() as int + y.len()) == (before + y + after).len(),
    ensures
        addr_spec(before + y + after) == Some(y),
{
    let t = before + y + after;
    let p = before.len() as int;
    lemma_addr_spec_parts(y);
    lemma_cfws_end(y, 0);
    let j = cfws_end(y, 0);
    lemma_local_part_end(y, j);
    let at = end_of(local_part(y, j));
    let l = text_of(local_part(y, j));
    let d = text_of(domain(y, at + 1));
    assert(y == l + seq!['@'] + d);
    assert forall|n: int| 0 <= n < l.len() implies t[p + n] == #[trigger] l[n] by {
        assert(y[n] == l[n]);
        assert(t[p + n] == y[n]);
    }
    assert(t[p + l.len()] == '@') by {
        assert(y[l.len() as int] == '@');
        assert(t[p + l.len()] == y[l.len() as int]);
    }
    lemma_local_part_again(y, j, t, p);
    assert(t[p + 0] == l[0]);
    lemma_no_cfws(t, p);
    let pd = p + l.len() + 1;
    assert forall|n: int| 0 <= n < d.len() implies t[pd + n] == #[trigger] d[n] by {
        assert(y[l.len() + 1 + n] == d[n]);
        assert(t[p + (l.len() + 1 + n)] == y[l.len() + 1 + n]);
    }
    let q = p + y.len();
    assert(q < t.len() ==> !is_atext(t[q])) by {
        if q < t.len() && is_atext(t[q]) {
            lemma_no_cfws(t, q);
        }
    }
    lemma_domain_then_cfws(y, at + 1, t, pd);
    lemma_no_cfws(t, t.len() as int);
    assert(addr_spec_at(t, 0) == Some((t.len() as int, y)));
}

/// Spaces and tabs around an address are dropped.
pub proof fn lemma_surrounding_wsp_dropped(y: Seq<char>, before: Seq<char>, after: Seq<char>)
    requires
        addr_spec(y) == Some(y),
        all_wsp(before),
        all_wsp(after),
    ensures
        addr_spec(before + y + after) == Some(y),
{
    let t = before + y + after;
    let p = before.len() as int;
    let q = p + y.len();
    lemma_addr_spec_parts(y);
    lemma_cfws_end(y, 0);
    lemma_local_part_end(y, cfws_end(y, 0));
    let l = text_of(local_part(y, cfws_end(y, 0)));
    lemma_local_part_again(y, cfws_end(y, 0), y, 0);
    assert(t[p] == y[0] && y[0] == l[0]) by {
        assert(y == l + seq!['@'] + text_of(
            domain(y, end_of(local_part(y, cfws_end(y, 0))) + 1),
        ));
    }
    assert forall|n: int| 0 <= n < p implies is_wsp(#[trigger] t[n]) by {
        assert(t[n] == before[n]);
    }
    assert forall|n: int| q <= n < t.len() implies is_wsp(#[trigger] t[n]) by {
        assert(t[n] == after[n - q]);
    }
    lemma_wsp_run(t, 0, p);
    lemma_wsp_run(t, q, t.len() as int);
    assert(!fold_at(t, p));
    assert(!fold_at(t, t.len() as int));
    assert(folds_end(t, p) == p);
    assert(folds_end(t, t.len() as int) == t.len());
    if p > 0 {
        assert(fws_end(t, 0) == p);
    } else {
        assert(fws_end(t, 0) == 0);
    }
    lemma_no_cfws(t, p);
    assert(cfws_end(t, 0) == p);
    if q < t.len() {
        assert(fws_end(t, q) == t.len());
    } else {
        assert(fws_end(t, q) == q);
    }
    lemma_no_cfws(t, t.len() as int);
    assert(cfws_end(t, q) == t.len());
    lemma_surrounding_cfws_dropped(y, before, after);
}

} // verus!
