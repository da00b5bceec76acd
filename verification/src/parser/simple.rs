//! Addresses of the simplest shapes, and inputs that are refused at first
//! sight.

use vstd::prelude::*;
use crate::parser::grammar::{
    addr_spec, addr_spec_at, atext_end, atom, delimited_rest, domain_literal, dot_atom,
    dot_atom_rest_end, end_of, is_atext, local_part, obs_domain, word, words_rest, Delimited,
};
use crate::parser::normal_form::{all_atext, lemma_atext_run, lemma_no_cfws};

verus! {

/// A run of `atext`, an `@` and another run of `atext` make an address
/// in normalized form.
pub proof fn lemma_plain_address(local: Seq<char>, dom: Seq<char>)
    requires
        local.len() > 0,
        dom.len() > 0,
        all_atext(local),
        all_atext(dom),
    ensures
        addr_spec(local + seq!['@'] + dom) == Some(local + seq!['@'] + dom),
{
    let s = local + seq!['@'] + dom;
    let at = local.len() as int;
    let n = s.len() as int;
    assert(s[0] == local[0]);
    assert(s[at] == '@');
    assert(s[at + 1] == dom[0]);
    lemma_no_cfws(s, 0);
    lemma_no_cfws(s, at);
    lemma_no_cfws(s, at + 1);
    lemma_no_cfws(s, n);
    assert forall|k: int| 0 <= k < at implies is_atext(#[trigger] s[k]) by {
        assert(s[k] == local[k]);
    }
    lemma_atext_run(s, 0, at);
    assert forall|k: int| at + 1 <= k < n implies is_atext(#[trigger] s[k]) by {
        assert(s[k] == dom[k - at - 1]);
    }
    lemma_atext_run(s, at + 1, n);
    assert(dot_atom_rest_end(s, at) == at);
    assert(s.subrange(0, at) =~= local);
    assert(dot_atom(s, 0) == Some((at, local)));
    assert(domain_literal(s, at + 1) is None);
    assert(s.subrange(at + 1, n) =~= dom);
    assert(atom(s, at + 1) == Some((n, dom)));
    assert(words_rest(s, n, false) == (n, Seq::<char>::empty()));
    assert(dom + Seq::<char>::empty() =~= dom);
    assert(obs_domain(s, at + 1) == Some((n, dom)));
    assert(addr_spec_at(s, 0) == Some((n, s)));
}

/// An empty quoted string is a local part: `""`, an `@` and a run of
/// `atext` make an address in normalized form.
pub proof fn lemma_empty_quoted_string(dom: Seq<char>)
    requires
        dom.len() > 0,
        all_atext(dom),
    ensures
        addr_spec(seq!['"', '"', '@'] + dom) == Some(seq!['"', '"', '@'] + dom),
{
    let s = seq!['"', '"', '@'] + dom;
    let n = s.len() as int;
    assert(s[0] == '"' && s[1] == '"' && s[2] == '@');
    assert(s[3] == dom[0]);
    lemma_no_cfws(s, 0);
    lemma_no_cfws(s, 1);
    lemma_no_cfws(s, 2);
    lemma_no_cfws(s, 3);
    lemma_no_cfws(s, n);
    assert(atext_end(s, 0) == 0);
    assert(dot_atom(s, 0) is None);
    assert(atom(s, 0) is None);
    assert(delimited_rest(s, 1, Delimited::QuotedString) == Some(
        (2int, Seq::<char>::empty().push('"')),
    ));
    let local = seq!['"'] + Seq::<char>::empty().push('"');
    assert(word(s, 0, true) == Some((2int, local)));
    assert(words_rest(s, 2, true) == (2int, Seq::<char>::empty()));
    assert(local + Seq::<char>::empty() =~= local);
    assert(local_part(s, 0) == Some((2int, local)));
    assert forall|k: int| 3 <= k < n implies is_atext(#[trigger] s[k]) by {
        assert(s[k] == dom[k - 3]);
    }
    lemma_atext_run(s, 3, n);
    assert(domain_literal(s, 3) is None);
    assert(s.subrange(3, n) =~= dom);
    assert(atom(s, 3) == Some((n, dom)));
    assert(words_rest(s, n, false) == (n, Seq::<char>::empty()));
    assert(dom + Seq::<char>::empty() =~= dom);
    assert(obs_domain(s, 3) == Some((n, dom)));
    assert(local + seq!['@'] + dom =~= s);
    assert(addr_spec_at(s, 0) == Some((n, s)));
}

/// An empty domain literal is a domain: a run of `atext`, an `@` and `[]`
/// make an address in normalized form.
pub proof fn lemma_empty_domain_literal(local: Seq<char>)
    requires
        local.len() > 0,
        all_atext(local),
    ensures
        addr_spec(local + seq!['@', '[', ']']) == Some(local + seq!['@', '[', ']']),
{
    let s = local + seq!['@', '[', ']'];
    let at = local.len() as int;
    let n = s.len() as int;
    assert(s[0] == local[0]);
    assert(s[at] == '@' && s[at + 1] == '[' && s[at + 2] == ']');
    lemma_no_cfws(s, 0);
    lemma_no_cfws(s, at);
    lemma_no_cfws(s, at + 1);
    lemma_no_cfws(s, at + 2);
    lemma_no_cfws(s, n);
    assert forall|k: int| 0 <= k < at implies is_atext(#[trigger] s[k]) by {
        assert(s[k] == local[k]);
    }
    lemma_atext_run(s, 0, at);
    assert(dot_atom_rest_end(s, at) == at);
    assert(s.subrange(0, at) =~= local);
    assert(dot_atom(s, 0) == Some((at, local)));
    assert(delimited_rest(s, at + 2, Delimited::DomainLiteral) == Some(
        (n, Seq::<char>::empty().push(']')),
    ));
    let dom = seq!['['] + Seq::<char>::empty().push(']');
    assert(domain_literal(s, at + 1) == Some((n, dom)));
    assert(local + seq!['@'] + dom =~= s);
    assert(addr_spec_at(s, 0) == Some((n, s)));
}

/// An input that begins with a dot is no address.
pub proof fn lemma_leading_dot_rejected(s: Seq<char>)
    requires
        s.len() > 0,
        s[0] == '.',
    ensures
        addr_spec(s) is None,
{
    lemma_no_cfws(s, 0);
    assert(atext_end(s, 0) == 0);
    assert(dot_atom(s, 0) is None);
    assert(word(s, 0, true) is None);
}

/// What is not read to its end is no address: where an address stands at
/// the start of the input and something is left behind it, the input is
/// refused as a whole.
pub proof fn lemma_trailing_garbage_rejected(s: Seq<char>)
    requires
        addr_spec_at(s, 0) is Some,
        end_of(addr_spec_at(s, 0)) < s.len(),
    ensures
        addr_spec(s) is None,
{
}

} // verus!
