//! The file backend: what it writes for each message.

use vstd::prelude::*;
use crate::parser::{recipient_views, EmailAddress};
use crate::text::joined;

verus! {

/// What the file backend writes for a message: the envelope sender, the
/// recipients with a comma and a space between them, and the raw message
/// between two lines of three dashes.
pub open spec fn record_text(from: Seq<char>, to: Seq<Seq<char>>, raw_email: Seq<char>) -> Seq<
    char,
> {
    "Envelope-From: "@ + from + "\nEnvelope-To: "@ + joined(to, ", "@) + "\n---\n"@ + raw_email
        + "\n---\n"@
}

/// Writes the record of a message for the file backend.
pub fn file_record(
    envelope_from: &EmailAddress,
    envelope_to: &[&EmailAddress],
    raw_email: &str,
) -> (r: String)
    ensures
        r@ == record_text(envelope_from@, recipient_views(envelope_to@), raw_email@),
{
    let mut list = String::new();
    let mut i: usize = 0;
    assert(recipient_views(envelope_to@).take(0) =~= Seq::empty());
    while i < envelope_to.len()
        invariant
            i <= envelope_to.len(),
            list@ == joined(recipient_views(envelope_to@).take(i as int), ", "@),
        decreases envelope_to.len() - i,
    {
        let ghost so_far = recipient_views(envelope_to@).take(i as int);
        let ghost next = recipient_views(envelope_to@).take(i + 1);
        assert(next.drop_last() =~= so_far);
        assert(next.last() == envelope_to@[i as int]@);
        if i > 0 {
            list.append(", ");
        }
        list.append(envelope_to[i].as_str());
        assert(list@ =~= joined(next, ", "@));
        i += 1;
    }
    assert(recipient_views(envelope_to@).take(envelope_to@.len() as int) =~= recipient_views(
        envelope_to@,
    ));
    String::from_str("Envelope-From: ").concat(envelope_from.as_str()).concat(
        "\nEnvelope-To: ",
    ).concat(list.as_str()).concat("\n---\n").concat(raw_email).concat("\n---\n")
}

} // verus!
