//! Reporting recognition failures: an error and the errors that caused it,
//! as one message.

use vstd::prelude::*;
use crate::text::{from_chars, push_all, to_chars};

verus! {

/// The messages of an error and of its causes, outermost first, joined by
/// ": ".
pub open spec fn chain_text(messages: Seq<Seq<char>>) -> Seq<char>
    decreases messages.len(),
{
    if messages.len() == 0 {
        Seq::empty()
    } else if messages.len() == 1 {
        messages[0]
    } else {
        chain_text(messages.drop_last()) + ": "@ + messages.last()
    }
}

/// One message for an error and its chain of causes (their messages,
/// outermost first).
pub fn error_chain(messages: &[String]) -> (r: String)
    ensures
        r@ == chain_text(messages@.map_values(|m: String| m@)),
{
    let ghost all = messages@.map_values(|m: String| m@);
    let mut out: Vec<char> = Vec::new();
    let mut i: usize = 0;
    assert(all.take(0) == Seq::<Seq<char>>::empty());
    while i < messages.len()
        invariant
            all == messages@.map_values(|m: String| m@),
            0 <= i <= messages@.len(),
            out@ == chain_text(all.take(i as int)),
        decreases messages@.len() - i,
    {
        proof {
            assert(all.take(i + 1).drop_last() == all.take(i as int));
            assert(all.take(i + 1).last() == messages@[i as int]@);
        }
        if i > 0 {
            push_all(&mut out, &to_chars(": "));
        }
        push_all(&mut out, &to_chars(messages[i].as_str()));
        proof {
            if i == 0 {
                assert(all.take(1) == seq![messages@[0]@]);
            }
        }
        i += 1;
    }
    assert(all.take(messages@.len() as int) == all);
    from_chars(&out)
}

} // verus!
