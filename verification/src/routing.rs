//! Output routing: what a child component emits reaches its parent as a
//! message of the parent's own, or not at all.

use vstd::prelude::*;

verus! {

/// What a child component has to say about its outputs.
pub trait FactoryComponent {
    /// What the child emits.
    type Output;

    /// What the parent takes.
    type ParentMsg;

    /// The message for the parent that stands for `output`, or `None` where
    /// the parent is not to hear of it. Every output has one of the two.
    fn output_to_parent_msg(output: Self::Output) -> Option<Self::ParentMsg>;
}

/// The parent's inbox after an output that was routed to `routed`: one more
/// message, or none.
pub open spec fn delivered<M>(inbox: Seq<M>, routed: Option<M>) -> Seq<M> {
    match routed {
        Some(message) => inbox.push(message),
        None => inbox,
    }
}

/// Delivers what an output was routed to: `Some(m)` puts `m` into the inbox,
/// once; `None` leaves the inbox as it is.
pub fn deliver<M>(routed: Option<M>, inbox: &mut Vec<M>)
    ensures
        final(inbox)@ == delivered(old(inbox)@, routed),
{
    match routed {
        Some(message) => {
            inbox.push(message);
        },
        None => {},
    }
}

/// Routes `output` as the child `C` says and delivers the result: the inbox
/// is what delivering the child's answer for `output` gives, one more message
/// where the answer is a message and the inbox as it was where the answer is
/// none. The result says whether a message was delivered.
pub fn forward<C: FactoryComponent>(output: C::Output, inbox: &mut Vec<C::ParentMsg>) -> (sent:
    bool)
    ensures
        exists|routed: Option<C::ParentMsg>|
            {
                &&& #[trigger] call_ensures(C::output_to_parent_msg, (output,), routed)
                &&& final(inbox)@ == delivered(old(inbox)@, routed)
                &&& sent == routed is Some
            },
{
    let route = C::output_to_parent_msg;
    let routed = route(output);
    let sent = routed.is_some();
    deliver(routed, inbox);
    sent
}

} // verus!
