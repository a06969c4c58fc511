use vstd::prelude::*;

verus! {

/// The messages the counter program reacts to.
#[derive(Clone, Copy, Debug, PartialEq, Eq, Structural)]
pub enum Message {
    Increment,
    Decrement,
}

/// The counter after `message` has been handled: an increment adds one, a
/// decrement subtracts one but never goes below zero.
pub open spec fn spec_update(counter: nat, message: Message) -> nat {
    match message {
        Message::Increment => counter + 1,
        Message::Decrement => if counter == 0 { 0 } else { (counter - 1) as nat },
    }
}

/// Handles one message of the counter program.
///
/// Incrementing past `u64::MAX` is an arithmetic overflow, so an increment
/// is only accepted below it.
pub fn update(counter: &mut u64, message: Message)
    requires
        message == Message::Increment ==> *old(counter) < u64::MAX,
    ensures
        *final(counter) == spec_update(*old(counter) as nat, message),
        message == Message::Increment ==> *final(counter) == *old(counter) + 1,
        message == Message::Decrement && *old(counter) > 0 ==> *final(counter) == *old(counter) - 1,
        message == Message::Decrement && *old(counter) == 0 ==> *final(counter) == 0,
{
    match message {
        Message::Increment => *counter += 1,
        Message::Decrement => {
            if *counter > 0 {
                *counter = *counter - 1;
            }
        },
    }
}

/// An increment adds exactly one to any counter; a decrement subtracts
/// exactly one from a positive counter and leaves zero at zero.
pub proof fn lemma_update_arithmetic(counter: nat)
    ensures
        spec_update(counter, Message::Increment) == counter + 1,
        counter > 0 ==> spec_update(counter, Message::Decrement) == counter - 1,
        spec_update(0, Message::Decrement) == 0,
{
}

/// An increment followed by a decrement leaves the counter where it was.
pub proof fn lemma_decrement_undoes_increment(counter: nat)
    ensures
        spec_update(spec_update(counter, Message::Increment), Message::Decrement) == counter,
{
}

/// A decrement followed by an increment leaves a positive counter where it
/// was.
pub proof fn lemma_increment_undoes_decrement(counter: nat)
    requires
        counter > 0,
    ensures
        spec_update(spec_update(counter, Message::Decrement), Message::Increment) == counter,
{
}

/// A decrement never takes the counter below zero: at zero it stays there,
/// and otherwise the counter never grows.
pub proof fn lemma_decrement_saturates(counter: nat)
    ensures
        spec_update(0, Message::Decrement) == 0,
        spec_update(counter, Message::Decrement) <= counter,
{
}

} // verus!
