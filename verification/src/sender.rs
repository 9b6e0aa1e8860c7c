use vstd::prelude::*;

verus! {

/// The sender binding: a slot for the handle that dispatches messages into the
/// processing pipeline. It starts empty and is filled exactly once.
pub struct SenderBinding<S> {
    slot: Option<S>,
}

impl<S> View for SenderBinding<S> {
    type V = Option<S>;

    closed spec fn view(&self) -> Option<S> {
        self.slot
    }
}

impl<S> SenderBinding<S> {
    /// An empty binding.
    pub fn new() -> (binding: Self)
        ensures
            binding@ is None,
    {
        SenderBinding { slot: None }
    }

    /// Whether a sender has been installed.
    pub fn is_set(&self) -> (set: bool)
        ensures
            set == (self@ is Some),
    {
        self.slot.is_some()
    }

    /// The installed sender. To ask before one is installed breaks the
    /// start-up order and is ruled out.
    pub fn primary_sender(&self) -> (sender: &S)
        requires
            self@ is Some,
        ensures
            self@ == Some(*sender),
    {
        self.slot.as_ref().unwrap()
    }

    /// Installs the sender. To install a second one breaks the start-up order
    /// and is ruled out.
    pub fn set_primary_sender(&mut self, sender: S)
        requires
            old(self)@ is None,
        ensures
            final(self)@ == Some(sender),
    {
        self.slot = Some(sender);
    }
}

} // verus!
