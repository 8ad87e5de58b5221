//! Messages between the editor and the backend that works on the files of a
//! project, and the receiving end of the backend's responses.
use vstd::prelude::*;
use std::path::PathBuf;
use std::sync::mpsc::{Receiver, TryRecvError};

verus! {

#[verifier::external_type_specification]
#[verifier::external_body]
pub struct ExPathBuf(PathBuf);

#[verifier::external_type_specification]
#[verifier::external_body]
#[verifier::reject_recursive_types(T)]
pub struct ExReceiver<T>(Receiver<T>);

/// A request to the backend.
#[derive(Debug)]
pub enum BackendReq {
    Exists(PathBuf),
    List(PathBuf),
}

/// The response to listing a directory.
#[derive(Debug)]
pub struct ListResp {}

/// Where the backend runs.
#[derive(Debug)]
pub enum BackendConfig {
    Ssh { user: String, host: String, port: Option<u16> },
    Local,
}

impl Default for BackendConfig {
    /// The backend runs on this machine.
    fn default() -> (c: BackendConfig)
        ensures
            c is Local,
    {
        BackendConfig::Local
    }
}

/// A message to the backend.
#[derive(Debug)]
pub enum BackendMsg {
    ListFiles(PathBuf),
}

/// Why a receiver handed out nothing: the channel is empty for now, or its
/// sender is gone.
#[derive(Debug, Copy, Clone, PartialEq, Eq, Structural)]
pub enum RecvFailure {
    Empty,
    Disconnected,
}

/// `Receiver::try_recv`: what waits in the channel, without blocking.
/// What it returns rests on the sending thread, so nothing is stated of it.
#[verifier::external_body]
fn poll<T>(receiver: &Receiver<T>) -> Result<T, RecvFailure> {
    match receiver.try_recv() {
        Ok(t) => Ok(t),
        Err(TryRecvError::Empty) => Err(RecvFailure::Empty),
        Err(TryRecvError::Disconnected) => Err(RecvFailure::Disconnected),
    }
}

/// A receiver that can look whether something has arrived without losing
/// it: what `has_read` sees is kept for the next `try_recv`.
#[verifier::reject_recursive_types(T)]
pub struct PeekableReceiver<T> {
    receiver: Receiver<T>,
    cached_resp: Option<Result<T, RecvFailure>>,
}

impl<T> PeekableReceiver<T> {
    /// What `has_read` saw and no `try_recv` has taken yet.
    pub closed spec fn pending(&self) -> Option<Result<T, RecvFailure>> {
        self.cached_resp
    }

    pub fn new(receiver: Receiver<T>) -> (r: Self)
        ensures
            r.pending() is None,
    {
        PeekableReceiver { receiver, cached_resp: None }
    }

    /// Whether something arrived, or the sender is gone; either is kept for
    /// the next `try_recv`.  When something is kept already, it is the
    /// answer and the channel is not asked; otherwise the channel is asked
    /// once and its answer goes to `keep_polled`.
    pub fn has_read(&mut self) -> (b: bool)
        ensures
            peeked(*old(self), *final(self), b),
            old(self).pending() is None ==> exists|polled: Result<T, RecvFailure>|
                kept_polled(polled, b, final(self).pending()),
    {
        if self.cached_resp.is_some() {
            return true;
        }
        let polled = poll(&self.receiver);
        let ghost p = polled;
        let b = self.keep_polled(polled);
        assert(kept_polled(p, b, self.pending()));
        b
    }

    /// What `has_read` makes of what the channel handed over when nothing
    /// was kept: an item or a gone sender is kept and answered `true`; an
    /// empty channel is answered `false` and nothing is kept.
    pub fn keep_polled(&mut self, polled: Result<T, RecvFailure>) -> (b: bool)
        requires
            old(self).pending() is None,
        ensures
            polled is Ok ==> b && final(self).pending() == Some(polled),
            polled == Err::<T, RecvFailure>(RecvFailure::Empty) ==> !b && final(self).pending() is None,
            polled == Err::<T, RecvFailure>(RecvFailure::Disconnected) ==> b && final(self).pending() == Some(polled),
    {
        match polled {
            Ok(t) => {
                self.cached_resp = Some(Ok(t));
                true
            },
            Err(RecvFailure::Empty) => false,
            Err(RecvFailure::Disconnected) => {
                self.cached_resp = Some(Err(RecvFailure::Disconnected));
                true
            },
        }
    }

    /// What arrived: first what `has_read` kept, else what waits in the
    /// channel.
    pub fn try_recv(&mut self) -> (r: Result<T, RecvFailure>)
        ensures
            received(*old(self), *final(self), r),
    {
        let cached = self.cached_resp.take();
        match cached {
            Some(r) => r,
            None => poll(&self.receiver),
        }
    }
}

/// What `keep_polled` makes of `polled`: the answer `b` and what is kept.
pub open spec fn kept_polled<T>(polled: Result<T, RecvFailure>, b: bool, kept: Option<Result<T, RecvFailure>>) -> bool {
    match polled {
        Ok(_) => b && kept == Some(polled),
        Err(RecvFailure::Empty) => !b && kept is None,
        Err(RecvFailure::Disconnected) => b && kept == Some(polled),
    }
}

/// `after` is `before` after `has_read` answered `b`: the answer is whether
/// something is kept; what was kept stays; an empty channel is never kept.
pub open spec fn peeked<T>(before: PeekableReceiver<T>, after: PeekableReceiver<T>, b: bool) -> bool {
    &&& b <==> after.pending() is Some
    &&& before.pending() is Some ==> after.pending() == before.pending()
    &&& before.pending() is None ==> after.pending() != Some(Err::<T, RecvFailure>(RecvFailure::Empty))
}

/// `after` is `before` after `try_recv` handed out `r`: what was kept, if
/// anything was, and nothing is kept any more.
pub open spec fn received<T>(before: PeekableReceiver<T>, after: PeekableReceiver<T>, r: Result<T, RecvFailure>) -> bool {
    &&& before.pending() matches Some(p) ==> r == p
    &&& after.pending() is None
}

/// What `has_read` saw arrive is what the next `try_recv` hands out, and it
/// is never the empty channel.
pub proof fn lemma_receive_after_peek<T>(
    r0: PeekableReceiver<T>,
    r1: PeekableReceiver<T>,
    r2: PeekableReceiver<T>,
    got: Result<T, RecvFailure>,
)
    requires
        r0.pending() is None,
        peeked(r0, r1, true),
        received(r1, r2, got),
    ensures
        r1.pending() == Some(got),
        got != Err::<T, RecvFailure>(RecvFailure::Empty),
{
}

} // verus!
