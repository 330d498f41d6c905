//! Setting up a watch and keeping it alive.
//!
//! Establishing the subscription itself is the caller's work. The library
//! decides around it: a request is admitted only if its directory exists,
//! and an admitted request ends either as an entry of the registry, which
//! owns the handle from then on, or as a setup failure.

use vstd::prelude::*;

verus! {

/// A consumer's wish to watch a directory tree.
#[derive(Clone, Debug, PartialEq, Eq)]
pub struct WatchRequest {
    pub directory_path: String,
}

/// Why a watch could not be set up.
#[derive(Clone, Debug, PartialEq, Eq)]
pub enum WatchError {
    /// The directory did not exist when the watch was requested.
    PathNotFound,
    /// The notification backend refused the subscription, for the reason given.
    WatchSetupFailed(String),
}

/// An admitted request that waits for its subscription. Only [`begin_watch`]
/// makes one, so holding one shows that the directory existed.
#[derive(Debug)]
pub struct PendingWatch {
    directory_path: String,
}

impl PendingWatch {
    /// The directory to subscribe to.
    pub closed spec fn path(&self) -> Seq<char> {
        self.directory_path@
    }

    /// The directory to subscribe to.
    pub fn directory_path(&self) -> (path: &str)
        ensures
            path@ == self.path(),
    {
        self.directory_path.as_str()
    }
}

/// Admits a request if its directory exists, as `path_exists` reports, and
/// rejects it with [`WatchError::PathNotFound`] if not.
pub fn begin_watch(request: WatchRequest, path_exists: bool) -> (admitted: Result<
    PendingWatch,
    WatchError,
>)
    ensures
        path_exists ==> admitted is Ok && admitted->Ok_0.path() == request.directory_path@,
        !path_exists ==> admitted == Err::<PendingWatch, WatchError>(WatchError::PathNotFound),
{
    if path_exists {
        Ok(PendingWatch { directory_path: request.directory_path })
    } else {
        Err(WatchError::PathNotFound)
    }
}

/// One live watch: the directory and the handle that keeps its subscription
/// active.
struct ActiveWatch<H> {
    directory_path: String,
    handle: H,
}

/// Owns the handles of all live watches, in the order in which they were set
/// up. Entries are only ever added, and two watches of one directory are two
/// entries.
pub struct WatcherRegistry<H> {
    watches: Vec<ActiveWatch<H>>,
}

impl<H> View for WatcherRegistry<H> {
    type V = Seq<(Seq<char>, H)>;

    closed spec fn view(&self) -> Seq<(Seq<char>, H)> {
        self.watches@.map_values(|w: ActiveWatch<H>| (w.directory_path@, w.handle))
    }
}

impl<H> WatcherRegistry<H> {
    /// A registry without watches.
    pub fn new() -> (registry: Self)
        ensures
            registry@ == Seq::<(Seq<char>, H)>::empty(),
    {
        WatcherRegistry { watches: Vec::new() }
    }

    /// Number of live watches.
    pub fn len(&self) -> (n: usize)
        ensures
            n == self@.len(),
    {
        self.watches.len()
    }

    /// Ends the setup of an admitted request with what the backend answered.
    /// A handle is added to the registry before success is reported; a
    /// refusal leaves the registry as it was and comes back as
    /// [`WatchError::WatchSetupFailed`] with the backend's reason.
    pub fn complete_watch(&mut self, pending: PendingWatch, outcome: Result<H, String>) -> (done:
        Result<(), WatchError>)
        ensures
            outcome is Ok ==> done is Ok && final(self)@ == old(self)@.push(
                (pending.path(), outcome->Ok_0),
            ),
            outcome is Err ==> done == Err::<(), WatchError>(
                WatchError::WatchSetupFailed(outcome->Err_0),
            ) && final(self)@ == old(self)@,
    {
        match outcome {
            Ok(handle) => {
                self.watches.push(ActiveWatch { directory_path: pending.directory_path, handle });
                proof {
                    assert(self@ =~= old(self)@.push((pending.path(), handle)));
                }
                Ok(())
            },
            Err(reason) => Err(WatchError::WatchSetupFailed(reason)),
        }
    }
}

} // verus!
