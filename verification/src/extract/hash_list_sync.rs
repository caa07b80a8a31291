//! Keeping a cached hash list up to date.
//!
//! The hash list maps resource identifiers to names. A copy is kept in a
//! local file; a remote source publishes the newest list and, apart from it,
//! the newest list's version number. The local copy is replaced only by a
//! list with a higher version; where there is no local copy, the list that
//! arrives is written whatever its version. A remote source that cannot be
//! reached, or
//! whose answer cannot be read, leaves the local copy in use: only where there
//! is no local copy either does a synchronisation fail.
//!
//! The lists themselves stay with the caller: the decisions here need their
//! version numbers only.

use vstd::prelude::*;

verus! {

/// White space as `char::is_whitespace` has it: the characters with the
/// Unicode property `White_Space`.
pub open spec fn is_space(c: char) -> bool {
    let n = c as u32;
    (0x09 <= n <= 0x0D) || n == 0x20 || n == 0x85 || n == 0xA0 || n == 0x1680 || (0x2000 <= n
        <= 0x200A) || n == 0x2028 || n == 0x2029 || n == 0x202F || n == 0x205F || n == 0x3000
}

/// How many characters of white space a text starts with.
pub open spec fn leading_spaces(s: Seq<char>) -> nat
    decreases s.len(),
{
    if s.len() > 0 && is_space(s[0]) {
        1 + leading_spaces(s.drop_first())
    } else {
        0
    }
}

/// How many characters of white space a text ends with.
pub open spec fn trailing_spaces(s: Seq<char>) -> nat
    decreases s.len(),
{
    if s.len() > 0 && is_space(s.last()) {
        1 + trailing_spaces(s.drop_last())
    } else {
        0
    }
}

/// A text without the white space at its start and at its end.
pub open spec fn trimmed(s: Seq<char>) -> Seq<char> {
    let rest = s.skip(leading_spaces(s) as int);
    rest.take(rest.len() - trailing_spaces(rest))
}

/// Every character is a decimal digit.
pub open spec fn all_digits(s: Seq<char>) -> bool {
    forall|i: int| 0 <= i < s.len() ==> '0' <= #[trigger] s[i] && s[i] <= '9'
}

/// The number that a run of decimal digits denotes.
pub open spec fn decimal_value(s: Seq<char>) -> nat
    decreases s.len(),
{
    if s.len() == 0 {
        0
    } else {
        10 * decimal_value(s.drop_last()) + (s.last() as nat - '0' as nat) as nat
    }
}

/// The digits of a number's text: what is left after an optional `+`.
pub open spec fn unsigned_digits(s: Seq<char>) -> Seq<char> {
    if s.len() > 0 && s[0] == '+' {
        s.drop_first()
    } else {
        s
    }
}

/// The version number that a text holds: surrounded by any white space, an
/// optional `+` and at least one decimal digit, the number fitting in 32
/// bits.
pub open spec fn version_of(text: Seq<char>) -> Option<u32> {
    let digits = unsigned_digits(trimmed(text));
    if digits.len() > 0 && all_digits(digits) && decimal_value(digits) <= u32::MAX {
        Some(decimal_value(digits) as u32)
    } else {
        None
    }
}

/// No leading part of a run of digits denotes more than the whole run.
pub proof fn lemma_decimal_value_grows(s: Seq<char>, k: int)
    requires
        all_digits(s),
        0 <= k <= s.len(),
    ensures
        decimal_value(s.take(k)) <= decimal_value(s),
    decreases s.len() - k,
{
    if k < s.len() {
        lemma_decimal_value_grows(s, k + 1);
        assert(s.take(k + 1).drop_last() =~= s.take(k));
        assert(s.take(k + 1).last() == s[k]);
    } else {
        assert(s.take(k) =~= s);
    }
}

fn is_space_char(c: char) -> (space: bool)
    ensures
        space == is_space(c),
{
    let n = c as u32;
    (0x09 <= n && n <= 0x0D) || n == 0x20 || n == 0x85 || n == 0xA0 || n == 0x1680 || (0x2000
        <= n && n <= 0x200A) || n == 0x2028 || n == 0x2029 || n == 0x202F || n == 0x205F || n
        == 0x3000
}

fn characters(text: &str) -> (chars: Vec<char>)
    ensures
        chars@ == text@,
{
    let mut chars: Vec<char> = Vec::new();
    for c in it: text.chars()
        invariant
            chars@ == text@.take(it.index() as int),
            it.seq() == text@,
    {
        chars.push(c);
        assert(text@.take(it.index() + 1) =~= text@.take(it.index() as int).push(c));
    }
    assert(text@.take(text@.len() as int) =~= text@);
    chars
}

/// Reads the version number that the remote source publishes.
pub fn parse_version(text: &str) -> (version: Option<u32>)
    ensures
        version == version_of(text@),
{
    let chars = characters(text);
    let mut start: usize = 0;
    assert(chars@.skip(0) =~= chars@);
    while start < chars.len() && is_space_char(chars[start])
        invariant
            start <= chars.len(),
            leading_spaces(chars@) == start + leading_spaces(chars@.skip(start as int)),
        decreases chars.len() - start,
    {
        assert(chars@.skip(start as int).drop_first() =~= chars@.skip(start + 1));
        start = start + 1;
    }
    let ghost rest = chars@.skip(start as int);
    assert(leading_spaces(rest) == 0);
    let mut end: usize = chars.len();
    assert(chars@.subrange(start as int, end as int) =~= rest);
    while end > start && is_space_char(chars[end - 1])
        invariant
            start <= end <= chars.len(),
            rest == chars@.skip(start as int),
            trailing_spaces(rest) == (chars.len() - end) + trailing_spaces(
                chars@.subrange(start as int, end as int),
            ),
        decreases end - start,
    {
        assert(chars@.subrange(start as int, end as int).drop_last() =~= chars@.subrange(
            start as int,
            end - 1,
        ));
        end = end - 1;
    }
    let ghost body = chars@.subrange(start as int, end as int);
    assert(trailing_spaces(body) == 0);
    assert(body =~= rest.take(rest.len() - trailing_spaces(rest)));
    assert(body == trimmed(text@));
    let mut i: usize = start;
    if i < end && chars[i] == '+' {
        i = i + 1;
    }
    let ghost digits = chars@.subrange(i as int, end as int);
    assert(digits =~= unsigned_digits(body));
    if i == end {
        return None;
    }
    let first = i;
    let mut value: u64 = 0;
    assert(digits.take(0) =~= Seq::<char>::empty());
    while i < end
        invariant
            first <= i <= end <= chars.len(),
            digits == chars@.subrange(first as int, end as int),
            digits == unsigned_digits(trimmed(text@)),
            digits.len() > 0,
            all_digits(digits.take(i - first)),
            value == decimal_value(digits.take(i - first)),
            value <= u32::MAX,
        decreases end - i,
    {
        let c = chars[i];
        assert(digits[i - first] == c);
        if !(c >= '0' && c <= '9') {
            assert(!all_digits(digits));
            return None;
        }
        let ghost next = digits.take(i - first + 1);
        assert(next.drop_last() =~= digits.take(i - first));
        assert(next.last() == c);
        assert forall|j: int| 0 <= j < next.len() implies '0' <= #[trigger] next[j] && next[j]
            <= '9' by {
            if j < i - first {
                assert(digits.take(i - first)[j] == next[j]);
            }
        }
        value = value * 10 + (c as u32 - '0' as u32) as u64;
        if value > 0xFFFF_FFFF {
            proof {
                if all_digits(digits) {
                    lemma_decimal_value_grows(digits, i - first + 1);
                }
            }
            return None;
        }
        i = i + 1;
    }
    assert(digits.take(i - first) =~= digits);
    Some(value as u32)
}

/// Which hash list is in use after a synchronisation.
#[derive(Clone, Copy, Debug, PartialEq, Eq, Structural)]
pub enum DatasetSource {
    /// The list in the local file.
    Local,
    /// The list just fetched from the remote source.
    Fetched,
}

/// Why a synchronisation ended without a hash list.
#[derive(Clone, Copy, Debug, PartialEq, Eq, Structural)]
pub enum SyncFailure {
    /// What the remote source published as its version is not a number, and
    /// there is no local list.
    VersionNotANumber,
    /// The remote list is not newer than nothing, and there is no local list.
    LocalMissing,
    /// The remote source could not be reached, and there is no local list.
    NothingRetrieved,
    /// The list that was fetched cannot be read, and there is no local list.
    DatasetCorrupt,
    /// The list that was fetched could not be written to the local file.
    PersistFailed,
}

/// Where a synchronisation stands.
#[derive(Clone, Copy, Debug, PartialEq, Eq, Structural)]
pub enum SyncState {
    /// The local file has not been read yet.
    Loading,
    /// There is no usable local list; the remote version is awaited.
    NoLocal,
    /// There is a local list; the remote version is awaited.
    HaveLocal { version: u32 },
    /// The remote source announced a newer list, which is awaited.
    Fetching { local: Option<u32>, remote: u32 },
    /// A newer list was fetched and is being written to the local file.
    Persisting { local: Option<u32>, fetched: u32 },
    /// A list is in use.
    Synced { source: DatasetSource, version: u32 },
    /// No list could be had.
    Failed { reason: SyncFailure },
}

/// What the caller is to do next.
#[derive(Clone, Copy, Debug, PartialEq, Eq, Structural)]
pub enum SyncAction {
    /// Read the local file.
    LoadLocal,
    /// Ask the remote source for the version of its list.
    QueryRemoteVersion,
    /// Fetch the list of the remote source.
    FetchRemote,
    /// Write the fetched list over the local file.
    Persist,
    /// Go on with the list from the given source.
    Use { source: DatasetSource },
    /// Give up.
    Fail { reason: SyncFailure },
}

/// How fetching the remote list went.
#[derive(Clone, Copy, Debug, PartialEq, Eq, Structural)]
pub enum FetchOutcome {
    /// The remote source could not be reached.
    Unreachable,
    /// What came back is not a hash list.
    Corrupt,
    /// A hash list with the given version came back.
    Fetched { version: u32 },
}

/// What the caller reports.
#[derive(Debug)]
pub enum SyncEvent {
    /// The version of the list in the local file, or `None` if the file is
    /// missing or cannot be read as a list.
    LocalRead(Option<u32>),
    /// What the remote source published as its version, or `None` if the
    /// source could not be reached.
    RemoteVersion(Option<String>),
    /// How fetching the remote list went.
    RemoteDataset(FetchOutcome),
    /// Whether the fetched list was written to the local file.
    Persisted(bool),
}

/// The mathematical form of a [`SyncEvent`].
pub enum SyncEventView {
    LocalRead(Option<u32>),
    RemoteVersion(Option<Seq<char>>),
    RemoteDataset(FetchOutcome),
    Persisted(bool),
}

impl View for SyncEvent {
    type V = SyncEventView;

    open spec fn view(&self) -> SyncEventView {
        match self {
            SyncEvent::LocalRead(version) => SyncEventView::LocalRead(*version),
            SyncEvent::RemoteVersion(Some(text)) => SyncEventView::RemoteVersion(Some(text@)),
            SyncEvent::RemoteVersion(None) => SyncEventView::RemoteVersion(None),
            SyncEvent::RemoteDataset(outcome) => SyncEventView::RemoteDataset(*outcome),
            SyncEvent::Persisted(done) => SyncEventView::Persisted(*done),
        }
    }
}

/// The version of the local list; 0 where there is none.
pub open spec fn local_or_zero(local: Option<u32>) -> u32 {
    match local {
        Some(version) => version,
        None => 0,
    }
}

/// Ending with the local list: in use if there is one, a failure otherwise.
pub open spec fn fall_back(local: Option<u32>, reason: SyncFailure) -> (SyncState, SyncAction) {
    match local {
        Some(version) => (
            SyncState::Synced { source: DatasetSource::Local, version },
            SyncAction::Use { source: DatasetSource::Local },
        ),
        None => (SyncState::Failed { reason }, SyncAction::Fail { reason }),
    }
}

/// What follows once the remote source has or has not told its version.
pub open spec fn after_remote_version(local: Option<u32>, answer: Option<Seq<char>>) -> (
    SyncState,
    SyncAction,
) {
    match answer {
        None => fall_back(local, SyncFailure::NothingRetrieved),
        Some(text) => match version_of(text) {
            None => fall_back(local, SyncFailure::VersionNotANumber),
            Some(remote) => if remote <= local_or_zero(local) {
                fall_back(local, SyncFailure::LocalMissing)
            } else {
                (SyncState::Fetching { local, remote }, SyncAction::FetchRemote)
            },
        },
    }
}

/// A list that has arrived is newer than the local one if there is no local
/// list, whatever its version, or if its version is above that of the local
/// list.
pub open spec fn newer_than_local(fetched: u32, local: Option<u32>) -> bool {
    match local {
        Some(version) => fetched > version,
        None => true,
    }
}

/// What follows once the remote list has or has not arrived: a list that is
/// newer than the local one is written, one that is not leaves the local list
/// in use.
pub open spec fn after_remote_dataset(local: Option<u32>, outcome: FetchOutcome) -> (
    SyncState,
    SyncAction,
) {
    match outcome {
        FetchOutcome::Unreachable => fall_back(local, SyncFailure::NothingRetrieved),
        FetchOutcome::Corrupt => fall_back(local, SyncFailure::DatasetCorrupt),
        FetchOutcome::Fetched { version } => if newer_than_local(version, local) {
            (SyncState::Persisting { local, fetched: version }, SyncAction::Persist)
        } else {
            fall_back(local, SyncFailure::LocalMissing)
        },
    }
}

/// What a state asks for: the request that is repeated when the caller
/// reports something else than what was asked.
pub open spec fn request_of(state: SyncState) -> SyncAction {
    match state {
        SyncState::Loading => SyncAction::LoadLocal,
        SyncState::NoLocal => SyncAction::QueryRemoteVersion,
        SyncState::HaveLocal { version } => SyncAction::QueryRemoteVersion,
        SyncState::Fetching { local, remote } => SyncAction::FetchRemote,
        SyncState::Persisting { local, fetched } => SyncAction::Persist,
        SyncState::Synced { source, version } => SyncAction::Use { source },
        SyncState::Failed { reason } => SyncAction::Fail { reason },
    }
}

/// One step of a synchronisation: the next state and what is to be done,
/// given the state and what the caller reports.
///
/// - The local file is read first; then the remote version is asked for.
/// - A remote version that is not above the local one ends the
///   synchronisation with the local list, and so does a remote source that
///   cannot be reached or whose answer cannot be read: a version that is no
///   number, a list that is no list. Without a local list each of these is a
///   failure.
/// - A higher remote version (higher than 0 where there is no local list)
///   has the remote list fetched. Without a local list the fetched list is
///   written to the local file, whatever its own version. With a local list
///   it is written over the file only if its own version is above the local
///   one; otherwise the local list stays in use. A list that was written is
///   the list in use.
/// - A report that does not answer the last request changes nothing, and the
///   request is made again.
pub open spec fn sync_step_spec(state: SyncState, event: SyncEventView) -> (SyncState, SyncAction) {
    match (state, event) {
        (SyncState::Loading, SyncEventView::LocalRead(Some(version))) => (
            SyncState::HaveLocal { version },
            SyncAction::QueryRemoteVersion,
        ),
        (SyncState::Loading, SyncEventView::LocalRead(None)) => (
            SyncState::NoLocal,
            SyncAction::QueryRemoteVersion,
        ),
        (SyncState::NoLocal, SyncEventView::RemoteVersion(answer)) => after_remote_version(
            None,
            answer,
        ),
        (SyncState::HaveLocal { version }, SyncEventView::RemoteVersion(answer)) => {
            after_remote_version(Some(version), answer)
        },
        (SyncState::Fetching { local, remote }, SyncEventView::RemoteDataset(outcome)) => {
            after_remote_dataset(local, outcome)
        },
        (SyncState::Persisting { local, fetched }, SyncEventView::Persisted(true)) => (
            SyncState::Synced { source: DatasetSource::Fetched, version: fetched },
            SyncAction::Use { source: DatasetSource::Fetched },
        ),
        (SyncState::Persisting { local, fetched }, SyncEventView::Persisted(false)) => (
            SyncState::Failed { reason: SyncFailure::PersistFailed },
            SyncAction::Fail { reason: SyncFailure::PersistFailed },
        ),
        _ => (state, request_of(state)),
    }
}

/// What holds of every state that a synchronisation reaches: a list is
/// awaited or written only if it is newer than the local one.
pub open spec fn sync_wf(state: SyncState) -> bool {
    match state {
        SyncState::Fetching { local, remote } => remote > local_or_zero(local),
        SyncState::Persisting { local, fetched } => newer_than_local(fetched, local),
        _ => true,
    }
}

/// Every step leads from a state that can be reached to another one.
pub proof fn law_sync_step_keeps_wf(state: SyncState, event: SyncEventView)
    requires
        sync_wf(state),
    ensures
        sync_wf(sync_step_spec(state, event).0),
{
}

/// The version of the local list as far as a state knows it.
pub open spec fn known_local(state: SyncState) -> Option<u32> {
    match state {
        SyncState::HaveLocal { version } => Some(version),
        SyncState::Fetching { local, remote } => local,
        SyncState::Persisting { local, fetched } => local,
        _ => None,
    }
}

/// Cache version monotonicity: the remote list is fetched exactly when the
/// remote version is above the local one (above 0 where there is no local
/// list). Otherwise the local list stays in use, and nothing is fetched.
pub proof fn law_fetch_only_newer(state: SyncState, text: Seq<char>)
    requires
        state is NoLocal || state is HaveLocal,
        version_of(text) is Some,
    ensures
        ({
            let (next, action) = sync_step_spec(state, SyncEventView::RemoteVersion(Some(text)));
            let remote = version_of(text)->Some_0;
            let local = local_or_zero(known_local(state));
            &&& action is FetchRemote <==> remote > local
            &&& remote <= local && state is HaveLocal ==> next == (SyncState::Synced {
                source: DatasetSource::Local,
                version: local,
            }) && action == (SyncAction::Use { source: DatasetSource::Local })
            &&& remote > local ==> next == (SyncState::Fetching {
                local: known_local(state),
                remote,
            })
        }),
{
}

/// The local file is overwritten only by a newer list: writing is asked for
/// only after a list has arrived, and only if there is no local list or the
/// version of the list that arrived is above that of the local one.
pub proof fn law_persist_only_newer(state: SyncState, event: SyncEventView)
    requires
        sync_wf(state),
    ensures
        ({
            let (next, action) = sync_step_spec(state, event);
            action is Persist ==> next is Persisting && newer_than_local(
                next->Persisting_fetched,
                next->Persisting_local,
            ) && (state is Fetching || state == next)
        }),
{
}

/// Every list that arrives is written, unless a local list is at least as
/// new: a list that has arrived is written exactly if there is no local list
/// or its version is above that of the local one. Without a local list the
/// file is written whatever the version of the list, 0 included.
pub proof fn law_fetched_list_is_written(local: Option<u32>, remote: u32, version: u32)
    ensures
        ({
            let (next, action) = sync_step_spec(
                SyncState::Fetching { local, remote },
                SyncEventView::RemoteDataset(FetchOutcome::Fetched { version }),
            );
            &&& action is Persist <==> newer_than_local(version, local)
            &&& local is None ==> next == (SyncState::Persisting { local, fetched: version })
            &&& !newer_than_local(version, local) ==> next == (SyncState::Synced {
                source: DatasetSource::Local,
                version: local->Some_0,
            })
        }),
{
}

/// A list that was written is the list in use: once the file is written, the
/// synchronisation ends with the fetched list.
pub proof fn law_written_list_is_used(local: Option<u32>, fetched: u32)
    ensures
        sync_step_spec(SyncState::Persisting { local, fetched }, SyncEventView::Persisted(true))
            == (
            SyncState::Synced { source: DatasetSource::Fetched, version: fetched },
            SyncAction::Use { source: DatasetSource::Fetched },
        ),
{
}

/// The version in use never goes down: a synchronisation that ends with a
/// list ends with one whose version is at least that of the local list, and
/// with the local list itself where it says so.
pub proof fn law_version_never_decreases(state: SyncState, event: SyncEventView)
    requires
        !(state is Synced),
        sync_wf(state),
    ensures
        ({
            let (next, action) = sync_step_spec(state, event);
            &&& next matches SyncState::Synced { source, version } ==> {
                &&& version >= local_or_zero(known_local(state))
                &&& source == DatasetSource::Local ==> known_local(state) == Some(version)
                &&& action == (SyncAction::Use { source })
            }
            &&& !(next is Synced) && !(next is Failed) && !(next is HaveLocal) && !(next
                is NoLocal) ==> known_local(next) == known_local(state)
        }),
{
}

/// Trouble with the remote source never costs the local list: once a local
/// list is known, no step ends in failure for want of an answer from the
/// remote source, or for an answer that cannot be read. A synchronisation
/// with a local list fails only if the newer list cannot be written.
pub proof fn law_local_list_survives(state: SyncState, event: SyncEventView)
    requires
        known_local(state) is Some,
    ensures
        ({
            let (next, action) = sync_step_spec(state, event);
            next matches SyncState::Failed { reason } ==> reason == SyncFailure::PersistFailed
                && state is Persisting
        }),
{
}

/// A version text that is no number is no reason to give up a local list:
/// the local list stays in use, and nothing is fetched.
pub proof fn law_unreadable_version_degrades(state: SyncState, text: Seq<char>)
    requires
        state is NoLocal || state is HaveLocal,
        version_of(text) is None,
    ensures
        ({
            let (next, action) = sync_step_spec(state, SyncEventView::RemoteVersion(Some(text)));
            &&& state matches SyncState::HaveLocal { version } ==> next == (SyncState::Synced {
                source: DatasetSource::Local,
                version,
            }) && action == (SyncAction::Use { source: DatasetSource::Local })
            &&& state is NoLocal ==> next == (SyncState::Failed {
                reason: SyncFailure::VersionNotANumber,
            })
        }),
{
}

/// A remote source that cannot be reached leaves the local list in use; only
/// without a local list is that a failure.
pub proof fn law_unreachable_degrades(state: SyncState)
    requires
        state is NoLocal || state is HaveLocal,
    ensures
        ({
            let (next, action) = sync_step_spec(state, SyncEventView::RemoteVersion(None));
            &&& state matches SyncState::HaveLocal { version } ==> next == (SyncState::Synced {
                source: DatasetSource::Local,
                version,
            })
            &&& state is NoLocal ==> next == (SyncState::Failed {
                reason: SyncFailure::NothingRetrieved,
            })
        }),
{
}

/// The state in which every synchronisation begins, and its first request.
pub fn sync_start() -> (r: (SyncState, SyncAction))
    ensures
        r == (SyncState::Loading, SyncAction::LoadLocal),
        sync_wf(r.0),
{
    (SyncState::Loading, SyncAction::LoadLocal)
}

fn fall_back_to(local: Option<u32>, reason: SyncFailure) -> (r: (SyncState, SyncAction))
    ensures
        r == fall_back(local, reason),
{
    match local {
        Some(version) => (
            SyncState::Synced { source: DatasetSource::Local, version },
            SyncAction::Use { source: DatasetSource::Local },
        ),
        None => (SyncState::Failed { reason }, SyncAction::Fail { reason }),
    }
}

fn on_remote_version(local: Option<u32>, answer: Option<String>) -> (r: (SyncState, SyncAction))
    ensures
        r == after_remote_version(
            local,
            match answer {
                Some(text) => Some(text@),
                None => None,
            },
        ),
{
    match answer {
        None => fall_back_to(local, SyncFailure::NothingRetrieved),
        Some(text) => match parse_version(text.as_str()) {
            None => fall_back_to(local, SyncFailure::VersionNotANumber),
            Some(remote) => {
                let current = match local {
                    Some(version) => version,
                    None => 0,
                };
                if remote <= current {
                    fall_back_to(local, SyncFailure::LocalMissing)
                } else {
                    (SyncState::Fetching { local, remote }, SyncAction::FetchRemote)
                }
            },
        },
    }
}

fn on_remote_dataset(local: Option<u32>, outcome: FetchOutcome) -> (r: (SyncState, SyncAction))
    ensures
        r == after_remote_dataset(local, outcome),
{
    match outcome {
        FetchOutcome::Unreachable => fall_back_to(local, SyncFailure::NothingRetrieved),
        FetchOutcome::Corrupt => fall_back_to(local, SyncFailure::DatasetCorrupt),
        FetchOutcome::Fetched { version } => {
            let newer = match local {
                Some(current) => version > current,
                None => true,
            };
            if newer {
                (SyncState::Persisting { local, fetched: version }, SyncAction::Persist)
            } else {
                fall_back_to(local, SyncFailure::LocalMissing)
            }
        },
    }
}

fn request(state: SyncState) -> (action: SyncAction)
    ensures
        action == request_of(state),
{
    match state {
        SyncState::Loading => SyncAction::LoadLocal,
        SyncState::NoLocal => SyncAction::QueryRemoteVersion,
        SyncState::HaveLocal { version } => SyncAction::QueryRemoteVersion,
        SyncState::Fetching { local, remote } => SyncAction::FetchRemote,
        SyncState::Persisting { local, fetched } => SyncAction::Persist,
        SyncState::Synced { source, version } => SyncAction::Use { source },
        SyncState::Failed { reason } => SyncAction::Fail { reason },
    }
}

/// Takes what the caller reports and says what is to be done next.
pub fn sync_step(state: SyncState, event: SyncEvent) -> (r: (SyncState, SyncAction))
    ensures
        r == sync_step_spec(state, event@),
        sync_wf(state) ==> sync_wf(r.0),
{
    match state {
        SyncState::Loading => match event {
            SyncEvent::LocalRead(Some(version)) => (
                SyncState::HaveLocal { version },
                SyncAction::QueryRemoteVersion,
            ),
            SyncEvent::LocalRead(None) => (SyncState::NoLocal, SyncAction::QueryRemoteVersion),
            _ => (state, request(state)),
        },
        SyncState::NoLocal => match event {
            SyncEvent::RemoteVersion(answer) => on_remote_version(None, answer),
            _ => (state, request(state)),
        },
        SyncState::HaveLocal { version } => match event {
            SyncEvent::RemoteVersion(answer) => on_remote_version(Some(version), answer),
            _ => (state, request(state)),
        },
        SyncState::Fetching { local, remote } => match event {
            SyncEvent::RemoteDataset(outcome) => on_remote_dataset(local, outcome),
            _ => (state, request(state)),
        },
        SyncState::Persisting { local, fetched } => match event {
            SyncEvent::Persisted(true) => (
                SyncState::Synced { source: DatasetSource::Fetched, version: fetched },
                SyncAction::Use { source: DatasetSource::Fetched },
            ),
            SyncEvent::Persisted(false) => (
                SyncState::Failed { reason: SyncFailure::PersistFailed },
                SyncAction::Fail { reason: SyncFailure::PersistFailed },
            ),
            _ => (state, request(state)),
        },
        _ => (state, request(state)),
    }
}

} // verus!
