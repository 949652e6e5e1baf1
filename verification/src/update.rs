//! Self-update: the decisions taken while checking for and downloading a
//! newer release. The caller performs each network step and reports its
//! result; the updater answers with what to do next.

use vstd::prelude::*;

verus! {

/// Where the latest release is published; the server answers with a
/// redirect to the release's download location.
pub const LATEST_RELEASE_URL: &'static str = "https://github.com/trevyn/scarlett/releases/latest/download/scarlett";

/// The answer expected from the latest-release address.
pub const REDIRECT_STATUS: u16 = 302;

/// Releases smaller than this many bytes are not installed.
pub const MIN_RELEASE_BYTES: usize = 10000000;

/// The pattern whose first group is the release's version in a download
/// location.
pub const RELEASE_PATTERN: &'static str = "/releases/download/([a-z]+-[a-z]+)/";

/// Whether the regex crate accepts `pattern` (`regex::Regex::new` succeeds).
pub uninterp spec fn regex_compiles(pattern: Seq<char>) -> bool;

/// The text of group `group` of the leftmost match of `pattern` in
/// `haystack` found by the regex crate, if there is such a match and the
/// group took part in it.
pub uninterp spec fn regex_capture(pattern: Seq<char>, haystack: Seq<char>, group: nat) -> Option<
    Seq<char>,
>;

#[verifier::external_type_specification]
#[verifier::external_body]
pub struct ExRegexError(regex::Error);

/// Compiles `pattern` with `regex::Regex::new` and returns the text of group
/// `group` of `Regex::captures` on `haystack`. Claimed: the compilation fails
/// exactly when the pattern is not accepted, and otherwise the result is the
/// named capture, which depends on the three arguments alone.
#[verifier::external_body]
fn first_capture(pattern: &str, haystack: &str, group: usize) -> (r: Result<Option<String>, regex::Error>)
    ensures
        r is Ok <==> regex_compiles(pattern@),
        r matches Ok(c) ==> (match c {
            Some(s) => regex_capture(pattern@, haystack@, group as nat) == Some(s@),
            None => regex_capture(pattern@, haystack@, group as nat) is None,
        }),
{
    let re = regex::Regex::new(pattern)?;
    Ok(re.captures(haystack).and_then(|c| c.get(group)).map(|m| m.as_str().to_string()))
}

/// Why an update check stopped with an error.
#[derive(Debug)]
pub enum UpdateError {
    /// The latest-release address did not answer with a redirect.
    UnexpectedStatus(u16),
    /// The redirect carried no readable location.
    MissingLocation,
    /// The release pattern was refused.
    BadPattern,
    /// The location names no release version.
    NoVersion,
    /// The download announced no length.
    MissingContentLength,
    /// The announced length does not fit in memory addresses.
    TooLarge,
}

/// Why an update check ended without installing anything.
#[derive(Clone, Copy, Debug, PartialEq, Eq, Structural)]
pub enum UpdateOutcome {
    /// A development build: updates are disabled.
    DevBuild,
    /// The running build is the latest release.
    UpToDate,
    /// The release is smaller than expected.
    TooSmall,
    /// The download did not deliver the announced number of bytes.
    Incomplete,
}

/// What the caller does next.
#[derive(Debug)]
pub enum UpdateAction {
    /// Request the latest-release address without following redirects.
    RequestLatest,
    /// Download the release from `url`.
    Download { url: String },
    /// Receive the body of the download.
    ReceiveChunks,
    /// Report download progress; keep receiving.
    Progress { percent: usize },
    /// Write the downloaded release over the running executable.
    Save,
    /// Stop: nothing is installed.
    Finish(UpdateOutcome),
    /// Stop with an error.
    Fail(UpdateError),
}

/// The step the update check is waiting on.
#[derive(Clone, Copy, Debug, PartialEq, Eq, Structural)]
pub enum Phase {
    AwaitRedirect,
    AwaitDownload,
    Downloading,
    Done,
}

/// The result of a release-pattern capture: `Ok` with the captured
/// version, or the error for a refused pattern or a missing match.
pub open spec fn capture_result(pattern_ok: bool, capture: Option<Seq<char>>) -> Result<
    Seq<char>,
    UpdateError,
> {
    if !pattern_ok {
        Err(UpdateError::BadPattern)
    } else {
        match capture {
            Some(v) => Ok(v),
            None => Err(UpdateError::NoVersion),
        }
    }
}

/// The view of a version result.
pub open spec fn version_view(r: Result<String, UpdateError>) -> Result<Seq<char>, UpdateError> {
    match r {
        Ok(v) => Ok(v@),
        Err(e) => Err(e),
    }
}

/// Turns the outcome of matching the release pattern into the version or
/// the matching error.
pub fn version_from_capture(pattern_ok: bool, capture: Option<String>) -> (r: Result<String, UpdateError>)
    ensures
        version_view(r) == capture_result(
            pattern_ok,
            match capture {
                Some(s) => Some(s@),
                None => None,
            },
        ),
{
    if !pattern_ok {
        Err(UpdateError::BadPattern)
    } else {
        match capture {
            Some(v) => Ok(v),
            None => Err(UpdateError::NoVersion),
        }
    }
}

/// The release version named in a download location: the first group of
/// the release pattern's match.
pub fn release_version(location: &str) -> (r: Result<String, UpdateError>)
    ensures
        version_view(r) == capture_result(
            regex_compiles(RELEASE_PATTERN@),
            regex_capture(RELEASE_PATTERN@, location@, 1),
        ),
{
    match first_capture(RELEASE_PATTERN, location, 1) {
        Ok(capture) => version_from_capture(true, capture),
        Err(_) => version_from_capture(false, None),
    }
}

/// What an action says, with texts as character sequences.
pub enum ActionView {
    RequestLatest,
    Download(Seq<char>),
    ReceiveChunks,
    Progress(nat),
    Save,
    Finish(UpdateOutcome),
    Fail(UpdateError),
}

impl View for UpdateAction {
    type V = ActionView;

    open spec fn view(&self) -> ActionView {
        match self {
            UpdateAction::RequestLatest => ActionView::RequestLatest,
            UpdateAction::Download { url } => ActionView::Download(url@),
            UpdateAction::ReceiveChunks => ActionView::ReceiveChunks,
            UpdateAction::Progress { percent } => ActionView::Progress(*percent as nat),
            UpdateAction::Save => ActionView::Save,
            UpdateAction::Finish(o) => ActionView::Finish(*o),
            UpdateAction::Fail(e) => ActionView::Fail(*e),
        }
    }
}

/// Starting a check: a build without an identifier is a development build
/// and is never updated; otherwise the latest release is requested.
pub open spec fn start_step(build_id: Option<Seq<char>>) -> (Phase, ActionView) {
    match build_id {
        None => (Phase::Done, ActionView::Finish(UpdateOutcome::DevBuild)),
        Some(_) => (Phase::AwaitRedirect, ActionView::RequestLatest),
    }
}

/// Answering the latest-release request: anything but a redirect, a
/// missing location or a location without a version is an error; the same
/// version as the running build ends the check; another version is
/// downloaded from the location.
pub open spec fn redirect_step(build: Seq<char>, status: u16, location: Option<Seq<char>>) -> (
    Phase,
    ActionView,
) {
    if status != REDIRECT_STATUS {
        (Phase::Done, ActionView::Fail(UpdateError::UnexpectedStatus(status)))
    } else {
        match location {
            None => (Phase::Done, ActionView::Fail(UpdateError::MissingLocation)),
            Some(loc) => match capture_result(
                regex_compiles(RELEASE_PATTERN@),
                regex_capture(RELEASE_PATTERN@, loc, 1),
            ) {
                Err(e) => (Phase::Done, ActionView::Fail(e)),
                Ok(version) => if version == build {
                    (Phase::Done, ActionView::Finish(UpdateOutcome::UpToDate))
                } else {
                    (Phase::AwaitDownload, ActionView::Download(loc))
                },
            },
        }
    }
}

/// Answering the download's announced length: no length or one beyond the
/// address range is an error, a release below the minimum size ends the
/// check, any other is received.
pub open spec fn response_step(content_length: Option<u64>) -> (Phase, ActionView) {
    match content_length {
        None => (Phase::Done, ActionView::Fail(UpdateError::MissingContentLength)),
        Some(n) => if n > usize::MAX {
            (Phase::Done, ActionView::Fail(UpdateError::TooLarge))
        } else if n < MIN_RELEASE_BYTES {
            (Phase::Done, ActionView::Finish(UpdateOutcome::TooSmall))
        } else {
            (Phase::Downloading, ActionView::ReceiveChunks)
        },
    }
}

/// The end of the download: it is saved only when exactly the announced
/// number of bytes arrived.
pub open spec fn finish_step(received: nat, total: nat) -> ActionView {
    if received == total {
        ActionView::Save
    } else {
        ActionView::Finish(UpdateOutcome::Incomplete)
    }
}

/// The download progress in whole percent.
pub open spec fn percent_of(received: nat, total: nat) -> nat {
    received * 100 / total
}

/// The state of one update check.
pub struct Updater {
    build_id: String,
    phase: Phase,
    total: usize,
    received: usize,
}

impl Updater {
    /// A download in progress has an announced size of at least the minimum.
    #[verifier::type_invariant]
    spec fn downloading_has_size(self) -> bool {
        self.phase == Phase::Downloading ==> self.total >= MIN_RELEASE_BYTES
    }

    /// The step the check waits on.
    pub closed spec fn phase_of(&self) -> Phase {
        self.phase
    }

    /// The identifier of the running build.
    pub closed spec fn build_of(&self) -> Seq<char> {
        self.build_id@
    }

    /// The announced size of the download.
    pub closed spec fn total_of(&self) -> nat {
        self.total as nat
    }

    /// The bytes of the download received so far.
    pub closed spec fn received_of(&self) -> nat {
        self.received as nat
    }

    /// The bytes of the download received so far.
    pub fn received(&self) -> (n: usize)
        ensures
            n == self.received_of(),
    {
        self.received
    }

    /// The announced size of the download.
    pub fn total(&self) -> (n: usize)
        ensures
            n == self.total_of(),
    {
        self.total
    }

    /// Starts a check for the running build, identified by `build_id`.
    pub fn start(build_id: Option<String>) -> (r: (Updater, UpdateAction))
        ensures
            (r.0.phase_of(), r.1@) == start_step(
                match build_id {
                    Some(b) => Some(b@),
                    None => None,
                },
            ),
            build_id matches Some(b) ==> r.0.build_of() == b@,
    {
        match build_id {
            None => (
                Updater { build_id: String::new(), phase: Phase::Done, total: 0, received: 0 },
                UpdateAction::Finish(UpdateOutcome::DevBuild),
            ),
            Some(b) => (
                Updater { build_id: b, phase: Phase::AwaitRedirect, total: 0, received: 0 },
                UpdateAction::RequestLatest,
            ),
        }
    }

    /// Takes in the answer of the latest-release address: its status and
    /// its location header (`None` when absent or unreadable).
    pub fn on_redirect(&mut self, status: u16, location: Option<String>) -> (a: UpdateAction)
        requires
            old(self).phase_of() == Phase::AwaitRedirect,
        ensures
            (final(self).phase_of(), a@) == redirect_step(
                old(self).build_of(),
                status,
                match location {
                    Some(l) => Some(l@),
                    None => None,
                },
            ),
            final(self).build_of() == old(self).build_of(),
    {
        if status != REDIRECT_STATUS {
            self.phase = Phase::Done;
            return UpdateAction::Fail(UpdateError::UnexpectedStatus(status));
        }
        match location {
            None => {
                self.phase = Phase::Done;
                UpdateAction::Fail(UpdateError::MissingLocation)
            },
            Some(loc) => {
                match release_version(loc.as_str()) {
                    Err(e) => {
                        self.phase = Phase::Done;
                        UpdateAction::Fail(e)
                    },
                    Ok(version) => {
                        if version == self.build_id {
                            self.phase = Phase::Done;
                            UpdateAction::Finish(UpdateOutcome::UpToDate)
                        } else {
                            self.phase = Phase::AwaitDownload;
                            UpdateAction::Download { url: loc }
                        }
                    },
                }
            },
        }
    }

    /// Takes in the announced length of the download.
    pub fn on_download_response(&mut self, content_length: Option<u64>) -> (a: UpdateAction)
        requires
            old(self).phase_of() == Phase::AwaitDownload,
        ensures
            (final(self).phase_of(), a@) == response_step(content_length),
            final(self).build_of() == old(self).build_of(),
            final(self).phase_of() == Phase::Downloading ==> final(self).total_of()
                == content_length->0 && final(self).received_of() == 0,
    {
        match content_length {
            None => {
                self.phase = Phase::Done;
                UpdateAction::Fail(UpdateError::MissingContentLength)
            },
            Some(n) => {
                if n > usize::MAX as u64 {
                    self.phase = Phase::Done;
                    return UpdateAction::Fail(UpdateError::TooLarge);
                }
                let total = n as usize;
                if total < MIN_RELEASE_BYTES {
                    self.phase = Phase::Done;
                    UpdateAction::Finish(UpdateOutcome::TooSmall)
                } else {
                    self.total = total;
                    self.received = 0;
                    self.phase = Phase::Downloading;
                    UpdateAction::ReceiveChunks
                }
            },
        }
    }

    /// Takes in a received piece of the download and reports the progress.
    pub fn on_chunk(&mut self, len: usize) -> (a: UpdateAction)
        requires
            old(self).phase_of() == Phase::Downloading,
            (old(self).received_of() + len) * 100 <= usize::MAX,
        ensures
            final(self).phase_of() == Phase::Downloading,
            final(self).build_of() == old(self).build_of(),
            final(self).total_of() == old(self).total_of(),
            final(self).received_of() == old(self).received_of() + len,
            a@ == ActionView::Progress(percent_of(final(self).received_of(), final(self).total_of())),
    {
        proof {
            use_type_invariant(&*self);
        }
        self.received = self.received + len;
        UpdateAction::Progress { percent: self.received * 100 / self.total }
    }

    /// The download has ended.
    pub fn on_download_finished(&mut self) -> (a: UpdateAction)
        requires
            old(self).phase_of() == Phase::Downloading,
        ensures
            final(self).phase_of() == Phase::Done,
            final(self).build_of() == old(self).build_of(),
            final(self).received_of() == old(self).received_of(),
            final(self).total_of() == old(self).total_of(),
            a@ == finish_step(old(self).received_of(), old(self).total_of()),
    {
        self.phase = Phase::Done;
        if self.received == self.total {
            UpdateAction::Save
        } else {
            UpdateAction::Finish(UpdateOutcome::Incomplete)
        }
    }
}

/// The answer to the latest-release request decides the next step from the
/// inputs alone: anything but a redirect fails with its status, a redirect
/// without location fails, and a redirect whose location names version `v`
/// ends the check as up to date exactly when `v` is the running build, and
/// otherwise downloads from that very location.
pub proof fn lemma_redirect_decision(build: Seq<char>, status: u16, location: Option<Seq<char>>)
    ensures
        status != REDIRECT_STATUS ==> redirect_step(build, status, location) == (
        Phase::Done,
        ActionView::Fail(UpdateError::UnexpectedStatus(status)),
        ),
        status == REDIRECT_STATUS && location is None ==> redirect_step(build, status, location) == (
        Phase::Done,
        ActionView::Fail(UpdateError::MissingLocation),
        ),
        forall|v: Seq<char>|
            status == REDIRECT_STATUS && location is Some && regex_compiles(RELEASE_PATTERN@)
                && regex_capture(RELEASE_PATTERN@, location->0, 1) == Some(v) ==> {
                &&& (redirect_step(build, status, location).1 == ActionView::Finish(
                    UpdateOutcome::UpToDate,
                ) <==> v == build)
                &&& (v != build ==> redirect_step(build, status, location) == (
                    Phase::AwaitDownload,
                    ActionView::Download(location->0),
                ))
            },
{
}

/// The download is received exactly when its announced length is known,
/// fits and is at least the minimum; it is saved exactly when the bytes
/// received equal that length; the reported percent is the whole percent
/// of the length received, rounded down.
pub proof fn lemma_download_decisions(content_length: Option<u64>, received: nat, total: nat)
    ensures
        response_step(content_length).1 == ActionView::ReceiveChunks <==> (content_length matches Some(
            n,
        ) && n <= usize::MAX && n >= MIN_RELEASE_BYTES),
        content_length matches Some(n) && n <= usize::MAX && n < MIN_RELEASE_BYTES ==> response_step(
            content_length,
        ).1 == ActionView::Finish(UpdateOutcome::TooSmall),
        content_length is None ==> response_step(content_length).1 == ActionView::Fail(
            UpdateError::MissingContentLength,
        ),
        finish_step(received, total) == ActionView::Save <==> received == total,
        finish_step(received, total) != ActionView::Save ==> finish_step(received, total)
            == ActionView::Finish(UpdateOutcome::Incomplete),
        total > 0 ==> percent_of(received, total) * total <= received * 100 < (percent_of(
            received,
            total,
        ) + 1) * total,
{
    if total > 0 {
        let p = percent_of(received, total);
        let r = received * 100;
        assert(p * total <= r < (p + 1) * total) by (nonlinear_arith)
            requires
                total > 0,
                p == r / total,
                r >= 0,
        ;
    }
}

/// The action a whole update check ends with, when the running build is
/// `build_id`, the latest-release request is answered with `status` and
/// `location`, the download announces `content_length` and `received`
/// bytes arrive.
pub open spec fn check_outcome(
    build_id: Option<Seq<char>>,
    status: u16,
    location: Option<Seq<char>>,
    content_length: Option<u64>,
    received: nat,
) -> ActionView {
    let (p1, a1) = start_step(build_id);
    if p1 != Phase::AwaitRedirect {
        a1
    } else {
        let (p2, a2) = redirect_step(build_id->0, status, location);
        if p2 != Phase::AwaitDownload {
            a2
        } else {
            let (p3, a3) = response_step(content_length);
            if p3 != Phase::Downloading {
                a3
            } else {
                finish_step(received, content_length->0 as nat)
            }
        }
    }
}

/// A release is saved only by a release build, after a redirect whose
/// location names a version other than the running build's, when the
/// announced size is at least the minimum and exactly that many bytes
/// arrived.
pub proof fn lemma_saved_only_when_complete(
    build_id: Option<Seq<char>>,
    status: u16,
    location: Option<Seq<char>>,
    content_length: Option<u64>,
    received: nat,
)
    requires
        check_outcome(build_id, status, location, content_length, received) == ActionView::Save,
    ensures
        build_id is Some,
        status == REDIRECT_STATUS,
        location is Some,
        regex_compiles(RELEASE_PATTERN@),
        regex_capture(RELEASE_PATTERN@, location->0, 1) matches Some(v) && v != build_id->0,
        content_length matches Some(n) && MIN_RELEASE_BYTES <= n && received == n,
{
}

} // verus!
