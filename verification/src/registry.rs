//! Decisions about the registry index: which index a package comes from, what to fetch, how to
//! authenticate, when to try again, and what an index entry says.

use crate::lists;
use crate::lockfile;
use crate::sorted;
use crate::sorted::StrMap;
use crate::text;
use crate::version::VersionReq;
use vstd::prelude::*;
use vstd::string::*;

verus! {

// ---------------------------------------------------------------------------
// Registry URLs
// ---------------------------------------------------------------------------

/// The first of two prefixes that a text has, taken off.
pub open spec fn without_either(s: Seq<char>, p: Seq<char>, q: Seq<char>) -> Option<Seq<char>> {
    match text::after_prefix(s, p) {
        Some(r) => Some(r),
        None => text::after_prefix(s, q),
    }
}

/// The host of a registry URL: what stands between the scheme and the next slash.
pub open spec fn host_of(url: Seq<char>) -> Option<Seq<char>> {
    let plain = match without_either(url, "sparse+"@, "registry+"@) {
        Some(r) => r,
        None => url,
    };
    match without_either(plain, "https://"@, "http://"@) {
        Some(rest) => Some(text::before_first(rest, '/')),
        None => None,
    }
}

fn strip_either<'a>(s: &'a str, p: &str, q: &str) -> (r: Option<&'a str>)
    ensures
        r.deep_view() == without_either(s@, p@, q@),
{
    match text::strip_prefix(s, p) {
        Some(r) => Some(r),
        None => text::strip_prefix(s, q),
    }
}

/// Extracts the host from a registry URL: `sparse+https://index.crates.io/` has `index.crates.io`.
pub fn host_from_url(url: &str) -> (r: Option<&str>)
    ensures
        r.deep_view() == host_of(url@),
{
    let plain = match strip_either(url, "sparse+", "registry+") {
        Some(r) => r,
        None => url,
    };
    match strip_either(plain, "https://", "http://") {
        Some(rest) => Some(text::split_first(rest, '/')),
        None => None,
    }
}

/// Whether a lock file's source is the registry crates.io.
pub open spec fn is_crates_io(source: Seq<char>) -> bool {
    text::has_part(source, "github.com/rust-lang/crates.io-index"@)
}

/// The index in which a package with this source is looked up; none for local and git sources.
/// crates.io is looked up in `crates_io_index`, which may be a mirror.
pub open spec fn index_url_for(source: Option<Seq<char>>, crates_io_index: Seq<char>) -> Option<Seq<char>> {
    match source {
        Some(s) => if is_crates_io(s) {
            Some(crates_io_index)
        } else if text::has_prefix(s, "sparse+"@) || text::has_prefix(s, "registry+"@) {
            Some(s)
        } else {
            None
        },
        None => None,
    }
}

pub fn source_to_index_url(source: Option<&str>, crates_io_index: &str) -> (r: Option<String>)
    ensures
        r.deep_view() == index_url_for(source.deep_view(), crates_io_index@),
{
    match source {
        Some(s) => {
            if text::contains_text(s, "github.com/rust-lang/crates.io-index") {
                Some(crates_io_index.to_owned())
            } else if text::starts_with(s, "sparse+") || text::starts_with(s, "registry+") {
                Some(s.to_owned())
            } else {
                None
            }
        },
        None => None,
    }
}

/// Whether a directory of the index cache, given by its name and whether it is one, belongs to `host`.
pub open spec fn is_dir_of(host: Seq<char>) -> spec_fn((Seq<char>, bool)) -> bool {
    |e: (Seq<char>, bool)| text::has_prefix(e.0, host) && e.1
}

/// Picks the cache directory of a registry among the entries of the cache: the first directory
/// whose name begins with the host.
pub fn find_index_dir(url: &str, entries: &Vec<(String, bool)>) -> (r: Option<String>)
    ensures
        r.deep_view() == match host_of(url@) {
            Some(host) => match lists::first_with(entries.deep_view(), is_dir_of(host)) {
                Some(e) => Some(e.0),
                None => None,
            },
            None => None,
        },
{
    let host = match host_from_url(url) {
        Some(h) => h,
        None => {
            return None;
        },
    };
    let ghost s = entries.deep_view();
    for i in 0..entries.len()
        invariant
            s == entries.deep_view(),
            host_of(url@) == Some(host@),
            forall|j: int| 0 <= j < i ==> !is_dir_of(host@)(#[trigger] s[j]),
    {
        assert(s[i as int] == entries@[i as int].deep_view());
        if text::starts_with(&entries[i].0, host) && entries[i].1 {
            proof {
                lists::lemma_first_with_is(s, is_dir_of(host@), i as int);
            }
            return Some(entries[i].0.clone());
        }
    }
    proof {
        lists::lemma_first_with_is(s, is_dir_of(host@), s.len() as int);
    }
    None
}

// ---------------------------------------------------------------------------
// Credentials
// ---------------------------------------------------------------------------

/// What a netrc file says of a machine, as far as it is used.
#[derive(Debug, Clone)]
pub struct NetrcMachine {
    pub login: String,
    pub password: Option<String>,
}

/// A netrc file: its machines in order, and its default.
#[derive(Debug, Clone)]
pub struct NetrcFile {
    pub hosts: Vec<(String, NetrcMachine)>,
    pub default: Option<NetrcMachine>,
}

/// The view of a [`NetrcMachine`].
pub struct MachineView {
    pub login: Seq<char>,
    pub password: Option<Seq<char>>,
}

/// The view of a [`NetrcFile`].
pub struct NetrcView {
    pub hosts: Seq<(Seq<char>, MachineView)>,
    pub default: Option<MachineView>,
}

impl DeepView for NetrcMachine {
    type V = MachineView;

    open spec fn deep_view(&self) -> MachineView {
        MachineView { login: self.login@, password: self.password.deep_view() }
    }
}

impl DeepView for NetrcFile {
    type V = NetrcView;

    open spec fn deep_view(&self) -> NetrcView {
        NetrcView { hosts: self.hosts.deep_view(), default: self.default.deep_view() }
    }
}

/// What `netrc::Netrc::parse` makes of a text.
pub uninterp spec fn netrc_parsed(text: Seq<char>) -> Option<NetrcView>;

/// `netrc::Netrc::parse`, `None` where it fails; of each machine login and password are carried
/// over. The parser steps through a line by characters and cuts it by bytes, so a line with a
/// character outside ASCII can make it panic: such texts are left out.
#[verifier::external_body]
fn parse_netrc(text: &str) -> (r: Option<NetrcFile>)
    requires
        text.is_ascii(),
    ensures
        r.deep_view() == netrc_parsed(text@),
{
    let netrc = netrc::Netrc::parse(text.as_bytes()).ok()?;
    let machine = |m: netrc::Machine| NetrcMachine { login: m.login, password: m.password };
    Some(NetrcFile {
        hosts: netrc.hosts.into_iter().map(|(h, m)| (h, machine(m))).collect(),
        default: netrc.default.map(machine),
    })
}

/// What a netrc file says for a host: its own entry, else the default.
pub open spec fn machine_for(n: NetrcView, host: Seq<char>) -> Option<MachineView> {
    match sorted::entry_of(n.hosts, host) {
        Some(m) => Some(m),
        None => n.default,
    }
}

/// Login and password, if the entry has both.
pub open spec fn credentials_in(m: Option<MachineView>) -> Option<(Seq<char>, Seq<char>)> {
    match m {
        Some(m) => match m.password {
            Some(p) => Some((m.login, p)),
            None => None,
        },
        None => None,
    }
}

/// Finds login and password for `host`: those of its own entry, else of the default.
pub fn credentials_for_host(netrc: &NetrcFile, host: &str) -> (r: Option<(String, String)>)
    ensures
        r.deep_view() == credentials_in(machine_for(netrc.deep_view(), host@)),
{
    let ghost s = netrc.hosts.deep_view();
    let mut machine: Option<&NetrcMachine> = None;
    let mut i: usize = 0;
    while i < netrc.hosts.len() && machine.is_none()
        invariant
            s == netrc.hosts.deep_view(),
            i <= s.len(),
            machine is None ==> forall|j: int| 0 <= j < i ==> (#[trigger] s[j]).0 != host@,
            machine matches Some(m) ==> sorted::entry_of(s, host@) == Some(m.deep_view()),
        decreases s.len() - i,
    {
        assert(s[i as int] == netrc.hosts@[i as int].deep_view());
        if text::same(&netrc.hosts[i].0, host) {
            proof {
                sorted::lemma_entry_of_is(s, host@, i as int);
            }
            machine = Some(&netrc.hosts[i].1);
        }
        i += 1;
    }
    if machine.is_none() {
        proof {
            sorted::lemma_entry_of_is(s, host@, s.len() as int);
        }
        machine = netrc.default.as_ref();
    }
    match machine {
        Some(m) => match &m.password {
            Some(p) => Some((m.login.clone(), p.clone())),
            None => None,
        },
        None => None,
    }
}

/// The credentials that the text of a netrc file holds for a URL.
pub open spec fn credentials_for(url: Seq<char>, netrc: Seq<char>) -> Option<(Seq<char>, Seq<char>)> {
    match (host_of(url), netrc_parsed(netrc)) {
        (Some(host), Some(n)) => credentials_in(machine_for(n, host)),
        _ => None,
    }
}

/// Looks up the credentials for a URL's host in the text of a netrc file.
pub fn netrc_credentials_for_url(url: &str, netrc_text: &str) -> (r: Option<(String, String)>)
    requires
        netrc_text.is_ascii(),
    ensures
        r.deep_view() == credentials_for(url@, netrc_text@),
{
    match host_from_url(url) {
        Some(host) => match parse_netrc(netrc_text) {
            Some(n) => credentials_for_host(&n, host),
            None => None,
        },
        None => None,
    }
}

/// The `Authorization` header of HTTP's basic scheme.
pub fn basic_authorization(user: &str, password: &str) -> (r: String)
    ensures
        r@ == "Basic "@ + lockfile::base64_of(vstd::utf8::encode_utf8(user@ + ":"@ + password@)),
{
    let pair = text::cat3(user, ":", password);
    let bytes = pair.as_str().as_bytes_vec();
    text::cat2("Basic ", &lockfile::base64_encode(&bytes))
}

// ---------------------------------------------------------------------------
// Failures
// ---------------------------------------------------------------------------

/// How a fetch failed: in a way that another try may mend, after a wait that the server may have
/// asked for, or for good.
#[derive(Debug, Clone)]
pub enum FetchError {
    Retryable { msg: String, delay_ms: Option<u128> },
    Permanent(String),
}

/// The view of a [`FetchError`].
pub enum FailureView {
    Retryable { msg: Seq<char>, delay_ms: Option<u128> },
    Permanent(Seq<char>),
}

impl DeepView for FetchError {
    type V = FailureView;

    open spec fn deep_view(&self) -> FailureView {
        match self {
            FetchError::Retryable { msg, delay_ms } => FailureView::Retryable { msg: msg@, delay_ms: *delay_ms },
            FetchError::Permanent(msg) => FailureView::Permanent(msg@),
        }
    }
}

/// The seconds that a `Retry-After` header asks for.
pub open spec fn retry_after(header: Option<Seq<char>>) -> Option<nat> {
    match header {
        Some(h) => text::parsed_number(text::trimmed(h)),
        None => None,
    }
}

/// Reads a `Retry-After` header that gives whole seconds. Anything else counts as no header.
pub fn parse_retry_after(header: Option<&str>) -> (r: Option<u64>)
    ensures
        match r {
            Some(n) => retry_after(header.deep_view()) == Some(n as nat),
            None => retry_after(header.deep_view()) is None,
        },
{
    match header {
        Some(h) => text::parse_u64(text::trim(h)),
        None => None,
    }
}

pub open spec fn retry_after_ms(header: Option<Seq<char>>) -> Option<u128> {
    match retry_after(header) {
        Some(n) => Some((n * 1000) as u128),
        None => None,
    }
}

/// What an HTTP status other than success means.
pub open spec fn status_failure(
    status: u16,
    header: Option<Seq<char>>,
    name: Seq<char>,
    url: Seq<char>,
) -> FailureView {
    let msg = "HTTP "@ + text::decimal(status as nat) + " fetching '"@ + name + "' from '"@ + url + "'"@;
    if status == 429 || status == 503 {
        FailureView::Retryable { msg, delay_ms: retry_after_ms(header) }
    } else if 500 <= status <= 599 {
        FailureView::Retryable { msg, delay_ms: None }
    } else if status == 404 {
        FailureView::Permanent("crate '"@ + name + "' not found in remote index '"@ + url + "' (HTTP 404)"@)
    } else if 400 <= status <= 499 {
        FailureView::Permanent(msg)
    } else {
        FailureView::Retryable { msg, delay_ms: None }
    }
}

/// Classifies a response status. Server errors and 429 may pass; other client errors will not.
pub fn classify_status(status: u16, retry_after_header: Option<&str>, name: &str, url: &str) -> (r: FetchError)
    ensures
        r.deep_view() == status_failure(status, retry_after_header.deep_view(), name@, url@),
{
    let number = text::number_text(status as u64);
    let msg = text::cat5("HTTP ", &number, " fetching '", name, "' from '").concat(url).concat("'");
    if status == 429 || status == 503 {
        let delay_ms: Option<u128> = match parse_retry_after(retry_after_header) {
            Some(n) => Some(n as u128 * 1000),
            None => None,
        };
        FetchError::Retryable { msg, delay_ms }
    } else if 500 <= status && status <= 599 {
        FetchError::Retryable { msg, delay_ms: None }
    } else if status == 404 {
        FetchError::Permanent(
            text::cat5("crate '", name, "' not found in remote index '", url, "' (HTTP 404)"),
        )
    } else if 400 <= status && status <= 499 {
        FetchError::Permanent(msg)
    } else {
        FetchError::Retryable { msg, delay_ms: None }
    }
}

/// How a request can fail before a status is seen.
#[derive(Debug, Clone, Copy, PartialEq, Eq)]
pub enum TransportFailure {
    Io,
    Timeout,
    Protocol,
    ConnectionFailed,
    HostNotFound,
    Tls,
    TooManyRedirects,
    BadUri,
    Http,
    InvalidProxyUrl,
    RedirectFailed,
    BodyExceedsLimit,
    StatusCode,
    Other,
}

/// Whether a transport failure would come again: it lies in the request, not on the way.
pub open spec fn is_local(kind: TransportFailure) -> bool {
    match kind {
        TransportFailure::BadUri => true,
        TransportFailure::Http => true,
        TransportFailure::InvalidProxyUrl => true,
        TransportFailure::RedirectFailed => true,
        TransportFailure::BodyExceedsLimit => true,
        _ => false,
    }
}

/// Classifies a failure of the transport; `words` is how it describes itself.
pub fn classify_ureq_error(kind: TransportFailure, words: &str, name: &str, url: &str) -> (r: FetchError)
    ensures
        ({
            let msg = "failed to fetch '"@ + name@ + "' from '"@ + url@ + "': "@ + words@;
            r.deep_view() == if is_local(kind) {
                FailureView::Permanent(msg)
            } else {
                FailureView::Retryable { msg, delay_ms: None }
            }
        }),
{
    let msg = text::cat5("failed to fetch '", name, "' from '", url, "': ").concat(words);
    match kind {
        TransportFailure::BadUri
        | TransportFailure::Http
        | TransportFailure::InvalidProxyUrl
        | TransportFailure::RedirectFailed
        | TransportFailure::BodyExceedsLimit => FetchError::Permanent(msg),
        _ => FetchError::Retryable { msg, delay_ms: None },
    }
}

// ---------------------------------------------------------------------------
// Trying again
// ---------------------------------------------------------------------------

/// The first try and four more.
pub const MAX_ATTEMPTS: u32 = 5;

pub const BASE_DELAY_MS: u64 = 100;

/// No single wait is longer.
pub const MAX_DELAY_MS: u64 = 30_000;

/// All waits together are no longer.
pub const MAX_TOTAL_MS: u64 = 60_000;

/// Two to the power of `n`.
pub open spec fn doubled(n: nat) -> nat
    decreases n,
{
    if n == 0 {
        1
    } else {
        2 * doubled((n - 1) as nat)
    }
}

/// The longest computed wait after a failed attempt: it doubles with each, up to a limit.
pub open spec fn backoff_cap(attempt: u32) -> nat {
    let d = BASE_DELAY_MS * doubled(attempt as nat);
    if d <= MAX_DELAY_MS {
        d as nat
    } else {
        MAX_DELAY_MS as nat
    }
}

pub fn backoff_cap_ms(attempt: u32) -> (r: u64)
    requires
        attempt < MAX_ATTEMPTS,
    ensures
        r == backoff_cap(attempt),
        1 <= r <= MAX_DELAY_MS,
{
    proof {
        reveal_with_fuel(doubled, 6);
    }
    let factor: u64 = if attempt == 0 {
        1
    } else if attempt == 1 {
        2
    } else if attempt == 2 {
        4
    } else if attempt == 3 {
        8
    } else {
        16
    };
    let d: u64 = BASE_DELAY_MS * factor;
    if d <= MAX_DELAY_MS {
        d
    } else {
        MAX_DELAY_MS
    }
}

/// A wait below `max_ms`, from a random number if one could be had.
pub open spec fn jittered(random: Option<u64>, max_ms: u64) -> u64 {
    if max_ms <= 1 {
        0
    } else {
        match random {
            Some(n) => n % max_ms,
            None => max_ms / 2,
        }
    }
}

pub fn jitter_from(random: Option<u64>, max_ms: u64) -> (r: u64)
    ensures
        r == jittered(random, max_ms),
        max_ms > 0 ==> r < max_ms,
        max_ms == 0 ==> r == 0,
{
    if max_ms <= 1 {
        0
    } else {
        match random {
            Some(n) => n % max_ms,
            None => max_ms / 2,
        }
    }
}

/// `getrandom::fill`: eight bytes of randomness as a number, `None` where the system has none.
/// Nothing is promised of the number.
#[verifier::external_body]
fn random_number() -> (r: Option<u64>) {
    let mut buf = [0u8; 8];
    getrandom::fill(&mut buf).ok().map(|_| u64::from_ne_bytes(buf))
}

/// A random wait below `max_ms`; none for a limit of at most one.
pub fn jitter_ms(max_ms: u64) -> (r: u64)
    ensures
        max_ms > 0 ==> r < max_ms,
        max_ms <= 1 ==> r == 0,
        exists|random: Option<u64>| r == jittered(random, max_ms),
{
    let random = random_number();
    jitter_from(random, max_ms)
}

/// How far a fetch has come: the number of tries that have failed, and the time spent waiting.
#[derive(Debug, Clone, Copy, PartialEq, Eq)]
pub struct RetryState {
    pub attempt: u32,
    pub slept_ms: u64,
}

impl RetryState {
    /// A state from which another try is allowed.
    pub open spec fn wf(&self) -> bool {
        self.attempt < MAX_ATTEMPTS && self.slept_ms <= MAX_TOTAL_MS
    }

    pub fn start() -> (r: RetryState)
        ensures
            r.wf(),
            r.attempt == 0,
            r.slept_ms == 0,
    {
        RetryState { attempt: 0, slept_ms: 0 }
    }
}

/// What to do after a failed try.
#[derive(Debug, Clone)]
pub enum RetryStep {
    /// Give up with this error.
    Fail(String),
    /// Wait so long, then try again.
    Wait { ms: u64, next: RetryState },
}

/// The view of a [`RetryStep`].
pub enum StepView {
    Fail(Seq<char>),
    Wait { ms: u64, next: RetryState },
}

impl DeepView for RetryStep {
    type V = StepView;

    open spec fn deep_view(&self) -> StepView {
        match self {
            RetryStep::Fail(e) => StepView::Fail(e@),
            RetryStep::Wait { ms, next } => StepView::Wait { ms: *ms, next: *next },
        }
    }
}

/// The error after the last try.
pub open spec fn gave_up(msg: Seq<char>, slept_ms: u64) -> Seq<char> {
    msg + " (gave up after "@ + text::decimal(MAX_ATTEMPTS as nat) + " attempts, "@ + text::decimal(
        slept_ms as nat,
    ) + "ms total)"@
}

/// The wait before the next try: what the server asked for, within limits, else the jitter drawn.
pub open spec fn wait_for(delay_ms: Option<u128>, jitter: u64) -> u64 {
    match delay_ms {
        Some(d) => if d <= MAX_DELAY_MS {
            d as u64
        } else {
            MAX_DELAY_MS
        },
        None => jitter,
    }
}

/// The decision after a failed try. `jitter` is the wait that was drawn for this attempt.
pub open spec fn retry_decided(s: RetryState, e: FailureView, jitter: u64) -> StepView {
    match e {
        FailureView::Permanent(msg) => StepView::Fail(msg),
        FailureView::Retryable { msg, delay_ms } => {
            let wait = wait_for(delay_ms, jitter);
            if s.attempt + 1 == MAX_ATTEMPTS || s.slept_ms + wait > MAX_TOTAL_MS {
                StepView::Fail(gave_up(msg, s.slept_ms))
            } else {
                StepView::Wait {
                    ms: wait,
                    next: RetryState {
                        attempt: (s.attempt + 1) as u32,
                        slept_ms: (s.slept_ms + wait) as u64,
                    },
                }
            }
        },
    }
}

/// Decides what to do after a failed try, given the wait drawn for it.
pub fn retry_step_with(state: RetryState, error: &FetchError, jitter: u64) -> (r: RetryStep)
    requires
        state.wf(),
        jitter <= MAX_DELAY_MS,
    ensures
        r.deep_view() == retry_decided(state, error.deep_view(), jitter),
        r matches RetryStep::Wait { ms, next } ==> next.wf() && ms <= MAX_DELAY_MS && next.attempt == state.attempt
            + 1 && next.slept_ms == state.slept_ms + ms,
{
    match error {
        FetchError::Permanent(msg) => RetryStep::Fail(msg.clone()),
        FetchError::Retryable { msg, delay_ms } => {
            let wait: u64 = match delay_ms {
                Some(d) => if *d <= MAX_DELAY_MS as u128 {
                    *d as u64
                } else {
                    MAX_DELAY_MS
                },
                None => jitter,
            };
            if state.attempt + 1 == MAX_ATTEMPTS || state.slept_ms + wait > MAX_TOTAL_MS {
                let attempts = text::number_text(MAX_ATTEMPTS as u64);
                let total = text::number_text(state.slept_ms);
                RetryStep::Fail(
                    text::cat5(msg, " (gave up after ", &attempts, " attempts, ", &total).concat("ms total)"),
                )
            } else {
                RetryStep::Wait {
                    ms: wait,
                    next: RetryState { attempt: state.attempt + 1, slept_ms: state.slept_ms + wait },
                }
            }
        },
    }
}

/// Decides what to do after a failed try, drawing the wait.
pub fn retry_step(state: RetryState, error: &FetchError) -> (r: RetryStep)
    requires
        state.wf(),
    ensures
        exists|jitter: u64|
            jitter < backoff_cap(state.attempt) && r.deep_view() == #[trigger] retry_decided(
                state,
                error.deep_view(),
                jitter,
            ),
        r matches RetryStep::Wait { ms, next } ==> next.wf() && ms <= MAX_DELAY_MS && next.attempt == state.attempt
            + 1 && next.slept_ms == state.slept_ms + ms,
{
    let cap = backoff_cap_ms(state.attempt);
    let jitter = jitter_ms(cap);
    retry_step_with(state, error, jitter)
}

/// The states after each of a row of failed tries that all ended in a wait.
pub open spec fn states_follow(states: Seq<RetryState>, errors: Seq<FailureView>, jitters: Seq<u64>) -> bool {
    &&& states.len() > 0
    &&& states[0] == (RetryState { attempt: 0, slept_ms: 0 })
    &&& errors.len() == states.len() - 1
    &&& jitters.len() == states.len() - 1
    &&& forall|i: int|
        0 <= i < states.len() - 1 ==> (retry_decided(#[trigger] states[i], errors[i], jitters[i]) matches StepView::Wait {
            ms,
            next,
        } && next == states[i + 1])
}

/// However the tries fail, there are no more of them than allowed, and the waits together stay
/// within the limit.
pub proof fn lemma_retries_bounded(states: Seq<RetryState>, errors: Seq<FailureView>, jitters: Seq<u64>)
    requires
        states_follow(states, errors, jitters),
    ensures
        states.len() <= MAX_ATTEMPTS,
        states.last().slept_ms <= MAX_TOTAL_MS,
        states.last().attempt == states.len() - 1,
    decreases states.len(),
{
    if states.len() > 1 {
        let n = states.len() - 1;
        let shorter = states.drop_last();
        assert forall|i: int| 0 <= i < shorter.len() - 1 implies (retry_decided(
            #[trigger] shorter[i],
            errors.drop_last()[i],
            jitters.drop_last()[i],
        ) matches StepView::Wait { ms, next } && next == shorter[i + 1]) by {
            assert(shorter[i] == states[i]);
            assert(shorter[i + 1] == states[i + 1]);
        }
        lemma_retries_bounded(shorter, errors.drop_last(), jitters.drop_last());
        assert(shorter.last() == states[n - 1]);
        assert(retry_decided(states[n - 1], errors[n - 1], jitters[n - 1]) is Wait);
    }
}

/// A permanent failure ends the fetch at once, with its own words.
pub proof fn lemma_permanent_ends(s: RetryState, msg: Seq<char>, jitter: u64)
    ensures
        retry_decided(s, FailureView::Permanent(msg), jitter) == StepView::Fail(msg),
{
}

// ---------------------------------------------------------------------------
// Index entries
// ---------------------------------------------------------------------------

/// The section in which an index dependency was declared.
#[derive(Debug, Clone, Copy, PartialEq, Eq, Structural)]
pub enum DependencyKind {
    Normal,
    Dev,
    Build,
}

/// A dependency of a crate version, as the index lists it.
#[derive(Debug, Clone)]
pub struct IndexDependency {
    /// The key under which the crate knows it.
    pub name: String,
    /// The name of the package, where the key is another.
    pub package: Option<String>,
    pub req: VersionReq,
    pub features: Vec<String>,
    pub optional: bool,
    pub default_features: bool,
    pub target: Option<String>,
    pub kind: Option<DependencyKind>,
}

/// One version of a crate, as the index lists it.
#[derive(Debug, Clone)]
pub struct IndexVersion {
    pub name: String,
    pub version: String,
    pub deps: Vec<IndexDependency>,
    /// The features; those in the newer syntax, which the index lists apart, stand behind the others.
    pub features: Vec<(String, Vec<String>)>,
    pub links: Option<String>,
}

/// All versions of a crate that the index lists.
#[derive(Debug, Clone)]
pub struct IndexKrate {
    pub versions: Vec<IndexVersion>,
}

/// The view of an [`IndexDependency`].
pub struct IndexDepView {
    pub name: Seq<char>,
    pub package: Option<Seq<char>>,
    pub req: Seq<char>,
    pub features: Seq<Seq<char>>,
    pub optional: bool,
    pub default_features: bool,
    pub target: Option<Seq<char>>,
    pub kind: Option<DependencyKind>,
}

/// The view of an [`IndexVersion`].
pub struct IndexVersionView {
    pub name: Seq<char>,
    pub version: Seq<char>,
    pub deps: Seq<IndexDepView>,
    pub features: Seq<(Seq<char>, Seq<Seq<char>>)>,
    pub links: Option<Seq<char>>,
}

impl DeepView for IndexDependency {
    type V = IndexDepView;

    open spec fn deep_view(&self) -> IndexDepView {
        IndexDepView {
            name: self.name@,
            package: self.package.deep_view(),
            req: self.req.deep_view(),
            features: self.features.deep_view(),
            optional: self.optional,
            default_features: self.default_features,
            target: self.target.deep_view(),
            kind: self.kind,
        }
    }
}

impl DeepView for IndexVersion {
    type V = IndexVersionView;

    open spec fn deep_view(&self) -> IndexVersionView {
        IndexVersionView {
            name: self.name@,
            version: self.version@,
            deps: self.deps.deep_view(),
            features: self.features.deep_view(),
            links: self.links.deep_view(),
        }
    }
}

impl DeepView for IndexKrate {
    type V = Seq<IndexVersionView>;

    open spec fn deep_view(&self) -> Seq<IndexVersionView> {
        self.versions.deep_view()
    }
}

/// The name of the package that an index dependency stands for.
pub open spec fn crate_name_of(d: IndexDepView) -> Seq<char> {
    match d.package {
        Some(p) => p,
        None => d.name,
    }
}

impl IndexDependency {
    /// The name of the package, whatever key the crate knows it by.
    pub fn crate_name(&self) -> (r: &str)
        ensures
            r@ == crate_name_of(self.deep_view()),
    {
        match &self.package {
            Some(p) => p.as_str(),
            None => self.name.as_str(),
        }
    }
}

pub open spec fn is_version(version: Seq<char>) -> spec_fn(IndexVersionView) -> bool {
    |v: IndexVersionView| v.version == version
}

/// Finds a version of a crate.
pub fn find_version<'a>(krate: &'a IndexKrate, version: &str) -> (r: Option<&'a IndexVersion>)
    ensures
        r.deep_view() == lists::first_with(krate.deep_view(), is_version(version@)),
{
    let ghost s = krate.deep_view();
    for i in 0..krate.versions.len()
        invariant
            s == krate.versions.deep_view(),
            forall|j: int| 0 <= j < i ==> !is_version(version@)(#[trigger] s[j]),
    {
        assert(s[i as int] == krate.versions@[i as int].deep_view());
        if text::same(&krate.versions[i].version, version) {
            proof {
                lists::lemma_first_with_is(s, is_version(version@), i as int);
            }
            return Some(&krate.versions[i]);
        }
    }
    proof {
        lists::lemma_first_with_is(s, is_version(version@), s.len() as int);
    }
    None
}

/// The features of a version, those in the newer syntax included.
pub open spec fn index_features(v: IndexVersionView) -> Seq<(Seq<char>, Seq<Seq<char>>)> {
    sorted::map_of(v.features)
}

/// The features of a version as a map: of two entries with the same name the later one counts.
pub fn features_for_version(version: &IndexVersion) -> (r: StrMap<Vec<String>>)
    ensures
        r.deep_view() == index_features(version.deep_view()),
        r.wf(),
{
    let ghost s = version.features.deep_view();
    let mut map: StrMap<Vec<String>> = StrMap::new();
    assert(s.take(0) =~= Seq::empty());
    for i in 0..version.features.len()
        invariant
            s == version.features.deep_view(),
            map.deep_view() == sorted::map_of(s.take(i as int)),
            map.wf(),
    {
        assert(s.take(i + 1).drop_last() =~= s.take(i as int));
        assert(s.take(i + 1).last() == version.features@[i as int].deep_view());
        map.insert(version.features[i].0.clone(), sorted::copy_texts(&version.features[i].1));
    }
    assert(s.take(s.len() as int) =~= s);
    map
}

// ---------------------------------------------------------------------------
// Prefetching
// ---------------------------------------------------------------------------

/// At most so many fetches run at once.
pub const PREFETCH_WORKERS: usize = 32;

/// One index entry to fetch ahead.
#[derive(Debug, Clone, PartialEq, Eq)]
pub struct PrefetchJob {
    pub url: String,
    pub name: String,
    pub version: String,
}

/// The view of a [`PrefetchJob`].
pub struct JobView {
    pub url: Seq<char>,
    pub name: Seq<char>,
    pub version: Seq<char>,
}

impl DeepView for PrefetchJob {
    type V = JobView;

    open spec fn deep_view(&self) -> JobView {
        JobView { url: self.url@, name: self.name@, version: self.version@ }
    }
}

/// What is to be fetched, from which indexes, and by how many at once.
#[derive(Debug, Clone)]
pub struct PrefetchPlan {
    pub pending: Vec<PrefetchJob>,
    pub urls: Vec<String>,
    pub workers: usize,
}

/// The jobs whose entry is not cached yet.
pub open spec fn uncached(jobs: Seq<JobView>, cached: Seq<bool>) -> Seq<JobView>
    decreases jobs.len(),
{
    if jobs.len() == 0 || jobs.len() != cached.len() {
        Seq::empty()
    } else if cached.last() {
        uncached(jobs.drop_last(), cached.drop_last())
    } else {
        uncached(jobs.drop_last(), cached.drop_last()).push(jobs.last())
    }
}

pub open spec fn url_at() -> spec_fn(JobView) -> Seq<char> {
    |j: JobView| j.url
}

/// Plans the fetches: what is cached is left out, and each index is set up once.
pub fn plan_prefetch(jobs: &Vec<PrefetchJob>, cached: &Vec<bool>) -> (r: PrefetchPlan)
    requires
        jobs@.len() == cached@.len(),
    ensures
        r.pending.deep_view() == uncached(jobs.deep_view(), cached@),
        r.urls.deep_view() == sorted::set_of(r.pending.deep_view().map_values(url_at())),
        r.workers == if r.pending@.len() < PREFETCH_WORKERS {
            r.pending@.len()
        } else {
            PREFETCH_WORKERS as nat
        },
{
    let ghost s = jobs.deep_view();
    let mut pending: Vec<PrefetchJob> = Vec::new();
    let mut urls: Vec<String> = Vec::new();
    assert(pending.deep_view() =~= Seq::empty());
    assert(pending.deep_view().map_values(url_at()) =~= Seq::empty());
    assert(urls.deep_view() =~= Seq::empty());
    for i in 0..jobs.len()
        invariant
            s == jobs.deep_view(),
            jobs@.len() == cached@.len(),
            pending.deep_view() == uncached(s.take(i as int), cached@.take(i as int)),
            urls.deep_view() == sorted::set_of(pending.deep_view().map_values(url_at())),
    {
        let ghost o = pending.deep_view();
        assert(s.take(i + 1).drop_last() =~= s.take(i as int));
        assert(cached@.take(i + 1).drop_last() =~= cached@.take(i as int));
        assert(s.take(i + 1).last() == jobs@[i as int].deep_view());
        if !cached[i] {
            let j = &jobs[i];
            sorted::insert_text(&mut urls, j.url.clone());
            pending.push(PrefetchJob { url: j.url.clone(), name: j.name.clone(), version: j.version.clone() });
            proof {
                assert(pending.deep_view() =~= o.push(s[i as int]));
                let m = pending.deep_view().map_values(url_at());
                assert(m.drop_last() =~= o.map_values(url_at()));
            }
        }
    }
    assert(s.take(s.len() as int) =~= s);
    assert(cached@.take(s.len() as int) =~= cached@);
    let workers: usize = if pending.len() < PREFETCH_WORKERS { pending.len() } else { PREFETCH_WORKERS };
    PrefetchPlan { pending, urls, workers }
}

// ---------------------------------------------------------------------------
// Laws
// ---------------------------------------------------------------------------

/// The host of a URL is what stands between its scheme and the next slash, with or without the mark of a
/// registry in front; a URL of another scheme has none.
pub proof fn lemma_host(host: Seq<char>, rest: Seq<char>)
    requires
        !host.contains('/'),
    ensures
        host_of("https://"@ + host + "/"@ + rest) == Some(host),
        host_of("http://"@ + host + "/"@ + rest) == Some(host),
        host_of("https://"@ + host) == Some(host),
        host_of("sparse+https://"@ + host + "/"@ + rest) == Some(host),
        host_of("registry+https://"@ + host + "/"@ + rest) == Some(host),
        host_of("file://"@ + rest) is None,
        host_of("sparse+file://"@ + rest) is None,
{
    reveal_strlit("https://");
    reveal_strlit("http://");
    reveal_strlit("sparse+");
    reveal_strlit("registry+");
    reveal_strlit("sparse+https://");
    reveal_strlit("registry+https://");
    reveal_strlit("file://");
    reveal_strlit("sparse+file://");
    reveal_strlit("/");
    let tail = host + "/"@ + rest;
    assert(tail =~= host.push('/') + rest);
    text::lemma_before_first_at(host, '/', rest);
    text::lemma_before_first_none(host, '/');
    let a = "https://"@ + host + "/"@ + rest;
    assert(a =~= "https://"@ + tail);
    text::lemma_after_prefix("https://"@, tail);
    text::lemma_after_prefix("https://"@, host);
    assert(a[0] == 'h');
    text::lemma_other_prefix(a, "sparse+"@, 0);
    text::lemma_other_prefix(a, "registry+"@, 0);
    let e = "https://"@ + host;
    assert(e[0] == 'h');
    text::lemma_other_prefix(e, "sparse+"@, 0);
    text::lemma_other_prefix(e, "registry+"@, 0);
    let b = "http://"@ + host + "/"@ + rest;
    assert(b =~= "http://"@ + tail);
    text::lemma_after_prefix("http://"@, tail);
    assert(b[0] == 'h' && b[4] == ':' && "https://"@[4] == 's');
    text::lemma_other_prefix(b, "sparse+"@, 0);
    text::lemma_other_prefix(b, "registry+"@, 0);
    text::lemma_other_prefix(b, "https://"@, 4);
    let c = "sparse+https://"@ + host + "/"@ + rest;
    assert(c =~= "sparse+"@ + a);
    text::lemma_after_prefix("sparse+"@, a);
    let d = "registry+https://"@ + host + "/"@ + rest;
    assert(d =~= "registry+"@ + a);
    assert(d[0] == 'r');
    text::lemma_other_prefix(d, "sparse+"@, 0);
    text::lemma_after_prefix("registry+"@, a);
    let f = "file://"@ + rest;
    assert(f[0] == 'f');
    text::lemma_other_prefix(f, "sparse+"@, 0);
    text::lemma_other_prefix(f, "registry+"@, 0);
    text::lemma_other_prefix(f, "https://"@, 0);
    text::lemma_other_prefix(f, "http://"@, 0);
    let g = "sparse+file://"@ + rest;
    assert(g =~= "sparse+"@ + f);
    text::lemma_after_prefix("sparse+"@, f);
}

/// A package of crates.io is looked up in the index given for it, one of another registry in that registry's,
/// and one of git, or of no source, in none.
pub proof fn lemma_index_url(s: Seq<char>, index: Seq<char>)
    ensures
        index_url_for(None, index) is None,
        text::has_part(s, "github.com/rust-lang/crates.io-index"@) ==> index_url_for(Some(s), index) == Some(index),
        !text::has_part("sparse+"@ + s, "github.com/rust-lang/crates.io-index"@) ==> index_url_for(
            Some("sparse+"@ + s),
            index,
        ) == Some("sparse+"@ + s),
        !text::has_part("registry+"@ + s, "github.com/rust-lang/crates.io-index"@) ==> index_url_for(
            Some("registry+"@ + s),
            index,
        ) == Some("registry+"@ + s),
        !text::has_part("git+"@ + s, "github.com/rust-lang/crates.io-index"@) ==> index_url_for(
            Some("git+"@ + s),
            index,
        ) is None,
{
    reveal_strlit("git+");
    reveal_strlit("sparse+");
    reveal_strlit("registry+");
    text::lemma_after_prefix("sparse+"@, s);
    text::lemma_after_prefix("registry+"@, s);
    assert(("git+"@ + s)[0] == 'g');
    text::lemma_other_prefix("git+"@ + s, "sparse+"@, 0);
    text::lemma_other_prefix("git+"@ + s, "registry+"@, 0);
}

/// Which responses end the tries: those that blame the request, but for 429; and which say how long to wait:
/// 429 and 503, in seconds.
pub proof fn lemma_status(status: u16, header: Option<Seq<char>>, name: Seq<char>, url: Seq<char>)
    ensures
        status_failure(status, header, name, url) is Permanent <==> 400 <= status <= 499 && status != 429,
        status_failure(status, header, name, url) matches FailureView::Retryable { msg, delay_ms } ==> (status != 429
            && status != 503 ==> delay_ms is None) && (status == 429 || status == 503 ==> match header {
            Some(h) => match text::parsed_number(text::trimmed(h)) {
                Some(n) => delay_ms matches Some(d) && (n * 1000 < 0x1_0000_0000_0000_0000_0000_0000_0000_0000 ==> d == n * 1000),
                None => delay_ms is None,
            },
            None => delay_ms is None,
        }) && msg == "HTTP "@ + text::decimal(status as nat) + " fetching '"@ + name + "' from '"@ + url + "'"@,
        status == 404 ==> status_failure(status, header, name, url) == FailureView::Permanent(
            "crate '"@ + name + "' not found in remote index '"@ + url + "' (HTTP 404)"@,
        ),
{
}

/// A transport failure is final exactly if it lies in the request.
pub proof fn lemma_local_failures(kind: TransportFailure)
    ensures
        is_local(kind) <==> kind is BadUri || kind is Http || kind is InvalidProxyUrl || kind is RedirectFailed
            || kind is BodyExceedsLimit,
{
}

/// The longest computed wait is a tenth of a second at first, twice as long after each try, and half a minute
/// at most.
pub proof fn lemma_backoff(attempt: u32)
    requires
        attempt < u32::MAX,
    ensures
        backoff_cap(0) == 100,
        backoff_cap((attempt + 1) as u32) == if 2 * backoff_cap(attempt) <= 30_000 {
            2 * backoff_cap(attempt)
        } else {
            30_000
        },
        backoff_cap(attempt) <= 30_000,
{
    assert(doubled(0) == 1);
    let n = attempt as nat;
    assert(doubled(n + 1) == 2 * doubled(n));
    lemma_doubled_positive(n);
    assert(BASE_DELAY_MS * doubled(n + 1) == 2 * (BASE_DELAY_MS * doubled(n))) by (nonlinear_arith)
        requires
            doubled(n + 1) == 2 * doubled(n),
    ;
}

proof fn lemma_doubled_positive(n: nat)
    ensures
        doubled(n) >= 1,
    decreases n,
{
    if n > 0 {
        lemma_doubled_positive((n - 1) as nat);
    }
}

/// After a failure that may pass there is another try, unless this was the fifth or the waits would come to
/// more than a minute; the wait is what the server asked for, half a minute at most, or else what was drawn.
pub proof fn lemma_retry(s: RetryState, msg: Seq<char>, delay_ms: Option<u128>, jitter: u64)
    requires
        s.wf(),
        jitter <= 30_000,
    ensures
        ({
            let wait = match delay_ms {
                Some(d) => if d <= 30_000 {
                    d as int
                } else {
                    30_000
                },
                None => jitter as int,
            };
            match retry_decided(s, FailureView::Retryable { msg, delay_ms }, jitter) {
                StepView::Wait { ms, next } => s.attempt < 4 && s.slept_ms + wait <= 60_000 && ms == wait && next.attempt
                    == s.attempt + 1 && next.slept_ms == s.slept_ms + wait,
                StepView::Fail(e) => (s.attempt == 4 || s.slept_ms + wait > 60_000) && e == msg
                    + " (gave up after 5 attempts, "@ + text::decimal(s.slept_ms as nat) + "ms total)"@,
            }
        }),
{
    reveal_strlit(" (gave up after ");
    reveal_strlit(" attempts, ");
    reveal_strlit(" (gave up after 5 attempts, ");
    assert(text::decimal(5) =~= seq!['5']);
    assert(" (gave up after "@ + text::decimal(5) + " attempts, "@ =~= " (gave up after 5 attempts, "@);
    assert(gave_up(msg, s.slept_ms) =~= msg + " (gave up after 5 attempts, "@ + text::decimal(s.slept_ms as nat)
        + "ms total)"@);
}

/// The wait that is drawn is the random number within the bound, and half of the bound without one.
pub proof fn lemma_jitter(random: u64, max_ms: u64)
    ensures
        max_ms > 1 ==> jittered(Some(random), max_ms) == random % max_ms && jittered(None, max_ms) == max_ms / 2,
        max_ms <= 1 ==> jittered(Some(random), max_ms) == 0 && jittered(None, max_ms) == 0,
{
}

/// A host's own entry counts before the default, and an entry without a password gives no credentials.
pub proof fn lemma_credentials(n: NetrcView, host: Seq<char>)
    ensures
        match sorted::entry_of(n.hosts, host) {
            Some(m) => credentials_in(machine_for(n, host)) == match m.password {
                Some(p) => Some((m.login, p)),
                None => None,
            },
            None => credentials_in(machine_for(n, host)) == match n.default {
                Some(m) => match m.password {
                    Some(p) => Some((m.login, p)),
                    None => None,
                },
                None => None,
            },
        },
{
}

/// A version is found exactly if the index has it, and the features of a version are read under their names,
/// of two with the same name the last.
pub proof fn lemma_versions(versions: Seq<IndexVersionView>, version: Seq<char>, v: IndexVersionView, f: Seq<char>)
    ensures
        match lists::first_with(versions, is_version(version)) {
            Some(x) => x.version == version && versions.contains(x),
            None => forall|i: int| 0 <= i < versions.len() ==> (#[trigger] versions[i]).version != version,
        },
        sorted::ascending(index_features(v)),
        sorted::entry_of(index_features(v), f) == match lists::last_with(v.features, sorted::has_key(f)) {
            Some(e) => Some(e.1),
            None => None,
        },
{
    lists::lemma_first_with(versions, is_version(version));
    if lists::first_with(versions, is_version(version)) is None {
        assert forall|i: int| 0 <= i < versions.len() implies (#[trigger] versions[i]).version != version by {
            assert(!is_version(version)(versions[i]));
        }
    }
    sorted::lemma_map_of_ascending(v.features);
    sorted::lemma_map_of_reads(v.features, f);
}

/// What an index calls a dependency is the crate's name, unless it gives that besides.
pub proof fn lemma_index_names(d: IndexDepView)
    ensures
        d.package is None ==> crate_name_of(d) == d.name,
        d.package matches Some(p) ==> crate_name_of(d) == p,
{
}

/// The jobs that are left to do are exactly those that are not cached, in their order.
pub proof fn lemma_uncached(jobs: Seq<JobView>, cached: Seq<bool>, j: JobView)
    requires
        jobs.len() == cached.len(),
    ensures
        uncached(jobs, cached).contains(j) <==> exists|k: int|
            0 <= k < jobs.len() && #[trigger] jobs[k] == j && !cached[k],
        uncached(jobs, cached).len() <= jobs.len(),
        (forall|k: int| 0 <= k < cached.len() ==> !#[trigger] cached[k]) ==> uncached(jobs, cached) == jobs,
    decreases jobs.len(),
{
    if jobs.len() > 0 {
        let t = jobs.drop_last();
        let c = cached.drop_last();
        let n = jobs.len() - 1;
        lemma_uncached(t, c, j);
        let a = uncached(t, c);
        let b = uncached(jobs, cached);
        assert(jobs[n] == jobs.last() && cached[n] == cached.last());
        if a.contains(j) {
            let k = choose|k: int| 0 <= k < t.len() && #[trigger] t[k] == j && !c[k];
            assert(jobs[k] == j && !cached[k]);
            let i = choose|i: int| 0 <= i < a.len() && a[i] == j;
            assert(b[i] == j);
        }
        if !cached.last() && jobs.last() == j {
            assert(b[a.len() as int] == j);
        }
        if b.contains(j) && !a.contains(j) {
            let i = choose|i: int| 0 <= i < b.len() && b[i] == j;
            if i < a.len() {
                assert(a[i] == j);
            }
            assert(jobs[n] == j && !cached[n]);
        }
        if exists|k: int| 0 <= k < jobs.len() && #[trigger] jobs[k] == j && !cached[k] {
            let k = choose|k: int| 0 <= k < jobs.len() && #[trigger] jobs[k] == j && !cached[k];
            if k < n {
                assert(t[k] == j && !c[k]);
            }
        }
        if forall|k: int| 0 <= k < cached.len() ==> !#[trigger] cached[k] {
            assert forall|k: int| 0 <= k < c.len() implies !#[trigger] c[k] by {
                assert(!cached[k]);
            }
            assert(!cached[n]);
            assert(b =~= jobs);
        }
    } else {
        assert(uncached(jobs, cached) =~= jobs);
    }
}

} // verus!
