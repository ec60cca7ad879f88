//! The loader's side of the plugin boundary: how a plugin's library file is
//! named on each platform, how the parameter text is made ready to cross the
//! boundary, and in which order the steps of a call are taken.
//!
//! Opening a library and calling into it are the host program's part. The
//! decisions are made here: the program reports what happened as a
//! `LoaderEvent`, and `step` answers with the `LoaderAction` to take next.

use vstd::prelude::*;
use vstd::string::StringSliceAdditionalSpecFns;

verus! {

/// The name of the function that every plugin library exports.
pub const ENTRY_SYMBOL: &'static str = "process_image";

/// The platform whose naming of dynamic libraries applies.
#[derive(Clone, Copy, Debug, PartialEq, Eq, Structural)]
pub enum Platform {
    /// Linux and other Unix-like systems: `lib<name>.so`.
    Linux,
    /// macOS: `lib<name>.dylib`.
    MacOs,
    /// Windows: `<name>.dll`.
    Windows,
    /// Any other system; named as on Linux.
    Unknown,
}

/// The platform that an operating system's name stands for.
pub open spec fn platform_of(os: Seq<char>) -> Platform {
    if os == "macos"@ {
        Platform::MacOs
    } else if os == "linux"@ {
        Platform::Linux
    } else if os == "windows"@ {
        Platform::Windows
    } else {
        Platform::Unknown
    }
}

/// The file name of the library of plugin `name` on `platform`.
pub open spec fn filename_of(name: Seq<char>, platform: Platform) -> Seq<char> {
    match platform {
        Platform::MacOs => "lib"@ + name + ".dylib"@,
        Platform::Windows => name + ".dll"@,
        Platform::Linux | Platform::Unknown => "lib"@ + name + ".so"@,
    }
}

/// Whether two texts are the same.
fn same_text(a: &str, b: &str) -> (r: bool)
    ensures
        r == (a@ == b@),
{
    let left = String::from_str(a);
    let right = String::from_str(b);
    left == right
}

impl Platform {
    /// The platform that an operating system's name stands for: `"macos"`,
    /// `"linux"` or `"windows"`; any other name gives `Unknown`.
    pub fn from_os_name(os: &str) -> (r: Platform)
        ensures
            r == platform_of(os@),
    {
        if same_text(os, "macos") {
            Platform::MacOs
        } else if same_text(os, "linux") {
            Platform::Linux
        } else if same_text(os, "windows") {
            Platform::Windows
        } else {
            Platform::Unknown
        }
    }
}

/// The file name of the library of plugin `plugin_name` on `platform`.
pub fn library_filename(plugin_name: &str, platform: Platform) -> (r: String)
    ensures
        r@ == filename_of(plugin_name@, platform),
{
    match platform {
        Platform::MacOs => {
            let mut name = String::from_str("lib");
            name.append(plugin_name);
            name.append(".dylib");
            name
        },
        Platform::Windows => {
            let mut name = String::from_str(plugin_name);
            name.append(".dll");
            name
        },
        Platform::Linux | Platform::Unknown => {
            let mut name = String::from_str("lib");
            name.append(plugin_name);
            name.append(".so");
            name
        },
    }
}

/// Why a call of a plugin did not take place.
#[derive(Debug)]
pub enum LoaderError {
    /// The library at `path` could not be opened.
    LibraryLoad { path: String, reason: String },
    /// The library has no entry symbol.
    SymbolNotFound { reason: String },
    /// The parameter text holds a zero byte, at `position`.
    InvalidParameterEncoding { position: usize },
}

/// A `LoaderError` as a mathematical value.
pub enum LoaderFailure {
    LibraryLoad { path: Seq<char>, reason: Seq<char> },
    SymbolNotFound { reason: Seq<char> },
    InvalidParameterEncoding { position: int },
}

impl View for LoaderError {
    type V = LoaderFailure;

    open spec fn view(&self) -> LoaderFailure {
        match self {
            LoaderError::LibraryLoad { path, reason } => LoaderFailure::LibraryLoad {
                path: path@,
                reason: reason@,
            },
            LoaderError::SymbolNotFound { reason } => LoaderFailure::SymbolNotFound {
                reason: reason@,
            },
            LoaderError::InvalidParameterEncoding { position } => {
                LoaderFailure::InvalidParameterEncoding { position: *position as int }
            },
        }
    }
}

/// The message of a failure.
pub open spec fn message_of(failure: LoaderFailure) -> Seq<char> {
    match failure {
        LoaderFailure::LibraryLoad { path, reason } => "Failed to load plugin library: "@ + path,
        LoaderFailure::SymbolNotFound { reason } => "Failed to find process_image symbol"@,
        LoaderFailure::InvalidParameterEncoding { position } => "Invalid params string"@,
    }
}

impl LoaderError {
    /// The message of the error.
    pub fn message(&self) -> (r: String)
        ensures
            r@ == message_of(self@),
    {
        match self {
            LoaderError::LibraryLoad { path, reason } => {
                let mut text = String::from_str("Failed to load plugin library: ");
                text.append(path.as_str());
                text
            },
            LoaderError::SymbolNotFound { reason } => String::from_str(
                "Failed to find process_image symbol",
            ),
            LoaderError::InvalidParameterEncoding { position } => String::from_str(
                "Invalid params string",
            ),
        }
    }
}

/// Whether `i` is the place of the first zero byte of `bytes`.
pub open spec fn first_zero(bytes: Seq<u8>, i: int) -> bool {
    0 <= i < bytes.len() && bytes[i] == 0 && forall|j: int| 0 <= j < i ==> bytes[j] != 0
}

/// Whether `bytes` holds no zero byte.
pub open spec fn zero_free(bytes: Seq<u8>) -> bool {
    forall|j: int| 0 <= j < bytes.len() ==> bytes[j] != 0
}

/// What `encode_bytes` gives for `bytes`: the bytes with a zero byte at the
/// end, or the failure that names the first zero byte among them.
pub open spec fn encoded(bytes: Seq<u8>) -> Result<Seq<u8>, LoaderFailure> {
    if zero_free(bytes) {
        Ok(bytes.push(0u8))
    } else {
        Err(
            LoaderFailure::InvalidParameterEncoding {
                position: choose|i: int| first_zero(bytes, i),
            },
        )
    }
}

/// Whether `r` is what encoding `bytes` gives.
pub open spec fn is_encoding(bytes: Seq<u8>, r: Result<Vec<u8>, LoaderError>) -> bool {
    match r {
        Ok(v) => zero_free(bytes) && v@ == bytes.push(0u8),
        Err(e) => exists|i: int|
            first_zero(bytes, i) && e@ == (LoaderFailure::InvalidParameterEncoding { position: i }),
    }
}

/// Ends `bytes` with a zero byte, as a callee that reads up to the first zero
/// byte expects. Fails where `bytes` holds a zero byte already: the callee
/// would see the text cut short.
pub fn encode_bytes(bytes: Vec<u8>) -> (r: Result<Vec<u8>, LoaderError>)
    ensures
        is_encoding(bytes@, r),
{
    let mut out = bytes;
    let len: usize = out.len();
    let mut i: usize = 0;
    while i < len
        invariant
            i <= len,
            len == out@.len(),
            out@ == bytes@,
            forall|j: int| 0 <= j < i ==> out@[j] != 0,
        decreases len - i,
    {
        if out[i] == 0 {
            assert(first_zero(bytes@, i as int));
            return Err(LoaderError::InvalidParameterEncoding { position: i });
        }
        i = i + 1;
    }
    out.push(0u8);
    Ok(out)
}

/// Makes the parameter text ready to cross the boundary: its UTF-8 bytes with
/// a zero byte at the end. Fails where the text holds a zero byte.
pub fn encode_params(params: &str) -> (r: Result<Vec<u8>, LoaderError>)
    ensures
        is_encoding(params.spec_bytes(), r),
{
    encode_bytes(params.as_bytes_vec())
}

/// How far a call of a plugin has come.
#[derive(Clone, Copy, Debug, PartialEq, Eq, Structural)]
pub enum LoaderState {
    /// Nothing has been done.
    Start,
    /// The library is being opened.
    Opening,
    /// The entry symbol is being looked up.
    Resolving,
    /// The entry point is running.
    Calling,
    /// The call has ended, in success or in failure.
    Finished,
}

/// What the host program reports to the loader.
#[derive(Debug)]
pub enum LoaderEvent {
    /// A call is asked for.
    Begin,
    /// The library was opened.
    Opened,
    /// The library could not be opened.
    OpenFailed { reason: String },
    /// The entry symbol was found.
    Resolved,
    /// The entry symbol was not found.
    ResolveFailed { reason: String },
    /// The entry point has returned.
    Returned,
}

/// A `LoaderEvent` as a mathematical value.
pub enum LoaderEventView {
    Begin,
    Opened,
    OpenFailed { reason: Seq<char> },
    Resolved,
    ResolveFailed { reason: Seq<char> },
    Returned,
}

impl View for LoaderEvent {
    type V = LoaderEventView;

    open spec fn view(&self) -> LoaderEventView {
        match self {
            LoaderEvent::Begin => LoaderEventView::Begin,
            LoaderEvent::Opened => LoaderEventView::Opened,
            LoaderEvent::OpenFailed { reason } => LoaderEventView::OpenFailed { reason: reason@ },
            LoaderEvent::Resolved => LoaderEventView::Resolved,
            LoaderEvent::ResolveFailed { reason } => LoaderEventView::ResolveFailed {
                reason: reason@,
            },
            LoaderEvent::Returned => LoaderEventView::Returned,
        }
    }
}

/// What the loader asks the host program to do next.
#[derive(Debug)]
pub enum LoaderAction {
    /// Open the library.
    OpenLibrary,
    /// Look up the entry symbol in the library.
    ResolveSymbol,
    /// Call the entry point with these parameter bytes.
    Call { params: Vec<u8> },
    /// Nothing more: the call has succeeded.
    Succeed,
    /// Nothing more: the call has failed.
    Fail { error: LoaderError },
}

/// A `LoaderAction` as a mathematical value.
pub enum LoaderActionView {
    OpenLibrary,
    ResolveSymbol,
    Call { params: Seq<u8> },
    Succeed,
    Fail { error: LoaderFailure },
}

impl View for LoaderAction {
    type V = LoaderActionView;

    open spec fn view(&self) -> LoaderActionView {
        match self {
            LoaderAction::OpenLibrary => LoaderActionView::OpenLibrary,
            LoaderAction::ResolveSymbol => LoaderActionView::ResolveSymbol,
            LoaderAction::Call { params } => LoaderActionView::Call { params: params@ },
            LoaderAction::Succeed => LoaderActionView::Succeed,
            LoaderAction::Fail { error } => LoaderActionView::Fail { error: error@ },
        }
    }
}

/// Whether `event` can be reported in `state`.
pub open spec fn accepts(state: LoaderState, event: LoaderEventView) -> bool {
    match (state, event) {
        (LoaderState::Start, LoaderEventView::Begin) => true,
        (LoaderState::Opening, LoaderEventView::Opened) => true,
        (LoaderState::Opening, LoaderEventView::OpenFailed { .. }) => true,
        (LoaderState::Resolving, LoaderEventView::Resolved) => true,
        (LoaderState::Resolving, LoaderEventView::ResolveFailed { .. }) => true,
        (LoaderState::Calling, LoaderEventView::Returned) => true,
        _ => false,
    }
}

/// The state after `event` was reported in `state`.
pub open spec fn next_state(
    state: LoaderState,
    event: LoaderEventView,
    params: Seq<u8>,
) -> LoaderState {
    match (state, event) {
        (LoaderState::Start, LoaderEventView::Begin) => LoaderState::Opening,
        (LoaderState::Opening, LoaderEventView::Opened) => LoaderState::Resolving,
        (LoaderState::Resolving, LoaderEventView::Resolved) => if zero_free(params) {
            LoaderState::Calling
        } else {
            LoaderState::Finished
        },
        _ => LoaderState::Finished,
    }
}

/// The action that answers `event` reported in `state`, for a library at
/// `path` and the parameter bytes `params`.
pub open spec fn next_action(
    state: LoaderState,
    event: LoaderEventView,
    path: Seq<char>,
    params: Seq<u8>,
) -> LoaderActionView {
    match (state, event) {
        (LoaderState::Start, LoaderEventView::Begin) => LoaderActionView::OpenLibrary,
        (LoaderState::Opening, LoaderEventView::Opened) => LoaderActionView::ResolveSymbol,
        (LoaderState::Opening, LoaderEventView::OpenFailed { reason }) => LoaderActionView::Fail {
            error: LoaderFailure::LibraryLoad { path, reason },
        },
        (LoaderState::Resolving, LoaderEventView::Resolved) => match encoded(params) {
            Ok(bytes) => LoaderActionView::Call { params: bytes },
            Err(error) => LoaderActionView::Fail { error },
        },
        (LoaderState::Resolving, LoaderEventView::ResolveFailed { reason }) => {
            LoaderActionView::Fail { error: LoaderFailure::SymbolNotFound { reason } }
        },
        _ => LoaderActionView::Succeed,
    }
}

impl LoaderState {
    /// Whether `event` can be reported in this state.
    pub fn accepts(&self, event: &LoaderEvent) -> (r: bool)
        ensures
            r == accepts(*self, event@),
    {
        match (self, event) {
            (LoaderState::Start, LoaderEvent::Begin) => true,
            (LoaderState::Opening, LoaderEvent::Opened) => true,
            (LoaderState::Opening, LoaderEvent::OpenFailed { .. }) => true,
            (LoaderState::Resolving, LoaderEvent::Resolved) => true,
            (LoaderState::Resolving, LoaderEvent::ResolveFailed { .. }) => true,
            (LoaderState::Calling, LoaderEvent::Returned) => true,
            _ => false,
        }
    }
}

/// Only one place is that of the first zero byte.
pub proof fn lemma_first_zero_unique(bytes: Seq<u8>, i: int)
    requires
        first_zero(bytes, i),
    ensures
        !zero_free(bytes),
        (choose|k: int| first_zero(bytes, k)) == i,
{
    let k: int = choose|k: int| first_zero(bytes, k);
    assert(first_zero(bytes, k));
}

/// Takes one step of a call of the plugin at `path` with the parameter text
/// `params`: answers the event that the host program reports in `state` with
/// the next state and the action to take.
///
/// The steps are taken in this order: open the library, look up the entry
/// symbol, encode the parameters, call. The first that fails ends the call.
pub fn step(state: LoaderState, event: LoaderEvent, path: &str, params: &str) -> (r: (
    LoaderState,
    LoaderAction,
))
    requires
        accepts(state, event@),
    ensures
        r.0 == next_state(state, event@, params.spec_bytes()),
        r.1@ == next_action(state, event@, path@, params.spec_bytes()),
{
    match (state, event) {
        (LoaderState::Start, LoaderEvent::Begin) => (LoaderState::Opening, LoaderAction::OpenLibrary),
        (LoaderState::Opening, LoaderEvent::Opened) => (
            LoaderState::Resolving,
            LoaderAction::ResolveSymbol,
        ),
        (LoaderState::Opening, LoaderEvent::OpenFailed { reason }) => (
            LoaderState::Finished,
            LoaderAction::Fail {
                error: LoaderError::LibraryLoad { path: String::from_str(path), reason },
            },
        ),
        (LoaderState::Resolving, LoaderEvent::Resolved) => match encode_params(params) {
            Ok(bytes) => (LoaderState::Calling, LoaderAction::Call { params: bytes }),
            Err(error) => {
                proof {
                    let i: int = choose|i: int|
                        first_zero(params.spec_bytes(), i) && error@ == (
                        LoaderFailure::InvalidParameterEncoding { position: i });
                    lemma_first_zero_unique(params.spec_bytes(), i);
                }
                (LoaderState::Finished, LoaderAction::Fail { error })
            },
        },
        (LoaderState::Resolving, LoaderEvent::ResolveFailed { reason }) => (
            LoaderState::Finished,
            LoaderAction::Fail { error: LoaderError::SymbolNotFound { reason } },
        ),
        _ => (LoaderState::Finished, LoaderAction::Succeed),
    }
}

/// The entry point is called only when the library was opened and the entry
/// symbol found, and only with parameter bytes that end in their one zero
/// byte. A parameter text that holds a zero byte never reaches the entry
/// point: in the state in which it would, the call ends with
/// `InvalidParameterEncoding`.
pub proof fn lemma_call_needs_clean_params(
    state: LoaderState,
    event: LoaderEventView,
    path: Seq<char>,
    params: Seq<u8>,
)
    requires
        accepts(state, event),
    ensures
        next_action(state, event, path, params) is Call ==> state == LoaderState::Resolving
            && event is Resolved && zero_free(params) && next_action(
            state,
            event,
            path,
            params,
        )->Call_params == params.push(0u8),
        next_state(state, event, params) == LoaderState::Calling <==> next_action(
            state,
            event,
            path,
            params,
        ) is Call,
        !zero_free(params) && state == LoaderState::Resolving && event is Resolved ==> next_action(
            state,
            event,
            path,
            params,
        ) is Fail && next_action(state, event, path, params)->Fail_error
            is InvalidParameterEncoding,
{
}

/// The state of a call after `events` were reported, one after the other,
/// from the start.
pub open spec fn state_after(events: Seq<LoaderEventView>, params: Seq<u8>) -> LoaderState
    decreases events.len(),
{
    if events.len() == 0 {
        LoaderState::Start
    } else {
        next_state(state_after(events.drop_last(), params), events.last(), params)
    }
}

/// Whether each of `events` could be reported in the state that the events
/// before it led to.
pub open spec fn in_turn(events: Seq<LoaderEventView>, params: Seq<u8>) -> bool
    decreases events.len(),
{
    events.len() == 0 || (in_turn(events.drop_last(), params) && accepts(
        state_after(events.drop_last(), params),
        events.last(),
    ))
}

/// The action that answers the last of `events`.
pub open spec fn last_action(
    events: Seq<LoaderEventView>,
    path: Seq<char>,
    params: Seq<u8>,
) -> LoaderActionView
    recommends
        events.len() > 0,
{
    next_action(state_after(events.drop_last(), params), events.last(), path, params)
}

/// The state of a call tells what was reported so far: nothing at the start,
/// then `Begin`, then `Opened`, then `Resolved`, the last of these only for
/// parameter bytes without a zero byte.
pub proof fn lemma_state_tells_events(events: Seq<LoaderEventView>, params: Seq<u8>)
    requires
        in_turn(events, params),
    ensures
        state_after(events, params) == LoaderState::Start <==> events.len() == 0,
        state_after(events, params) == LoaderState::Opening ==> events.len() == 1
            && events[0] is Begin,
        state_after(events, params) == LoaderState::Resolving ==> events.len() == 2
            && events[0] is Begin && events[1] is Opened,
        state_after(events, params) == LoaderState::Calling ==> events.len() == 3
            && events[0] is Begin && events[1] is Opened && events[2] is Resolved && zero_free(
            params,
        ),
    decreases events.len(),
{
    if events.len() > 0 {
        lemma_state_tells_events(events.drop_last(), params);
    }
}

/// In every run of the loader the entry point is called at most once, as the
/// third step: after the library was opened and the entry symbol found. It
/// is called with the parameter bytes and a zero byte after them, and never
/// for parameter bytes that hold a zero byte.
pub proof fn lemma_call_comes_third(
    events: Seq<LoaderEventView>,
    path: Seq<char>,
    params: Seq<u8>,
)
    requires
        events.len() > 0,
        in_turn(events, params),
        last_action(events, path, params) is Call,
    ensures
        events.len() == 3,
        events[0] is Begin,
        events[1] is Opened,
        events[2] is Resolved,
        zero_free(params),
        last_action(events, path, params)->Call_params == params.push(0u8),
{
    lemma_call_needs_clean_params(
        state_after(events.drop_last(), params),
        events.last(),
        path,
        params,
    );
    lemma_state_tells_events(events.drop_last(), params);
}

} // verus!
