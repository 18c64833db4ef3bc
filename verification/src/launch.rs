//! Launching applications.
use vstd::prelude::*;

use crate::names::NameMap;
use crate::text::chars_of;

verus! {

/// Why an application was not launched.
#[derive(Debug, PartialEq, Eq)]
pub enum LaunchError {
    EmptyBundleId,
    InvalidBundleId(String),
    /// The thread to launch the app could not be started.
    Spawn(String),
}

/// The text in double quotes, with quotes, backslashes and control characters
/// escaped: what the `Debug` formatting of `str` gives.
pub uninterp spec fn quoted(text: Seq<char>) -> Seq<char>;

/// Formats a text with `Debug`. The result is a function of the text alone; how
/// each character is escaped is left unsaid.
#[verifier::external_body]
fn quote(text: &str) -> (q: String)
    ensures
        q@ == quoted(text@),
{
    format!("{text:?}")
}

impl LaunchError {
    pub open spec fn text(self) -> Seq<char> {
        match self {
            LaunchError::EmptyBundleId => "bundle id must not be empty"@,
            LaunchError::InvalidBundleId(id) => "bundle id "@ + quoted(id@)
                + " must contain only [A-Za-z0-9.-] and not start with '-'"@,
            LaunchError::Spawn(err) => "could not start a thread to launch the app: "@ + err@,
        }
    }

    /// The error in words.
    pub fn message(&self) -> (text: String)
        ensures
            text@ == self.text(),
    {
        match self {
            LaunchError::EmptyBundleId => "bundle id must not be empty".to_owned(),
            LaunchError::InvalidBundleId(id) => {
                let q = quote(id.as_str());
                let mut text = "bundle id ".to_owned();
                text.append(q.as_str());
                text.append(" must contain only [A-Za-z0-9.-] and not start with '-'");
                text
            },
            LaunchError::Spawn(err) => {
                let mut text = "could not start a thread to launch the app: ".to_owned();
                text.append(err.as_str());
                text
            },
        }
    }
}

/// A character that a bundle id may hold.
pub open spec fn allowed(c: char) -> bool {
    ||| 'a' <= c <= 'z'
    ||| 'A' <= c <= 'Z'
    ||| '0' <= c <= '9'
    ||| c == '.'
    ||| c == '-'
}

/// A bundle id is not empty, holds only `[A-Za-z0-9.-]` and does not start with
/// `-`.
pub open spec fn valid_bundle_id(id: Seq<char>) -> bool {
    &&& id.len() > 0
    &&& id[0] != '-'
    &&& forall|i: int| 0 <= i < id.len() ==> allowed(#[trigger] id[i])
}

/// What is wrong with a bundle id, if anything is.
pub open spec fn checked(id: Seq<char>, r: Result<(), LaunchError>) -> bool {
    match r {
        Ok(_) => valid_bundle_id(id),
        Err(LaunchError::EmptyBundleId) => id.len() == 0,
        Err(LaunchError::InvalidBundleId(bad)) => id.len() > 0 && !valid_bundle_id(id) && bad@ == id,
        Err(LaunchError::Spawn(_)) => false,
    }
}

/// Checks a bundle id the way [`launch_app`] does, without launching anything.
pub fn validate_bundle_id(bundle_id: &str) -> (r: Result<(), LaunchError>)
    ensures
        checked(bundle_id@, r),
{
    let chars = chars_of(bundle_id);
    if chars.len() == 0 {
        return Err(LaunchError::EmptyBundleId);
    }
    if chars[0] == '-' {
        return Err(LaunchError::InvalidBundleId(bundle_id.to_owned()));
    }
    let mut i: usize = 0;
    while i < chars.len()
        invariant
            i <= chars.len(),
            chars@ == bundle_id@,
            chars@.len() > 0,
            forall|j: int| 0 <= j < i ==> allowed(#[trigger] chars@[j]),
        decreases chars.len() - i,
    {
        let c = chars[i];
        if !(('a' <= c && c <= 'z') || ('A' <= c && c <= 'Z') || ('0' <= c && c <= '9') || c == '.' || c == '-') {
            proof {
                assert(!allowed(bundle_id@[i as int]));
            }
            return Err(LaunchError::InvalidBundleId(bundle_id.to_owned()));
        }
        i += 1;
    }
    Ok(())
}

/// What is called once an `open` has finished.
#[derive(Clone, Copy, Debug, PartialEq, Eq, Structural)]
pub enum OnExit {
    Nothing,
    /// The callback with this number.
    Call(u64),
}

/// What a launch leads to.
#[derive(Clone, Copy, Debug, PartialEq, Eq, Structural)]
pub enum Launch {
    /// Start an `open` for the bundle id, and report it to
    /// [`Launching::started`].
    Open,
    /// An `open` for the bundle id is running already. The callback waits for
    /// it.
    Waiting,
}

/// The callbacks waiting for each bundle id whose `open` is running.
pub struct Launching {
    waiting: NameMap<Vec<OnExit>>,
}

impl View for Launching {
    type V = Map<Seq<char>, Seq<OnExit>>;

    closed spec fn view(&self) -> Map<Seq<char>, Seq<OnExit>> {
        self.waiting@.map_values(|v: Vec<OnExit>| v@)
    }
}

/// Launches the application. The bundle id must be non-empty and contain only
/// `[A-Za-z0-9.-]`, and must not start with `-`.
pub fn launch_app(launching: &mut Launching, bundle_id: &str) -> (r: Result<Launch, LaunchError>)
    requires
        old(launching).wf(),
    ensures
        final(launching).wf(),
        launched(old(launching)@, final(launching)@, bundle_id@, OnExit::Nothing, r),
{
    launch_app_then(launching, bundle_id, OnExit::Nothing)
}

/// Like [`launch_app`], then calls `on_exit` with whether `open` succeeded.
/// `on_exit` is not called if the bundle id is invalid. While `open` runs for
/// a bundle id, launching it again only adds `on_exit` to the callbacks of the
/// running `open`.
pub fn launch_app_then(launching: &mut Launching, bundle_id: &str, on_exit: OnExit) -> (r: Result<
    Launch,
    LaunchError,
>)
    requires
        old(launching).wf(),
    ensures
        final(launching).wf(),
        launched(old(launching)@, final(launching)@, bundle_id@, on_exit, r),
{
    match validate_bundle_id(bundle_id) {
        Ok(_) => {},
        Err(err) => {
            return Err(err);
        },
    }
    let ghost before = launching.waiting@;
    match launching.waiting.remove(bundle_id) {
        Some(waiting) => {
            let mut waiting = waiting;
            waiting.push(on_exit);
            launching.waiting.insert(bundle_id, waiting);
            proof {
                assert(launching@ =~= old(launching)@.insert(bundle_id@, old(launching)@[bundle_id@].push(on_exit)));
            }
            Ok(Launch::Waiting)
        },
        None => {
            proof {
                assert(before.remove(bundle_id@) =~= before);
            }
            Ok(Launch::Open)
        },
    }
}

/// What a launch answers, and what it does to the running launches.
pub open spec fn launched(
    before: Map<Seq<char>, Seq<OnExit>>,
    after: Map<Seq<char>, Seq<OnExit>>,
    id: Seq<char>,
    on_exit: OnExit,
    r: Result<Launch, LaunchError>,
) -> bool {
    match r {
        Ok(Launch::Open) => valid_bundle_id(id) && !before.dom().contains(id) && after == before,
        Ok(Launch::Waiting) => valid_bundle_id(id) && before.dom().contains(id) && after == before.insert(
            id,
            before[id].push(on_exit),
        ),
        Err(err) => checked(id, Err(err)) && after == before,
    }
}

impl Launching {
    pub closed spec fn wf(&self) -> bool {
        self.waiting.wf()
    }

    pub fn new() -> (l: Launching)
        ensures
            l.wf(),
            l@ == Map::<Seq<char>, Seq<OnExit>>::empty(),
    {
        let l = Launching { waiting: NameMap::new() };
        proof {
            assert(l@ =~= Map::<Seq<char>, Seq<OnExit>>::empty());
        }
        l
    }

    /// Records whether the `open` of [`Launch::Open`] could be started. If it
    /// was, `on_exit` waits for it.
    pub fn started(&mut self, bundle_id: &str, on_exit: OnExit, spawned: Result<(), String>) -> (r: Result<
        (),
        LaunchError,
    >)
        requires
            old(self).wf(),
        ensures
            final(self).wf(),
            spawned is Ok ==> r is Ok && final(self)@ == old(self)@.insert(bundle_id@, seq![on_exit]),
            spawned matches Err(err) ==> r == Err::<(), LaunchError>(LaunchError::Spawn(err)) && final(self)@
                == old(self)@,
    {
        match spawned {
            Ok(_) => {
                let mut waiting: Vec<OnExit> = Vec::new();
                waiting.push(on_exit);
                self.waiting.insert(bundle_id, waiting);
                proof {
                    assert(waiting@ =~= seq![on_exit]);
                    assert(self@ =~= old(self)@.insert(bundle_id@, seq![on_exit]));
                }
                Ok(())
            },
            Err(err) => Err(LaunchError::Spawn(err)),
        }
    }

    /// The `open` for the bundle id has finished. Returns the callbacks to call
    /// with its result, in the order of their launches.
    pub fn finished(&mut self, bundle_id: &str) -> (waiting: Vec<OnExit>)
        requires
            old(self).wf(),
        ensures
            final(self).wf(),
            final(self)@ == old(self)@.remove(bundle_id@),
            waiting@ == (if old(self)@.dom().contains(bundle_id@) {
                old(self)@[bundle_id@]
            } else {
                Seq::empty()
            }),
    {
        let waiting = match self.waiting.remove(bundle_id) {
            Some(waiting) => waiting,
            None => Vec::new(),
        };
        proof {
            assert(self@ =~= old(self)@.remove(bundle_id@));
        }
        waiting
    }
}

/// An invalid bundle id opens nothing and leaves no callback behind.
pub proof fn invalid_launch_changes_nothing(
    before: Map<Seq<char>, Seq<OnExit>>,
    after: Map<Seq<char>, Seq<OnExit>>,
    id: Seq<char>,
    on_exit: OnExit,
    r: Result<Launch, LaunchError>,
)
    requires
        launched(before, after, id, on_exit, r),
        !valid_bundle_id(id),
    ensures
        r is Err,
        after == before,
{
}

/// While an `open` runs, a launch of the same id opens nothing: its callback
/// joins those that get the result of the running `open`, after the others.
pub proof fn running_open_is_shared(
    before: Map<Seq<char>, Seq<OnExit>>,
    after: Map<Seq<char>, Seq<OnExit>>,
    id: Seq<char>,
    on_exit: OnExit,
    r: Result<Launch, LaunchError>,
)
    requires
        launched(before, after, id, on_exit, r),
        valid_bundle_id(id),
        before.dom().contains(id),
    ensures
        r == Ok::<Launch, LaunchError>(Launch::Waiting),
        after.dom() == before.dom(),
        after[id] == before[id].push(on_exit),
{
    assert(after.dom() =~= before.dom());
}

/// Once an `open` has finished, launching its id opens it again.
pub proof fn finished_id_is_opened_again(
    running: Map<Seq<char>, Seq<OnExit>>,
    after: Map<Seq<char>, Seq<OnExit>>,
    id: Seq<char>,
    on_exit: OnExit,
    r: Result<Launch, LaunchError>,
)
    requires
        launched(running.remove(id), after, id, on_exit, r),
        valid_bundle_id(id),
    ensures
        r == Ok::<Launch, LaunchError>(Launch::Open),
{
}

/// Text is a bundle id exactly if it is not empty, does not start with a dash
/// and holds nothing but ASCII letters, digits, dots and dashes.
pub proof fn bundle_ids_hold_letters_digits_dots_and_dashes(id: Seq<char>)
    ensures
        valid_bundle_id(id) <==> {
            &&& id.len() > 0
            &&& id[0] as int != 45
            &&& forall|i: int|
                0 <= i < id.len() ==> {
                    let c = #[trigger] id[i] as int;
                    97 <= c <= 122 || 65 <= c <= 90 || 48 <= c <= 57 || c == 46 || c == 45
                }
        },
{
    if valid_bundle_id(id) {
        assert forall|i: int| 0 <= i < id.len() implies {
            let c = #[trigger] id[i] as int;
            97 <= c <= 122 || 65 <= c <= 90 || 48 <= c <= 57 || c == 46 || c == 45
        } by {
            assert(allowed(id[i]));
        }
    }
    if id.len() > 0 && id[0] as int != 45 && forall|i: int|
        0 <= i < id.len() ==> {
            let c = #[trigger] id[i] as int;
            97 <= c <= 122 || 65 <= c <= 90 || 48 <= c <= 57 || c == 46 || c == 45
        } {
        assert forall|i: int| 0 <= i < id.len() implies allowed(#[trigger] id[i]) by {
            assert(id[i] as int == id[i] as int);
        }
    }
}

/// An empty bundle id is told apart from one that is not valid, which is named.
pub proof fn error_tells_what_is_wrong(id: Seq<char>, r: Result<(), LaunchError>)
    requires
        checked(id, r),
    ensures
        r is Ok <==> valid_bundle_id(id),
        r == Err::<(), LaunchError>(LaunchError::EmptyBundleId) <==> id.len() == 0,
        id.len() > 0 && r is Err ==> (r->Err_0 matches LaunchError::InvalidBundleId(bad) && bad@ == id),
{
}

} // verus!
