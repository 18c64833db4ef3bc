use glide_core::launch::{
    launch_app, launch_app_then, validate_bundle_id, Launch, LaunchError, Launching, OnExit,
};

/// Runs launches, recording each `open` and each callback in order.
struct Opener {
    launching: Launching,
    log: Vec<String>,
}

impl Opener {
    fn new() -> Opener {
        Opener { launching: Launching::new(), log: vec![] }
    }

    fn launch(&mut self, id: &str, on_exit: u64) -> Result<(), LaunchError> {
        let callback = OnExit::Call(on_exit);
        match launch_app_then(&mut self.launching, id, callback)? {
            Launch::Open => {
                self.log.push(format!("open {id}"));
                self.launching.started(id, callback, Ok(()))
            }
            Launch::Waiting => Ok(()),
        }
    }

    fn finish(&mut self, id: &str, launched: bool) {
        for on_exit in self.launching.finished(id) {
            match on_exit {
                OnExit::Call(n) => self.log.push(format!("exit {n} {launched}")),
                OnExit::Nothing => {}
            }
        }
    }
}

#[test]
fn validate_bundle_id_accepts_valid_ids() {
    assert_eq!(validate_bundle_id("com.apple.TextEdit"), Ok(()));
    assert_eq!(validate_bundle_id("com.example.my-app2"), Ok(()));
}

#[test]
fn validate_bundle_id_rejects_empty() {
    assert_eq!(validate_bundle_id(""), Err(LaunchError::EmptyBundleId));
    assert_eq!(launch_app(&mut Launching::new(), ""), Err(LaunchError::EmptyBundleId));
}

#[test]
fn launch_does_not_open_or_call_back_for_an_invalid_id() {
    for id in ["", "-a", "com.example app"] {
        let mut opener = Opener::new();
        assert!(opener.launch(id, 0).is_err(), "{id:?}");
        opener.finish(id, true);
        assert!(opener.log.is_empty(), "{id:?}");
    }
}

#[test]
fn launch_opens_the_id_and_reports_the_result() {
    for opened in [true, false] {
        let mut opener = Opener::new();
        assert_eq!(opener.launch("com.example.app", 0), Ok(()));
        opener.finish("com.example.app", opened);
        assert_eq!(opener.log, ["open com.example.app".to_owned(), format!("exit 0 {opened}")]);
    }
}

#[test]
fn launch_does_not_open_an_id_again_while_it_is_opening() {
    const ID: &str = "com.example.slow-open";
    let mut opener = Opener::new();
    assert_eq!(opener.launch(ID, 0), Ok(()));
    assert_eq!(opener.log, ["open com.example.slow-open"]);
    for i in 1..=3 {
        assert_eq!(opener.launch(ID, i), Ok(()));
    }
    assert_eq!(opener.log.len(), 1, "opened again or exited early");

    // Every launch gets the result of the running open.
    opener.log.clear();
    opener.finish(ID, false);
    assert_eq!(
        opener.log,
        ["exit 0 false", "exit 1 false", "exit 2 false", "exit 3 false"]
    );

    // Once it has finished, the id is opened again.
    opener.log.clear();
    assert_eq!(opener.launch(ID, 4), Ok(()));
    opener.finish(ID, true);
    assert_eq!(opener.log, ["open com.example.slow-open", "exit 4 true"]);
}

#[test]
fn validate_bundle_id_rejects_invalid_characters() {
    for id in [
        "com.example app",
        "com.example;rm",
        "-a",
        "com.example/app",
        "com.example_app",
        "com.exampl\u{e9}",
        "com.example\n",
        "$(id)",
    ] {
        assert_eq!(
            validate_bundle_id(id),
            Err(LaunchError::InvalidBundleId(id.to_owned())),
            "{id:?}"
        );
        assert!(Opener::new().launch(id, 0).is_err(), "{id:?}");
    }
}

#[test]
fn validate_bundle_id_accepts_edge_valid_ids() {
    for id in ["a", "A", "0", "com.Example.APP-9", "a-", "a.b.c.d.e.f"] {
        assert_eq!(validate_bundle_id(id), Ok(()), "{id:?}");
    }
    let long = "a.".repeat(500) + "b";
    assert_eq!(validate_bundle_id(&long), Ok(()));
}

#[test]
fn validate_bundle_id_rejects_option_like_and_control_characters() {
    for id in [
        "-",
        "--help",
        "-b",
        " com.example.app",
        "com.example.app ",
        "com.example\tapp",
        "com.example\0app",
        "com.example\rapp",
        "com.example'app",
        "com.example\"app",
        "com.example`id`",
        "com.example|app",
        "com.example&app",
        "com.example*",
        "com.\u{0661}\u{0662}",
        "com.\u{ff41}pp",
        "com.example\u{200b}",
    ] {
        assert_eq!(
            validate_bundle_id(id),
            Err(LaunchError::InvalidBundleId(id.to_owned())),
            "{id:?}"
        );
        assert!(Opener::new().launch(id, 0).is_err(), "{id:?}");
    }
}

#[test]
fn launch_error_messages_describe_the_problem() {
    assert_eq!(
        LaunchError::EmptyBundleId.message(),
        "bundle id must not be empty"
    );
    assert!(LaunchError::InvalidBundleId("a b".into()).message().contains("\"a b\""));
}

#[test]
fn launch_error_messages_are_exact() {
    assert_eq!(
        LaunchError::InvalidBundleId("a\"b".into()).message(),
        "bundle id \"a\\\"b\" must contain only [A-Za-z0-9.-] and not start with '-'"
    );
    assert_eq!(
        LaunchError::Spawn("no memory".into()).message(),
        "could not start a thread to launch the app: no memory"
    );
}

#[test]
fn failed_start_is_reported_and_leaves_no_callback() {
    let mut launching = Launching::new();
    assert_eq!(launch_app(&mut launching, "com.example.app"), Ok(Launch::Open));
    assert_eq!(
        launching.started("com.example.app", OnExit::Nothing, Err("no memory".to_owned())),
        Err(LaunchError::Spawn("no memory".to_owned()))
    );
    assert!(launching.finished("com.example.app").is_empty());
    assert_eq!(launch_app(&mut launching, "com.example.app"), Ok(Launch::Open));
}
