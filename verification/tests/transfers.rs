use teleport_box::error::Error;
use teleport_box::os_text::{OsText, PathSet};
use teleport_box::transfer::{
    absolute_shared_candidate, ancestors, check_pull, ensure_within_shared_dir, file_basename,
    plan_pull, plan_push, resolve_existing_shared_path, resolve_shared_output_path,
    split_existing_parent, PullDestination,
};
use teleport_box::util::ProcessStatus;
use teleport_box::wrapper::{shell_with_arg, WrapperEnv};

fn os(s: &str) -> OsText {
    OsText::from_text(s)
}

fn list(items: &[&str]) -> Vec<OsText> {
    items.iter().map(|s| os(s)).collect()
}

fn env(shared_dir: Option<&str>) -> WrapperEnv {
    WrapperEnv {
        destination: "root@host".to_string(),
        port: None,
        identity_file: None,
        known_hosts: "/codex/ssh/known_hosts".to_string(),
        control_path: None,
        host_ssh: "/codex/host-bin/ssh".to_string(),
        batch_mode: false,
        ssh_options: vec![],
        remote_cwd: "/root".to_string(),
        remote_home: "/root".to_string(),
        remote_shell: "/bin/sh".to_string(),
        remote_path: "/bin".to_string(),
        shared_dir: shared_dir.map(os),
    }
}

fn set(paths: &[&str]) -> PathSet {
    let mut out = PathSet::new();
    for p in paths {
        out.insert(os(p));
    }
    out
}

fn last_argument(command: teleport_box::wrapper::CommandLine) -> String {
    command.args.into_vec().pop().unwrap().shown()
}

#[test]
fn shared_paths_must_stay_under_shared_dir() {
    let shared = os("/tmp/t/shared");
    assert!(resolve_existing_shared_path(&os("/tmp/t/shared/report.txt"), &shared).is_ok());
    assert!(resolve_existing_shared_path(&os("/tmp/t/outside/report.txt"), &shared).is_err());
}

#[test]
fn pulls_are_planned() {
    let plan = plan_pull(&env(Some("/shared")), &list(&["/var/log/x y"])).unwrap();
    assert_eq!(plan.remote_path, "/var/log/x y");
    assert_eq!(plan.destination, PullDestination::InShared(os("/shared/x y")));
    assert_eq!(plan.command.program, os("/codex/host-bin/ssh"));
    assert_eq!(
        last_argument(plan.command),
        shell_with_arg("/bin/sh", "cat -- \"$1\"", "/var/log/x y")
    );
    let plan = plan_pull(&env(Some("/shared")), &list(&["a", "out/b", "more"])).unwrap();
    assert_eq!(plan.destination, PullDestination::Given("out/b".to_string()));
}

#[test]
fn pulls_that_are_refused() {
    let refused = |shared, args: &[OsText]| plan_pull(&env(shared), &args.to_vec()).unwrap_err();
    assert_eq!(refused(None, &[]), Error::PullNeedsSharedDir);
    assert_eq!(refused(Some("/shared"), &[]), Error::PullUsage);
    assert_eq!(
        refused(Some("/shared"), &[os("a"), OsText::from_bytes(vec![0xff])]),
        Error::PullArgumentNotText
    );
    assert_eq!(refused(Some("/shared"), &[os("/..")]), Error::NoFileName("/..".to_string()));
    let failed = ProcessStatus { code: Some(1), signal: None };
    assert_eq!(check_pull(failed, &os(" no\n")).unwrap_err(), Error::PullFailed("no".to_string()));
    assert!(check_pull(ProcessStatus { code: Some(0), signal: None }, &os("noise")).is_ok());
}

#[test]
fn pushes_are_planned() {
    let plan = plan_push(&env(Some("/shared")), &list(&["/shared/a", "/opt/b"])).unwrap();
    assert_eq!(plan.local_path, "/shared/a");
    assert_eq!(plan.remote_path, "/opt/b");
    let script = concat_script();
    assert_eq!(last_argument(plan.command), shell_with_arg("/bin/sh", &script, "/opt/b"));
}

fn concat_script() -> String {
    [
        "dst=$1; ",
        "dir=$(dirname -- \"$dst\") || exit 1; ",
        "mkdir -p -- \"$dir\" || exit 1; ",
        "tmp=$(mktemp \"${dst}.XXXXXX\") || exit 1; ",
        "trap 'rm -f -- \"$tmp\"' EXIT; ",
        "cat > \"$tmp\" && mv -f -- \"$tmp\" \"$dst\"",
    ]
    .concat()
}

#[test]
fn pushes_that_are_refused() {
    let refused = |shared, args: &[OsText]| plan_push(&env(shared), &args.to_vec()).unwrap_err();
    assert_eq!(refused(None, &[os("a"), os("b")]), Error::PushNeedsSharedDir);
    assert_eq!(refused(Some("/shared"), &[os("a")]), Error::PushUsage);
    assert_eq!(refused(Some("/shared"), &[os("a"), os("b"), os("c")]), Error::PushUsage);
    assert_eq!(
        refused(Some("/shared"), &[OsText::from_bytes(vec![0xff])]),
        Error::PushArgumentNotText
    );
}

#[test]
fn paths_are_split_where_they_exist() {
    let present = set(&["/", "/shared", "/shared/a"]);
    let (existing, tail) = split_existing_parent(&os("/shared/a/b/c"), &present).unwrap();
    assert_eq!(existing, os("/shared/a"));
    assert_eq!(tail, list(&["b", "c"]));
    let (existing, tail) = split_existing_parent(&os("/shared"), &present).unwrap();
    assert_eq!(existing, os("/shared"));
    assert!(tail.is_empty());
    assert_eq!(
        split_existing_parent(&os("/shared/../x"), &set(&[])).unwrap_err(),
        Error::NoExistingParent(os("/shared/../x"))
    );
    assert_eq!(
        split_existing_parent(&os("/a"), &set(&[])).unwrap_err(),
        Error::NoExistingParent(os("/a"))
    );
    assert_eq!(ancestors(&os("/a/b/c")), list(&["/a/b/c", "/a/b", "/a", "/"]));
    assert_eq!(ancestors(&os("a/b")), list(&["a/b", "a", ""]));
}

#[test]
fn resolved_paths_stay_in_the_shared_directory() {
    let shared = os("/shared");
    assert!(ensure_within_shared_dir(&os("/shared"), &shared).is_ok());
    assert!(ensure_within_shared_dir(&os("/shared/a"), &shared).is_ok());
    assert_eq!(
        ensure_within_shared_dir(&os("/sharedx"), &shared).unwrap_err(),
        Error::OutsideSharedDir(os("/shared"))
    );
    assert_eq!(
        resolve_shared_output_path(&os("/shared/a"), &list(&["b", "c"]), &shared).unwrap(),
        os("/shared/a/b/c")
    );
    assert_eq!(
        resolve_shared_output_path(&os("/elsewhere"), &list(&["b"]), &shared).unwrap_err(),
        Error::OutsideSharedDir(os("/shared"))
    );
    assert_eq!(absolute_shared_candidate("/x", &os("/work")), os("/x"));
    assert_eq!(absolute_shared_candidate("x", &os("/work")), os("/work/x"));
    assert_eq!(file_basename("a/b/").unwrap(), "b");
    assert_eq!(file_basename("").unwrap_err(), Error::NoFileName(String::new()));
}
