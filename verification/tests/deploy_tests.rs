use doki::archive::{pack, pack_tar_gz, unpack, FAST_LEVEL};
use doki::deploy::{
    DeployAction, DeployReport, DeployState, DeploymentCoordinator, Outcome, Refusal, Step,
};
use doki::format::Format;
use doki::signal::{deploy_signal, refresh_signal, Signal};
use doki::sync::SyncError;
use doki::tree::{ContentTree, TreeEntry};
use std::collections::HashMap;
use std::io::Write;

fn file(path: &str, data: &[u8]) -> TreeEntry {
    TreeEntry::file(path.to_string(), data.to_vec())
}

fn listing(tree: &ContentTree) -> Vec<(String, Vec<u8>)> {
    let mut all: Vec<(String, Vec<u8>)> =
        tree.entries().into_iter().map(|e| (e.path, e.data)).collect();
    all.sort();
    all
}

fn served() -> ContentTree {
    let mut tree = ContentTree::new();
    tree.put(file("index.html", b"version one"));
    tree.put(file("css/site.css", b"body{}"));
    tree
}

fn valid_tar_gz() -> Vec<u8> {
    pack_tar_gz(&vec![file("index.html", b"version two"), file("js/app.js", b"run()")], 6)
        .expect("packed")
}

fn valid_zip() -> Vec<u8> {
    let mut writer = zip::ZipWriter::new(std::io::Cursor::new(Vec::new()));
    let options = zip::write::FileOptions::default();
    writer.start_file("index.html", options).unwrap();
    writer.write_all(b"zipped").unwrap();
    writer.finish().unwrap().into_inner()
}

/// A store held in memory, with steps that can be told to fail.
struct Store {
    tree: ContentTree,
    temp: HashMap<String, Vec<u8>>,
    failing: Vec<Step>,
    restore_fails: bool,
    half_written: Vec<TreeEntry>,
    performed: Vec<String>,
}

impl Store {
    fn new(tree: ContentTree) -> Store {
        Store {
            tree,
            temp: HashMap::new(),
            failing: Vec::new(),
            restore_fails: false,
            half_written: Vec::new(),
            performed: Vec::new(),
        }
    }

    fn outcome(&self, step: Step, done: bool) -> Outcome {
        if done && !self.failing.contains(&step) {
            Outcome::Done
        } else {
            Outcome::Failed
        }
    }

    /// Runs a whole deployment of `upload` and returns its report.
    fn deploy(&mut self, id: &str, format: Format, upload: &[u8]) -> DeployReport {
        let mut coordinator = DeploymentCoordinator::new(id.to_string(), format);
        let mut action = coordinator.pending();
        loop {
            let outcome = match action {
                DeployAction::Persist { to } => {
                    self.performed.push("persist".to_string());
                    if !self.failing.contains(&Step::Persist) {
                        self.temp.insert(to, upload.to_vec());
                    }
                    self.outcome(Step::Persist, true)
                }
                DeployAction::Backup { to, level } => {
                    self.performed.push("backup".to_string());
                    assert_eq!(level, FAST_LEVEL);
                    let packed = pack(&self.tree, level);
                    let done = packed.is_ok() && !self.failing.contains(&Step::Backup);
                    if done {
                        self.temp.insert(to, packed.unwrap());
                    }
                    self.outcome(Step::Backup, done)
                }
                DeployAction::Clear => {
                    self.performed.push("clear".to_string());
                    if !self.failing.contains(&Step::Clear) {
                        self.tree.clear();
                    }
                    self.outcome(Step::Clear, true)
                }
                DeployAction::Unpack { from, format } => {
                    self.performed.push("unpack".to_string());
                    let bytes = self.temp.get(&from).expect("the upload was persisted").clone();
                    self.tree.extract(self.half_written.clone());
                    let done = !self.failing.contains(&Step::Unpack)
                        && unpack(&bytes, &mut self.tree, format).is_ok();
                    self.outcome(Step::Unpack, done)
                }
                DeployAction::Restore { from } => {
                    self.performed.push("restore".to_string());
                    let bytes = self.temp.get(&from).expect("the backup was taken").clone();
                    if !self.restore_fails && unpack(&bytes, &mut self.tree, Format::TarGz).is_ok() {
                        Outcome::Done
                    } else {
                        Outcome::Failed
                    }
                }
                DeployAction::Conclude { report, remove } => {
                    for name in remove {
                        self.temp.remove(&name);
                    }
                    assert_eq!(coordinator.report(), Some(report));
                    return report;
                }
            };
            action = coordinator.step(outcome);
        }
    }
}

#[test]
fn a_new_deployment_is_idle_and_persists_first() {
    let coordinator = DeploymentCoordinator::new("id-1".to_string(), Format::Zip);
    assert_eq!(coordinator.state(), DeployState::Idle);
    assert_eq!(coordinator.id(), "id-1");
    assert_eq!(coordinator.report(), None);
    assert!(matches!(coordinator.pending(), DeployAction::Persist { to } if to == "temp_zip-id-1.zip"));
}

#[test]
fn fresh_deployments_get_their_own_identifiers() {
    let first = DeploymentCoordinator::begin(Format::TarGz).expect("a codec reads tar.gz");
    let second = DeploymentCoordinator::begin(Format::TarGz).expect("a codec reads tar.gz");
    assert_eq!(first.state(), DeployState::Idle);
    assert!(!first.id().is_empty());
    assert_ne!(first.id(), second.id());
    assert!(
        matches!(first.pending(), DeployAction::Persist { to } if to == format!("temp_tar.gz-{}.tar.gz", first.id()))
    );
}

#[test]
fn a_fresh_identifier_is_hyphenated_lower_case_hexadecimal() {
    for format in [Format::TarGz, Format::Zip] {
        let coordinator = DeploymentCoordinator::begin(format).expect("a codec reads it");
        let id: Vec<char> = coordinator.id().chars().collect();
        assert_eq!(id.len(), 36);
        for (i, c) in id.iter().enumerate() {
            if i == 8 || i == 13 || i == 18 || i == 23 {
                assert_eq!(*c, '-');
            } else {
                assert!(matches!(*c, '0'..='9' | 'a'..='f'), "{} at {}", c, i);
            }
        }
        match coordinator.pending() {
            DeployAction::Persist { to } => assert!(!to.contains('/')),
            other => panic!("unexpected action {:?}", other),
        }
    }
}

#[test]
fn a_format_without_a_codec_is_refused_before_anything_begins() {
    assert!(DeploymentCoordinator::begin(Format::Rar).is_none());
    assert!(DeploymentCoordinator::begin(Format::Zip).is_some());
    assert!(DeploymentCoordinator::begin(Format::TarGz).is_some());
}

#[test]
fn the_steps_of_a_successful_deployment() {
    let mut c = DeploymentCoordinator::new("7".to_string(), Format::TarGz);
    assert!(matches!(c.step(Outcome::Done), DeployAction::Backup { to, level } if to == "backup-7.tar.gz" && level == 1));
    assert_eq!(c.state(), DeployState::Persisted);
    assert!(matches!(c.step(Outcome::Done), DeployAction::Clear));
    assert_eq!(c.state(), DeployState::BackedUp);
    assert!(matches!(c.step(Outcome::Done), DeployAction::Unpack { from, format } if from == "temp_tar.gz-7.tar.gz" && format == Format::TarGz));
    assert_eq!(c.state(), DeployState::Cleared);
    assert_eq!(c.report(), None);
    match c.step(Outcome::Done) {
        DeployAction::Conclude { report, remove } => {
            assert_eq!(report, DeployReport::Deployed);
            assert_eq!(remove, vec!["backup-7.tar.gz".to_string(), "temp_tar.gz-7.tar.gz".to_string()]);
        }
        other => panic!("unexpected action {:?}", other),
    }
    assert_eq!(c.state(), DeployState::Unpacked);
    assert_eq!(c.report(), Some(DeployReport::Deployed));
}

#[test]
fn the_steps_of_a_rollback() {
    let mut c = DeploymentCoordinator::new("7".to_string(), Format::Zip);
    c.step(Outcome::Done);
    c.step(Outcome::Done);
    c.step(Outcome::Done);
    assert!(matches!(c.step(Outcome::Failed), DeployAction::Restore { from } if from == "backup-7.tar.gz"));
    assert_eq!(c.state(), DeployState::RollingBack);
    assert_eq!(c.report(), None);
    match c.step(Outcome::Done) {
        DeployAction::Conclude { report, remove } => {
            assert_eq!(report, DeployReport::Failed(Step::Unpack));
            assert_eq!(remove, vec!["backup-7.tar.gz".to_string(), "temp_zip-7.zip".to_string()]);
        }
        other => panic!("unexpected action {:?}", other),
    }
    assert_eq!(c.state(), DeployState::RolledBack);
}

#[test]
fn a_failed_restoration_is_unrecoverable() {
    let mut c = DeploymentCoordinator::new("7".to_string(), Format::Zip);
    c.step(Outcome::Done);
    c.step(Outcome::Done);
    c.step(Outcome::Done);
    c.step(Outcome::Failed);
    match c.step(Outcome::Failed) {
        DeployAction::Conclude { report, remove } => {
            assert_eq!(report, DeployReport::Unrecoverable);
            assert!(remove.is_empty());
        }
        other => panic!("unexpected action {:?}", other),
    }
    assert_eq!(c.state(), DeployState::Unrecoverable);
    assert_eq!(c.report(), Some(DeployReport::Unrecoverable));
}

#[test]
fn early_failures_abort_without_rollback() {
    for (successes, step) in [(0, Step::Persist), (1, Step::Backup), (2, Step::Clear)] {
        let mut c = DeploymentCoordinator::new("7".to_string(), Format::TarGz);
        for _ in 0..successes {
            c.step(Outcome::Done);
        }
        match c.step(Outcome::Failed) {
            DeployAction::Conclude { report, remove } => {
                assert_eq!(report, DeployReport::Failed(step));
                assert!(remove.is_empty());
            }
            other => panic!("unexpected action {:?}", other),
        }
        assert_eq!(c.state(), DeployState::Aborted(step));
    }
}

#[test]
fn a_finished_deployment_stays_finished() {
    let mut c = DeploymentCoordinator::new("7".to_string(), Format::TarGz);
    c.step(Outcome::Failed);
    assert_eq!(c.state(), DeployState::Aborted(Step::Persist));
    for outcome in [Outcome::Done, Outcome::Failed] {
        assert!(matches!(
            c.step(outcome),
            DeployAction::Conclude { report: DeployReport::Failed(Step::Persist), .. }
        ));
        assert_eq!(c.state(), DeployState::Aborted(Step::Persist));
    }
}

#[test]
fn a_valid_archive_replaces_the_tree_and_leaves_no_files() {
    let mut store = Store::new(served());
    let report = store.deploy("d1", Format::TarGz, &valid_tar_gz());
    assert_eq!(report, DeployReport::Deployed);
    assert_eq!(
        listing(&store.tree),
        vec![
            ("index.html".to_string(), b"version two".to_vec()),
            ("js/app.js".to_string(), b"run()".to_vec()),
        ]
    );
    assert!(store.temp.is_empty());
    assert_eq!(store.performed, vec!["persist", "backup", "clear", "unpack"]);

    let mut expected = ContentTree::new();
    unpack(&valid_tar_gz(), &mut expected, Format::TarGz).unwrap();
    assert_eq!(listing(&store.tree), listing(&expected));
}

#[test]
fn a_valid_zip_is_deployed_too() {
    let mut store = Store::new(served());
    assert_eq!(store.deploy("d2", Format::Zip, &valid_zip()), DeployReport::Deployed);
    assert_eq!(listing(&store.tree), vec![("index.html".to_string(), b"zipped".to_vec())]);
    assert!(store.temp.is_empty());
}

#[test]
fn a_corrupt_archive_leaves_the_tree_as_it_was() {
    for (format, upload) in [
        (Format::TarGz, b"no archive at all".to_vec()),
        (Format::Zip, valid_tar_gz()),
        (Format::TarGz, valid_zip()),
        (Format::Rar, valid_zip()),
    ] {
        let mut store = Store::new(served());
        let report = store.deploy("d3", format, &upload);
        assert_eq!(report, DeployReport::Failed(Step::Unpack));
        assert_eq!(listing(&store.tree), listing(&served()));
        assert!(store.temp.is_empty());
        assert_eq!(store.performed, vec!["persist", "backup", "clear", "unpack", "restore"]);
    }
}

#[test]
fn a_half_written_unpack_is_restored_over() {
    let mut store = Store::new(served());
    store.failing.push(Step::Unpack);
    store.half_written = vec![file("index.html", b"half"), file("stray.txt", b"stray")];
    let report = store.deploy("d10", Format::TarGz, &valid_tar_gz());
    assert_eq!(report, DeployReport::Failed(Step::Unpack));
    assert_eq!(
        listing(&store.tree),
        vec![
            ("css/site.css".to_string(), b"body{}".to_vec()),
            ("index.html".to_string(), b"version one".to_vec()),
            ("stray.txt".to_string(), b"stray".to_vec()),
        ]
    );
    assert!(store.temp.is_empty());
}

#[test]
fn a_failed_persist_touches_nothing() {
    let mut store = Store::new(served());
    store.failing.push(Step::Persist);
    assert_eq!(store.deploy("d4", Format::TarGz, &valid_tar_gz()), DeployReport::Failed(Step::Persist));
    assert_eq!(listing(&store.tree), listing(&served()));
    assert_eq!(store.performed, vec!["persist"]);
}

#[test]
fn a_failed_backup_leaves_the_tree_and_the_upload() {
    let mut store = Store::new(served());
    store.failing.push(Step::Backup);
    assert_eq!(store.deploy("d5", Format::TarGz, &valid_tar_gz()), DeployReport::Failed(Step::Backup));
    assert_eq!(listing(&store.tree), listing(&served()));
    assert!(store.temp.contains_key("temp_tar.gz-d5.tar.gz"));
    assert_eq!(store.performed, vec!["persist", "backup"]);
}

#[test]
fn a_failed_clear_is_not_rolled_back() {
    let mut store = Store::new(served());
    store.failing.push(Step::Clear);
    assert_eq!(store.deploy("d6", Format::TarGz, &valid_tar_gz()), DeployReport::Failed(Step::Clear));
    assert_eq!(store.performed, vec!["persist", "backup", "clear"]);
    assert!(store.temp.contains_key("backup-d6.tar.gz"));
}

#[test]
fn a_failed_restoration_leaves_the_files_for_inspection() {
    let mut store = Store::new(served());
    store.restore_fails = true;
    assert_eq!(store.deploy("d7", Format::TarGz, b"corrupt"), DeployReport::Unrecoverable);
    assert!(store.temp.contains_key("backup-d7.tar.gz"));
    assert!(store.temp.contains_key("temp_tar.gz-d7.tar.gz"));
    assert_eq!(store.tree.len(), 0);
}

#[test]
fn deploying_onto_an_empty_tree_works() {
    let mut store = Store::new(ContentTree::new());
    assert_eq!(store.deploy("d8", Format::TarGz, &valid_tar_gz()), DeployReport::Deployed);
    assert_eq!(store.tree.len(), 2);
    let mut store = Store::new(ContentTree::new());
    assert_eq!(store.deploy("d9", Format::TarGz, b"corrupt"), DeployReport::Failed(Step::Unpack));
    assert_eq!(store.tree.len(), 0);
    assert!(store.temp.is_empty());
}

#[test]
fn an_upload_is_admitted_by_its_media_type_alone() {
    let tar = DeploymentCoordinator::accept("application/gzip").expect("admitted");
    assert_eq!(tar.state(), DeployState::Idle);
    assert_eq!(tar.id().chars().count(), 36);
    assert!(matches!(tar.pending(), DeployAction::Persist { to } if to.ends_with(".tar.gz")));
    let zip = DeploymentCoordinator::accept("application/zip").expect("admitted");
    assert!(matches!(zip.pending(), DeployAction::Persist { to } if to.ends_with(".zip")));
}

#[test]
fn an_upload_is_turned_away_before_anything_is_touched() {
    assert_eq!(
        DeploymentCoordinator::accept("application/vnd.rar").unwrap_err(),
        Refusal::NoCodec
    );
    for media_type in ["", "text/html", "application/x-tar", "application/gzip ", "APPLICATION/ZIP"] {
        assert_eq!(
            DeploymentCoordinator::accept(media_type).unwrap_err(),
            Refusal::UnknownMediaType
        );
    }
}

#[test]
fn only_a_deployed_upload_is_answered_with_success() {
    assert_eq!(deploy_signal(DeployReport::Deployed), Signal::Success);
    for step in [Step::Persist, Step::Backup, Step::Clear, Step::Unpack] {
        assert_eq!(deploy_signal(DeployReport::Failed(step)), Signal::ServerError);
    }
    assert_eq!(deploy_signal(DeployReport::Unrecoverable), Signal::Fatal);
}

#[test]
fn every_failed_refresh_is_a_server_error() {
    assert_eq!(refresh_signal(Ok(())), Signal::Success);
    assert_eq!(refresh_signal(Err(SyncError::Store)), Signal::ServerError);
    assert_eq!(refresh_signal(Err(SyncError::Fs)), Signal::ServerError);
}
