//! The deployment coordinator: replaces the served tree by an uploaded
//! archive, with a backup taken first and a rollback when unpacking fails.
//!
//! The coordinator decides and its caller acts. It hands out one action at a
//! time; the caller performs it on the store and reports how it ended; the
//! coordinator answers with the next action. Nothing but the last action,
//! [`DeployAction::Conclude`], ends a run.

use crate::archive::{unpacked, FAST_LEVEL};
use crate::format::{backup_name, backup_name_spec, upload_name, upload_name_spec, Format};
use crate::tree::{overlay, tree_of, Node, TreeView};
use vstd::prelude::*;

verus! {

/// A step of a deployment that can fail without a rollback being owed, or,
/// for `Unpack`, with one.
#[derive(Clone, Copy, Debug, PartialEq, Eq, Structural)]
pub enum Step {
    Persist,
    Backup,
    Clear,
    Unpack,
}

/// How a deployment ended, as reported to the caller.
#[derive(Clone, Copy, Debug, PartialEq, Eq, Structural)]
pub enum DeployReport {
    /// The tree now holds the uploaded archive's content.
    Deployed,
    /// The named step failed. For `Unpack` the previous tree was restored.
    Failed(Step),
    /// Unpacking failed and so did the restoration: the tree is in an unknown
    /// state and the service must not go on serving it.
    Unrecoverable,
}

/// Where a deployment stands. Each state but the last four names what has
/// been achieved and has one action pending.
#[derive(Clone, Copy, Debug, PartialEq, Eq, Structural)]
pub enum DeployState {
    /// Nothing done yet; the upload is being persisted.
    Idle,
    /// The upload is stored; the backup is being taken.
    Persisted,
    /// The backup is taken; the tree is being cleared.
    BackedUp,
    /// The tree is empty; the upload is being unpacked.
    Cleared,
    /// Unpacking failed; the backup is being restored.
    RollingBack,
    /// Final: the upload is deployed.
    Unpacked,
    /// Final: the backup is restored; reported as a failure.
    RolledBack,
    /// Final: the named step failed and nothing was rolled back.
    Aborted(Step),
    /// Final: the restoration failed.
    Unrecoverable,
}

/// How the caller's attempt at the pending action ended.
#[derive(Clone, Copy, Debug, PartialEq, Eq, Structural)]
pub enum Outcome {
    Done,
    Failed,
}

/// What the caller is to do next. Names are file names inside the temporary
/// directory.
#[derive(Debug)]
pub enum DeployAction {
    /// Write the uploaded bytes to the file `to`.
    Persist { to: String },
    /// Pack the tree into the file `to` as a gzip-compressed tar stream.
    Backup { to: String, level: u32 },
    /// Empty the tree.
    Clear,
    /// Unpack the file `from`, an archive of `format`, into the tree.
    Unpack { from: String, format: Format },
    /// Unpack the file `from`, a backup, into the tree.
    Restore { from: String },
    /// Delete the files in `remove`, ignoring failures, and report.
    Conclude { report: DeployReport, remove: Vec<String> },
}

/// The mathematical model of a [`DeployAction`].
pub enum ActionView {
    Persist { to: Seq<char> },
    Backup { to: Seq<char>, level: u32 },
    Clear,
    Unpack { from: Seq<char>, format: Format },
    Restore { from: Seq<char> },
    Conclude { report: DeployReport, remove: Seq<Seq<char>> },
}

/// The names in a list of file names, in order.
pub open spec fn names(files: Seq<String>) -> Seq<Seq<char>> {
    Seq::new(files.len(), |i: int| files[i]@)
}

impl View for DeployAction {
    type V = ActionView;

    open spec fn view(&self) -> ActionView {
        match self {
            DeployAction::Persist { to } => ActionView::Persist { to: to@ },
            DeployAction::Backup { to, level } => ActionView::Backup { to: to@, level: *level },
            DeployAction::Clear => ActionView::Clear,
            DeployAction::Unpack { from, format } => ActionView::Unpack {
                from: from@,
                format: *format,
            },
            DeployAction::Restore { from } => ActionView::Restore { from: from@ },
            DeployAction::Conclude { report, remove } => ActionView::Conclude {
                report: *report,
                remove: names(remove@),
            },
        }
    }
}

/// The state that follows `state` once the pending action ended with
/// `outcome`. A failure aborts at once, except that a failed unpacking starts
/// the rollback. Final states stay.
pub open spec fn next_state(state: DeployState, outcome: Outcome) -> DeployState {
    match (state, outcome) {
        (DeployState::Idle, Outcome::Done) => DeployState::Persisted,
        (DeployState::Idle, Outcome::Failed) => DeployState::Aborted(Step::Persist),
        (DeployState::Persisted, Outcome::Done) => DeployState::BackedUp,
        (DeployState::Persisted, Outcome::Failed) => DeployState::Aborted(Step::Backup),
        (DeployState::BackedUp, Outcome::Done) => DeployState::Cleared,
        (DeployState::BackedUp, Outcome::Failed) => DeployState::Aborted(Step::Clear),
        (DeployState::Cleared, Outcome::Done) => DeployState::Unpacked,
        (DeployState::Cleared, Outcome::Failed) => DeployState::RollingBack,
        (DeployState::RollingBack, Outcome::Done) => DeployState::RolledBack,
        (DeployState::RollingBack, Outcome::Failed) => DeployState::Unrecoverable,
        (DeployState::Unpacked, _) => state,
        (DeployState::RolledBack, _) => state,
        (DeployState::Aborted(_), _) => state,
        (DeployState::Unrecoverable, _) => state,
    }
}

/// The report a final state stands for; `None` while the run goes on.
pub open spec fn report_of(state: DeployState) -> Option<DeployReport> {
    match state {
        DeployState::Unpacked => Some(DeployReport::Deployed),
        DeployState::RolledBack => Some(DeployReport::Failed(Step::Unpack)),
        DeployState::Aborted(step) => Some(DeployReport::Failed(step)),
        DeployState::Unrecoverable => Some(DeployReport::Unrecoverable),
        _ => None,
    }
}

/// The action that is pending in `state` for the deployment `id` of an
/// archive of `format`. The upload and the backup are deleted when the run
/// ends in a deployed or a restored tree, and at no other end.
pub open spec fn pending_action(state: DeployState, id: Seq<char>, format: Format) -> ActionView {
    match state {
        DeployState::Idle => ActionView::Persist { to: upload_name_spec(format, id) },
        DeployState::Persisted => ActionView::Backup {
            to: backup_name_spec(id),
            level: FAST_LEVEL,
        },
        DeployState::BackedUp => ActionView::Clear,
        DeployState::Cleared => ActionView::Unpack { from: upload_name_spec(format, id), format },
        DeployState::RollingBack => ActionView::Restore { from: backup_name_spec(id) },
        DeployState::Unpacked => ActionView::Conclude {
            report: DeployReport::Deployed,
            remove: seq![backup_name_spec(id), upload_name_spec(format, id)],
        },
        DeployState::RolledBack => ActionView::Conclude {
            report: DeployReport::Failed(Step::Unpack),
            remove: seq![backup_name_spec(id), upload_name_spec(format, id)],
        },
        DeployState::Aborted(step) => ActionView::Conclude {
            report: DeployReport::Failed(step),
            remove: Seq::empty(),
        },
        DeployState::Unrecoverable => ActionView::Conclude {
            report: DeployReport::Unrecoverable,
            remove: Seq::empty(),
        },
    }
}

/// The decisions of one deployment.
#[derive(Debug)]
pub struct DeploymentCoordinator {
    id: String,
    format: Format,
    state: DeployState,
}

/// The mathematical model of a [`DeploymentCoordinator`].
pub struct CoordinatorView {
    pub id: Seq<char>,
    pub format: Format,
    pub state: DeployState,
}

impl View for DeploymentCoordinator {
    type V = CoordinatorView;

    closed spec fn view(&self) -> CoordinatorView {
        CoordinatorView { id: self.id@, format: self.format, state: self.state }
    }
}

/// The character is a decimal digit or one of the letters `a` to `f`.
pub open spec fn is_hex_digit(c: char) -> bool {
    ('0' <= c && c <= '9') || ('a' <= c && c <= 'f')
}

/// The position of a hyphen in an identifier.
pub open spec fn is_hyphen_position(i: int) -> bool {
    i == 8 || i == 13 || i == 18 || i == 23
}

/// The text has the form of a drawn identifier: thirty-six characters, a
/// hyphen after the eighth digit and after each of the next three groups of
/// four, hexadecimal digits in lower case everywhere else.
pub open spec fn is_identifier(id: Seq<char>) -> bool {
    &&& id.len() == 36
    &&& forall|i: int|
        0 <= i < 36 ==> if is_hyphen_position(i) {
            #[trigger] id[i] == '-'
        } else {
            is_hex_digit(id[i])
        }
}

/// Why an upload is turned away before a deployment begins.
#[derive(Clone, Copy, Debug, PartialEq, Eq, Structural)]
pub enum Refusal {
    /// The declared media type is none of the recognised ones.
    UnknownMediaType,
    /// The media type is recognised, but no codec reads its format.
    NoCodec,
}

/// The format of an upload that is let through to a deployment, from its
/// declared media type alone, or why it is turned away.
pub open spec fn admitted(media_type: Seq<char>) -> Result<Format, Refusal> {
    match Format::from_media_type_spec(media_type) {
        None => Err(Refusal::UnknownMediaType),
        Some(format) => if format.readable_spec() {
            Ok(format)
        } else {
            Err(Refusal::NoCodec)
        },
    }
}

/// Draws a fresh identifier with `uuid::Uuid::new_v4` and renders it as
/// text. The identifier is random, so only its form is claimed, which is
/// that of every `Uuid` rendered by its `Display`: hyphenated, digits in
/// lower case. That two draws differ is not claimed.
#[verifier::external_body]
fn fresh_id() -> (id: String)
    ensures
        is_identifier(id@),
{
    uuid::Uuid::new_v4().to_string()
}

impl DeploymentCoordinator {
    /// Starts the deployment `id` of an archive of `format`. It stands at
    /// `Idle`, with the upload to be persisted.
    pub fn new(id: String, format: Format) -> (coordinator: DeploymentCoordinator)
        ensures
            coordinator@ == (CoordinatorView { id: id@, format, state: DeployState::Idle }),
    {
        DeploymentCoordinator { id, format, state: DeployState::Idle }
    }

    /// Starts a deployment under a freshly drawn identifier, provided a
    /// codec reads the format: an upload that could only fail to unpack is
    /// refused before anything is persisted, backed up or cleared. The
    /// identifier has the form of [`is_identifier`], so the names of the
    /// upload and of the backup name files directly in the temporary
    /// directory.
    pub fn begin(format: Format) -> (coordinator: Option<DeploymentCoordinator>)
        ensures
            match coordinator {
                Some(c) => format.readable_spec() && c@.format == format && c@.state
                    == DeployState::Idle && is_identifier(c@.id),
                None => !format.readable_spec(),
            },
    {
        if format.readable() {
            Some(DeploymentCoordinator::new(fresh_id(), format))
        } else {
            None
        }
    }

    /// Starts the deployment of an upload from its declared media type. The
    /// bytes of the upload play no part in finding its format. An upload
    /// that is turned away has touched nothing.
    pub fn accept(media_type: &str) -> (coordinator: Result<DeploymentCoordinator, Refusal>)
        ensures
            match coordinator {
                Ok(c) => admitted(media_type@) == Ok::<Format, Refusal>(c@.format) && c@.state
                    == DeployState::Idle && is_identifier(c@.id),
                Err(refusal) => admitted(media_type@) == Err::<Format, Refusal>(refusal),
            },
    {
        match Format::from_media_type(media_type) {
            None => Err(Refusal::UnknownMediaType),
            Some(format) => match DeploymentCoordinator::begin(format) {
                Some(coordinator) => Ok(coordinator),
                None => Err(Refusal::NoCodec),
            },
        }
    }

    /// The state the deployment stands at.
    pub fn state(&self) -> (state: DeployState)
        ensures
            state == self@.state,
    {
        self.state
    }

    /// The identifier of the deployment.
    pub fn id(&self) -> (id: &str)
        ensures
            id@ == self@.id,
    {
        self.id.as_str()
    }

    /// The report of a run that has ended; `None` while it goes on.
    pub fn report(&self) -> (report: Option<DeployReport>)
        ensures
            report == report_of(self@.state),
    {
        match self.state {
            DeployState::Unpacked => Some(DeployReport::Deployed),
            DeployState::RolledBack => Some(DeployReport::Failed(Step::Unpack)),
            DeployState::Aborted(step) => Some(DeployReport::Failed(step)),
            DeployState::Unrecoverable => Some(DeployReport::Unrecoverable),
            _ => None,
        }
    }

    /// The action to perform in the state the deployment stands at.
    pub fn pending(&self) -> (action: DeployAction)
        ensures
            action@ == pending_action(self@.state, self@.id, self@.format),
    {
        match self.state {
            DeployState::Idle => DeployAction::Persist {
                to: upload_name(self.format, self.id.as_str()),
            },
            DeployState::Persisted => DeployAction::Backup {
                to: backup_name(self.id.as_str()),
                level: FAST_LEVEL,
            },
            DeployState::BackedUp => DeployAction::Clear,
            DeployState::Cleared => DeployAction::Unpack {
                from: upload_name(self.format, self.id.as_str()),
                format: self.format,
            },
            DeployState::RollingBack => DeployAction::Restore {
                from: backup_name(self.id.as_str()),
            },
            DeployState::Unpacked => DeployAction::Conclude {
                report: DeployReport::Deployed,
                remove: self.leftovers(),
            },
            DeployState::RolledBack => DeployAction::Conclude {
                report: DeployReport::Failed(Step::Unpack),
                remove: self.leftovers(),
            },
            DeployState::Aborted(step) => {
                let remove: Vec<String> = Vec::new();
                assert(names(remove@) =~= Seq::empty());
                DeployAction::Conclude { report: DeployReport::Failed(step), remove }
            },
            DeployState::Unrecoverable => {
                let remove: Vec<String> = Vec::new();
                assert(names(remove@) =~= Seq::empty());
                DeployAction::Conclude { report: DeployReport::Unrecoverable, remove }
            },
        }
    }

    /// The two transient files of the deployment: the backup and the upload.
    fn leftovers(&self) -> (files: Vec<String>)
        ensures
            names(files@) == seq![
                backup_name_spec(self@.id),
                upload_name_spec(self@.format, self@.id),
            ],
    {
        let mut files: Vec<String> = Vec::new();
        files.push(backup_name(self.id.as_str()));
        files.push(upload_name(self.format, self.id.as_str()));
        assert(names(files@) =~= seq![
            backup_name_spec(self@.id),
            upload_name_spec(self@.format, self@.id),
        ]);
        files
    }

    /// Takes in how the pending action ended, moves to the state that
    /// follows, and returns the action that is pending there.
    pub fn step(&mut self, outcome: Outcome) -> (action: DeployAction)
        ensures
            final(self)@.id == old(self)@.id,
            final(self)@.format == old(self)@.format,
            final(self)@.state == next_state(old(self)@.state, outcome),
            action@ == pending_action(final(self)@.state, final(self)@.id, final(self)@.format),
    {
        self.state =
        match (self.state, outcome) {
            (DeployState::Idle, Outcome::Done) => DeployState::Persisted,
            (DeployState::Idle, Outcome::Failed) => DeployState::Aborted(Step::Persist),
            (DeployState::Persisted, Outcome::Done) => DeployState::BackedUp,
            (DeployState::Persisted, Outcome::Failed) => DeployState::Aborted(Step::Backup),
            (DeployState::BackedUp, Outcome::Done) => DeployState::Cleared,
            (DeployState::BackedUp, Outcome::Failed) => DeployState::Aborted(Step::Clear),
            (DeployState::Cleared, Outcome::Done) => DeployState::Unpacked,
            (DeployState::Cleared, Outcome::Failed) => DeployState::RollingBack,
            (DeployState::RollingBack, Outcome::Done) => DeployState::RolledBack,
            (DeployState::RollingBack, Outcome::Failed) => DeployState::Unrecoverable,
            (state, _) => state,
        };
        self.pending()
    }
}

/// What a file of the temporary directory holds.
pub enum TempFile {
    /// The bytes of an upload.
    Upload(Seq<u8>),
    /// A backup snapshot of the tree it was taken of.
    Snapshot(TreeView),
}

/// The store a deployment acts on: the served tree and the temporary
/// directory.
pub struct Site {
    pub tree: TreeView,
    pub temp: Map<Seq<char>, TempFile>,
}

/// What a store makes of an action when nothing but the archive can be at
/// fault, given the uploaded bytes: the site it leaves and the outcome it
/// reports. Every action does what its description says; the one failure is
/// an archive that cannot be unpacked or restored, which leaves the tree as
/// it was.
pub open spec fn carried_out(site: Site, action: ActionView, uploaded: Seq<u8>) -> (Site, Outcome) {
    match action {
        ActionView::Persist { to } => (
            Site { tree: site.tree, temp: site.temp.insert(to, TempFile::Upload(uploaded)) },
            Outcome::Done,
        ),
        ActionView::Backup { to, level } => (
            Site { tree: site.tree, temp: site.temp.insert(to, TempFile::Snapshot(site.tree)) },
            Outcome::Done,
        ),
        ActionView::Clear => (Site { tree: Map::empty(), temp: site.temp }, Outcome::Done),
        ActionView::Unpack { from, format } => {
            if site.temp.dom().contains(from) {
                match site.temp[from] {
                    TempFile::Upload(bytes) => match unpacked(format, bytes) {
                        Ok(entries) => (
                            Site { tree: overlay(site.tree, entries), temp: site.temp },
                            Outcome::Done,
                        ),
                        Err(_) => (site, Outcome::Failed),
                    },
                    TempFile::Snapshot(_) => (site, Outcome::Failed),
                }
            } else {
                (site, Outcome::Failed)
            }
        },
        ActionView::Restore { from } => {
            if site.temp.dom().contains(from) {
                match site.temp[from] {
                    TempFile::Snapshot(snapshot) => (
                        Site { tree: site.tree.union_prefer_right(snapshot), temp: site.temp },
                        Outcome::Done,
                    ),
                    TempFile::Upload(_) => (site, Outcome::Failed),
                }
            } else {
                (site, Outcome::Failed)
            }
        },
        ActionView::Conclude { report, remove } => (
            Site { tree: site.tree, temp: site.temp.remove_keys(remove.to_set()) },
            Outcome::Done,
        ),
    }
}

/// What a store makes of an action when the store itself may be at fault.
/// Without a fault the action is carried out. With the fault `Some(left)` the
/// action fails: persisting and backing up leave the tree untouched, while
/// clearing, unpacking and restoring leave the tree half done, as `left`.
/// Concluding never fails, since it ignores what it cannot delete.
pub open spec fn performed(
    site: Site,
    action: ActionView,
    uploaded: Seq<u8>,
    fault: Option<TreeView>,
) -> (Site, Outcome) {
    match fault {
        None => carried_out(site, action, uploaded),
        Some(left) => match action {
            ActionView::Persist { .. } => (site, Outcome::Failed),
            ActionView::Backup { .. } => (site, Outcome::Failed),
            ActionView::Clear => (Site { tree: left, temp: site.temp }, Outcome::Failed),
            ActionView::Unpack { .. } => (Site { tree: left, temp: site.temp }, Outcome::Failed),
            ActionView::Restore { .. } => (Site { tree: left, temp: site.temp }, Outcome::Failed),
            ActionView::Conclude { .. } => (site, Outcome::Done),
        },
    }
}

/// The number of steps a run may still take from `state`.
pub open spec fn steps_left(state: DeployState) -> nat {
    match state {
        DeployState::Idle => 5,
        DeployState::Persisted => 4,
        DeployState::BackedUp => 3,
        DeployState::Cleared => 2,
        DeployState::RollingBack => 1,
        _ => 0,
    }
}

/// The fault that strikes the next step: the first of `faults`, none when
/// the list is used up.
pub open spec fn next_fault(faults: Seq<Option<TreeView>>) -> Option<TreeView> {
    if faults.len() > 0 {
        faults[0]
    } else {
        None
    }
}

/// The faults that are left for the steps after the next.
pub open spec fn later_faults(faults: Seq<Option<TreeView>>) -> Seq<Option<TreeView>> {
    if faults.len() > 0 {
        faults.drop_first()
    } else {
        faults
    }
}

/// A whole run from `state`: each pending action is performed and its
/// outcome fed back, up to and including the concluding action. The steps
/// meet the faults of `faults` in order. Gives the site and the final state.
pub open spec fn run(
    state: DeployState,
    site: Site,
    id: Seq<char>,
    format: Format,
    uploaded: Seq<u8>,
    faults: Seq<Option<TreeView>>,
) -> (Site, DeployState)
    decreases steps_left(state),
{
    let (after, outcome) = performed(
        site,
        pending_action(state, id, format),
        uploaded,
        next_fault(faults),
    );
    if report_of(state) is Some {
        (after, state)
    } else {
        run(next_state(state, outcome), after, id, format, uploaded, later_faults(faults))
    }
}

/// Every step brings a run nearer to its end, and a run ends with a report:
/// a deployment takes five steps at most.
pub proof fn lemma_run_ends(state: DeployState, outcome: Outcome)
    ensures
        report_of(state) is None ==> steps_left(next_state(state, outcome)) < steps_left(state),
        report_of(state) is Some <==> steps_left(state) == 0,
        report_of(state) is Some ==> next_state(state, outcome) == state,
{
}

/// The order of the steps: the tree is cleared only once the backup is
/// complete, unpacked only once it is cleared, and a restoration is attempted
/// only after a failed unpacking. A failure of any earlier step ends the run
/// with no rollback.
pub proof fn lemma_step_order(state: DeployState, outcome: Outcome)
    ensures
        next_state(state, outcome) == DeployState::BackedUp <==> state == DeployState::Persisted
            && outcome == Outcome::Done,
        next_state(state, outcome) == DeployState::Cleared <==> state == DeployState::BackedUp
            && outcome == Outcome::Done,
        next_state(state, outcome) == DeployState::RollingBack <==> state == DeployState::Cleared
            && outcome == Outcome::Failed,
        outcome == Outcome::Failed && (state == DeployState::Idle || state
            == DeployState::Persisted || state == DeployState::BackedUp) ==> report_of(
            next_state(state, outcome),
        ) is Some,
        forall|id: Seq<char>, format: Format|
            (#[trigger] pending_action(state, id, format)) is Clear <==> state
                == DeployState::BackedUp,
        forall|id: Seq<char>, format: Format|
            (#[trigger] pending_action(state, id, format)) is Restore <==> state
                == DeployState::RollingBack,
{
}

/// The upload and the backup of one deployment never share a name.
pub proof fn lemma_names_differ(id: Seq<char>, format: Format)
    ensures
        upload_name_spec(format, id) != backup_name_spec(id),
{
    reveal_strlit("temp_");
    reveal_strlit("backup-");
    let upload = upload_name_spec(format, id);
    let backup = backup_name_spec(id);
    assert(upload[0] == 't');
    assert(backup[0] == 'b');
}

/// The names of a deployment under a drawn identifier hold no path
/// separator: the upload and the backup lie directly in the temporary
/// directory.
pub proof fn lemma_names_have_no_separator(id: Seq<char>, format: Format)
    requires
        is_identifier(id),
    ensures
        !upload_name_spec(format, id).contains('/'),
        !backup_name_spec(id).contains('/'),
{
    reveal_strlit("temp_");
    reveal_strlit("backup-");
    reveal_strlit("tar.gz");
    reveal_strlit(".tar.gz");
    reveal_strlit("zip");
    reveal_strlit("rar");
    reveal_strlit("-");
    reveal_strlit(".");
    let ext = format.extension_spec();
    assert(forall|i: int| 0 <= i < ext.len() ==> ext[i] != '/');
    assert(forall|i: int| 0 <= i < 36 ==> id[i] != '/');
    let upload = upload_name_spec(format, id);
    assert forall|i: int| 0 <= i < upload.len() implies upload[i] != '/' by {
        let prefix = "temp_"@ + ext + "-"@;
        if i < prefix.len() {
            assert(upload[i] == prefix[i]);
        } else if i < prefix.len() + 36 {
            assert(upload[i] == id[i - prefix.len()]);
        } else if i == prefix.len() + 36 {
            assert(upload[i] == '.');
        } else {
            assert(upload[i] == ext[i - prefix.len() - 37]);
        }
    }
    let backup = backup_name_spec(id);
    assert forall|i: int| 0 <= i < backup.len() implies backup[i] != '/' by {
        if 7 <= i < 43 {
            assert(backup[i] == id[i - 7]);
        }
    }
}

/// Deploying a valid archive: on a store that meets no fault, the run ends
/// deployed, the tree is exactly what the archive unpacks to, and
/// neither the upload nor the backup remains.
pub proof fn lemma_valid_archive_is_deployed(
    site: Site,
    id: Seq<char>,
    format: Format,
    uploaded: Seq<u8>,
)
    ensures
        unpacked(format, uploaded) matches Ok(entries) ==> {
            let (end, state) = run(DeployState::Idle, site, id, format, uploaded, Seq::empty());
            &&& state == DeployState::Unpacked
            &&& report_of(state) == Some(DeployReport::Deployed)
            &&& end.tree == tree_of(entries)
            &&& !end.temp.dom().contains(upload_name_spec(format, id))
            &&& !end.temp.dom().contains(backup_name_spec(id))
        },
{
    lemma_names_differ(id, format);
    if unpacked(format, uploaded) is Ok {
        let upload = upload_name_spec(format, id);
        let backup = backup_name_spec(id);
        let remove = seq![backup, upload];
        assert(remove[0] == backup && remove[1] == upload);
        assert(remove.to_set().contains(backup));
        assert(remove.to_set().contains(upload));
        reveal_with_fuel(run, 6);
    }
}

/// Deploying a corrupt archive: on a store that meets no fault, the run
/// rolls back, the tree is again what it was before the upload, the
/// failure of the unpacking is reported, and neither the upload nor the
/// backup remains.
pub proof fn lemma_corrupt_archive_is_rolled_back(
    site: Site,
    id: Seq<char>,
    format: Format,
    uploaded: Seq<u8>,
)
    ensures
        unpacked(format, uploaded) is Err ==> {
            let (end, state) = run(DeployState::Idle, site, id, format, uploaded, Seq::empty());
            &&& state == DeployState::RolledBack
            &&& report_of(state) == Some(DeployReport::Failed(Step::Unpack))
            &&& end.tree == site.tree
            &&& !end.temp.dom().contains(upload_name_spec(format, id))
            &&& !end.temp.dom().contains(backup_name_spec(id))
        },
{
    lemma_names_differ(id, format);
    if unpacked(format, uploaded) is Err {
        let upload = upload_name_spec(format, id);
        let backup = backup_name_spec(id);
        let remove = seq![backup, upload];
        assert(remove[0] == backup && remove[1] == upload);
        assert(remove.to_set().contains(backup));
        assert(remove.to_set().contains(upload));
        assert(Map::<Seq<char>, Node>::empty().union_prefer_right(site.tree) =~= site.tree);
        reveal_with_fuel(run, 7);
    }
}

/// Whatever faults a run meets, it ends in a final state, one that has a
/// report.
pub proof fn lemma_run_reports(
    state: DeployState,
    site: Site,
    id: Seq<char>,
    format: Format,
    uploaded: Seq<u8>,
    faults: Seq<Option<TreeView>>,
)
    ensures
        report_of(run(state, site, id, format, uploaded, faults).1) is Some,
    decreases steps_left(state),
{
    if report_of(state) is None {
        let (after, outcome) = performed(
            site,
            pending_action(state, id, format),
            uploaded,
            next_fault(faults),
        );
        lemma_run_reports(
            next_state(state, outcome),
            after,
            id,
            format,
            uploaded,
            later_faults(faults),
        );
    }
}

/// A run that ends because persisting or backing up failed leaves the tree
/// untouched, whatever faults it met; after a failed backup the upload is
/// still in the temporary directory.
pub proof fn lemma_failure_before_clear_leaves_tree(
    site: Site,
    id: Seq<char>,
    format: Format,
    uploaded: Seq<u8>,
    faults: Seq<Option<TreeView>>,
)
    ensures
        ({
            let (end, state) = run(DeployState::Idle, site, id, format, uploaded, faults);
            &&& state == DeployState::Aborted(Step::Persist) || state == DeployState::Aborted(
                Step::Backup,
            ) ==> end.tree == site.tree
            &&& state == DeployState::Aborted(Step::Backup) ==> end.temp.dom().contains(
                upload_name_spec(format, id),
            )
        }),
{
    lemma_names_differ(id, format);
    assert(Seq::<Seq<char>>::empty().to_set() =~= Set::empty());
    let (persisted, first) = performed(
        site,
        pending_action(DeployState::Idle, id, format),
        uploaded,
        next_fault(faults),
    );
    if first == Outcome::Done {
        let rest = later_faults(faults);
        let (backed_up, second) = performed(
            persisted,
            pending_action(DeployState::Persisted, id, format),
            uploaded,
            next_fault(rest),
        );
        if second == Outcome::Done {
            lemma_no_early_abort_once_backed_up(
                DeployState::BackedUp,
                backed_up,
                id,
                format,
                uploaded,
                later_faults(rest),
            );
        }
    }
    reveal_with_fuel(run, 3);
}

/// Once the backup is taken, a run no longer ends as one that failed to
/// persist or to back up.
proof fn lemma_no_early_abort_once_backed_up(
    state: DeployState,
    site: Site,
    id: Seq<char>,
    format: Format,
    uploaded: Seq<u8>,
    faults: Seq<Option<TreeView>>,
)
    requires
        state != DeployState::Idle,
        state != DeployState::Persisted,
        state != DeployState::Aborted(Step::Persist),
        state != DeployState::Aborted(Step::Backup),
    ensures
        run(state, site, id, format, uploaded, faults).1 != DeployState::Aborted(Step::Persist),
        run(state, site, id, format, uploaded, faults).1 != DeployState::Aborted(Step::Backup),
    decreases steps_left(state),
{
    if report_of(state) is None {
        let (after, outcome) = performed(
            site,
            pending_action(state, id, format),
            uploaded,
            next_fault(faults),
        );
        lemma_no_early_abort_once_backed_up(
            next_state(state, outcome),
            after,
            id,
            format,
            uploaded,
            later_faults(faults),
        );
    }
}

/// A failed clearing is not rolled back: when the store fails to clear the
/// tree, the run ends there, the tree stays as the clearing left it, and the
/// backup stays in the temporary directory, holding the tree as it was.
pub proof fn lemma_failed_clear_is_not_rolled_back(
    site: Site,
    id: Seq<char>,
    format: Format,
    uploaded: Seq<u8>,
    left: TreeView,
)
    ensures
        ({
            let faults = seq![None, None, Some(left)];
            let (end, state) = run(DeployState::Idle, site, id, format, uploaded, faults);
            &&& state == DeployState::Aborted(Step::Clear)
            &&& end.tree == left
            &&& end.temp.dom().contains(backup_name_spec(id))
            &&& end.temp[backup_name_spec(id)] == TempFile::Snapshot(site.tree)
        }),
{
    lemma_names_differ(id, format);
    let faults: Seq<Option<TreeView>> = seq![None, None, Some(left)];
    assert(faults.drop_first() =~= seq![None, Some(left)]);
    assert(faults.drop_first().drop_first() =~= seq![Some(left)]);
    assert(Seq::<Seq<char>>::empty().to_set() =~= Set::empty());
    reveal_with_fuel(run, 7);
}

/// A failed unpacking is rolled back: when the store fails while unpacking
/// and leaves the tree half written, the backup is restored over it. Every
/// path of the tree as it was holds again what it held, the failure of the
/// unpacking is reported, and neither the upload nor the backup remains.
/// What the failed unpacking wrote at other paths is still there.
pub proof fn lemma_failed_unpack_is_rolled_back(
    site: Site,
    id: Seq<char>,
    format: Format,
    uploaded: Seq<u8>,
    left: TreeView,
)
    ensures
        ({
            let faults = seq![None, None, None, Some(left)];
            let (end, state) = run(DeployState::Idle, site, id, format, uploaded, faults);
            &&& state == DeployState::RolledBack
            &&& report_of(state) == Some(DeployReport::Failed(Step::Unpack))
            &&& end.tree == left.union_prefer_right(site.tree)
            &&& site.tree.submap_of(end.tree)
            &&& !end.temp.dom().contains(upload_name_spec(format, id))
            &&& !end.temp.dom().contains(backup_name_spec(id))
        }),
{
    lemma_names_differ(id, format);
    let upload = upload_name_spec(format, id);
    let backup = backup_name_spec(id);
    let remove = seq![backup, upload];
    assert(remove[0] == backup && remove[1] == upload);
    assert(remove.to_set().contains(backup));
    assert(remove.to_set().contains(upload));
    let faults: Seq<Option<TreeView>> = seq![None, None, None, Some(left)];
    assert(faults.drop_first() =~= seq![None, None, Some(left)]);
    assert(faults.drop_first().drop_first() =~= seq![None, Some(left)]);
    assert(faults.drop_first().drop_first().drop_first() =~= seq![Some(left)]);
    assert(faults.drop_first().drop_first().drop_first().drop_first() =~= Seq::empty());
    reveal_with_fuel(run, 7);
}

/// A failed restoration is unrecoverable: when unpacking fails and the
/// restoration fails too, the run ends without a usable tree and says so,
/// and the upload and the backup stay for inspection.
pub proof fn lemma_failed_restore_is_unrecoverable(
    site: Site,
    id: Seq<char>,
    format: Format,
    uploaded: Seq<u8>,
    half_unpacked: TreeView,
    half_restored: TreeView,
)
    ensures
        ({
            let faults = seq![None, None, None, Some(half_unpacked), Some(half_restored)];
            let (end, state) = run(DeployState::Idle, site, id, format, uploaded, faults);
            &&& state == DeployState::Unrecoverable
            &&& report_of(state) == Some(DeployReport::Unrecoverable)
            &&& end.tree == half_restored
            &&& end.temp.dom().contains(upload_name_spec(format, id))
            &&& end.temp.dom().contains(backup_name_spec(id))
        }),
{
    lemma_names_differ(id, format);
    let faults: Seq<Option<TreeView>> = seq![
        None,
        None,
        None,
        Some(half_unpacked),
        Some(half_restored),
    ];
    assert(faults.drop_first() =~= seq![None, None, Some(half_unpacked), Some(half_restored)]);
    assert(faults.drop_first().drop_first() =~= seq![None, Some(half_unpacked), Some(half_restored)]);
    assert(faults.drop_first().drop_first().drop_first() =~= seq![Some(half_unpacked), Some(half_restored)]);
    assert(faults.drop_first().drop_first().drop_first().drop_first() =~= seq![Some(half_restored)]);
    assert(faults.drop_first().drop_first().drop_first().drop_first().drop_first() =~= Seq::empty());
    assert(Seq::<Seq<char>>::empty().to_set() =~= Set::empty());
    reveal_with_fuel(run, 7);
}

} // verus!
