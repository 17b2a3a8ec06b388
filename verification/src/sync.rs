//! The directory synchroniser: clears a local directory and repopulates it
//! from an object store, one fetch per object key.
//!
//! The synchroniser decides and its caller acts: listing the bucket, fetching
//! bodies, writing files and removing entries are the caller's, and what to
//! do with their outcomes is decided here.

use crate::path::{
    canonical, canonicalize, is_file_name, is_plain, lemma_canonical_is_plain, names_file,
};
use crate::settings::S3;
use crate::tree::{
    distinct_paths, has_path, lemma_distinct_count, lemma_overlay_idempotent,
    lemma_overlay_lookup, overlay, tree_of, ContentTree, EntryKind, EntryView, Node, TreeEntry,
    TreeView,
};
use vstd::prelude::*;

verus! {

/// Why a synchronisation failed.
#[derive(Clone, Copy, Debug, PartialEq, Eq, Structural)]
pub enum SyncError {
    /// Listing the bucket or fetching an object failed: network, credentials,
    /// or an object that is not there.
    Store,
    /// A local operation failed: permissions, a full disk, a missing path.
    Fs,
}

/// An object of the remote store: a slash-delimited key and its body.
#[derive(Debug)]
pub struct RemoteObject {
    pub key: String,
    pub body: Vec<u8>,
}

/// One entry found directly under the local directory.
#[derive(Debug)]
pub struct DirItem {
    pub name: String,
    pub is_dir: bool,
}

/// How to remove one entry of the local directory.
#[derive(Debug)]
pub enum Removal {
    /// Remove the directory `name` with everything below it.
    Tree { name: String },
    /// Remove the file `name`.
    File { name: String },
}

/// The mathematical model of a [`Removal`].
pub enum RemovalView {
    Tree { name: Seq<char> },
    File { name: Seq<char> },
}

impl View for Removal {
    type V = RemovalView;

    open spec fn view(&self) -> RemovalView {
        match self {
            Removal::Tree { name } => RemovalView::Tree { name: name@ },
            Removal::File { name } => RemovalView::File { name: name@ },
        }
    }
}

/// The longest a single call to the store may take, in seconds. A call that
/// has not answered by then counts as failed.
pub const TIME_LIMIT_SECS: u64 = 60;

/// The largest number of fetches that run at the same time.
pub const FETCH_LIMIT: usize = 16;

/// The fetch of one object: from `bucket`, the object `key`, to be written
/// at `path` relative to the local directory, parents created as needed. A
/// task without a path is for a key that names no file below the directory:
/// it fails as a failure of the local file system, and writes nothing. A
/// fetch that takes longer than `time_limit_secs` is given up as failed.
#[derive(Debug)]
pub struct FetchTask {
    pub bucket: String,
    pub key: String,
    pub path: Option<String>,
    pub time_limit_secs: u64,
}

/// The mathematical model of a [`FetchTask`].
pub struct TaskView {
    pub bucket: Seq<char>,
    pub key: Seq<char>,
    pub path: Option<Seq<char>>,
    pub time_limit_secs: u64,
}

impl View for FetchTask {
    type V = TaskView;

    open spec fn view(&self) -> TaskView {
        TaskView {
            bucket: self.bucket@,
            key: self.key@,
            path: match self.path {
                Some(path) => Some(path@),
                None => None,
            },
            time_limit_secs: self.time_limit_secs,
        }
    }
}

/// One answer of the store to a request for a listing. A store hands out a
/// long listing in pages: a page that was cut short comes with the token
/// under which the listing goes on.
#[derive(Debug)]
pub struct ListPage {
    /// The objects of this page, each with its key where the store gave
    /// one; `None` where the store gave no list at all.
    pub objects: Option<Vec<Option<String>>>,
    /// Whether the bucket holds more than the pages handed out so far.
    pub truncated: bool,
    /// The token under which the next page is asked for.
    pub next: Option<String>,
}

/// The mathematical model of a [`ListPage`].
pub struct PageView {
    pub objects: Seq<Option<Seq<char>>>,
    pub truncated: bool,
    pub next: Option<Seq<char>>,
}

impl View for ListPage {
    type V = PageView;

    open spec fn view(&self) -> PageView {
        PageView {
            objects: match self.objects {
                Some(objects) => key_views(objects@),
                None => Seq::empty(),
            },
            truncated: self.truncated,
            next: match self.next {
                Some(token) => Some(token@),
                None => None,
            },
        }
    }
}

/// What the caller is to do next.
#[derive(Debug)]
pub enum SyncAction {
    /// List what lies directly under `dir`, have the removals planned by
    /// [`Downloader::clear_dir`], and carry them out step by step as
    /// [`Downloader::first_removal`] and [`Downloader::after_removal`] say.
    Clear { dir: String },
    /// Ask the store for a page of the keys of `bucket`: the first page
    /// where `continuation` is `None`, else the page that the token names.
    /// Give the call `time_limit_secs` at most, and hand the answer to
    /// [`Downloader::download_directory`] together with `gathered`, the
    /// tasks for the pages read so far.
    List {
        bucket: String,
        continuation: Option<String>,
        gathered: Vec<FetchTask>,
        time_limit_secs: u64,
    },
    /// Run every task, all of them to their end whatever any of them does,
    /// `at_once` of them at a time at most, and hand the results, in the
    /// order of the tasks, to [`Downloader::after_fetch`].
    Fetch { tasks: Vec<FetchTask>, at_once: usize },
    /// Report `result`.
    Finish { result: Result<(), SyncError> },
}

/// The mathematical model of a [`SyncAction`].
pub enum SyncActionView {
    Clear { dir: Seq<char> },
    List {
        bucket: Seq<char>,
        continuation: Option<Seq<char>>,
        gathered: Seq<TaskView>,
        time_limit_secs: u64,
    },
    Fetch { tasks: Seq<TaskView>, at_once: usize },
    Finish { result: Result<(), SyncError> },
}

/// The models of tasks, in order.
pub open spec fn task_views(tasks: Seq<FetchTask>) -> Seq<TaskView> {
    Seq::new(tasks.len(), |i: int| tasks[i]@)
}

impl View for SyncAction {
    type V = SyncActionView;

    open spec fn view(&self) -> SyncActionView {
        match self {
            SyncAction::Clear { dir } => SyncActionView::Clear { dir: dir@ },
            SyncAction::List {
                bucket,
                continuation,
                gathered,
                time_limit_secs,
            } => SyncActionView::List {
                bucket: bucket@,
                continuation: match continuation {
                    Some(token) => Some(token@),
                    None => None,
                },
                gathered: task_views(gathered@),
                time_limit_secs: *time_limit_secs,
            },
            SyncAction::Fetch { tasks, at_once } => SyncActionView::Fetch {
                tasks: task_views(tasks@),
                at_once: *at_once,
            },
            SyncAction::Finish { result } => SyncActionView::Finish { result: *result },
        }
    }
}

/// The keys of a listing, where the store gave one, in listing order.
pub open spec fn key_views(objects: Seq<Option<String>>) -> Seq<Option<Seq<char>>> {
    Seq::new(
        objects.len(),
        |i: int|
            match objects[i] {
                Some(key) => Some(key@),
                None => None,
            },
    )
}

/// The keys to fetch: one per listed object that has a key, in listing order.
pub open spec fn present_keys(objects: Seq<Option<Seq<char>>>) -> Seq<Seq<char>>
    decreases objects.len(),
{
    if objects.len() == 0 {
        Seq::empty()
    } else {
        match objects.last() {
            Some(key) => present_keys(objects.drop_last()).push(key),
            None => present_keys(objects.drop_last()),
        }
    }
}

/// The path below the local directory at which the object `key` is
/// written: the plain form of the key, provided the key names a file below
/// the directory. A key that steps up, starts or ends with a slash, or
/// names the directory itself has no such path.
pub open spec fn path_of_key(key: Seq<char>) -> Option<Seq<char>> {
    if names_file(key) {
        Some(canonical(key))
    } else {
        None
    }
}

/// The task that fetches `key` from `bucket`: it writes at the path of the
/// key, within the time limit.
pub open spec fn task_for(bucket: Seq<char>, key: Seq<char>) -> TaskView {
    TaskView { bucket, key, path: path_of_key(key), time_limit_secs: TIME_LIMIT_SECS }
}

/// The tasks that fetch `keys` from `bucket`: one per key, in order.
pub open spec fn tasks_for(bucket: Seq<char>, keys: Seq<Seq<char>>) -> Seq<TaskView> {
    Seq::new(keys.len(), |i: int| task_for(bucket, keys[i]))
}

/// The fetch of `tasks`, within the limit on fetches at the same time.
pub open spec fn fetch_of(tasks: Seq<TaskView>) -> SyncActionView {
    SyncActionView::Fetch { tasks, at_once: FETCH_LIMIT }
}

/// The first request for a listing of `bucket`: no token, nothing gathered.
pub open spec fn first_listing(bucket: Seq<char>) -> SyncActionView {
    SyncActionView::List {
        bucket,
        continuation: None,
        gathered: Seq::empty(),
        time_limit_secs: TIME_LIMIT_SECS,
    }
}

/// What follows an answer to a request for a listing of `bucket`, with
/// `gathered` the tasks for the pages read before. A failed request ends the
/// synchronisation. A page adds one task per object that has a key. After a
/// page that was cut short the listing goes on under the page's token, and
/// without a token it cannot, which counts as a failure of the store. After
/// a page that was not cut short every gathered task is run.
pub open spec fn after_listing(
    bucket: Seq<char>,
    gathered: Seq<TaskView>,
    listed: Result<PageView, SyncError>,
) -> SyncActionView {
    match listed {
        Err(e) => SyncActionView::Finish { result: Err(e) },
        Ok(page) => {
            let tasks = gathered + tasks_for(bucket, present_keys(page.objects));
            if !page.truncated {
                fetch_of(tasks)
            } else {
                match page.next {
                    Some(token) => SyncActionView::List {
                        bucket,
                        continuation: Some(token),
                        gathered: tasks,
                        time_limit_secs: TIME_LIMIT_SECS,
                    },
                    None => SyncActionView::Finish { result: Err(SyncError::Store) },
                }
            }
        },
    }
}

/// Where a listing stands after the store gave `answers` in turn, each to
/// the request that the answer before it led to. Answers that come after the
/// listing has ended are not asked for and change nothing.
pub open spec fn listed_through(
    action: SyncActionView,
    answers: Seq<Result<PageView, SyncError>>,
) -> SyncActionView
    decreases answers.len(),
{
    if answers.len() == 0 {
        action
    } else {
        match action {
            SyncActionView::List { bucket, continuation, gathered, time_limit_secs } => listed_through(
                after_listing(bucket, gathered, answers.first()),
                answers.drop_first(),
            ),
            _ => action,
        }
    }
}

/// The pages are one whole listing: every page but the last was cut short
/// and carries a token, and the last was not cut short.
pub open spec fn whole_listing(pages: Seq<PageView>) -> bool {
    &&& pages.len() > 0
    &&& forall|i: int|
        0 <= i < pages.len() - 1 ==> (#[trigger] pages[i]).truncated && pages[i].next is Some
    &&& !pages.last().truncated
}

/// The objects of all pages, in the order of the pages.
pub open spec fn all_objects(pages: Seq<PageView>) -> Seq<Option<Seq<char>>>
    decreases pages.len(),
{
    if pages.len() == 0 {
        Seq::empty()
    } else {
        pages.first().objects + all_objects(pages.drop_first())
    }
}

/// The pages as answers of a store that does not fail.
pub open spec fn answers_of(pages: Seq<PageView>) -> Seq<Result<PageView, SyncError>> {
    Seq::new(pages.len(), |i: int| Ok(pages[i]))
}

/// The first failure among task results in task order, if any task failed.
pub open spec fn first_failure(results: Seq<Result<(), SyncError>>) -> Result<(), SyncError>
    decreases results.len(),
{
    if results.len() == 0 {
        Ok(())
    } else {
        match results.first() {
            Err(e) => Err(e),
            Ok(_) => first_failure(results.drop_first()),
        }
    }
}

/// The removals that empty a directory: nothing where it does not exist,
/// else one per item in listing order, recursive for a directory.
pub open spec fn removals_spec(listing: Option<Seq<(Seq<char>, bool)>>) -> Seq<RemovalView> {
    match listing {
        None => Seq::empty(),
        Some(items) => Seq::new(
            items.len(),
            |i: int|
                if items[i].1 {
                    RemovalView::Tree { name: items[i].0 }
                } else {
                    RemovalView::File { name: items[i].0 }
                },
        ),
    }
}

/// What the caller is to do next while it empties a directory after a plan
/// of removals.
#[derive(Clone, Copy, Debug, PartialEq, Eq)]
pub enum ClearStep {
    /// Carry out the removal at this position of the plan.
    Remove(usize),
    /// The clearing has ended. After a failure, what was removed before the
    /// failing entry stays removed, and what comes after it in the plan has
    /// not been attempted.
    Finish(Result<(), SyncError>),
}

/// The step that stands at position `index` of a plan of `planned`
/// removals: that removal, or the good end behind the last.
pub open spec fn step_at(planned: usize, index: int) -> ClearStep {
    if 0 <= index < planned {
        ClearStep::Remove(index as usize)
    } else {
        ClearStep::Finish(Ok(()))
    }
}

/// What follows the removal at `index`, which did or did not remove its
/// entry: after a failure the end, as a failure of the local file system;
/// else the next removal of the plan, or the good end behind the last.
pub open spec fn after_removal_spec(planned: usize, index: usize, removed: bool) -> ClearStep {
    if removed {
        step_at(planned, index + 1)
    } else {
        ClearStep::Finish(Err(SyncError::Fs))
    }
}

/// Where a clearing stands after the removals it asked for ended as
/// `removed` says, in turn. What stands behind the end of the clearing
/// belongs to removals that are never attempted, and changes nothing.
pub open spec fn cleared_through(step: ClearStep, planned: usize, removed: Seq<bool>) -> ClearStep
    decreases removed.len(),
{
    if removed.len() == 0 {
        step
    } else {
        match step {
            ClearStep::Remove(index) => cleared_through(
                after_removal_spec(planned, index, removed.first()),
                planned,
                removed.drop_first(),
            ),
            _ => step,
        }
    }
}

/// Every removal from position `from` up to `to` removed its entry.
pub open spec fn all_removed(removed: Seq<bool>, from: int, to: int) -> bool {
    forall|k: int| from <= k < to && 0 <= k < removed.len() ==> removed[k]
}

/// The models of directory items, in order.
pub open spec fn item_views(items: Seq<DirItem>) -> Seq<(Seq<char>, bool)> {
    Seq::new(items.len(), |i: int| (items[i].name@, items[i].is_dir))
}

/// The models of removals, in order.
pub open spec fn removal_views(removals: Seq<Removal>) -> Seq<RemovalView> {
    Seq::new(removals.len(), |i: int| removals[i]@)
}

/// The file entries that storing `objects` writes: each body at its key.
pub open spec fn object_entries(objects: Seq<RemoteObject>) -> Seq<EntryView> {
    Seq::new(
        objects.len(),
        |i: int| EntryView { path: objects[i].key@, kind: EntryKind::File, data: objects[i].body@ },
    )
}

/// The decisions of synchronising one bucket into one local directory.
#[derive(Debug)]
pub struct Downloader {
    bucket: String,
    local_dir: String,
}

impl Downloader {
    /// The bucket that is mirrored.
    pub closed spec fn bucket_spec(&self) -> Seq<char> {
        self.bucket@
    }

    /// The local directory that receives the mirror.
    pub closed spec fn local_dir_spec(&self) -> Seq<char> {
        self.local_dir@
    }

    /// A synchroniser of `bucket` into `local_dir`.
    pub fn new(bucket: &str, local_dir: &str) -> (downloader: Downloader)
        ensures
            downloader.bucket_spec() == bucket@,
            downloader.local_dir_spec() == local_dir@,
    {
        Downloader { bucket: bucket.to_owned(), local_dir: local_dir.to_owned() }
    }

    /// The synchroniser of the bucket named in the settings into `local_dir`.
    /// The endpoint and the addressing style of the settings are the store
    /// client's concern and play no part in the decisions.
    pub fn managed(settings: S3, local_dir: String) -> (downloader: Downloader)
        ensures
            downloader.bucket_spec() == settings.bucket@,
            downloader.local_dir_spec() == local_dir@,
    {
        Downloader { bucket: settings.bucket, local_dir }
    }

    /// Returns the bucket that is mirrored.
    pub fn bucket(&self) -> (bucket: &str)
        ensures
            bucket@ == self.bucket_spec(),
    {
        self.bucket.as_str()
    }

    /// Returns the local directory that receives the mirror.
    pub fn local_dir(&self) -> (dir: &str)
        ensures
            dir@ == self.local_dir_spec(),
    {
        self.local_dir.as_str()
    }

    /// Plans the emptying of the local directory from what was found directly
    /// under it; `None` says the directory does not exist. The directory
    /// itself stays. A directory that does not exist needs nothing done, so
    /// clearing it succeeds however often it is asked for.
    pub fn clear_dir(&self, listing: Option<Vec<DirItem>>) -> (removals: Vec<Removal>)
        ensures
            removal_views(removals@) == removals_spec(
                match listing {
                    Some(items) => Some(item_views(items@)),
                    None => None,
                },
            ),
            listing is None ==> removals@.len() == 0,
    {
        let mut removals: Vec<Removal> = Vec::new();
        match listing {
            None => {
                assert(removal_views(removals@) =~= Seq::empty());
            },
            Some(items) => {
                let ghost given = items@;
                let ghost plan = removals_spec(Some(item_views(given)));
                assert(removal_views(removals@) =~= plan.take(0));
                for item in it: items
                    invariant
                        it.seq() == given,
                        plan == removals_spec(Some(item_views(given))),
                        removals.len() == it.index(),
                        removal_views(removals@) == plan.take(it.index()),
                {
                    let ghost before = removal_views(removals@);
                    let removal = if item.is_dir {
                        Removal::Tree { name: item.name }
                    } else {
                        Removal::File { name: item.name }
                    };
                    removals.push(removal);
                    assert(removal_views(removals@) =~= before.push(removal@));
                    assert(removal_views(removals@) =~= plan.take(it.index() + 1));
                }
                assert(plan.take(given.len() as int) =~= plan);
            },
        }
        removals
    }

    /// The first step of carrying out a plan of `planned` removals. A plan
    /// of none, as for a directory that does not exist, has ended well
    /// before it began.
    pub fn first_removal(planned: usize) -> (step: ClearStep)
        ensures
            step == step_at(planned, 0),
    {
        if planned > 0 {
            ClearStep::Remove(0)
        } else {
            ClearStep::Finish(Ok(()))
        }
    }

    /// Decides what follows the removal at `index` of a plan of `planned`
    /// removals. The first failure ends the clearing as a failure of the
    /// local file system: nothing is put back and nothing more is removed.
    pub fn after_removal(planned: usize, index: usize, removed: bool) -> (step: ClearStep)
        ensures
            step == after_removal_spec(planned, index, removed),
    {
        if !removed {
            ClearStep::Finish(Err(SyncError::Fs))
        } else if index < planned && index + 1 < planned {
            ClearStep::Remove(index + 1)
        } else {
            ClearStep::Finish(Ok(()))
        }
    }

    /// The first action of a clean download: empty the local directory.
    pub fn clean_download(&self) -> (action: SyncAction)
        ensures
            action@ == (SyncActionView::Clear { dir: self.local_dir_spec() }),
    {
        SyncAction::Clear { dir: self.local_dir.clone() }
    }

    /// The first action of a plain synchronisation: ask for the first page
    /// of the bucket's listing.
    pub fn sync(&self) -> (action: SyncAction)
        ensures
            action@ == first_listing(self.bucket_spec()),
    {
        let gathered: Vec<FetchTask> = Vec::new();
        assert(task_views(gathered@) =~= Seq::empty());
        SyncAction::List {
            bucket: self.bucket.clone(),
            continuation: None,
            gathered,
            time_limit_secs: TIME_LIMIT_SECS,
        }
    }

    /// Decides what follows the clearing: the listing of the bucket when it
    /// succeeded; when it failed, the end, before any fetch is attempted.
    pub fn after_clear(&self, cleared: Result<(), SyncError>) -> (action: SyncAction)
        ensures
            match cleared {
                Ok(_) => action@ == first_listing(self.bucket_spec()),
                Err(e) => action@ == (SyncActionView::Finish { result: Err(e) }),
            },
    {
        match cleared {
            Ok(_) => self.sync(),
            Err(e) => SyncAction::Finish { result: Err(e) },
        }
    }

    /// The fetch of the object `key`: its body goes to the path that is the
    /// key in its plain form, the key's separators being the path's. Two
    /// keys that name the same file below the directory give the same path,
    /// and a key that names no file below the directory gives none.
    pub fn download_file(&self, key: String) -> (task: FetchTask)
        ensures
            task@ == task_for(self.bucket_spec(), key@),
    {
        let path = if is_file_name(key.as_str()) {
            Some(canonicalize(key.as_str()))
        } else {
            None
        };
        FetchTask { bucket: self.bucket.clone(), path, key, time_limit_secs: TIME_LIMIT_SECS }
    }

    /// Decides what follows an answer to a request for a listing, with
    /// `gathered` the tasks that came with the request. Every listed object
    /// that has a key gets one task, in listing order behind the tasks
    /// gathered before. A page that was cut short is followed by the request
    /// for the next page, and only the page that ends the listing by the
    /// fetch of everything gathered: no task at all for an empty bucket. A
    /// failed request ends the synchronisation.
    pub fn download_directory(
        &self,
        gathered: Vec<FetchTask>,
        listed: Result<ListPage, SyncError>,
    ) -> (action: SyncAction)
        ensures
            action@ == after_listing(
                self.bucket_spec(),
                task_views(gathered@),
                match listed {
                    Ok(page) => Ok(page@),
                    Err(e) => Err(e),
                },
            ),
    {
        match listed {
            Err(e) => SyncAction::Finish { result: Err(e) },
            Ok(page) => {
                let ghost before = task_views(gathered@);
                let ghost listing = page@.objects;
                let mut tasks = gathered;
                match page.objects {
                    None => {
                        assert(tasks_for(self.bucket_spec(), present_keys(listing)) =~= Seq::empty());
                        assert(task_views(tasks@) =~= before + tasks_for(
                            self.bucket_spec(),
                            present_keys(listing),
                        ));
                    },
                    Some(objects) => {
                        let ghost given = objects@;
                        assert(listing.take(0) =~= Seq::empty());
                        assert(task_views(tasks@) =~= before + tasks_for(
                            self.bucket_spec(),
                            present_keys(listing.take(0)),
                        ));
                        for object in it: objects
                            invariant
                                it.seq() == given,
                                listing == key_views(given),
                                task_views(tasks@) == before + tasks_for(
                                    self.bucket_spec(),
                                    present_keys(listing.take(it.index())),
                                ),
                        {
                            let ghost so_far = task_views(tasks@);
                            let ghost keys = present_keys(listing.take(it.index()));
                            proof {
                                assert(listing.take(it.index() + 1).drop_last() =~= listing.take(
                                    it.index(),
                                ));
                                assert(listing.take(it.index() + 1).last() == listing[it.index()]);
                            }
                            match object {
                                Some(key) => {
                                    let task = self.download_file(key);
                                    tasks.push(task);
                                    assert(task_views(tasks@) =~= so_far.push(task@));
                                    assert(tasks_for(self.bucket_spec(), keys.push(key@))
                                        =~= tasks_for(self.bucket_spec(), keys).push(task@));
                                    assert(before + tasks_for(self.bucket_spec(), keys.push(key@))
                                        =~= so_far.push(task@));
                                },
                                None => {},
                            }
                        }
                        assert(listing.take(given.len() as int) =~= listing);
                    },
                }
                if !page.truncated {
                    SyncAction::Fetch { tasks, at_once: FETCH_LIMIT }
                } else {
                    match page.next {
                        Some(token) => SyncAction::List {
                            bucket: self.bucket.clone(),
                            continuation: Some(token),
                            gathered: tasks,
                            time_limit_secs: TIME_LIMIT_SECS,
                        },
                        None => SyncAction::Finish { result: Err(SyncError::Store) },
                    }
                }
            },
        }
    }

    /// Decides how a synchronisation ends once every task has run: well
    /// when no task failed, else with the first failure in task order.
    pub fn after_fetch(results: &Vec<Result<(), SyncError>>) -> (result: Result<(), SyncError>)
        ensures
            result == first_failure(results@),
    {
        let mut i: usize = 0;
        assert(results@.skip(0) =~= results@);
        while i < results.len()
            invariant
                i <= results.len(),
                first_failure(results@) == first_failure(results@.skip(i as int)),
            decreases results.len() - i,
        {
            proof {
                assert(results@.skip(i as int).drop_first() =~= results@.skip(i as int + 1));
                assert(results@.skip(i as int).first() == results@[i as int]);
            }
            match results[i] {
                Err(e) => {
                    return Err(e);
                },
                Ok(_) => {},
            }
            i += 1;
        }
        Ok(())
    }
}

/// From any position of the plan on, a clearing ends well when every
/// removal that is left removes its entry, and as a failure of the local
/// file system when one of them does not.
proof fn lemma_clearing_from(planned: usize, index: int, removed: Seq<bool>)
    requires
        0 <= index <= planned <= removed.len(),
    ensures
        cleared_through(step_at(planned, index), planned, removed.skip(index)) == (
        if all_removed(removed, index, planned as int) {
            ClearStep::Finish(Ok(()))
        } else {
            ClearStep::Finish(Err(SyncError::Fs))
        }),
    decreases planned - index,
{
    if index < planned {
        let rest = removed.skip(index);
        assert(rest.first() == removed[index]);
        assert(rest.drop_first() =~= removed.skip(index + 1));
        if removed[index] {
            lemma_clearing_from(planned, index + 1, removed);
            assert(all_removed(removed, index, planned as int) == all_removed(
                removed,
                index + 1,
                planned as int,
            ));
        } else {
            let ended = ClearStep::Finish(Err(SyncError::Fs));
            assert(cleared_through(ended, planned, removed.skip(index + 1)) == ended);
        }
    }
}

/// Clearing is not atomic and stops at the first failure: when every
/// removal of the plan removes its entry, the clearing ends well; when one
/// does not, the clearing ends as a failure of the local file system. The
/// removals before the failing one have been carried out and stay so, and
/// what the later ones would have done plays no part, because they are not
/// attempted. A plan of no removals, as for a directory that does not
/// exist, has ended well at once, however often it is asked for.
pub proof fn lemma_clearing_stops_at_first_failure(planned: usize, removed: Seq<bool>)
    requires
        planned <= removed.len(),
    ensures
        cleared_through(step_at(planned, 0), planned, removed) == (if all_removed(
            removed,
            0,
            planned as int,
        ) {
            ClearStep::Finish(Ok(()))
        } else {
            ClearStep::Finish(Err(SyncError::Fs))
        }),
        planned == 0 ==> step_at(planned, 0) == ClearStep::Finish(Ok(())),
{
    lemma_clearing_from(planned, 0, removed);
    assert(removed.skip(0) =~= removed);
}

/// Writes every object into `tree`, each body as a file at its key. As on
/// disk, the key is taken in its plain form, and an object whose key names
/// the directory itself is not written.
pub fn store_objects(tree: &mut ContentTree, objects: Vec<RemoteObject>)
    ensures
        final(tree)@ == overlay(old(tree)@, object_entries(objects@)),
{
    let ghost given = objects@;
    let ghost all = object_entries(given);
    assert(all.take(0) =~= Seq::empty());
    for object in it: objects
        invariant
            it.seq() == given,
            all == object_entries(given),
            tree@ == overlay(old(tree)@, all.take(it.index())),
    {
        proof {
            assert(all.take(it.index() + 1).drop_last() =~= all.take(it.index()));
            assert(all.take(it.index() + 1).last() == all[it.index()]);
        }
        tree.put(TreeEntry::file(object.key, object.body));
    }
    assert(all.take(given.len() as int) =~= all);
}

/// Every key names a file below the directory, and no two keys name the
/// same file: the plain forms of the keys differ from each other.
pub open spec fn keys_apart(keys: Seq<Seq<char>>) -> bool {
    &&& forall|i: int, j: int| 0 <= i < j < keys.len() ==> canonical(keys[i]) != canonical(keys[j])
    &&& forall|i: int| 0 <= i < keys.len() ==> names_file(#[trigger] keys[i])
}

/// The keys of objects, in order.
pub open spec fn keys_of(objects: Seq<RemoteObject>) -> Seq<Seq<char>> {
    Seq::new(objects.len(), |i: int| objects[i].key@)
}

/// Every object is written to a file below the directory, and no two
/// objects to the same file.
pub open spec fn distinct_keys(objects: Seq<RemoteObject>) -> bool {
    keys_apart(keys_of(objects))
}

/// Synchronising a bucket of distinct keys into an empty directory leaves
/// exactly the bucket: a path is in the tree if and only if it is the plain
/// form of one of the keys, and for every key that path holds a file with
/// the bytes of its object, so with their number too. A key that is in its
/// plain form is itself that path.
pub proof fn lemma_sync_mirrors_bucket(objects: Seq<RemoteObject>)
    requires
        distinct_keys(objects),
    ensures
        forall|path: Seq<char>| #[trigger]
            tree_of(object_entries(objects)).dom().contains(path) <==> exists|i: int|
                0 <= i < objects.len() && canonical((#[trigger] objects[i]).key@) == path,
        forall|i: int|
            0 <= i < objects.len() ==> tree_of(object_entries(objects))[canonical(
                (#[trigger] objects[i]).key@,
            )] == Node::File(objects[i].body@),
        forall|i: int|
            0 <= i < objects.len() && is_plain((#[trigger] objects[i]).key@) ==> tree_of(
                object_entries(objects),
            )[objects[i].key@] == Node::File(objects[i].body@),
        tree_of(object_entries(objects)).dom().finite(),
        tree_of(object_entries(objects)).dom().len() == objects.len(),
{
    let entries = object_entries(objects);
    lemma_object_entries_distinct(objects);
    assert forall|i: int| 0 <= i < entries.len() implies (#[trigger] entries[i]).key().len()
        > 0 by {
        assert(entries[i].key() == canonical(keys_of(objects)[i]));
        assert(names_file(keys_of(objects)[i]));
    }
    lemma_overlay_lookup(Map::empty(), entries);
    lemma_distinct_count(entries);
    assert forall|path: Seq<char>| #[trigger]
        tree_of(entries).dom().contains(path) <==> exists|i: int|
            0 <= i < objects.len() && canonical((#[trigger] objects[i]).key@) == path by {
        if has_path(entries, path) {
            let i = choose|i: int| 0 <= i < entries.len() && (#[trigger] entries[i]).key() == path;
            assert(canonical(objects[i].key@) == path);
        }
        if exists|i: int| 0 <= i < objects.len() && canonical((#[trigger] objects[i]).key@) == path {
            let i = choose|i: int|
                0 <= i < objects.len() && canonical((#[trigger] objects[i]).key@) == path;
            assert(entries[i].key() == path);
        }
    }
    assert forall|i: int| 0 <= i < objects.len() implies tree_of(entries)[canonical(
        (#[trigger] objects[i]).key@,
    )] == Node::File(objects[i].body@) by {
        assert(entries[i].key() == canonical(objects[i].key@));
        assert(tree_of(entries)[entries[i].key()] == entries[i].node());
    }
}

/// The entries of objects with distinct keys are kept under distinct paths.
proof fn lemma_object_entries_distinct(objects: Seq<RemoteObject>)
    requires
        distinct_keys(objects),
    ensures
        distinct_paths(object_entries(objects)),
{
    let entries = object_entries(objects);
    assert forall|i: int, j: int| 0 <= i < j < entries.len() implies entries[i].key()
        != entries[j].key() by {
        assert(entries[i].key() == canonical(keys_of(objects)[i]));
        assert(entries[j].key() == canonical(keys_of(objects)[j]));
    }
}

/// Synchronising twice from an unchanged bucket of distinct keys gives the
/// same tree as synchronising once.
pub proof fn lemma_sync_idempotent(base: TreeView, objects: Seq<RemoteObject>)
    requires
        distinct_keys(objects),
    ensures
        overlay(overlay(base, object_entries(objects)), object_entries(objects)) == overlay(
            base,
            object_entries(objects),
        ),
{
    lemma_object_entries_distinct(objects);
    lemma_overlay_idempotent(base, object_entries(objects));
}

/// Tasks that fetch keys with distinct plain forms write to distinct paths:
/// no two tasks of one synchronisation write the same file.
pub proof fn lemma_tasks_write_apart(bucket: Seq<char>, keys: Seq<Seq<char>>)
    requires
        forall|i: int, j: int| 0 <= i < j < keys.len() ==> canonical(keys[i]) != canonical(keys[j]),
    ensures
        forall|i: int, j: int|
            0 <= i < j < keys.len() && tasks_for(bucket, keys)[i].path is Some ==> tasks_for(
                bucket,
                keys,
            )[i].path != tasks_for(bucket, keys)[j].path,
{
}

/// The keys of two listings laid end to end are the keys of the first
/// followed by the keys of the second.
pub proof fn lemma_present_keys_concat(
    first: Seq<Option<Seq<char>>>,
    second: Seq<Option<Seq<char>>>,
)
    ensures
        present_keys(first + second) == present_keys(first) + present_keys(second),
    decreases second.len(),
{
    if second.len() == 0 {
        assert(first + second =~= first);
        assert(present_keys(first) + present_keys(second) =~= present_keys(first));
    } else {
        lemma_present_keys_concat(first, second.drop_last());
        assert((first + second).drop_last() =~= first + second.drop_last());
        assert((first + second).last() == second.last());
        match second.last() {
            Some(key) => {
                assert(present_keys(first + second) =~= present_keys(first) + present_keys(
                    second,
                ));
            },
            None => {},
        }
    }
}

/// A listing that was cut short goes on until it is whole: after the pages
/// of one whole listing, however many, the fetch follows, and it holds one
/// task for every key of every page, in listing order behind what was
/// gathered before.
pub proof fn lemma_listing_goes_on(
    bucket: Seq<char>,
    continuation: Option<Seq<char>>,
    gathered: Seq<TaskView>,
    pages: Seq<PageView>,
)
    requires
        whole_listing(pages),
    ensures
        listed_through(
            SyncActionView::List {
                bucket,
                continuation,
                gathered,
                time_limit_secs: TIME_LIMIT_SECS,
            },
            answers_of(pages),
        ) == fetch_of(
            gathered + tasks_for(bucket, present_keys(all_objects(pages))),
        ),
    decreases pages.len(),
{
    let answers = answers_of(pages);
    let page = pages.first();
    let rest = pages.drop_first();
    let tasks = gathered + tasks_for(bucket, present_keys(page.objects));
    assert(answers.first() == Ok::<PageView, SyncError>(page));
    assert(answers.drop_first() =~= answers_of(rest));
    let next = after_listing(bucket, gathered, Ok(page));
    if pages.len() == 1 {
        assert(pages.last() == page);
        assert(all_objects(rest) =~= Seq::empty());
        assert(page.objects + all_objects(rest) =~= page.objects);
        assert(listed_through(next, answers_of(rest)) == next);
    } else {
        assert(pages[0].truncated && pages[0].next is Some);
        assert(whole_listing(rest)) by {
            assert(rest.last() == pages.last());
            assert forall|i: int| 0 <= i < rest.len() - 1 implies (#[trigger] rest[i]).truncated
                && rest[i].next is Some by {
                assert(rest[i] == pages[i + 1]);
            }
        }
        lemma_listing_goes_on(bucket, page.next, tasks, rest);
        lemma_present_keys_concat(page.objects, all_objects(rest));
        assert(tasks + tasks_for(bucket, present_keys(all_objects(rest))) =~= gathered + tasks_for(
            bucket,
            present_keys(all_objects(pages)),
        ));
    }
}

/// A whole synchronisation fetches every key of the bucket, on whatever
/// number of pages the store lists them: from the first request on, the
/// pages of one whole listing lead to the fetch of exactly the keys of all
/// pages.
pub proof fn lemma_sync_fetches_every_key(bucket: Seq<char>, pages: Seq<PageView>)
    requires
        whole_listing(pages),
    ensures
        listed_through(first_listing(bucket), answers_of(pages)) == fetch_of(
            tasks_for(bucket, present_keys(all_objects(pages))),
        ),
{
    lemma_listing_goes_on(bucket, None, Seq::empty(), pages);
    assert(Seq::<TaskView>::empty() + tasks_for(bucket, present_keys(all_objects(pages)))
        =~= tasks_for(bucket, present_keys(all_objects(pages))));
}

/// The keys of a listing that came in pages: those of all pages, in the
/// order of the pages.
pub open spec fn listed_keys(pages: Seq<PageView>) -> Seq<Seq<char>> {
    present_keys(all_objects(pages))
}

/// What the tasks write when every fetch succeeds: for each task the body
/// of its object, as a file at the task's path. A task without a path
/// writes nothing.
pub open spec fn fetched_entries(tasks: Seq<TaskView>, bodies: Seq<Seq<u8>>) -> Seq<EntryView> {
    Seq::new(
        tasks.len(),
        |i: int|
            EntryView {
                path: match tasks[i].path {
                    Some(path) => path,
                    None => Seq::empty(),
                },
                kind: EntryKind::File,
                data: bodies[i],
            },
    )
}

/// A synchronisation that succeeds mirrors the whole bucket, on however many
/// pages the store lists it: the pages of one whole listing lead to the
/// fetch of every listed key, and when every fetch succeeds an empty
/// directory then holds exactly one file per key, at the plain form of the
/// key and with the bytes of its object, and nothing else.
pub proof fn lemma_sync_mirrors_listing(
    bucket: Seq<char>,
    pages: Seq<PageView>,
    bodies: Seq<Seq<u8>>,
)
    requires
        whole_listing(pages),
        keys_apart(listed_keys(pages)),
        bodies.len() == listed_keys(pages).len(),
    ensures
        listed_through(first_listing(bucket), answers_of(pages)) == fetch_of(
            tasks_for(bucket, listed_keys(pages)),
        ),
        forall|path: Seq<char>| #[trigger]
            tree_of(
                fetched_entries(tasks_for(bucket, listed_keys(pages)), bodies),
            ).dom().contains(path) <==> exists|i: int|
                0 <= i < listed_keys(pages).len() && canonical(#[trigger] listed_keys(pages)[i])
                    == path,
        forall|i: int|
            0 <= i < listed_keys(pages).len() ==> tree_of(
                fetched_entries(tasks_for(bucket, listed_keys(pages)), bodies),
            )[canonical(#[trigger] listed_keys(pages)[i])] == Node::File(bodies[i]),
        tree_of(fetched_entries(tasks_for(bucket, listed_keys(pages)), bodies)).dom().finite(),
        tree_of(fetched_entries(tasks_for(bucket, listed_keys(pages)), bodies)).dom().len()
            == listed_keys(pages).len(),
{
    lemma_sync_fetches_every_key(bucket, pages);
    let keys = listed_keys(pages);
    let entries = fetched_entries(tasks_for(bucket, keys), bodies);
    assert forall|i: int| 0 <= i < entries.len() implies (#[trigger] entries[i]).key()
        == canonical(keys[i]) by {
        assert(names_file(keys[i]));
        lemma_canonical_is_plain(keys[i]);
    }
    assert(distinct_paths(entries));
    assert forall|i: int| 0 <= i < entries.len() implies (#[trigger] entries[i]).key().len()
        > 0 by {
        assert(names_file(keys[i]));
    }
    lemma_overlay_lookup(Map::empty(), entries);
    lemma_distinct_count(entries);
    assert forall|path: Seq<char>| #[trigger]
        tree_of(entries).dom().contains(path) <==> exists|i: int|
            0 <= i < keys.len() && canonical(#[trigger] keys[i]) == path by {
        if has_path(entries, path) {
            let i = choose|i: int| 0 <= i < entries.len() && (#[trigger] entries[i]).key() == path;
            assert(canonical(keys[i]) == path);
        }
        if exists|i: int| 0 <= i < keys.len() && canonical(#[trigger] keys[i]) == path {
            let i = choose|i: int| 0 <= i < keys.len() && canonical(#[trigger] keys[i]) == path;
            assert(entries[i].key() == path);
        }
    }
    assert forall|i: int| 0 <= i < keys.len() implies tree_of(entries)[canonical(
        #[trigger] keys[i],
    )] == Node::File(bodies[i]) by {
        assert(entries[i].key() == canonical(keys[i]));
        assert(tree_of(entries)[entries[i].key()] == entries[i].node());
    }
}

} // verus!
