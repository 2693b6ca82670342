//! The caches and logs that can be cleaned.
use crate::model::{CacheInfo, CacheInfoView, LogFile, LogFileView};
use crate::order::{
    law_newer_goes_before_older, law_sorting_keeps_every_item, lemma_newest_first_seen,
    newest_first, newest_order, sort_newest_first, Timed,
};
use crate::text::{holds, holds_text};
use crate::tree::{dir_stats, tree_size, DirNode};
use vstd::prelude::*;
use vstd::string::*;

verus! {

/// The directory of CLI logs, relative to ZCode's data directory.
pub const CLI_LOG_DIR: &'static str = "cli/log";

/// The directory of v2 logs.
pub const V2_LOG_DIR: &'static str = "v2/logs";

/// The directory of downloaded plugins.
pub const PLUGIN_CACHE_DIR: &'static str = "cli/plugins/cache";

/// The directory of crash dumps.
pub const CRASH_DIR: &'static str = "v2/crash";

/// What can be read of something in a directory of logs.
#[derive(Clone, Copy, Debug, PartialEq, Eq, Structural)]
pub struct LogMeta {
    pub is_file: bool,
    pub size: u64,
    /// When it was last modified, in milliseconds.
    pub mtime: u128,
    /// When this was read, in milliseconds.
    pub seen_at: u128,
}

/// Something in a directory of logs.
#[derive(Debug)]
pub struct LogEntry {
    pub name: String,
    /// `None` where nothing can be read of it.
    pub meta: Option<LogMeta>,
}

/// What a `LogEntry` holds.
#[verifier::ext_equal]
pub struct LogEntryView {
    pub name: Seq<char>,
    pub meta: Option<LogMeta>,
}

impl DeepView for LogEntry {
    type V = LogEntryView;

    open spec fn deep_view(&self) -> LogEntryView {
        LogEntryView { name: self.name@, meta: self.meta }
    }
}

/// The files among the entries of a directory of logs, with their ages.
pub open spec fn log_files(entries: Seq<LogEntryView>) -> Seq<LogFileView>
    decreases entries.len(),
{
    if entries.len() == 0 {
        Seq::empty()
    } else {
        let rest = log_files(entries.drop_last());
        let e = entries.last();
        match e.meta {
            Some(m) => if m.is_file {
                rest.push(
                    LogFileView {
                        name: e.name,
                        size: m.size,
                        mtime: m.mtime,
                        age_ms: (m.seen_at - m.mtime) as u128,
                    },
                )
            } else {
                rest
            },
            None => rest,
        }
    }
}

/// The bytes in some log files.
pub open spec fn logs_size(files: Seq<LogFileView>) -> nat
    decreases files.len(),
{
    if files.len() == 0 {
        0
    } else {
        logs_size(files.drop_last()) + files.last().size as nat
    }
}

/// Whether an entry, if it is a file, was modified before it was looked at.
pub open spec fn has_age(e: LogEntryView) -> bool {
    e.meta matches Some(m) ==> m.is_file ==> m.mtime <= m.seen_at
}

/// Whether the ages of all files can be told, and their bytes be counted in 64 bits.
pub open spec fn loggable(entries: Seq<LogEntryView>) -> bool {
    &&& forall|k: int| 0 <= k < entries.len() ==> has_age(#[trigger] entries[k])
    &&& logs_size(log_files(entries)) <= u64::MAX
}

proof fn lemma_logs_size_grows(entries: Seq<LogEntryView>, n: int)
    requires
        0 <= n <= entries.len(),
    ensures
        logs_size(log_files(entries.take(n))) <= logs_size(log_files(entries)),
    decreases entries.len(),
{
    if n < entries.len() {
        let fewer = entries.drop_last();
        assert(fewer.take(n) =~= entries.take(n));
        lemma_logs_size_grows(fewer, n);
        lemma_logs_size_step(entries);
    } else {
        assert(entries.take(n) =~= entries);
    }
}

proof fn lemma_logs_size_step(entries: Seq<LogEntryView>)
    requires
        entries.len() > 0,
    ensures
        logs_size(log_files(entries)) == logs_size(log_files(entries.drop_last())) + (
        match entries.last().meta {
            Some(m) => if m.is_file {
                m.size as nat
            } else {
                0
            },
            None => 0,
        }),
{
    let rest = log_files(entries.drop_last());
    let all = log_files(entries);
    if all.len() > rest.len() {
        assert(all.drop_last() =~= rest);
    }
}

/// Whether the ages of all files can be told, and their bytes be counted in 64 bits.
pub fn is_loggable(entries: &Vec<LogEntry>) -> (r: bool)
    ensures
        r == loggable(entries.deep_view()),
{
    let ghost all = entries.deep_view();
    let mut total: u64 = 0;
    let mut i: usize = 0;
    assert(all.take(0) =~= Seq::<LogEntryView>::empty());
    while i < entries.len()
        invariant
            all == entries.deep_view(),
            i <= all.len(),
            total == logs_size(log_files(all.take(i as int))),
            forall|k: int| 0 <= k < i ==> has_age(#[trigger] all[k]),
        decreases all.len() - i,
    {
        assert(all[i as int] == entries@[i as int].deep_view());
        proof {
            assert(all.take(i + 1).drop_last() =~= all.take(i as int));
            lemma_logs_size_step(all.take(i + 1));
            lemma_logs_size_grows(all, i + 1);
        }
        match entries[i].meta {
            Some(m) => {
                if m.is_file {
                    if m.mtime > m.seen_at {
                        assert(!has_age(all[i as int]));
                        return false;
                    }
                    match total.checked_add(m.size) {
                        Some(sum) => {
                            total = sum;
                        },
                        None => {
                            return false;
                        },
                    }
                }
            },
            None => {},
        }
        i += 1;
    }
    assert(all.take(i as int) =~= all);
    true
}

/// The key of a directory of logs.
pub open spec fn log_key(rel: Seq<char>) -> Seq<char> {
    if holds_text(rel, "cli/log"@) {
        "cli-log"@
    } else {
        "v2-log"@
    }
}

/// The name of a directory of logs.
pub open spec fn log_name(rel: Seq<char>) -> Seq<char> {
    if holds_text(rel, "cli/log"@) {
        "CLI 日志"@
    } else {
        "v2 日志"@
    }
}

/// Whether `info` describes a directory of logs with these entries: all its files, the newest first,
/// how many they are and what they take.
pub open spec fn describes_logs(
    info: CacheInfoView,
    rel: Seq<char>,
    entries: Seq<LogEntryView>,
) -> bool {
    &&& info.key == log_key(rel)
    &&& info.name == log_name(rel)
    &&& info.path == rel
    &&& info.kind == "dated-log"@
    &&& info.note == "按日期的运行日志，可按保留天数清理"@
    &&& info.total_size == logs_size(log_files(entries))
    &&& info.file_count == Some(log_files(entries).len() as usize)
    &&& log_files(entries).len() <= usize::MAX
    &&& info.files matches Some(files) && newest_first(
        log_files(entries),
        files,
        |f: LogFileView| f.mtime,
    )
}

/// Lists a directory of logs.
pub fn scan_dated_log(rel: &str, entries: &Vec<LogEntry>) -> (r: CacheInfo)
    requires
        loggable(entries.deep_view()),
    ensures
        describes_logs(r.deep_view(), rel@, entries.deep_view()),
{
    let ghost all = entries.deep_view();
    let mut files: Vec<LogFile> = Vec::new();
    let mut total_size: u64 = 0;
    let mut i: usize = 0;
    assert(all.take(0) =~= Seq::<LogEntryView>::empty());
    assert(files.deep_view() =~= Seq::<LogFileView>::empty());
    while i < entries.len()
        invariant
            all == entries.deep_view(),
            loggable(all),
            i <= all.len(),
            files.deep_view() == log_files(all.take(i as int)),
            total_size == logs_size(log_files(all.take(i as int))),
        decreases all.len() - i,
    {
        assert(all[i as int] == entries@[i as int].deep_view());
        assert(has_age(all[i as int]));
        proof {
            assert(all.take(i + 1).drop_last() =~= all.take(i as int));
            lemma_logs_size_step(all.take(i + 1));
            lemma_logs_size_grows(all, i + 1);
        }
        match entries[i].meta {
            Some(m) => {
                if m.is_file {
                    let ghost before = files.deep_view();
                    let file = LogFile {
                        name: entries[i].name.clone(),
                        size: m.size,
                        mtime: m.mtime,
                        age_ms: m.seen_at - m.mtime,
                    };
                    files.push(file);
                    assert(files.deep_view() =~= before.push(file.deep_view()));
                    total_size += m.size;
                }
            },
            None => {},
        }
        i += 1;
    }
    assert(all.take(i as int) =~= all);
    let ghost unsorted = files@;
    let count: usize = files.len();
    let sorted = sort_newest_first(files);
    proof {
        let seen = |f: LogFile| f.deep_view();
        let seen_time = |f: LogFileView| f.mtime;
        lemma_newest_first_seen(unsorted, sorted@, |f: LogFile| f.time(), seen, seen_time);
        assert(unsorted.map_values(seen) =~= log_files(all));
        assert(sorted@.map_values(seen) =~= sorted.deep_view());
    }
    let cli = holds(rel, "cli/log");
    CacheInfo {
        key: if cli {
            "cli-log".to_owned()
        } else {
            "v2-log".to_owned()
        },
        name: if cli {
            "CLI 日志".to_owned()
        } else {
            "v2 日志".to_owned()
        },
        path: rel.to_owned(),
        kind: "dated-log".to_owned(),
        note: "按日期的运行日志，可按保留天数清理".to_owned(),
        total_size,
        file_count: Some(count),
        files: Some(sorted),
    }
}

/// A cache that is a directory tree.
pub open spec fn tree_info(
    key: Seq<char>,
    name: Seq<char>,
    rel: Seq<char>,
    note: Seq<char>,
    tree: DirNode,
) -> CacheInfoView {
    CacheInfoView {
        key,
        name,
        path: rel,
        kind: "tree"@,
        note,
        total_size: tree_size(tree) as u64,
        file_count: None,
        files: None,
    }
}

/// Measures a cache that is a directory tree.
pub fn scan_tree(key: &str, name: &str, rel: &str, note: &str, tree: &DirNode) -> (r: CacheInfo)
    requires
        tree_size(*tree) <= u64::MAX,
    ensures
        r.deep_view() == tree_info(key@, name@, rel@, note@, *tree),
{
    let (size, _) = dir_stats(tree);
    CacheInfo {
        key: key.to_owned(),
        name: name.to_owned(),
        path: rel.to_owned(),
        kind: "tree".to_owned(),
        note: note.to_owned(),
        total_size: size,
        file_count: None,
        files: None,
    }
}

/// Each entry of a directory of logs is listed by itself, in order: a file as one log file with its
/// name, size, time and age; what is no file, or cannot be read, not at all.
pub proof fn law_each_file_is_listed(entries: Seq<LogEntryView>, e: LogEntryView)
    requires
        has_age(e),
    ensures
        ({
            let before = log_files(entries);
            let after = log_files(entries.push(e));
            match e.meta {
                Some(m) => if m.is_file {
                    &&& after.len() == before.len() + 1
                    &&& before.is_prefix_of(after)
                    &&& after.last().name == e.name
                    &&& after.last().size == m.size
                    &&& after.last().mtime == m.mtime
                    &&& after.last().age_ms + m.mtime == m.seen_at
                } else {
                    after == before
                },
                None => after == before,
            }
        }),
        log_files(Seq::empty()).len() == 0,
{
    assert(entries.push(e).drop_last() =~= entries);
}

/// The bytes of log files add up.
pub proof fn law_log_sizes_add_up(files: Seq<LogFileView>, f: LogFileView)
    ensures
        logs_size(files.push(f)) == logs_size(files) + f.size,
        logs_size(Seq::empty()) == 0,
{
    assert(files.push(f).drop_last() =~= files);
}

/// A directory of logs can be listed exactly if no file in it is from the future and all of them
/// together take at most 2^64 - 1 bytes.
pub proof fn law_loggable_means_past_and_64_bits(entries: Seq<LogEntryView>)
    ensures
        loggable(entries) == ((forall|k: int|
            0 <= k < entries.len() ==> ((#[trigger] entries[k]).meta matches Some(m) ==> m.is_file
                ==> m.mtime <= m.seen_at)) && logs_size(log_files(entries))
            <= 0xffff_ffff_ffff_ffff),
{
    if loggable(entries) {
        assert forall|k: int| 0 <= k < entries.len() implies ((#[trigger] entries[k]).meta matches Some(
            m,
        ) ==> m.is_file ==> m.mtime <= m.seen_at) by {
            assert(has_age(entries[k]));
        }
    }
}

/// The two directories of logs go by these keys and names.
pub proof fn law_log_directories()
    ensures
        log_key("cli/log"@) == "cli-log"@,
        log_name("cli/log"@) == "CLI 日志"@,
        log_key("v2/logs"@) == "v2-log"@,
        log_name("v2/logs"@) == "v2 日志"@,
        CLI_LOG_DIR@ == "cli/log"@,
        V2_LOG_DIR@ == "v2/logs"@,
        PLUGIN_CACHE_DIR@ == "cli/plugins/cache"@,
        CRASH_DIR@ == "v2/crash"@,
{
    reveal_strlit("cli/log");
    reveal_strlit("v2/logs");
    let cli = "cli/log"@;
    let v2 = "v2/logs"@;
    assert(cli.subrange(0, 7) =~= cli);
    assert(crate::text::stands_at(cli, cli, 0));
    assert(!holds_text(v2, cli)) by {
        assert forall|at: int| !crate::text::stands_at(v2, cli, at) by {
            if crate::text::stands_at(v2, cli, at) {
                assert(at == 0);
                assert(v2.subrange(0, 7)[0] == cli[0]);
            }
        }
    }
}

/// A directory of logs is described as what it is: under its own path, with all its files and no
/// others, the newest first, how many they are and what they take together.
pub proof fn law_logs_are_described(info: CacheInfoView, rel: Seq<char>, entries: Seq<LogEntryView>)
    requires
        describes_logs(info, rel, entries),
    ensures
        info.path == rel,
        info.key == log_key(rel),
        info.name == log_name(rel),
        info.kind == "dated-log"@,
        info.note == "按日期的运行日志，可按保留天数清理"@,
        info.total_size == logs_size(log_files(entries)),
        info.files is Some,
        info.file_count == Some(info.files->0.len() as usize),
        info.files->0.len() == log_files(entries).len(),
        newest_first(log_files(entries), info.files->0, |f: LogFileView| f.mtime),
        forall|k: int, l: int|
            0 <= k < l < info.files->0.len() ==> (#[trigger] info.files->0[k]).mtime >= (
            #[trigger] info.files->0[l]).mtime,
        forall|k: int|
            0 <= k < log_files(entries).len() ==> info.files->0.contains(
                #[trigger] log_files(entries)[k],
            ),
        forall|k: int|
            0 <= k < info.files->0.len() ==> log_files(entries).contains(
                #[trigger] info.files->0[k],
            ),
{
    let before = log_files(entries);
    let after = info.files->0;
    let time = |f: LogFileView| f.mtime;
    let places = choose|places: Seq<int>| newest_order(before, after, time, places);
    law_sorting_keeps_every_item(before, after, time, places);
    assert forall|k: int, l: int| 0 <= k < l < after.len() implies (#[trigger] after[k]).mtime >= (
    #[trigger] after[l]).mtime by {
        law_newer_goes_before_older(before, after, time, places, k, l);
    }
    assert forall|k: int| 0 <= k < before.len() implies after.contains(#[trigger] before[k]) by {
        assert(places.contains(k));
        let m = choose|m: int| 0 <= m < places.len() && places[m] == k;
        assert(after[m] == before[k]);
    }
    assert forall|k: int| 0 <= k < after.len() implies before.contains(#[trigger] after[k]) by {
        assert(after[k] == before[places[k]]);
    }
}

/// A directory tree is described as what it is: under its own key, name, path and note, with the bytes
/// of everything in it, and without a list of files.
pub proof fn law_trees_are_described(
    key: Seq<char>,
    name: Seq<char>,
    rel: Seq<char>,
    note: Seq<char>,
    tree: DirNode,
)
    requires
        tree_size(tree) <= 0xffff_ffff_ffff_ffff,
    ensures
        tree_info(key, name, rel, note, tree).key == key,
        tree_info(key, name, rel, note, tree).name == name,
        tree_info(key, name, rel, note, tree).path == rel,
        tree_info(key, name, rel, note, tree).kind == "tree"@,
        tree_info(key, name, rel, note, tree).note == note,
        tree_info(key, name, rel, note, tree).total_size == tree_size(tree),
        tree_info(key, name, rel, note, tree).file_count is None,
        tree_info(key, name, rel, note, tree).files is None,
{
}

} // verus!
