//! Finding the session logs: which files of a directory tree are session
//! logs, and where the tree is rooted.
//!
//! The tree is handed over as a value, read from the file system by the
//! caller. An entry that is not a directory is taken to be a file.

use vstd::prelude::*;
use vstd::slice::*;
use vstd::string::*;

use crate::cache::path_views;
use crate::codex_import::{Discovery, DiscoveryView};
use crate::models::AppConfig;

verus! {

/// One entry of a directory tree.
#[derive(Debug)]
pub enum DirEntry {
    /// A file, with its name inside its directory and its full path.
    File { name: String, path: String },
    /// A directory, with its entries in the order in which it lists them.
    Dir { entries: Vec<DirEntry> },
    /// A directory that could not be listed, or an entry that could not be
    /// read.
    Unreadable,
}

/// The bytes of `.jsonl`.
pub open spec fn session_log_suffix() -> Seq<u8> {
    seq![46u8, 106u8, 115u8, 111u8, 110u8, 108u8]
}

/// A session log is a file whose name has the extension `jsonl`: the name
/// ends in `.jsonl` and something stands before the dot.
pub open spec fn is_session_log_name(name: Seq<u8>) -> bool {
    name.len() > 6 && name.subrange(name.len() - 6, name.len() as int) == session_log_suffix()
}

/// The session logs under `entry`, in the order of a depth-first walk, or
/// nothing if some part of the tree below it could not be read.
pub open spec fn session_logs(entry: DirEntry) -> Option<Seq<Seq<char>>>
    decreases entry,
{
    match entry {
        DirEntry::File { name, path } => Some(
            if is_session_log_name(vstd::utf8::encode_utf8(name@)) {
                seq![path@]
            } else {
                Seq::empty()
            },
        ),
        DirEntry::Dir { entries } => session_logs_in(entries@),
        DirEntry::Unreadable => None,
    }
}

/// The session logs under the entries of one directory.
pub open spec fn session_logs_in(entries: Seq<DirEntry>) -> Option<Seq<Seq<char>>>
    decreases entries,
{
    if entries.len() == 0 {
        Some(Seq::empty())
    } else {
        match (session_logs_in(entries.drop_last()), session_logs(entries.last())) {
            (Some(before), Some(found)) => Some(before + found),
            _ => None,
        }
    }
}

/// What a walk from `root` comes to. A root that does not exist is told
/// apart from a root without session logs; a root that is no directory, or
/// a tree that cannot be read in full, makes the walk fail as a whole.
pub open spec fn discovered(root: Option<DirEntry>) -> DiscoveryView {
    match root {
        None => DiscoveryView::MissingRoot,
        Some(DirEntry::Dir { entries }) => match session_logs_in(entries@) {
            Some(files) => DiscoveryView::Found(files),
            None => DiscoveryView::Failed,
        },
        Some(_) => DiscoveryView::Failed,
    }
}

/// Tells whether a file of this name is a session log.
pub fn has_session_log_name(name: &str) -> (out: bool)
    ensures
        out == is_session_log_name(name.spec_bytes()),
{
    let bytes = name.as_bytes();
    let n = bytes.len();
    if n <= 6 {
        return false;
    }
    let matches = bytes[n - 6] == 46 && bytes[n - 5] == 106 && bytes[n - 4] == 115 && bytes[n
        - 3] == 111 && bytes[n - 2] == 110 && bytes[n - 1] == 108;
    proof {
        let tail = bytes@.subrange(n - 6, n as int);
        if matches {
            assert(tail =~= session_log_suffix());
        } else {
            assert(tail[0] == bytes@[n - 6]);
            assert(tail[1] == bytes@[n - 5]);
            assert(tail[2] == bytes@[n - 4]);
            assert(tail[3] == bytes@[n - 3]);
            assert(tail[4] == bytes@[n - 2]);
            assert(tail[5] == bytes@[n - 1]);
        }
    }
    matches
}

/// Walks `entry` and appends its session logs to `files`. Answers whether
/// everything below `entry` could be read.
pub fn collect_jsonl_files_recursive(entry: &DirEntry, files: &mut Vec<String>) -> (ok: bool)
    ensures
        ok == (session_logs(*entry) is Some),
        ok ==> path_views(final(files)@) == path_views(old(files)@) + session_logs(*entry)->0,
    decreases *entry,
{
    let ghost start = path_views(files@);
    match entry {
        DirEntry::File { name, path } => {
            if has_session_log_name(name.as_str()) {
                files.push(path.clone());
                proof {
                    assert(path_views(files@) =~= start + seq![path@]);
                }
            } else {
                proof {
                    assert(path_views(files@) =~= start + Seq::<Seq<char>>::empty());
                }
            }
            true
        },
        DirEntry::Unreadable => false,
        DirEntry::Dir { entries } => {
            let mut i: usize = 0;
            proof {
                assert(path_views(files@) =~= start + Seq::<Seq<char>>::empty());
                assert(entries@.take(0) =~= Seq::<DirEntry>::empty());
            }
            while i < entries.len()
                invariant
                    i <= entries@.len(),
                    *entry == (DirEntry::Dir { entries: *entries }),
                    session_logs_in(entries@.take(i as int)) is Some,
                    path_views(files@) == start + session_logs_in(entries@.take(i as int))->0,
                decreases entries@.len() - i,
            {
                let ghost done = entries@.take(i as int);
                let ghost next = entries@.take(i as int + 1);
                proof {
                    assert(next.drop_last() =~= done);
                    assert(next.last() == entries@[i as int]);
                    assert(decreases_to!(*entries => entries[i as int]));
                    assert(decreases_to!(*entry => entry->entries));
                }
                let ghost before = path_views(files@);
                if !collect_jsonl_files_recursive(&entries[i], files) {
                    proof {
                        assert(session_logs_in(next) is None);
                        lemma_failure_spreads(entries@, i as int + 1);
                    }
                    return false;
                }
                proof {
                    assert(path_views(files@) =~= start + session_logs_in(next)->0);
                }
                i += 1;
            }
            proof {
                assert(entries@.take(entries@.len() as int) =~= entries@);
            }
            true
        },
    }
}

/// A directory with an unreadable part among its first entries is
/// unreadable as a whole.
proof fn lemma_failure_spreads(entries: Seq<DirEntry>, count: int)
    requires
        0 <= count <= entries.len(),
        session_logs_in(entries.take(count)) is None,
    ensures
        session_logs_in(entries) is None,
    decreases entries.len() - count,
{
    if count < entries.len() {
        assert(entries.take(count + 1).drop_last() =~= entries.take(count));
        lemma_failure_spreads(entries, count + 1);
    } else {
        assert(entries.take(count) =~= entries);
    }
}

/// Lists the session logs of the tree rooted at `root`, where `root` is
/// nothing if the root directory does not exist.
pub fn collect_codex_session_files(root: Option<&DirEntry>) -> (out: Discovery)
    ensures
        out@ == discovered(
            match root {
                Some(entry) => Some(*entry),
                None => None,
            },
        ),
{
    match root {
        None => Discovery::MissingRoot,
        Some(entry) => match entry {
            DirEntry::Dir { .. } => {
                let mut files: Vec<String> = Vec::new();
                proof {
                    assert(path_views(files@) =~= Seq::<Seq<char>>::empty());
                }
                if collect_jsonl_files_recursive(entry, &mut files) {
                    proof {
                        assert(path_views(files@) =~= session_logs(*entry)->0);
                    }
                    Discovery::Found(files)
                } else {
                    Discovery::Failed
                }
            },
            _ => Discovery::Failed,
        },
    }
}

/// Calls `dirs::home_dir` and hands the path on as text. Nothing is claimed
/// of the answer: it depends on the user and the environment.
#[verifier::external_body]
fn home_directory() -> (out: Option<String>) {
    match dirs::home_dir() {
        Some(home) => Some(home.to_string_lossy().into_owned()),
        None => None,
    }
}

/// The byte that separates the parts of a path.
pub const PATH_SEPARATOR: u8 = 47;

/// Nothing needs to stand between a directory with these bytes and a name
/// that follows it: the directory is empty, or it ends in `/` already.
pub open spec fn joins_directly(directory: Seq<u8>) -> bool {
    directory.len() == 0 || directory.last() == PATH_SEPARATOR
}

/// The default directory of the session logs: `.codex/sessions` under the
/// given home directory, or under the current directory where no home
/// directory is known. The parts are joined with one `/`; none is added
/// behind a home directory that is empty or ends in `/`.
pub open spec fn sessions_dir_under(home: Option<Seq<char>>) -> Seq<char> {
    match home {
        Some(home) => if joins_directly(vstd::utf8::encode_utf8(home)) {
            home + ".codex/sessions"@
        } else {
            home + "/.codex/sessions"@
        },
        None => "./.codex/sessions"@,
    }
}

/// The value of an optional path.
pub open spec fn home_view(home: Option<String>) -> Option<Seq<char>> {
    match home {
        Some(home) => Some(home@),
        None => None,
    }
}

/// Names the default directory of the session logs under the given home
/// directory.
pub fn default_sessions_dir(home: Option<String>) -> (out: String)
    ensures
        out@ == sessions_dir_under(home_view(home)),
{
    match home {
        Some(mut dir) => {
            let bytes = dir.as_str().as_bytes();
            let direct = bytes.len() == 0 || bytes[bytes.len() - 1] == PATH_SEPARATOR;
            if direct {
                dir.append(".codex/sessions");
            } else {
                dir.append("/.codex/sessions");
            }
            dir
        },
        None => "./.codex/sessions".to_owned(),
    }
}

/// The directory under which session logs are looked for: the one that the
/// configuration names, else the default under the user's home directory.
pub fn codex_sessions_dir(config: &AppConfig) -> (out: String)
    ensures
        match config.codex_import.sessions_dir {
            Some(dir) => out@ == dir@,
            None => exists|home: Option<Seq<char>>| out@ == #[trigger] sessions_dir_under(home),
        },
{
    match &config.codex_import.sessions_dir {
        Some(dir) => dir.clone(),
        None => default_sessions_dir(home_directory()),
    }
}

} // verus!
