//! Snapshots of containers.

use crate::shell::{owned, slices};
use crate::sys::{is_random_id, new_id, now_millis, time_stamp};
use crate::text::{first_word, first_word_of, has_prefix, lines, lines_of, starts_with, texts, trim, trimmed};
use vstd::prelude::*;
use vstd::string::*;

verus! {

/// A snapshot of a container. The time is in milliseconds since the Unix
/// epoch, the size in bytes.
#[derive(Debug, Clone)]
pub struct Snapshot {
    pub id: u128,
    pub container_name: String,
    pub name: String,
    pub comment: Option<String>,
    pub created_at: i64,
    pub size_bytes: Option<u64>,
}

/// Takes, lists, restores and deletes snapshots of containers.
#[derive(Debug, Clone, Copy, PartialEq, Eq, Structural)]
pub struct SnapshotManager;

/// The arguments that take a snapshot, with or without a comment.
pub open spec fn create_args_of(container: Seq<char>, snapshot: Seq<char>, comment: Option<Seq<char>>) -> Seq<
    Seq<char>,
> {
    match comment {
        Some(c) => seq!["snapshot"@, "-n"@, snapshot, "-c"@, c, container],
        None => seq!["snapshot"@, "-n"@, snapshot, container],
    }
}

/// The name on a line of a list of snapshots: its first word. A line that
/// is empty, a heading or a rule has none.
pub open spec fn name_on(line: Seq<char>) -> Option<Seq<char>> {
    let t = trimmed(line);
    if t.len() == 0 || has_prefix(t, "List of"@) || has_prefix(t, "---"@) || first_word_of(t).len() == 0 {
        None
    } else {
        Some(first_word_of(t))
    }
}

/// The names on the lines of a list of snapshots.
pub open spec fn names_on(lines: Seq<Seq<char>>) -> Seq<Seq<char>>
    decreases lines.len(),
{
    if lines.len() == 0 {
        Seq::empty()
    } else {
        match name_on(lines.last()) {
            Some(name) => names_on(lines.drop_last()).push(name),
            None => names_on(lines.drop_last()),
        }
    }
}

impl SnapshotManager {
    /// The name of a snapshot that was taken at the time `stamp` names.
    pub fn name_for(stamp: &str) -> (name: String)
        ensures
            name@ == "snap_"@ + stamp@,
    {
        let mut name = String::from_str("snap_");
        name.append(stamp);
        name
    }

    /// The name of a new snapshot: the one that was asked for, or one made
    /// of the present time.
    pub fn snapshot_name(wanted: Option<String>) -> (name: String)
        ensures
            wanted matches Some(w) ==> name == w,
            wanted is None ==> has_prefix(name@, "snap_"@),
    {
        match wanted {
            Some(w) => w,
            None => {
                let stamp = time_stamp();
                let name = SnapshotManager::name_for(stamp.as_str());
                assert(name@.take("snap_"@.len() as int) =~= "snap_"@);
                name
            },
        }
    }

    /// The arguments that take the snapshot `snapshot` of `container`.
    pub fn create_args(container: &str, snapshot: &str, comment: Option<&str>) -> (args: Vec<String>)
        ensures
            texts(args@) == create_args_of(
                container@,
                snapshot@,
                match comment {
                    Some(c) => Some(c@),
                    None => None,
                },
            ),
    {
        match comment {
            Some(c) => {
                let list = ["snapshot", "-n", snapshot, "-c", c, container];
                let args = owned(list.as_slice());
                assert(slices(list@) =~= seq!["snapshot"@, "-n"@, snapshot@, "-c"@, c@, container@]);
                args
            },
            None => {
                let list = ["snapshot", "-n", snapshot, container];
                let args = owned(list.as_slice());
                assert(slices(list@) =~= seq!["snapshot"@, "-n"@, snapshot@, container@]);
                args
            },
        }
    }

    /// The arguments that list the snapshots of `container`.
    pub fn list_args(container: &str) -> (args: Vec<String>)
        ensures
            texts(args@) == seq!["snapshot"@, "-L"@, container@],
    {
        let list = ["snapshot", "-L", container];
        let args = owned(list.as_slice());
        assert(slices(list@) =~= seq!["snapshot"@, "-L"@, container@]);
        args
    }

    /// The arguments that bring `container` back to `snapshot`.
    pub fn restore_args(container: &str, snapshot: &str) -> (args: Vec<String>)
        ensures
            texts(args@) == seq!["snapshot"@, "-r"@, snapshot@, container@],
    {
        let list = ["snapshot", "-r", snapshot, container];
        let args = owned(list.as_slice());
        assert(slices(list@) =~= seq!["snapshot"@, "-r"@, snapshot@, container@]);
        args
    }

    /// The arguments that delete `snapshot` of `container`.
    pub fn delete_args(container: &str, snapshot: &str) -> (args: Vec<String>)
        ensures
            texts(args@) == seq!["snapshot"@, "-d"@, snapshot@, container@],
    {
        let list = ["snapshot", "-d", snapshot, container];
        let args = owned(list.as_slice());
        assert(slices(list@) =~= seq!["snapshot"@, "-d"@, snapshot@, container@]);
        args
    }

    /// The arguments that make the container `target` out of `snapshot`
    /// of `source`.
    pub fn clone_args(source: &str, snapshot: &str, target: &str) -> (args: Vec<String>)
        ensures
            texts(args@) == seq!["copy"@, "-n"@, source@, "-s"@, snapshot@, "-N"@, target@],
    {
        let list = ["copy", "-n", source, "-s", snapshot, "-N", target];
        let args = owned(list.as_slice());
        assert(slices(list@) =~= seq!["copy"@, "-n"@, source@, "-s"@, snapshot@, "-N"@, target@]);
        args
    }

    /// The names of the snapshots that a list of them holds.
    pub fn parse_list(output: &str) -> (names: Vec<String>)
        ensures
            texts(names@) == names_on(lines_of(output@)),
    {
        let all = lines(output);
        let mut names: Vec<String> = Vec::new();
        let mut i: usize = 0;
        assert(texts(all@).take(0) =~= Seq::<Seq<char>>::empty());
        assert(texts(names@) =~= Seq::<Seq<char>>::empty());
        while i < all.len()
            invariant
                i <= all.len(),
                texts(names@) == names_on(texts(all@).take(i as int)),
            decreases all.len() - i,
        {
            let ghost before = texts(names@);
            proof {
                assert(texts(all@).take(i + 1).drop_last() =~= texts(all@).take(i as int));
                assert(texts(all@).take(i + 1).last() == all@[i as int]@);
            }
            let line = trim(all[i].as_str());
            let t = line.as_str();
            if t.unicode_len() > 0 && !starts_with(t, "List of") && !starts_with(t, "---") {
                match first_word(t) {
                    Some(name) => {
                        let ghost text = name@;
                        names.push(name);
                        assert(texts(names@) =~= before.push(text));
                    },
                    None => {},
                }
            }
            i = i + 1;
        }
        assert(texts(all@).take(i as int) =~= texts(all@));
        names
    }

    /// Where the snapshot `snapshot_name` of `container_name` is kept
    /// below `lxc_root`.
    pub fn get_snapshot_path(lxc_root: &str, container_name: &str, snapshot_name: &str) -> (path: String)
        ensures
            path@ == lxc_root@ + "/"@ + container_name@ + "/snaps/"@ + snapshot_name@,
    {
        let mut path = String::from_str(lxc_root);
        path.append("/");
        path.append(container_name);
        path.append("/snaps/");
        path.append(snapshot_name);
        path
    }

    /// The record of a snapshot taken at `created_at`, with the given
    /// identifier.
    pub fn record_with(
        id: u128,
        created_at: i64,
        container_name: String,
        name: String,
        comment: Option<String>,
        size_bytes: Option<u64>,
    ) -> (snapshot: Snapshot)
        ensures
            snapshot == (Snapshot { id, container_name, name, comment, created_at, size_bytes }),
    {
        Snapshot { id, container_name, name, comment, created_at, size_bytes }
    }

    /// The record of a snapshot taken now, with a fresh identifier.
    pub fn record(container_name: String, name: String, comment: Option<String>, size_bytes: Option<u64>) -> (snapshot:
        Snapshot)
        ensures
            is_random_id(snapshot.id),
            snapshot.container_name == container_name,
            snapshot.name == name,
            snapshot.comment == comment,
            snapshot.size_bytes == size_bytes,
    {
        SnapshotManager::record_with(new_id(), now_millis(), container_name, name, comment, size_bytes)
    }
}

} // verus!
