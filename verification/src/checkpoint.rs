//! Checkpoints and backups: copies of files taken before an edit, so that it can be undone.
//! The copying and the reading and writing of the log are the caller's; this module keeps
//! the log and decides what to restore.
use vstd::prelude::*;

use crate::config::{parse_u64, parse_unsigned};
use crate::paths::{join_path, join_path_seq};
use crate::runtime::ToolError;
use crate::sandbox::{rel_text, strip_root};
use crate::text::{
    dec, owned, push_str, replace_all, replace_all_str, u64_to_string, usize_to_string, views,
};

verus! {

/// A file saved by a checkpoint: its path in the workspace and where its copy is.
#[derive(Debug)]
pub struct CheckpointFile {
    pub path: String,
    pub backup: String,
}

/// A checkpoint: taken before an edit, with the files it saved.
#[derive(Debug)]
pub struct Checkpoint {
    pub id: usize,
    pub label: String,
    pub timestamp: u64,
    pub files: Vec<CheckpointFile>,
}

/// A checkpoint as a value: its id, label, time and files (path, copy).
pub type CheckpointView = (usize, Seq<char>, u64, Seq<(Seq<char>, Seq<char>)>);

/// The files of a checkpoint, as values.
pub open spec fn files_view(f: Seq<CheckpointFile>) -> Seq<(Seq<char>, Seq<char>)> {
    f.map_values(|x: CheckpointFile| (x.path@, x.backup@))
}

/// A checkpoint as a value.
pub open spec fn cp_view(c: Checkpoint) -> CheckpointView {
    (c.id, c.label@, c.timestamp, files_view(c.files@))
}

/// A log of checkpoints, as values.
pub open spec fn log_view(l: Seq<Checkpoint>) -> Seq<CheckpointView> {
    l.map_values(|c: Checkpoint| cp_view(c))
}

/// The log with each checkpoint's id set to its position.
pub open spec fn renumbered(l: Seq<CheckpointView>) -> Seq<CheckpointView> {
    Seq::new(l.len(), |i: int| (i as usize, l[i].1, l[i].2, l[i].3))
}

/// The most checkpoints the log keeps.
pub const MAX_CHECKPOINTS: usize = 30;

/// The log after recording `c`: `c` appended, and, where that makes more than 30, only the
/// last 30 kept, renumbered from 0.
pub open spec fn recorded(l: Seq<CheckpointView>, c: CheckpointView) -> Seq<CheckpointView> {
    let p = l.push(c);
    if p.len() > 30 {
        renumbered(p.skip(p.len() - 30))
    } else {
        p
    }
}

impl CheckpointFile {
    /// A copy.
    pub fn duplicate(&self) -> (r: CheckpointFile)
        ensures
            r.path@ == self.path@,
            r.backup@ == self.backup@,
    {
        CheckpointFile { path: self.path.clone(), backup: self.backup.clone() }
    }
}

/// Copies of a list of saved files.
fn duplicate_files(f: &Vec<CheckpointFile>) -> (r: Vec<CheckpointFile>)
    ensures
        files_view(r@) == files_view(f@),
{
    let mut out: Vec<CheckpointFile> = Vec::new();
    let mut i: usize = 0;
    while i < f.len()
        invariant
            i <= f@.len(),
            files_view(out@) == files_view(f@).take(i as int),
        decreases f@.len() - i,
    {
        let ghost before = out@;
        out.push(f[i].duplicate());
        proof {
            assert(files_view(out@) =~= files_view(before).push((f@[i as int].path@, f@[i as int].backup@)));
            assert(files_view(f@).take(i + 1) =~= files_view(f@).take(i as int).push(
                (f@[i as int].path@, f@[i as int].backup@),
            ));
        }
        i += 1;
    }
    proof {
        assert(files_view(f@).take(f@.len() as int) =~= files_view(f@));
    }
    out
}

impl Checkpoint {
    /// A copy.
    pub fn duplicate(&self) -> (r: Checkpoint)
        ensures
            cp_view(r) == cp_view(*self),
    {
        Checkpoint {
            id: self.id,
            label: self.label.clone(),
            timestamp: self.timestamp,
            files: duplicate_files(&self.files),
        }
    }
}

/// Records a checkpoint of the saved `files` under `label` at `timestamp` in the log `all`
/// (as read from its file), and returns it. Its id is the log's length before; the log keeps
/// the last 30, renumbered from 0 where older ones were dropped.
pub fn create_checkpoint(
    all: &mut Vec<Checkpoint>,
    label: &str,
    timestamp: u64,
    files: Vec<CheckpointFile>,
) -> (r: Checkpoint)
    ensures
        r.id == old(all)@.len(),
        r.label@ == label@,
        r.timestamp == timestamp,
        files_view(r.files@) == files_view(files@),
        log_view(final(all)@) == recorded(log_view(old(all)@), cp_view(r)),
{
    let cp = Checkpoint { id: all.len(), label: owned(label), timestamp, files };
    let ghost l0 = log_view(all@);
    all.push(cp.duplicate());
    proof {
        assert(log_view(all@) =~= l0.push(cp_view(cp)));
    }
    if all.len() > MAX_CHECKPOINTS {
        let drop = all.len() - MAX_CHECKPOINTS;
        let ghost p = log_view(all@);
        let mut kept: Vec<Checkpoint> = Vec::new();
        let mut i = drop;
        while i < all.len()
            invariant
                drop <= i <= all@.len(),
                p == log_view(all@),
                drop == all@.len() - 30,
                log_view(kept@) == renumbered(p.skip(drop as int)).take((i - drop) as int),
            decreases all@.len() - i,
        {
            let mut c = all[i].duplicate();
            c.id = i - drop;
            let ghost before = kept@;
            kept.push(c);
            proof {
                assert(log_view(kept@) =~= log_view(before).push(cp_view(c)));
                assert(renumbered(p.skip(drop as int)).take((i + 1 - drop) as int) =~= renumbered(
                    p.skip(drop as int),
                ).take((i - drop) as int).push(cp_view(c)));
            }
            i += 1;
        }
        proof {
            assert(renumbered(p.skip(drop as int)).take((all@.len() - drop) as int) =~= renumbered(
                p.skip(drop as int),
            ));
        }
        *all = kept;
    }
    cp
}

/// The log after a checkpoint holds at most 30 entries, one more than before where that
/// fits, and its last entry is the new checkpoint (label, time and files).
pub proof fn law_checkpoint_log_bounded(l: Seq<CheckpointView>, c: CheckpointView)
    ensures
        recorded(l, c).len() == if l.len() + 1 > 30 {
            30
        } else {
            l.len() + 1
        },
        recorded(l, c).last().1 == c.1,
        recorded(l, c).last().2 == c.2,
        recorded(l, c).last().3 == c.3,
{
}

/// The id of the checkpoint `undo` restores: the last one in the log.
pub fn undo_last(all: &Vec<Checkpoint>) -> (r: Result<usize, ToolError>)
    ensures
        all@.len() == 0 ==> (r matches Err(e) && e.message@ == "no checkpoints yet"@),
        all@.len() > 0 ==> r == Ok::<usize, ToolError>(all@.last().id),
{
    if all.len() == 0 {
        return Err(ToolError { message: owned("no checkpoints yet") });
    }
    Ok(all[all.len() - 1].id)
}

/// The position of the first checkpoint with this id.
pub open spec fn first_with_id(l: Seq<CheckpointView>, id: usize) -> int
    decreases l.len(),
{
    if l.len() == 0 {
        -1
    } else if l[0].0 == id {
        0
    } else {
        let k = first_with_id(l.drop_first(), id);
        if k < 0 {
            -1
        } else {
            k + 1
        }
    }
}

/// The checkpoint to restore for `id`: the first in the log with that id.
pub fn find_checkpoint(all: &Vec<Checkpoint>, id: usize) -> (r: Result<usize, ToolError>)
    ensures
        match r {
            Ok(k) => k as int == first_with_id(log_view(all@), id),
            Err(e) => first_with_id(log_view(all@), id) < 0 && e.message@ == "no checkpoint #"@
                + dec(id as nat),
        },
{
    let ghost l = log_view(all@);
    let mut i: usize = 0;
    while i < all.len()
        invariant
            i <= all@.len(),
            l == log_view(all@),
            forall|k: int| 0 <= k < i ==> l[k].0 != id,
        decreases all@.len() - i,
    {
        if all[i].id == id {
            proof {
                lemma_first_with_id(l, id, i as int);
            }
            return Ok(i);
        }
        i += 1;
    }
    proof {
        lemma_first_with_id(l, id, l.len() as int);
    }
    let mut m = owned("no checkpoint #");
    let d = usize_to_string(id);
    push_str(&mut m, d.as_str());
    Err(ToolError { message: m })
}

/// `first_with_id` is the least position with the id, and -1 where there is none.
proof fn lemma_first_with_id(l: Seq<CheckpointView>, id: usize, i: int)
    requires
        0 <= i <= l.len(),
        forall|k: int| 0 <= k < i ==> l[k].0 != id,
    ensures
        i < l.len() && l[i].0 == id ==> first_with_id(l, id) == i,
        i == l.len() ==> first_with_id(l, id) < 0,
    decreases l.len(),
{
    if l.len() > 0 && i > 0 {
        let t = l.drop_first();
        assert forall|k: int| 0 <= k < i - 1 implies t[k].0 != id by {
            assert(t[k] == l[k + 1]);
        }
        lemma_first_with_id(t, id, i - 1);
    }
}

/// The message after restoring a checkpoint.
pub fn restored_checkpoint_message(id: usize, label: &str, restored: usize) -> (r: String)
    ensures
        r@ == "restored checkpoint #"@ + dec(id as nat) + " ("@ + label@ + ") — "@ + dec(
            restored as nat,
        ) + " file(s)"@,
{
    let mut m = owned("restored checkpoint #");
    let d = usize_to_string(id);
    push_str(&mut m, d.as_str());
    push_str(&mut m, " (");
    push_str(&mut m, label);
    push_str(&mut m, ") — ");
    let d = usize_to_string(restored);
    push_str(&mut m, d.as_str());
    push_str(&mut m, " file(s)");
    m
}

/// The label of the checkpoint taken before a tool edits `path`: `before write`,
/// `before edit`, `before multi-edit` or `before delete`, then the path.
pub fn checkpoint_label(kind: &str, path: &str) -> (r: String)
    ensures
        r@ == "before "@ + kind@ + " "@ + path@,
{
    let mut m = owned("before ");
    push_str(&mut m, kind);
    push_str(&mut m, " ");
    push_str(&mut m, path);
    m
}

// ---------------------------------------------------------------------------
// Backups
// ---------------------------------------------------------------------------

/// The directory of backups: `.vesper/backups` in the workspace.
pub fn backups_dir(workspace: &str) -> (r: String)
    ensures
        r@ == join_path_seq(join_path_seq(workspace@, ".vesper"@), "backups"@),
{
    let d = join_path(workspace, ".vesper");
    join_path(d.as_str(), "backups")
}

/// The checkpoint log: `.vesper/checkpoints.json` in the workspace.
pub fn checkpoints_path(workspace: &str) -> (r: String)
    ensures
        r@ == join_path_seq(join_path_seq(workspace@, ".vesper"@), "checkpoints.json"@),
{
    let d = join_path(workspace, ".vesper");
    join_path(d.as_str(), "checkpoints.json")
}

/// The name of the backup of `abs` taken at `timestamp`: the time, `_`, then the file's path
/// relative to the workspace with each `/` written `__`.
pub open spec fn backup_name_text(workspace: Seq<char>, abs: Seq<char>, timestamp: u64) -> Seq<char> {
    dec(timestamp as nat) + "_"@ + replace_all(rel_text(workspace, abs), "/"@, "__"@)
}

/// The file name of a backup of `abs` taken at `timestamp`.
pub fn backup_name(workspace: &str, abs: &str, timestamp: u64) -> (r: String)
    ensures
        r@ == backup_name_text(workspace@, abs@, timestamp),
{
    let rel = strip_root(workspace, abs);
    proof {
        reveal_strlit("/");
    }
    let flat = replace_all_str(rel.as_str(), "/", "__");
    let mut r = u64_to_string(timestamp);
    push_str(&mut r, "_");
    push_str(&mut r, flat.as_str());
    r
}

/// A backup found in the backups directory.
#[derive(Debug)]
pub struct BackupEntry {
    pub id: usize,
    pub original: String,
    pub backup_path: String,
    pub timestamp: u64,
}

/// A backup entry as a value: id, original path, backup path, time.
pub open spec fn entry_view(e: BackupEntry) -> (usize, Seq<char>, Seq<char>, u64) {
    (e.id, e.original@, e.backup_path@, e.timestamp)
}

/// What the name of a backup file says: the time before the first `_` (0 where it is not a
/// number) and the original path after it (each `__` read as `/`); a name without `_` is
/// taken whole as the path, at time 0.
pub open spec fn parsed_backup_name(name: Seq<char>) -> (u64, Seq<char>) {
    let k = crate::text::first_occ(name, "_"@);
    if k < 0 {
        (0, name)
    } else {
        let ts = match parse_unsigned(name.take(k), u64::MAX as nat) {
            Some(v) => v as u64,
            None => 0,
        };
        (ts, replace_all(name.skip(k + 1), "__"@, "/"@))
    }
}

/// The backup entry for the file `name` at `path`, listed `id`-th.
pub fn backup_entry(id: usize, name: &str, path: &str) -> (r: BackupEntry)
    ensures
        r.id == id,
        r.backup_path@ == path@,
        (r.timestamp, r.original@) == parsed_backup_name(name@),
{
    proof {
        reveal_strlit("_");
        reveal_strlit("__");
    }
    let v = crate::text::chars_of(name);
    match crate::text::find(name, "_") {
        None => BackupEntry { id, original: owned(name), backup_path: owned(path), timestamp: 0 },
        Some(k) => {
            proof {
                crate::text::lemma_first_occ(name@, "_"@);
            }
            let head = crate::text::string_of_range(&v, 0, k);
            let tail = crate::text::string_of_range(&v, k + 1, v.len());
            proof {
                assert(v@.subrange(0, k as int) =~= name@.take(k as int));
                assert(v@.subrange(k + 1, v@.len() as int) =~= name@.skip(k + 1));
            }
            let ts = match parse_u64(head.as_str()) {
                Some(t) => t,
                None => 0,
            };
            let original = replace_all_str(tail.as_str(), "__", "/");
            BackupEntry { id, original, backup_path: owned(path), timestamp: ts }
        },
    }
}

/// Inserting `e` into a list kept in time order: after every entry no later than it.
pub open spec fn insert_by_time(s: Seq<BackupEntry>, e: BackupEntry) -> Seq<BackupEntry>
    decreases s.len(),
{
    if s.len() == 0 {
        seq![e]
    } else if s.last().timestamp <= e.timestamp {
        s.push(e)
    } else {
        insert_by_time(s.drop_last(), e).push(s.last())
    }
}

/// The entries in time order, equal times kept in their order (a stable sort by time).
pub open spec fn by_time(s: Seq<BackupEntry>) -> Seq<BackupEntry>
    decreases s.len(),
{
    if s.len() == 0 {
        seq![]
    } else {
        insert_by_time(by_time(s.drop_last()), s.last())
    }
}

/// The entries numbered by position.
pub open spec fn numbered_entries(s: Seq<BackupEntry>) -> Seq<(usize, Seq<char>, Seq<char>, u64)> {
    Seq::new(s.len(), |i: int| (i as usize, s[i].original@, s[i].backup_path@, s[i].timestamp))
}

/// The backups as listed: in time order (equal times in their order), numbered from 0.
pub fn sort_backups(entries: Vec<BackupEntry>) -> (r: Vec<BackupEntry>)
    ensures
        r@.map_values(|e: BackupEntry| entry_view(e)) == numbered_entries(by_time(entries@)),
{
    let ghost ev = entries@;
    let mut sorted: Vec<BackupEntry> = Vec::new();
    let mut rest = entries;
    let ghost mut k: int = 0;
    proof {
        assert(ev.skip(0) =~= ev);
    }
    while rest.len() > 0
        invariant
            0 <= k <= ev.len(),
            rest@ == ev.skip(k),
            sorted@ == by_time(ev.take(k)),
        decreases rest@.len(),
    {
        let x = rest.remove(0);
        proof {
            assert(x == ev[k]);
            assert(rest@ =~= ev.skip(k + 1));
            assert(ev.take(k + 1).drop_last() =~= ev.take(k));
            assert(ev.take(k + 1).last() == x);
        }
        let ghost s0 = sorted@;
        let mut p = sorted.len();
        proof {
            assert(s0.take(p as int) =~= s0);
            assert(s0.skip(p as int) =~= Seq::<BackupEntry>::empty());
            assert(insert_by_time(s0, x) =~= insert_by_time(s0.take(p as int), x) + s0.skip(
                p as int,
            ));
        }
        while p > 0 && sorted[p - 1].timestamp > x.timestamp
            invariant
                p <= sorted@.len(),
                sorted@ == s0,
                insert_by_time(s0, x) == insert_by_time(s0.take(p as int), x) + s0.skip(p as int),
            decreases p,
        {
            proof {
                let t = s0.take(p as int);
                assert(t.drop_last() =~= s0.take(p - 1));
                assert(t.last() == s0[p - 1]);
                assert(s0.skip(p - 1) =~= seq![s0[p - 1]] + s0.skip(p as int));
                assert(insert_by_time(t, x) == insert_by_time(s0.take(p - 1), x).push(s0[p - 1]));
                assert(insert_by_time(t, x) + s0.skip(p as int) =~= insert_by_time(
                    s0.take(p - 1),
                    x,
                ) + s0.skip(p - 1));
            }
            p -= 1;
        }
        proof {
            let t = s0.take(p as int);
            if p > 0 {
                assert(t.last() == s0[p - 1]);
            }
            assert(insert_by_time(t, x) == t.push(x));
        }
        sorted.insert(p, x);
        proof {
            assert(sorted@ =~= s0.take(p as int).push(x) + s0.skip(p as int));
            k = k + 1;
        }
    }
    proof {
        assert(ev.take(k) =~= ev);
    }
    let mut out: Vec<BackupEntry> = Vec::new();
    let ghost b = sorted@;
    let n = sorted.len();
    let mut j: usize = 0;
    while j < n
        invariant
            j <= n,
            n == b.len(),
            sorted@ == b.skip(j as int),
            out@.map_values(|e: BackupEntry| entry_view(e)) == numbered_entries(b).take(j as int),
        decreases n - j,
    {
        let mut e = sorted.remove(0);
        proof {
            assert(e == b[j as int]);
            assert(sorted@ =~= b.skip(j + 1));
        }
        e.id = j;
        let ghost before = out@;
        out.push(e);
        proof {
            assert(entry_view(e) == numbered_entries(b)[j as int]);
            assert(out@.map_values(|e: BackupEntry| entry_view(e)) =~= before.map_values(
                |e: BackupEntry| entry_view(e),
            ).push(entry_view(e)));
            assert(out@.map_values(|e: BackupEntry| entry_view(e)) =~= numbered_entries(b).take(
                j + 1,
            ));
        }
        j += 1;
    }
    proof {
        assert(numbered_entries(b).take(j as int) =~= numbered_entries(b));
    }
    out
}

/// The message after restoring a backup.
pub fn restored_backup_message(original: &str, id: usize) -> (r: String)
    ensures
        r@ == "restored "@ + original@ + " from backup #"@ + dec(id as nat),
{
    let mut m = owned("restored ");
    push_str(&mut m, original);
    push_str(&mut m, " from backup #");
    let d = usize_to_string(id);
    push_str(&mut m, d.as_str());
    m
}

/// The entries are in time order.
pub open spec fn in_time_order(s: Seq<BackupEntry>) -> bool {
    forall|i: int, j: int| 0 <= i < j < s.len() ==> s[i].timestamp <= s[j].timestamp
}

proof fn lemma_insert_bound(s: Seq<BackupEntry>, e: BackupEntry, m: u64)
    requires
        forall|k: int| 0 <= k < s.len() ==> s[k].timestamp <= m,
        e.timestamp <= m,
    ensures
        insert_by_time(s, e).len() == s.len() + 1,
        forall|k: int|
            0 <= k < insert_by_time(s, e).len() ==> #[trigger] insert_by_time(s, e)[k].timestamp
                <= m,
    decreases s.len(),
{
    if s.len() > 0 && s.last().timestamp > e.timestamp {
        let t = s.drop_last();
        lemma_insert_bound(t, e, m);
        assert forall|k: int| 0 <= k < insert_by_time(s, e).len() implies #[trigger] insert_by_time(
            s,
            e,
        )[k].timestamp <= m by {
            if k < insert_by_time(t, e).len() {
                assert(insert_by_time(s, e)[k] == insert_by_time(t, e)[k]);
            }
        }
    }
}

proof fn lemma_insert_sorted(s: Seq<BackupEntry>, e: BackupEntry)
    requires
        in_time_order(s),
    ensures
        in_time_order(insert_by_time(s, e)),
        insert_by_time(s, e).len() == s.len() + 1,
    decreases s.len(),
{
    if s.len() == 0 {
    } else if s.last().timestamp <= e.timestamp {
    } else {
        let t = s.drop_last();
        lemma_insert_sorted(t, e);
        lemma_insert_bound(t, e, s.last().timestamp);
        let r = insert_by_time(t, e);
        assert forall|i: int, j: int|
            0 <= i < j < r.len() + 1 implies #[trigger] r.push(s.last())[i].timestamp <= #[trigger] r.push(
            s.last(),
        )[j].timestamp by {
            if j == r.len() {
                assert(r[i].timestamp <= s.last().timestamp);
            }
        }
    }
}

/// Listed backups come in time order, one entry for each file found.
pub proof fn law_backups_in_time_order(s: Seq<BackupEntry>)
    ensures
        in_time_order(by_time(s)),
        by_time(s).len() == s.len(),
    decreases s.len(),
{
    if s.len() > 0 {
        law_backups_in_time_order(s.drop_last());
        lemma_insert_sorted(by_time(s.drop_last()), s.last());
    }
}

} // verus!
