//! Directory-to-file-list expansion.
//!
//! The resolver works over an explicit model of the directory tree: every
//! directory is named by its canonical identity (an index), so two entries
//! that are really the same directory — a symbolic link and its target —
//! carry the same index. [`get_notebooks_in_dir`] walks the tree depth
//! first with an explicit work stack and a visited set, collecting every
//! file whose name carries the notebook extension, and never descends into
//! a directory twice; that is what makes a link back to an ancestor
//! harmless. The walk is one step function iterated to its fixed point, so
//! the result is a function of the tree alone: resolving twice yields the
//! same list.

use vstd::prelude::*;

verus! {

use crate::strutil::str_eq;
use vstd::string::StrSliceExecFns;

/// One directory entry: a file (with the path to report and the bare file
/// name the extension filter reads), or a subdirectory named by its
/// canonical identity.
pub enum FsEntry {
    File { path: String, name: String },
    Dir { id: usize },
}

/// A directory tree: `dirs[d]` is the entry list of the directory with
/// canonical identity `d`, in the order the operating system yields it.
pub struct FsTree {
    pub dirs: Vec<Vec<FsEntry>>,
}

impl FsTree {
    /// The entries of directory `d`.
    pub open spec fn entries(&self, d: int) -> Seq<FsEntry> {
        self.dirs@[d]@
    }

    /// Every subdirectory reference points into the tree.
    pub open spec fn wf(&self) -> bool {
        forall|d: int, j: int|
            0 <= d < self.dirs@.len() && 0 <= j < self.entries(d).len() ==> match #[trigger] self.entries(
                d,
            )[j] {
                FsEntry::Dir { id } => id < self.dirs@.len(),
                FsEntry::File { .. } => true,
            }
    }
}

/// Whether a file name carries the notebook extension: it ends in `.ipynb`
/// and has a non-empty stem before it.
pub open spec fn is_notebook_name_spec(name: Seq<char>) -> bool {
    name.len() > 6 && name.subrange(name.len() - 6, name.len() as int) == ".ipynb"@
}

/// Whether `name` carries the notebook extension.
pub fn is_notebook_name(name: &str) -> (r: bool)
    ensures
        r == is_notebook_name_spec(name@),
{
    let n = name.unicode_len();
    if n <= 6 {
        proof {
            reveal_strlit(".ipynb");
        }
        return false;
    }
    let tail = name.substring_char(n - 6, n);
    str_eq(tail, ".ipynb")
}

/// The resolver's state: the work stack of (directory, next entry) frames
/// with the innermost directory last, the visited directory identities, and
/// the files collected so far.
pub type RState = (Seq<(int, int)>, Seq<int>, Seq<Seq<char>>);

/// Whether a resolution is finished: no work frame is left.
pub open spec fn done(st: RState) -> bool {
    st.0.len() == 0
}

/// The state a resolution starts from: one frame at the start of the root
/// directory, which counts as visited.
pub open spec fn init_state(root: int) -> RState {
    (seq![(root, 0int)], seq![root], Seq::empty())
}

/// One step of the walk. The innermost frame's next entry decides: past the
/// last entry the frame is popped; a file whose name carries the extension
/// is collected; a subdirectory is entered — one new frame, marked visited —
/// only when recursion is on and it was never visited before.
pub open spec fn step(fs: FsTree, recurse: bool, st: RState) -> RState {
    let (stack, visited, files) = st;
    if stack.len() == 0 {
        st
    } else {
        let (d, i) = stack.last();
        if !(0 <= d < fs.dirs@.len()) || !(0 <= i <= fs.entries(d).len()) {
            (stack.drop_last(), visited, files)
        } else if i == fs.entries(d).len() {
            (stack.drop_last(), visited, files)
        } else {
            let stack2 = stack.drop_last().push((d, i + 1));
            match fs.entries(d)[i] {
                FsEntry::File { path, name } => if is_notebook_name_spec(name@) {
                    (stack2, visited, files.push(path@))
                } else {
                    (stack2, visited, files)
                },
                FsEntry::Dir { id } => if recurse && !visited.contains(id as int) {
                    (stack2.push((id as int, 0)), visited.push(id as int), files)
                } else {
                    (stack2, visited, files)
                },
            }
        }
    }
}

/// The state after `k` steps.
pub open spec fn run(fs: FsTree, recurse: bool, st: RState, k: nat) -> RState
    decreases k,
{
    if k == 0 {
        st
    } else {
        run(fs, recurse, step(fs, recurse, st), (k - 1) as nat)
    }
}

/// Running `a + b` steps is running `a`, then `b`.
proof fn lemma_run_add(fs: FsTree, recurse: bool, st: RState, a: nat, b: nat)
    ensures
        run(fs, recurse, st, a + b) == run(fs, recurse, run(fs, recurse, st, a), b),
    decreases a,
{
    if a > 0 {
        lemma_run_add(fs, recurse, step(fs, recurse, st), (a - 1) as nat, b);
    }
}

/// A finished state never changes again.
proof fn lemma_done_stays(fs: FsTree, recurse: bool, st: RState, k: nat)
    requires
        done(st),
    ensures
        run(fs, recurse, st, k) == st,
    decreases k,
{
    if k > 0 {
        lemma_done_stays(fs, recurse, step(fs, recurse, st), (k - 1) as nat);
    }
}

/// Whatever number of steps finishes a resolution, the finished state is
/// the same: the walk has exactly one outcome.
pub proof fn lemma_fixpoint_unique(fs: FsTree, recurse: bool, st: RState, k1: nat, k2: nat)
    requires
        done(run(fs, recurse, st, k1)),
        done(run(fs, recurse, st, k2)),
    ensures
        run(fs, recurse, st, k1) == run(fs, recurse, st, k2),
{
    if k1 <= k2 {
        lemma_run_add(fs, recurse, st, k1, (k2 - k1) as nat);
        lemma_done_stays(fs, recurse, run(fs, recurse, st, k1), (k2 - k1) as nat);
    } else {
        lemma_run_add(fs, recurse, st, k2, (k1 - k2) as nat);
        lemma_done_stays(fs, recurse, run(fs, recurse, st, k2), (k1 - k2) as nat);
    }
}

/// The file list a resolution of `root` yields: the files of the finished
/// state. A function of the tree, the root and the recursion flag alone,
/// so resolving the same directory twice yields the same ordered list.
pub open spec fn resolved_files(fs: FsTree, recurse: bool, root: int) -> Seq<Seq<char>> {
    let k = choose|k: nat| done(run(fs, recurse, init_state(root), k));
    run(fs, recurse, init_state(root), k).2
}

/// Whether an entry is a file that the walk would report as `p`.
pub open spec fn entry_matches(e: FsEntry, p: Seq<char>) -> bool {
    match e {
        FsEntry::File { path, name } => is_notebook_name_spec(name@) && path@ == p,
        FsEntry::Dir { .. } => false,
    }
}

/// How many entries of `s` the walk would report as `p`.
pub open spec fn count_entries(s: Seq<FsEntry>, p: Seq<char>) -> int
    decreases s.len(),
{
    if s.len() == 0 {
        0
    } else {
        (if entry_matches(s.first(), p) {
            1int
        } else {
            0int
        }) + count_entries(s.drop_first(), p)
    }
}

/// How often `p` occurs in a file list.
pub open spec fn count_files(files: Seq<Seq<char>>, p: Seq<char>) -> int
    decreases files.len(),
{
    if files.len() == 0 {
        0
    } else {
        count_files(files.drop_last(), p) + (if files.last() == p {
            1int
        } else {
            0int
        })
    }
}

/// How often the walk would still report `p` from the work left on the
/// stack.
pub open spec fn pending_sum(fs: FsTree, stack: Seq<(int, int)>, p: Seq<char>) -> int
    decreases stack.len(),
{
    if stack.len() == 0 {
        0
    } else {
        let (d, i) = stack.last();
        pending_sum(fs, stack.drop_last(), p) + count_entries(fs.entries(d).skip(i), p)
    }
}

/// How often `p` occurs, in total, among the entries of the visited
/// directories.
pub open spec fn visited_sum(fs: FsTree, visited: Seq<int>, p: Seq<char>) -> int
    decreases visited.len(),
{
    if visited.len() == 0 {
        0
    } else {
        visited_sum(fs, visited.drop_last(), p) + count_entries(fs.entries(visited.last()), p)
    }
}

/// How often `p` occurs among the entries of directories `0 .. n`.
pub open spec fn total_upto(fs: FsTree, p: Seq<char>, n: int) -> int
    decreases n,
{
    if n <= 0 {
        0
    } else {
        total_upto(fs, p, n - 1) + count_entries(fs.entries(n - 1), p)
    }
}

/// How often `p` occurs among the entries of the whole tree.
pub open spec fn total_count(fs: FsTree, p: Seq<char>) -> int {
    total_upto(fs, p, fs.dirs@.len() as int)
}

proof fn lemma_count_entries_nonneg(s: Seq<FsEntry>, p: Seq<char>)
    ensures
        count_entries(s, p) >= 0,
    decreases s.len(),
{
    if s.len() > 0 {
        lemma_count_entries_nonneg(s.drop_first(), p);
    }
}

proof fn lemma_count_files_nonneg(files: Seq<Seq<char>>, p: Seq<char>)
    ensures
        count_files(files, p) >= 0,
    decreases files.len(),
{
    if files.len() > 0 {
        lemma_count_files_nonneg(files.drop_last(), p);
    }
}

proof fn lemma_pending_nonneg(fs: FsTree, stack: Seq<(int, int)>, p: Seq<char>)
    ensures
        pending_sum(fs, stack, p) >= 0,
    decreases stack.len(),
{
    if stack.len() > 0 {
        lemma_pending_nonneg(fs, stack.drop_last(), p);
        lemma_count_entries_nonneg(fs.entries(stack.last().0).skip(stack.last().1), p);
    }
}

/// Counting from entry `i` on is the entry itself plus counting from
/// `i + 1`.
proof fn lemma_count_skip(s: Seq<FsEntry>, p: Seq<char>, i: int)
    requires
        0 <= i < s.len(),
    ensures
        count_entries(s.skip(i), p) == (if entry_matches(s[i], p) {
            1int
        } else {
            0int
        }) + count_entries(s.skip(i + 1), p),
{
    assert(s.skip(i).first() == s[i]);
    assert(s.skip(i).drop_first() =~= s.skip(i + 1));
}

/// Removing one visited directory removes exactly its contribution.
proof fn lemma_sum_remove(fs: FsTree, v: Seq<int>, p: Seq<char>, idx: int)
    requires
        0 <= idx < v.len(),
    ensures
        visited_sum(fs, v.remove(idx), p) == visited_sum(fs, v, p) - count_entries(
            fs.entries(v[idx]),
            p,
        ),
    decreases v.len(),
{
    if idx == v.len() - 1 {
        assert(v.remove(idx) =~= v.drop_last());
    } else {
        assert(v.remove(idx).drop_last() =~= v.drop_last().remove(idx));
        assert(v.remove(idx).last() == v.last());
        assert(v.drop_last()[idx] == v[idx]);
        lemma_sum_remove(fs, v.drop_last(), p, idx);
    }
}

/// Distinct visited directories below `n` never hold more occurrences of
/// `p` than directories `0 .. n` altogether.
proof fn lemma_visited_sum_bound(fs: FsTree, v: Seq<int>, p: Seq<char>, n: int)
    requires
        v.no_duplicates(),
        forall|i: int| 0 <= i < v.len() ==> 0 <= #[trigger] v[i] < n,
        n >= 0,
    ensures
        visited_sum(fs, v, p) <= total_upto(fs, p, n),
    decreases n,
{
    if n == 0 {
        if v.len() > 0 {
            assert(0 <= v[0] < n);
            assert(false);
        }
    } else if v.contains(n - 1) {
        let idx = choose|idx: int| 0 <= idx < v.len() && v[idx] == n - 1;
        let v2 = v.remove(idx);
        assert(v2.no_duplicates()) by {
            assert forall|a: int, b: int| 0 <= a < b < v2.len() implies v2[a] != v2[b] by {
                let a0 = if a < idx {
                    a
                } else {
                    a + 1
                };
                let b0 = if b < idx {
                    b
                } else {
                    b + 1
                };
                assert(v2[a] == v[a0] && v2[b] == v[b0]);
            }
        }
        assert(forall|i: int| 0 <= i < v2.len() ==> 0 <= #[trigger] v2[i] < n - 1) by {
            assert forall|i: int| 0 <= i < v2.len() implies 0 <= #[trigger] v2[i] < n - 1 by {
                let i0 = if i < idx {
                    i
                } else {
                    i + 1
                };
                assert(v2[i] == v[i0]);
                assert(i0 != idx);
                assert(v[i0] != v[idx]);
            }
        }
        lemma_visited_sum_bound(fs, v2, p, n - 1);
        lemma_sum_remove(fs, v, p, idx);
    } else {
        assert(forall|i: int| 0 <= i < v.len() ==> 0 <= #[trigger] v[i] < n - 1) by {
            assert forall|i: int| 0 <= i < v.len() implies 0 <= #[trigger] v[i] < n - 1 by {
                assert(v[i] != n - 1);
            }
        }
        lemma_visited_sum_bound(fs, v, p, n - 1);
        lemma_count_entries_nonneg(fs.entries(n - 1), p);
    }
}

/// The walk's counting invariant: what was reported plus what is still
/// pending is exactly what the visited directories hold, and the root stays
/// the first visited directory.
pub open spec fn count_inv(fs: FsTree, st: RState, p: Seq<char>, root: int) -> bool {
    &&& count_files(st.2, p) + pending_sum(fs, st.0, p) == visited_sum(fs, st.1, p)
    &&& stack_wf(fs, st.0)
    &&& st.1.no_duplicates()
    &&& forall|i: int| 0 <= i < st.1.len() ==> 0 <= #[trigger] st.1[i] < fs.dirs@.len()
    &&& st.1.len() > 0
    &&& st.1[0] == root
}

/// One step preserves the counting invariant.
proof fn lemma_step_preserves(fs: FsTree, recurse: bool, st: RState, p: Seq<char>, root: int)
    requires
        fs.wf(),
        count_inv(fs, st, p, root),
    ensures
        count_inv(fs, step(fs, recurse, st), p, root),
{
    let (stack, visited, files) = st;
    if stack.len() == 0 {
    } else {
        let (d, i) = stack.last();
        assert(stack_wf(fs, stack));
        assert(0 <= d < fs.dirs@.len() && 0 <= i <= fs.entries(d).len());
        assert(pending_sum(fs, stack, p) == pending_sum(fs, stack.drop_last(), p) + count_entries(
            fs.entries(d).skip(i),
            p,
        ));
        if i == fs.entries(d).len() {
            assert(fs.entries(d).skip(i) =~= Seq::<FsEntry>::empty());
            assert(count_entries(fs.entries(d).skip(i), p) == 0);
            assert(forall|n: int|
                0 <= n < stack.drop_last().len() ==> stack.drop_last()[n] == stack[n]);
        } else {
            let stack2 = stack.drop_last().push((d, i + 1));
            lemma_count_skip(fs.entries(d), p, i);
            assert(stack2.drop_last() =~= stack.drop_last());
            assert(stack2.last() == (d, i + 1));
            assert(pending_sum(fs, stack2, p) == pending_sum(fs, stack.drop_last(), p)
                + count_entries(fs.entries(d).skip(i + 1), p));
            assert(forall|n: int|
                0 <= n < stack.drop_last().len() ==> stack.drop_last()[n] == stack[n]);
            match fs.entries(d)[i] {
                FsEntry::File { path, name } => {
                    assert(files.push(path@).drop_last() =~= files);
                    assert(count_files(files.push(path@), p) == count_files(files, p) + (
                    if path@ == p {
                        1int
                    } else {
                        0int
                    }));
                },
                FsEntry::Dir { id } => {
                    if recurse && !visited.contains(id as int) {
                        let stack3 = stack2.push((id as int, 0));
                        assert(stack3.drop_last() =~= stack2);
                        assert(stack3.last() == (id as int, 0int));
                        assert(fs.entries(id as int).skip(0) =~= fs.entries(id as int));
                        assert(pending_sum(fs, stack3, p) == pending_sum(fs, stack2, p)
                            + count_entries(fs.entries(id as int), p));
                        assert(visited.push(id as int).drop_last() =~= visited);
                        assert(visited.push(id as int).last() == id as int);
                        assert(visited_sum(fs, visited.push(id as int), p) == visited_sum(
                            fs,
                            visited,
                            p,
                        ) + count_entries(fs.entries(id as int), p));
                        assert(visited.push(id as int).no_duplicates()) by {
                            let v2 = visited.push(id as int);
                            assert forall|a: int, b: int| 0 <= a < b < v2.len() implies v2[a]
                                != v2[b] by {
                                if b == v2.len() - 1 {
                                    if v2[a] == id as int {
                                        assert(visited.contains(id as int));
                                    }
                                }
                            }
                        }
                    }
                },
            }
        }
    }
}

/// Every state the walk reaches keeps the counting invariant.
proof fn lemma_run_preserves(fs: FsTree, recurse: bool, st: RState, p: Seq<char>, root: int, k: nat)
    requires
        fs.wf(),
        count_inv(fs, st, p, root),
    ensures
        count_inv(fs, run(fs, recurse, st, k), p, root),
    decreases k,
{
    if k > 0 {
        lemma_step_preserves(fs, recurse, st, p, root);
        lemma_run_preserves(fs, recurse, step(fs, recurse, st), p, root, (k - 1) as nat);
    }
}

/// A non-negative sum: no directory contributes a negative count.
proof fn lemma_visited_sum_nonneg(fs: FsTree, v: Seq<int>, p: Seq<char>)
    ensures
        visited_sum(fs, v, p) >= 0,
    decreases v.len(),
{
    if v.len() > 0 {
        lemma_visited_sum_nonneg(fs, v.drop_last(), p);
        lemma_count_entries_nonneg(fs.entries(v.last()), p);
    }
}

/// The visited directories hold at least what any one of them holds.
proof fn lemma_visited_sum_member(fs: FsTree, v: Seq<int>, p: Seq<char>, idx: int)
    requires
        0 <= idx < v.len(),
    ensures
        visited_sum(fs, v, p) >= count_entries(fs.entries(v[idx]), p),
    decreases v.len(),
{
    if idx == v.len() - 1 {
        lemma_visited_sum_nonneg(fs, v.drop_last(), p);
    } else {
        assert(v.drop_last()[idx] == v[idx]);
        lemma_visited_sum_member(fs, v.drop_last(), p, idx);
        lemma_count_entries_nonneg(fs.entries(v.last()), p);
    }
}

/// The starting state satisfies the counting invariant.
proof fn lemma_init_count_inv(fs: FsTree, root: int, p: Seq<char>)
    requires
        0 <= root < fs.dirs@.len(),
    ensures
        count_inv(fs, init_state(root), p, root),
{
    let init = init_state(root);
    assert(count_inv(fs, init, p, root)) by {
        assert(init.0.drop_last() =~= Seq::<(int, int)>::empty());
        assert(init.1.drop_last() =~= Seq::<int>::empty());
        assert(init.0.last() == (root, 0int));
        assert(init.1.last() == root);
        assert(fs.entries(root).skip(0) =~= fs.entries(root));
        assert(pending_sum(fs, init.0.drop_last(), p) == 0);
        assert(pending_sum(fs, init.0, p) == pending_sum(fs, init.0.drop_last(), p)
            + count_entries(fs.entries(root).skip(0), p));
        assert(visited_sum(fs, init.1.drop_last(), p) == 0);
        assert(visited_sum(fs, init.1, p) == visited_sum(fs, init.1.drop_last(), p)
            + count_entries(fs.entries(root), p));
        assert(count_files(init.2, p) == 0);
    }
}

/// Cycle safety for the files themselves: a file that occurs at most once
/// among all the directories' entries — as every real file does, since it
/// lives in exactly one real directory — is reported at most once, however
/// many links lead into its directory.
pub proof fn lemma_file_reported_at_most_once(fs: FsTree, recurse: bool, root: int, p: Seq<char>)
    requires
        fs.wf(),
        0 <= root < fs.dirs@.len(),
        total_count(fs, p) <= 1,
        exists|k: nat| done(run(fs, recurse, init_state(root), k)),
    ensures
        count_files(resolved_files(fs, recurse, root), p) <= 1,
{
    let init = init_state(root);
    lemma_init_count_inv(fs, root, p);
    let k = choose|k: nat| done(run(fs, recurse, init, k));
    let fin = run(fs, recurse, init, k);
    lemma_run_preserves(fs, recurse, init, p, root, k);
    lemma_visited_sum_bound(fs, fin.1, p, fs.dirs@.len() as int);
    assert(pending_sum(fs, fin.0, p) == 0);
    assert(resolved_files(fs, recurse, root) == fin.2) by {
        lemma_fixpoint_unique(fs, recurse, init, k, choose|k2: nat| done(run(fs, recurse, init, k2)));
    }
}

/// The other half of cycle safety for the root's own files: a file of the
/// root directory that occurs nowhere else is reported exactly once — the
/// cycle neither repeats it nor loses it.
pub proof fn lemma_root_file_reported_exactly_once(
    fs: FsTree,
    recurse: bool,
    root: int,
    p: Seq<char>,
)
    requires
        fs.wf(),
        0 <= root < fs.dirs@.len(),
        total_count(fs, p) <= 1,
        count_entries(fs.entries(root), p) == 1,
        exists|k: nat| done(run(fs, recurse, init_state(root), k)),
    ensures
        count_files(resolved_files(fs, recurse, root), p) == 1,
{
    lemma_file_reported_at_most_once(fs, recurse, root, p);
    let init = init_state(root);
    let k = choose|k: nat| done(run(fs, recurse, init, k));
    let fin = run(fs, recurse, init, k);
    lemma_init_count_inv(fs, root, p);
    lemma_run_preserves(fs, recurse, init, p, root, k);
    lemma_visited_sum_member(fs, fin.1, p, 0);
    assert(pending_sum(fs, fin.0, p) == 0);
    assert(resolved_files(fs, recurse, root) == fin.2) by {
        lemma_fixpoint_unique(fs, recurse, init, k, choose|k2: nat| done(run(fs, recurse, init, k2)));
    }
}

/// Whether one of `a`'s entries is the subdirectory `b`.
pub open spec fn has_dir_edge(fs: FsTree, a: int, b: int) -> bool {
    exists|j: int|
        0 <= j < fs.entries(a).len() && match #[trigger] fs.entries(a)[j] {
            FsEntry::Dir { id } => id == b,
            FsEntry::File { .. } => false,
        }
}

/// Whether `path` runs along subdirectory entries: each element names an
/// entry of the one before it.
pub open spec fn is_dir_path(fs: FsTree, path: Seq<int>) -> bool {
    &&& path.len() > 0
    &&& forall|n: int| 0 <= n < path.len() - 1 ==> has_dir_edge(fs, #[trigger] path[n], path[n + 1])
}

/// All subdirectory entries of `d` before index `i` lead into `visited`.
pub open spec fn prefix_closed(fs: FsTree, visited: Seq<int>, d: int, i: int) -> bool {
    forall|j: int|
        0 <= j < i ==> match #[trigger] fs.entries(d)[j] {
            FsEntry::Dir { id } => visited.contains(id as int),
            FsEntry::File { .. } => true,
        }
}

/// Whether some frame of `stack` belongs to directory `d`.
pub open spec fn stack_has_dir(stack: Seq<(int, int)>, d: int) -> bool {
    exists|n: int| 0 <= n < stack.len() && (#[trigger] stack[n]).0 == d
}

/// The walk's closure invariant under recursion: every frame's directory is
/// visited, no directory has two frames, the entries a frame has passed
/// lead into visited directories, and a visited directory without a frame
/// has been read to its end.
pub open spec fn closure_inv(fs: FsTree, st: RState) -> bool {
    &&& forall|n: int| 0 <= n < st.0.len() ==> st.1.contains((#[trigger] st.0[n]).0)
    &&& forall|n1: int, n2: int|
        0 <= n1 < n2 < st.0.len() ==> (#[trigger] st.0[n1]).0 != (#[trigger] st.0[n2]).0
    &&& forall|n: int|
        0 <= n < st.0.len() ==> prefix_closed(fs, st.1, (#[trigger] st.0[n]).0, st.0[n].1)
    &&& forall|d: int|
        #[trigger] st.1.contains(d) && !stack_has_dir(st.0, d) ==> prefix_closed(
            fs,
            st.1,
            d,
            fs.entries(d).len() as int,
        )
}

/// Growing the visited set keeps a prefix closed.
proof fn lemma_prefix_closed_grows(fs: FsTree, visited: Seq<int>, x: int, d: int, i: int)
    requires
        prefix_closed(fs, visited, d, i),
    ensures
        prefix_closed(fs, visited.push(x), d, i),
{
    assert forall|j: int| 0 <= j < i implies match #[trigger] fs.entries(d)[j] {
        FsEntry::Dir { id } => visited.push(x).contains(id as int),
        FsEntry::File { .. } => true,
    } by {
        match fs.entries(d)[j] {
            FsEntry::Dir { id } => {
                let w = choose|w: int| 0 <= w < visited.len() && visited[w] == id as int;
                assert(visited.push(x)[w] == id as int);
            },
            FsEntry::File { .. } => {},
        }
    }
}

/// One step under recursion preserves the closure invariant.
proof fn lemma_step_preserves_closure(fs: FsTree, st: RState)
    requires
        fs.wf(),
        stack_wf(fs, st.0),
        closure_inv(fs, st),
    ensures
        closure_inv(fs, step(fs, true, st)),
{
    let (stack, visited, _files) = st;
    if stack.len() == 0 {
    } else {
        let (d, i) = stack.last();
        assert(0 <= d < fs.dirs@.len() && 0 <= i <= fs.entries(d).len());
        if i == fs.entries(d).len() {
            let st2 = (stack.drop_last(), visited, st.2);
            assert forall|d0: int|
                #[trigger] visited.contains(d0) && !stack_has_dir(st2.0, d0) implies prefix_closed(
                fs,
                visited,
                d0,
                fs.entries(d0).len() as int,
            ) by {
                if d0 == d {
                    assert(prefix_closed(fs, visited, d, i));
                } else if stack_has_dir(stack, d0) {
                    let n = choose|n: int| 0 <= n < stack.len() && (#[trigger] stack[n]).0 == d0;
                    assert(n < stack.len() - 1);
                    assert(st2.0[n].0 == d0);
                    assert(false);
                }
            }
            assert(closure_inv(fs, step(fs, true, st)));
        } else {
            let stack2 = stack.drop_last().push((d, i + 1));
            assert(forall|n: int|
                0 <= n < stack2.len() ==> (#[trigger] stack2[n]).0 == stack[n].0);
            match fs.entries(d)[i] {
                FsEntry::Dir { id } if !visited.contains(id as int) => {
                    let stack3 = stack2.push((id as int, 0));
                    let visited2 = visited.push(id as int);
                    let st2 = (stack3, visited2, st.2);
                    // every old containment survives the push
                    assert forall|x: int| visited.contains(x) implies visited2.contains(x) by {
                        let w = choose|w: int| 0 <= w < visited.len() && visited[w] == x;
                        assert(visited2[w] == x);
                    }
                    assert(visited2.contains(id as int)) by {
                        assert(visited2[visited2.len() - 1] == id as int);
                    }
                    // frame directories stay visited and distinct
                    assert forall|n: int| 0 <= n < stack3.len() implies visited2.contains(
                        (#[trigger] stack3[n]).0,
                    ) by {
                        if n < stack3.len() - 1 {
                            assert(stack3[n].0 == stack[n].0);
                        }
                    }
                    assert forall|n1: int, n2: int|
                        0 <= n1 < n2 < stack3.len() implies (#[trigger] stack3[n1]).0 != (
                    #[trigger] stack3[n2]).0 by {
                        if n2 == stack3.len() - 1 {
                            assert(stack3[n1].0 == stack[n1].0);
                            assert(visited.contains(stack[n1].0));
                        }
                    }
                    // passed prefixes stay closed
                    assert forall|n: int| 0 <= n < stack3.len() implies prefix_closed(
                        fs,
                        visited2,
                        (#[trigger] stack3[n]).0,
                        stack3[n].1,
                    ) by {
                        if n < stack3.len() - 2 {
                            assert(stack3[n] == stack[n]);
                            lemma_prefix_closed_grows(fs, visited, id as int, stack[n].0, stack[n].1);
                        } else if n == stack3.len() - 2 {
                            assert(stack3[n] == (d, i + 1));
                            lemma_prefix_closed_grows(fs, visited, id as int, d, i);
                            assert(prefix_closed(fs, visited2, d, i + 1)) by {
                                assert(visited2.contains(id as int));
                            }
                        }
                    }
                    // a visited directory without a frame was read to its end
                    assert forall|d0: int|
                        #[trigger] visited2.contains(d0) && !stack_has_dir(stack3, d0) implies prefix_closed(
                        fs,
                        visited2,
                        d0,
                        fs.entries(d0).len() as int,
                    ) by {
                        assert(stack3[stack3.len() - 1].0 == id as int);
                        assert(d0 != id as int);
                        assert(visited.contains(d0)) by {
                            let w = choose|w: int|
                                0 <= w < visited2.len() && visited2[w] == d0;
                            assert(w < visited.len());
                        }
                        assert(!stack_has_dir(stack, d0)) by {
                            if stack_has_dir(stack, d0) {
                                let n = choose|n: int|
                                    0 <= n < stack.len() && (#[trigger] stack[n]).0 == d0;
                                assert(stack3[n].0 == stack[n].0);
                            }
                        }
                        lemma_prefix_closed_grows(
                            fs,
                            visited,
                            id as int,
                            d0,
                            fs.entries(d0).len() as int,
                        );
                    }
                    assert(closure_inv(fs, st2));
                    assert(step(fs, true, st) == st2);
                },
                _ => {
                    let st2 = (stack2, visited, st.2);
                    assert forall|n1: int, n2: int|
                        0 <= n1 < n2 < stack2.len() implies (#[trigger] stack2[n1]).0 != (
                    #[trigger] stack2[n2]).0 by {
                        assert(stack2[n1].0 == stack[n1].0 && stack2[n2].0 == stack[n2].0);
                    }
                    assert forall|n: int| 0 <= n < stack2.len() implies prefix_closed(
                        fs,
                        visited,
                        (#[trigger] stack2[n]).0,
                        stack2[n].1,
                    ) by {
                        if n < stack2.len() - 1 {
                            assert(stack2[n] == stack[n]);
                        } else {
                            assert(stack2[n] == (d, i + 1));
                            assert(prefix_closed(fs, visited, d, i));
                            assert(prefix_closed(fs, visited, d, i + 1)) by {
                                match fs.entries(d)[i] {
                                    FsEntry::Dir { id } => {
                                        assert(visited.contains(id as int));
                                    },
                                    FsEntry::File { .. } => {},
                                }
                            }
                        }
                    }
                    assert forall|d0: int|
                        #[trigger] visited.contains(d0) && !stack_has_dir(stack2, d0) implies prefix_closed(
                        fs,
                        visited,
                        d0,
                        fs.entries(d0).len() as int,
                    ) by {
                        assert(!stack_has_dir(stack, d0)) by {
                            if stack_has_dir(stack, d0) {
                                let n = choose|n: int|
                                    0 <= n < stack.len() && (#[trigger] stack[n]).0 == d0;
                                assert(stack2[n].0 == stack[n].0);
                            }
                        }
                    }
                    assert(closure_inv(fs, st2));
                    let stepped = step(fs, true, st);
                    assert(stepped.0 == stack2 && stepped.1 == visited);
                    assert(closure_inv(fs, stepped));
                },
            }
        }
    }
}

/// Every state a recursive walk reaches keeps the closure invariant.
proof fn lemma_run_preserves_closure(
    fs: FsTree,
    st: RState,
    p: Seq<char>,
    root: int,
    k: nat,
)
    requires
        fs.wf(),
        count_inv(fs, st, p, root),
        closure_inv(fs, st),
    ensures
        closure_inv(fs, run(fs, true, st, k)),
        count_inv(fs, run(fs, true, st, k), p, root),
    decreases k,
{
    if k > 0 {
        lemma_step_preserves_closure(fs, st);
        lemma_step_preserves(fs, true, st, p, root);
        lemma_run_preserves_closure(fs, step(fs, true, st), p, root, (k - 1) as nat);
    }
}

/// In a finished, closed state, every directory a path from a visited
/// directory reaches is itself visited.
proof fn lemma_path_visited(fs: FsTree, st: RState, path: Seq<int>)
    requires
        closure_inv(fs, st),
        done(st),
        is_dir_path(fs, path),
        st.1.contains(path.first()),
    ensures
        st.1.contains(path.last()),
    decreases path.len(),
{
    if path.len() > 1 {
        let a = path[0];
        let b = path[1];
        assert(has_dir_edge(fs, a, b));
        let j = choose|j: int|
            0 <= j < fs.entries(a).len() && match #[trigger] fs.entries(a)[j] {
                FsEntry::Dir { id } => id == b,
                FsEntry::File { .. } => false,
            };
        assert(!stack_has_dir(st.0, a));
        assert(prefix_closed(fs, st.1, a, fs.entries(a).len() as int));
        assert(st.1.contains(b)) by {
            assert(match fs.entries(a)[j] {
                FsEntry::Dir { id } => st.1.contains(id as int),
                FsEntry::File { .. } => true,
            });
        }
        let rest = path.drop_first();
        assert(is_dir_path(fs, rest)) by {
            assert(forall|n: int|
                0 <= n < rest.len() - 1 ==> has_dir_edge(fs, #[trigger] rest[n], rest[n + 1]))
                by {
                assert(forall|n: int| 0 <= n < rest.len() ==> rest[n] == path[n + 1]);
            }
        }
        assert(rest.first() == b);
        lemma_path_visited(fs, st, rest);
        assert(rest.last() == path.last());
    }
}

/// Full cycle safety under recursion: a file that occurs exactly once in
/// the whole tree, in a directory a path of subdirectory entries reaches
/// from the root, is reported exactly once — however many links lead into
/// any directory on the way.
pub proof fn lemma_reachable_file_reported_exactly_once(
    fs: FsTree,
    root: int,
    p: Seq<char>,
    path: Seq<int>,
)
    requires
        fs.wf(),
        0 <= root < fs.dirs@.len(),
        total_count(fs, p) <= 1,
        is_dir_path(fs, path),
        path.first() == root,
        count_entries(fs.entries(path.last()), p) == 1,
        exists|k: nat| done(run(fs, true, init_state(root), k)),
    ensures
        count_files(resolved_files(fs, true, root), p) == 1,
{
    lemma_file_reported_at_most_once(fs, true, root, p);
    let init = init_state(root);
    lemma_init_count_inv(fs, root, p);
    assert(closure_inv(fs, init)) by {
        assert(init.0[0] == (root, 0int));
        assert(init.1[0] == root);
        assert(init.1.contains(root));
        assert(forall|n: int| 0 <= n < init.0.len() ==> (#[trigger] init.0[n]).1 == 0);
        assert forall|d0: int|
            #[trigger] init.1.contains(d0) && !stack_has_dir(init.0, d0) implies prefix_closed(
            fs,
            init.1,
            d0,
            fs.entries(d0).len() as int,
        ) by {
            assert(d0 == root);
            assert(init.0[0].0 == root);
            assert(false);
        }
    }
    let k = choose|k: nat| done(run(fs, true, init, k));
    let fin = run(fs, true, init, k);
    lemma_run_preserves_closure(fs, init, p, root, k);
    assert(fin.1.contains(root)) by {
        assert(fin.1[0] == root);
    }
    lemma_path_visited(fs, fin, path);
    let idx = choose|idx: int| 0 <= idx < fin.1.len() && fin.1[idx] == path.last();
    lemma_visited_sum_member(fs, fin.1, p, idx);
    assert(pending_sum(fs, fin.0, p) == 0);
    assert(resolved_files(fs, true, root) == fin.2) by {
        lemma_fixpoint_unique(fs, true, init, k, choose|k2: nat| done(run(fs, true, init, k2)));
    }
}

/// The work left on the stack, counted in entries still to look at.
pub open spec fn stack_weight(fs: FsTree, stack: Seq<(int, int)>) -> int
    decreases stack.len(),
{
    if stack.len() == 0 {
        0
    } else {
        let (d, i) = stack.last();
        stack_weight(fs, stack.drop_last()) + (fs.entries(d).len() - i) + 1
    }
}

/// Every frame points into the tree, at or before its directory's end.
pub open spec fn stack_wf(fs: FsTree, stack: Seq<(int, int)>) -> bool {
    forall|n: int|
        0 <= n < stack.len() ==> {
            let (d, i) = #[trigger] stack[n];
            &&& 0 <= d < fs.dirs@.len()
            &&& 0 <= i <= fs.entries(d).len()
        }
}

/// Well-formed stacks weigh at least one per frame.
proof fn lemma_weight_nonneg(fs: FsTree, stack: Seq<(int, int)>)
    requires
        stack_wf(fs, stack),
    ensures
        stack_weight(fs, stack) >= stack.len(),
    decreases stack.len(),
{
    if stack.len() > 0 {
        assert(forall|n: int|
            0 <= n < stack.drop_last().len() ==> stack.drop_last()[n] == stack[n]);
        lemma_weight_nonneg(fs, stack.drop_last());
    }
}

/// Distinct values drawn from `0 .. bound` are at most `bound` many.
proof fn lemma_distinct_bounded(s: Seq<int>, bound: int)
    requires
        s.no_duplicates(),
        forall|n: int| 0 <= n < s.len() ==> 0 <= #[trigger] s[n] < bound,
        bound >= 0,
    ensures
        s.len() <= bound,
{
    s.unique_seq_to_set();
    vstd::set_lib::lemma_int_range(0, bound);
    assert(s.to_set().subset_of(vstd::set_lib::set_int_range(0, bound))) by {
        assert forall|x: int| s.to_set().contains(x) implies vstd::set_lib::set_int_range(
            0,
            bound,
        ).contains(x) by {
            let n = choose|n: int| 0 <= n < s.len() && s[n] == x;
        }
    }
    vstd::set_lib::lemma_len_subset(s.to_set(), vstd::set_lib::set_int_range(0, bound));
}

/// Whether `x` occurs in `v`.
fn contains_usize(v: &Vec<usize>, x: usize) -> (r: bool)
    ensures
        r == v@.map_values(|u: usize| u as int).contains(x as int),
{
    let ghost mapped = v@.map_values(|u: usize| u as int);
    let mut n: usize = 0;
    while n < v.len()
        invariant
            0 <= n <= v@.len(),
            mapped == v@.map_values(|u: usize| u as int),
            forall|j: int| 0 <= j < n ==> mapped[j] != x as int,
        decreases v@.len() - n,
    {
        if v[n] == x {
            proof {
                assert(mapped[n as int] == x as int);
            }
            return true;
        }
        n += 1;
    }
    proof {
        if mapped.contains(x as int) {
            let j = choose|j: int| 0 <= j < mapped.len() && mapped[j] == x as int;
            assert(mapped[j] != x as int);
        }
    }
    false
}

/// Expand one directory into the file list: every file in it (and, when
/// `recurse` is on, in its subdirectories, depth first, each directory
/// visited at most once however many links lead to it) whose name carries
/// the notebook extension, in walk order. Exactly the fixed point of the
/// step function: `resolved_files` of the tree — so the walk terminates on
/// every tree, cycles included, and two walks of one tree agree.
#[verifier::loop_isolation(false)]
#[verifier::rlimit(60)]
pub fn get_notebooks_in_dir(fs: &FsTree, root: usize, file_list: &mut Vec<String>, recurse: bool)
    requires
        fs.wf(),
        root < fs.dirs@.len(),
    ensures
        final(file_list)@.map_values(|s: String| s@) == old(file_list)@.map_values(|s: String| s@)
            + resolved_files(*fs, recurse, root as int),
        exists|k: nat| done(run(*fs, recurse, init_state(root as int), k)),
{
    let ghost init = init_state(root as int);
    let mut stack: Vec<(usize, usize)> = Vec::new();
    stack.push((root, 0));
    let mut visited: Vec<usize> = Vec::new();
    visited.push(root);
    let ghost mut steps: nat = 0nat;
    let ghost base = file_list@.map_values(|s: String| s@);

    proof {
        assert(stack@.map_values(|p: (usize, usize)| (p.0 as int, p.1 as int)) =~= init.0);
        assert(visited@.map_values(|u: usize| u as int) =~= init.1);
        assert(file_list@.map_values(|s: String| s@) =~= base + init.2);
    }

    while stack.len() > 0
        invariant
            ({
                let cur = run(*fs, recurse, init, steps);
                &&& stack@.map_values(|p: (usize, usize)| (p.0 as int, p.1 as int)) == cur.0
                &&& visited@.map_values(|u: usize| u as int) == cur.1
                &&& file_list@.map_values(|s: String| s@) == base + cur.2
            }),
            stack_wf(*fs, stack@.map_values(|p: (usize, usize)| (p.0 as int, p.1 as int))),
            visited@.map_values(|u: usize| u as int).no_duplicates(),
            forall|n: int| 0 <= n < visited@.len() ==> (#[trigger] visited@[n]) < fs.dirs@.len(),
        decreases
                fs.dirs@.len() - visited@.len(),
                stack_weight(*fs, stack@.map_values(|p: (usize, usize)| (p.0 as int, p.1 as int))),
    {
        proof {
            lemma_distinct_bounded(
                visited@.map_values(|u: usize| u as int),
                fs.dirs@.len() as int,
            );
            lemma_weight_nonneg(
                *fs,
                stack@.map_values(|p: (usize, usize)| (p.0 as int, p.1 as int)),
            );
        }
        let ghost old_stack = stack@.map_values(|p: (usize, usize)| (p.0 as int, p.1 as int));
        let ghost old_visited = visited@.map_values(|u: usize| u as int);
        let ghost old_files = file_list@.map_values(|s: String| s@);
        let ghost cur = run(*fs, recurse, init, steps);

        let top = stack.len() - 1;
        let (d, i) = stack[top];
        proof {
            assert(old_stack.last() == (d as int, i as int));
        }
        let entries_len = fs.dirs[d].len();
        if i >= entries_len {
            stack.pop();
            proof {
                assert(stack@.map_values(|p: (usize, usize)| (p.0 as int, p.1 as int))
                    =~= old_stack.drop_last());
                assert(step(*fs, recurse, cur) == (
                    old_stack.drop_last(),
                    old_visited,
                    cur.2,
                ));
                assert(forall|n: int|
                    0 <= n < old_stack.drop_last().len() ==> old_stack.drop_last()[n]
                        == old_stack[n]);
                assert(stack_weight(*fs, old_stack) == stack_weight(*fs, old_stack.drop_last())
                    + 1);
            }
        } else {
            stack.pop();
            stack.push((d, i + 1));
            proof {
                let advanced = old_stack.drop_last().push((d as int, i + 1));
                assert(stack@.map_values(|p: (usize, usize)| (p.0 as int, p.1 as int))
                    =~= advanced);
                assert(forall|n: int|
                    0 <= n < old_stack.drop_last().len() ==> old_stack.drop_last()[n]
                        == old_stack[n]);
                assert(forall|n: int| 0 <= n < advanced.len() - 1 ==> advanced[n] == old_stack[n]);
                assert(advanced.drop_last() =~= old_stack.drop_last());
                assert(stack_weight(*fs, advanced) == stack_weight(*fs, old_stack) - 1);
            }
            let entry = &fs.dirs[d][i];
            match entry {
                FsEntry::File { path, name } => {
                    if is_notebook_name(name.as_str()) {
                        file_list.push(path.clone());
                        proof {
                            assert(file_list@.map_values(|s: String| s@) =~= old_files.push(
                                path@,
                            ));
                            assert(step(*fs, recurse, cur) == (
                                old_stack.drop_last().push((d as int, i + 1)),
                                old_visited,
                                cur.2.push(path@),
                            ));
                        }
                    } else {
                        proof {
                            assert(step(*fs, recurse, cur) == (
                                old_stack.drop_last().push((d as int, i + 1)),
                                old_visited,
                                cur.2,
                            ));
                        }
                    }
                },
                FsEntry::Dir { id } => {
                    if recurse && !contains_usize(&visited, *id) {
                        stack.push((*id, 0));
                        visited.push(*id);
                        proof {
                            assert(stack@.map_values(|p: (usize, usize)| (p.0 as int, p.1 as int))
                                =~= old_stack.drop_last().push((d as int, i + 1)).push((
                                *id as int,
                                0int,
                            )));
                            let mv = visited@.map_values(|u: usize| u as int);
                            assert(mv =~= old_visited.push(*id as int));
                            assert(step(*fs, recurse, cur) == (
                                old_stack.drop_last().push((d as int, i + 1)).push((
                                    *id as int,
                                    0int,
                                )),
                                old_visited.push(*id as int),
                                cur.2,
                            ));
                            assert forall|a: int, b: int| 0 <= a < b < mv.len() implies mv[a]
                                != mv[b] by {
                                if b == mv.len() - 1 {
                                    if mv[a] == *id as int {
                                        assert(old_visited.contains(*id as int));
                                    }
                                }
                            }
                            assert((*id as int) < fs.dirs@.len());
                            lemma_distinct_bounded(mv, fs.dirs@.len() as int);
                        }
                    } else {
                        proof {
                            assert(step(*fs, recurse, cur) == (
                                old_stack.drop_last().push((d as int, i + 1)),
                                old_visited,
                                cur.2,
                            ));
                        }
                    }
                },
            }
        }
        proof {
            lemma_run_add(*fs, recurse, init, steps, 1nat);
            assert(run(*fs, recurse, cur, 1nat) == run(
                *fs,
                recurse,
                step(*fs, recurse, cur),
                0nat,
            ));
            assert(run(*fs, recurse, step(*fs, recurse, cur), 0nat) == step(*fs, recurse, cur));
            steps = steps + 1;
        }
    }
    proof {
        let fin = run(*fs, recurse, init, steps);
        assert(done(fin));
        lemma_fixpoint_unique(
            *fs,
            recurse,
            init,
            steps,
            choose|k: nat| done(run(*fs, recurse, init, k)),
        );
    }
}

/// One entry of a real directory listing, as the file system hands it back:
/// a file (the path to report and the bare name the extension filter reads),
/// or a subdirectory (the real path to descend into and its canonical
/// identity, symbolic links resolved).
#[derive(Clone)]
pub enum WalkEntry {
    File { path: String, name: String },
    Dir { path: String, canon: String },
}

/// What one step of an interactive walk asks of its driver: nothing more,
/// nothing this round, or "list this directory and hand the entries back".
pub enum WalkStep {
    Done,
    Continue,
    Descend(String),
}

/// The mathematical content of a [`WalkStep`].
pub open spec fn walk_step_view(r: WalkStep) -> Option<Option<Seq<char>>> {
    match r {
        WalkStep::Done => None,
        WalkStep::Continue => Some(None),
        WalkStep::Descend(p) => Some(Some(p@)),
    }
}

/// One decision of the interactive walk, over the frames of handed-back
/// listings (innermost last, each with its next entry index), the visited
/// canonical identities, and the files collected so far. The same decisions
/// as the model's `step`, with canonical identities as strings: past a
/// listing's end the frame is popped; a file whose name carries the
/// extension is collected; a subdirectory is descended into — and its
/// identity marked visited — only when recursion is on and that identity
/// was never visited before.
pub open spec fn walk_step_spec(
    frames: Seq<(Vec<WalkEntry>, usize)>,
    visited: Seq<Seq<char>>,
    files: Seq<Seq<char>>,
    recurse: bool,
) -> (Seq<(Vec<WalkEntry>, usize)>, Seq<Seq<char>>, Seq<Seq<char>>, Option<Option<Seq<char>>>) {
    if frames.len() == 0 {
        (frames, visited, files, None)
    } else {
        let (entries, i) = frames.last();
        if i >= entries@.len() {
            (frames.drop_last(), visited, files, Some(None))
        } else {
            let frames2 = frames.drop_last().push((entries, (i + 1) as usize));
            match entries@[i as int] {
                WalkEntry::File { path, name } => if is_notebook_name_spec(name@) {
                    (frames2, visited, files.push(path@), Some(None))
                } else {
                    (frames2, visited, files, Some(None))
                },
                WalkEntry::Dir { path, canon } => if recurse && !visited.contains(canon@) {
                    (frames2, visited.push(canon@), files, Some(Some(path@)))
                } else {
                    (frames2, visited, files, Some(None))
                },
            }
        }
    }
}

/// An interactive resolution over the real file system. The driver performs
/// the listing (`read_dir`, `canonicalize`) and hands each directory's
/// entries back with `on_listing`; every decision — which file to keep,
/// whether to descend, never twice through one canonical identity — is
/// taken here, one entry per `step`, exactly as `walk_step_spec` says.
pub struct Walk {
    frames: Vec<(Vec<WalkEntry>, usize)>,
    visited: Vec<String>,
    files: Vec<String>,
}

impl Walk {
    /// The frames of handed-back listings, innermost last.
    pub closed spec fn frames_view(&self) -> Seq<(Vec<WalkEntry>, usize)> {
        self.frames@
    }

    /// The canonical identities already visited.
    pub closed spec fn visited_views(&self) -> Seq<Seq<char>> {
        self.visited@.map_values(|s: String| s@)
    }

    /// The files collected so far, in walk order.
    pub closed spec fn files_views(&self) -> Seq<Seq<char>> {
        self.files@.map_values(|s: String| s@)
    }

    /// Begin a walk at the directory with canonical identity `root_canon`:
    /// the root counts as visited, and the driver lists it first.
    pub fn start(root_canon: String) -> (r: Walk)
        ensures
            r.frames_view() == Seq::<(Vec<WalkEntry>, usize)>::empty(),
            r.visited_views() == seq![root_canon@],
            r.files_views() == Seq::<Seq<char>>::empty(),
    {
        let mut visited: Vec<String> = Vec::new();
        visited.push(root_canon);
        let r = Walk { frames: Vec::new(), visited, files: Vec::new() };
        proof {
            assert(r.visited_views() =~= seq![root_canon@]);
            assert(r.files_views() =~= Seq::<Seq<char>>::empty());
        }
        r
    }

    /// Hand back the listing of the directory the walk last asked for: it
    /// becomes the innermost frame, to be read from its first entry.
    pub fn on_listing(&mut self, entries: Vec<WalkEntry>)
        ensures
            final(self).frames_view() == old(self).frames_view().push((entries, 0usize)),
            final(self).visited_views() == old(self).visited_views(),
            final(self).files_views() == old(self).files_views(),
    {
        self.frames.push((entries, 0));
    }

    /// Take one decision: exactly `walk_step_spec` on the current state. A
    /// canonical identity that was descended into once is never returned
    /// again, and distinct visited identities stay distinct.
    pub fn step(&mut self, recurse: bool) -> (r: WalkStep)
        ensures
            ({
                let (f2, v2, fl2, act) = walk_step_spec(
                    old(self).frames_view(),
                    old(self).visited_views(),
                    old(self).files_views(),
                    recurse,
                );
                &&& final(self).frames_view() == f2
                &&& final(self).visited_views() == v2
                &&& final(self).files_views() == fl2
                &&& walk_step_view(r) == act
            }),
            old(self).visited_views().no_duplicates()
                ==> final(self).visited_views().no_duplicates(),
    {
        let ghost old_frames = self.frames@;
        let ghost old_visited = self.visited_views();
        let ghost old_files = self.files_views();
        let top = match self.frames.pop() {
            Some(top) => top,
            None => {
                return WalkStep::Done;
            },
        };
        let (entries, i) = top;
        if i >= entries.len() {
            proof {
                assert(self.frames@ =~= old_frames.drop_last());
            }
            return WalkStep::Continue;
        }
        let r: WalkStep;
        match &entries[i] {
            WalkEntry::File { path, name } => {
                if is_notebook_name(name.as_str()) {
                    let p = path.clone();
                    self.files.push(p);
                    proof {
                        assert(self.files_views() =~= old_files.push(
                            old_frames.last().0@[i as int]->File_path@,
                        ));
                    }
                }
                r = WalkStep::Continue;
            },
            WalkEntry::Dir { path, canon } => {
                if recurse && !crate::strutil::contains_string(&self.visited, canon.as_str()) {
                    proof {
                        assert(!old_visited.contains(canon@));
                    }
                    let c = canon.clone();
                    let p = path.clone();
                    self.visited.push(c);
                    proof {
                        assert(self.visited_views() =~= old_visited.push(
                            old_frames.last().0@[i as int]->Dir_canon@,
                        ));
                        if old_visited.no_duplicates() {
                            let v2 = self.visited_views();
                            assert forall|a: int, b: int| 0 <= a < b < v2.len() implies v2[a]
                                != v2[b] by {
                                if b == v2.len() - 1 {
                                    if v2[a] == old_frames.last().0@[i as int]->Dir_canon@ {
                                        assert(old_visited.contains(v2[a]));
                                    }
                                }
                            }
                        }
                    }
                    r = WalkStep::Descend(p);
                } else {
                    proof {
                        if recurse {
                            assert(old_visited.contains(canon@));
                        }
                    }
                    r = WalkStep::Continue;
                }
            },
        }
        self.frames.push((entries, i + 1));
        proof {
            assert(self.frames@ =~= old_frames.drop_last().push((
                old_frames.last().0,
                (old_frames.last().1 + 1) as usize,
            )));
        }
        r
    }

    /// The collected files, ending the walk.
    pub fn into_files(self) -> (r: Vec<String>)
        ensures
            r@.map_values(|s: String| s@) == self.files_views(),
    {
        self.files
    }
}

} // verus!
