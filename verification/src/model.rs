//! A model of the files on disk, and what the plans do to it.
//!
//! The model holds the content of every file by its path; directories are
//! implied by the paths. It gives the steps of a plan a meaning, against
//! which the laws of deploy and update are stated and proved.

use vstd::prelude::*;
use crate::engine::{
    all_admissible, backup_steps, child, copy_steps, deploy_steps, file_steps, is_backup,
    package_templated, place_step, trimmed, update_file_steps, update_files_steps, update_steps,
    DestProbe, FileView, StepView,
};
use crate::value::TomlView;
use crate::ignore::ignored;
use crate::package::backup_path;

verus! {

/// What a file holds.
pub ghost enum FileData {
    Text(Seq<char>),
    Bytes(Seq<u8>),
}

/// Whether `path` is `dir` or lies below it.
pub open spec fn under(dir: Seq<char>, path: Seq<char>) -> bool {
    path == dir || (path.len() > dir.len() && path.take(dir.len() as int) == dir && path[dir.len() as int]
        == '/')
}

/// The files after one step.
pub open spec fn apply(fs: Map<Seq<char>, FileData>, step: StepView) -> Map<Seq<char>, FileData> {
    match step {
        StepView::RemoveDirAll { path } => Map::new(
            |k: Seq<char>| fs.dom().contains(k) && !under(path, k),
            |k: Seq<char>| fs[k],
        ),
        StepView::Rename { from, to } => Map::new(
            |k: Seq<char>|
                if under(to, k) {
                    fs.dom().contains(from + k.skip(to.len() as int))
                } else {
                    fs.dom().contains(k) && !under(from, k)
                },
            |k: Seq<char>|
                if under(to, k) {
                    fs[from + k.skip(to.len() as int)]
                } else {
                    fs[k]
                },
        ),
        StepView::CreateDirAll { path } => fs,
        StepView::WriteFile { path, content } => fs.insert(path, FileData::Text(content)),
        StepView::CopyFile { from, to } => if fs.dom().contains(from) {
            fs.insert(to, fs[from])
        } else {
            fs
        },
    }
}

/// The files after the steps, carried out in order.
pub open spec fn run(fs: Map<Seq<char>, FileData>, steps: Seq<StepView>) -> Map<Seq<char>, FileData>
    decreases steps.len(),
{
    if steps.len() == 0 {
        fs
    } else {
        apply(run(fs, steps.drop_last()), steps.last())
    }
}

/// Whether a path has the same state in two models: the same content, or
/// none in both.
pub open spec fn same_at(
    a: Map<Seq<char>, FileData>,
    b: Map<Seq<char>, FileData>,
    path: Seq<char>,
) -> bool {
    a.dom().contains(path) == b.dom().contains(path) && (a.dom().contains(path) ==> a[path]
        == b[path])
}

/// Whether a step only puts files in place below `root`, none of them at
/// `path`.
pub open spec fn places_elsewhere(step: StepView, root: Seq<char>, path: Seq<char>) -> bool {
    match step {
        StepView::CreateDirAll { path: _ } => true,
        StepView::WriteFile { path: p, content: _ } => under(root, p) && p != path,
        StepView::CopyFile { from: _, to } => under(root, to) && to != path,
        _ => false,
    }
}

/// Carrying out two lists of steps, one after the other.
pub proof fn lemma_run_concat(fs: Map<Seq<char>, FileData>, a: Seq<StepView>, b: Seq<StepView>)
    ensures
        run(fs, a + b) == run(run(fs, a), b),
    decreases b.len(),
{
    if b.len() == 0 {
        assert(a + b =~= a);
    } else {
        lemma_run_concat(fs, a, b.drop_last());
        assert((a + b).drop_last() =~= a + b.drop_last());
        assert((a + b).last() == b.last());
    }
}

/// Carrying out one step or two: the last step is applied to what the one
/// before it, if there is one, leaves.
pub proof fn lemma_run_last(fs: Map<Seq<char>, FileData>, steps: Seq<StepView>)
    requires
        1 <= steps.len() <= 2,
    ensures
        steps.len() == 1 ==> run(fs, steps) == apply(fs, steps[0]),
        steps.len() == 2 ==> run(fs, steps) == apply(apply(fs, steps[0]), steps[1]),
{
    let none = Seq::<StepView>::empty();
    assert(run(fs, none) == fs);
    if steps.len() == 1 {
        assert(steps.drop_last() =~= none);
        assert(run(fs, steps) == apply(run(fs, steps.drop_last()), steps.last()));
    } else {
        let one = steps.drop_last();
        assert(one.drop_last() =~= none);
        assert(one.last() == steps[0]);
        assert(run(fs, one) == apply(run(fs, one.drop_last()), one.last()));
        assert(run(fs, steps) == apply(run(fs, one), steps.last()));
    }
}

/// Steps that put files in place elsewhere leave a path as it was.
pub proof fn lemma_run_elsewhere(
    fs: Map<Seq<char>, FileData>,
    steps: Seq<StepView>,
    root: Seq<char>,
    path: Seq<char>,
)
    requires
        forall|i: int| 0 <= i < steps.len() ==> places_elsewhere(#[trigger] steps[i], root, path),
    ensures
        same_at(run(fs, steps), fs, path),
    decreases steps.len(),
{
    if steps.len() > 0 {
        assert forall|i: int| 0 <= i < steps.drop_last().len() implies places_elsewhere(
            #[trigger] steps.drop_last()[i],
            root,
            path,
        ) by {
            assert(steps.drop_last()[i] == steps[i]);
        }
        lemma_run_elsewhere(fs, steps.drop_last(), root, path);
        assert(places_elsewhere(steps[steps.len() - 1], root, path));
    }
}

/// A path below `root` names one file: two relative paths with the same
/// path below `root` are the same.
pub proof fn lemma_child_injective(root: Seq<char>, a: Seq<char>, b: Seq<char>)
    requires
        child(root, a) == child(root, b),
    ensures
        a == b,
{
    if a.len() == 0 {
        if b.len() > 0 {
            assert(child(root, b).len() == root.len() + 1 + b.len());
        }
        assert(a =~= b);
    } else if b.len() == 0 {
        assert(child(root, a).len() == root.len() + 1 + a.len());
    } else {
        assert(a =~= child(root, a).skip(root.len() as int + 1));
        assert(b =~= child(root, b).skip(root.len() as int + 1));
    }
}

/// A path below `root` is `root` or lies below it.
pub proof fn lemma_child_under(root: Seq<char>, rel: Seq<char>)
    ensures
        under(root, child(root, rel)),
{
    if rel.len() > 0 {
        assert(child(root, rel).take(root.len() as int) =~= root);
    }
}

/// Nothing at or below a path lies at or below its backup path.
pub proof fn lemma_backup_apart(root: Seq<char>, path: Seq<char>)
    requires
        under(root, path),
    ensures
        !under(backup_path(root), path),
{
    reveal_strlit(".");
    let b = backup_path(root);
    assert(b.len() > root.len());
    assert(b[root.len() as int] == '.');
    if path != root && under(b, path) {
        assert(path.take(b.len() as int)[root.len() as int] == '.');
    }
}

/// The steps for the files put files in place below `root` only, and none
/// at a path whose relative path is ignored or is no path of the files.
pub proof fn lemma_copy_steps_elsewhere(
    src_root: Seq<char>,
    root: Seq<char>,
    ignore: Seq<Seq<char>>,
    files: Seq<FileView>,
    outs: Seq<Option<Seq<char>>>,
    path: Seq<char>,
)
    requires
        forall|i: int|
            0 <= i < files.len() && !ignored((#[trigger] files[i]).relative_path, ignore) ==> child(
                root,
                files[i].relative_path,
            ) != path,
    ensures
        forall|s: int|
            0 <= s < copy_steps(src_root, root, ignore, files, outs).len() ==> places_elsewhere(
                #[trigger] copy_steps(src_root, root, ignore, files, outs)[s],
                root,
                path,
            ),
    decreases files.len(),
{
    if files.len() > 0 && outs.len() == files.len() {
        let front = copy_steps(src_root, root, ignore, files.drop_last(), outs.drop_last());
        let back = file_steps(src_root, root, ignore, files.last(), outs.last());
        assert forall|i: int|
            0 <= i < files.drop_last().len() && !ignored(
                (#[trigger] files.drop_last()[i]).relative_path,
                ignore,
            ) implies child(root, files.drop_last()[i].relative_path) != path by {
            assert(files.drop_last()[i] == files[i]);
        }
        lemma_copy_steps_elsewhere(src_root, root, ignore, files.drop_last(), outs.drop_last(), path);
        lemma_child_under(root, files.last().relative_path);
        assert(files[files.len() - 1] == files.last());
        assert forall|s: int| 0 <= s < (front + back).len() implies places_elsewhere(
            #[trigger] (front + back)[s],
            root,
            path,
        ) by {
            if s < front.len() {
                assert((front + back)[s] == front[s]);
            } else {
                assert((front + back)[s] == back[s - front.len()]);
            }
        }
    }
}

/// Ignore filtering on deploy: the steps for the files leave the
/// destination of an ignored relative path as it was.
pub proof fn lemma_deploy_passes_over_ignored(
    src_root: Seq<char>,
    root: Seq<char>,
    ignore: Seq<Seq<char>>,
    files: Seq<FileView>,
    outs: Seq<Option<Seq<char>>>,
    fs: Map<Seq<char>, FileData>,
    rel: Seq<char>,
)
    requires
        ignored(rel, ignore),
    ensures
        same_at(run(fs, copy_steps(src_root, root, ignore, files, outs)), fs, child(root, rel)),
{
    assert forall|i: int|
        0 <= i < files.len() && !ignored((#[trigger] files[i]).relative_path, ignore) implies child(
        root,
        files[i].relative_path,
    ) != child(root, rel) by {
        if child(root, files[i].relative_path) == child(root, rel) {
            lemma_child_injective(root, files[i].relative_path, rel);
        }
    }
    lemma_copy_steps_elsewhere(src_root, root, ignore, files, outs, child(root, rel));
    lemma_run_elsewhere(fs, copy_steps(src_root, root, ignore, files, outs), root, child(root, rel));
}

/// No relative path occurs twice among the files.
pub open spec fn distinct_paths(files: Seq<FileView>) -> bool {
    forall|i: int, j: int|
        0 <= i < j < files.len() ==> (#[trigger] files[i]).relative_path != (
        #[trigger] files[j]).relative_path
}

/// What the steps for the files leave at the destination of a text file
/// that is not ignored is the text written for it, whatever was there.
pub proof fn lemma_copy_content(
    src_root: Seq<char>,
    root: Seq<char>,
    ignore: Seq<Seq<char>>,
    files: Seq<FileView>,
    outs: Seq<Option<Seq<char>>>,
    fs: Map<Seq<char>, FileData>,
    i: int,
)
    requires
        distinct_paths(files),
        outs.len() == files.len(),
        0 <= i < files.len(),
        !ignored(files[i].relative_path, ignore),
        outs[i] is Some,
    ensures
        run(fs, copy_steps(src_root, root, ignore, files, outs)).dom().contains(
            child(root, files[i].relative_path),
        ),
        run(fs, copy_steps(src_root, root, ignore, files, outs))[child(root, files[i].relative_path)]
            == FileData::Text(outs[i]->0),
    decreases files.len(),
{
    let target = child(root, files[i].relative_path);
    let front = copy_steps(src_root, root, ignore, files.drop_last(), outs.drop_last());
    let back = file_steps(src_root, root, ignore, files.last(), outs.last());
    let mid = run(fs, front);
    lemma_run_concat(fs, front, back);
    if i == files.len() - 1 {
        let put = place_step(src_root, root, files.last().relative_path, outs.last());
        lemma_run_last(mid, back);
    } else {
        assert(distinct_paths(files.drop_last())) by {
            assert forall|a: int, b: int| 0 <= a < b < files.drop_last().len() implies (
            #[trigger] files.drop_last()[a]).relative_path != (
            #[trigger] files.drop_last()[b]).relative_path by {
                assert(files.drop_last()[a] == files[a]);
                assert(files.drop_last()[b] == files[b]);
            }
        }
        assert(files.drop_last()[i] == files[i]);
        assert(outs.drop_last()[i] == outs[i]);
        lemma_copy_content(src_root, root, ignore, files.drop_last(), outs.drop_last(), fs, i);
        lemma_child_under(root, files.last().relative_path);
        assert(files[files.len() - 1] == files.last());
        if child(root, files.last().relative_path) == target {
            lemma_child_injective(root, files.last().relative_path, files[i].relative_path);
        }
        assert forall|s: int| 0 <= s < back.len() implies places_elsewhere(
            #[trigger] back[s],
            root,
            target,
        ) by {}
        lemma_run_elsewhere(mid, back, root, target);
    }
}

/// Idempotent deploy content: what a deploy leaves at the destination of a
/// text file that is not ignored is the text written for it, whatever was
/// on disk and whatever the probe found. Two deploys with the same stored
/// files and the same rendered texts leave the same content.
pub proof fn lemma_deploy_content(
    src_root: Seq<char>,
    dest: Seq<char>,
    ignore: Seq<Seq<char>>,
    probe: DestProbe,
    files: Seq<FileView>,
    outs: Seq<Option<Seq<char>>>,
    fs: Map<Seq<char>, FileData>,
    i: int,
)
    requires
        distinct_paths(files),
        outs.len() == files.len(),
        0 <= i < files.len(),
        !ignored(files[i].relative_path, ignore),
        outs[i] is Some,
    ensures
        run(fs, deploy_steps(src_root, dest, ignore, probe, files, outs)).dom().contains(
            child(trimmed(dest), files[i].relative_path),
        ),
        run(fs, deploy_steps(src_root, dest, ignore, probe, files, outs))[child(
            trimmed(dest),
            files[i].relative_path,
        )] == FileData::Text(outs[i]->0),
{
    let first = backup_steps(trimmed(dest), probe);
    let second = copy_steps(trimmed(src_root), trimmed(dest), ignore, files, outs);
    lemma_run_concat(fs, first, second);
    lemma_copy_content(trimmed(src_root), trimmed(dest), ignore, files, outs, run(fs, first), i);
}

/// What lies at or below `root` is, after the steps that make room, at the
/// same place below the backup path.
pub proof fn lemma_backup_steps_keep(
    root: Seq<char>,
    probe: DestProbe,
    fs: Map<Seq<char>, FileData>,
    path: Seq<char>,
)
    requires
        probe.dest_exists,
        under(root, path),
        fs.dom().contains(path),
    ensures
        run(fs, backup_steps(root, probe)).dom().contains(
            backup_path(root) + path.skip(root.len() as int),
        ),
        run(fs, backup_steps(root, probe))[backup_path(root) + path.skip(root.len() as int)]
            == fs[path],
{
    let b = backup_path(root);
    let kept = b + path.skip(root.len() as int);
    let steps = backup_steps(root, probe);
    let rename = StepView::Rename { from: root, to: b };
    lemma_backup_apart(root, path);
    assert(kept.skip(b.len() as int) =~= path.skip(root.len() as int));
    assert(root + path.skip(root.len() as int) =~= path) by {
        if path != root {
            assert(path.take(root.len() as int) + path.skip(root.len() as int) =~= path);
        }
    }
    assert(under(b, kept)) by {
        if path == root {
            assert(kept =~= b);
        } else {
            assert(kept.take(b.len() as int) =~= b);
            assert(kept[b.len() as int] == path[root.len() as int]);
        }
    }
    lemma_run_last(fs, steps);
}

/// Backup precedes overwrite: after a deploy that found something at the
/// destination, every file that was there is at the same place below the
/// backup path, with the content it had.
pub proof fn lemma_deploy_keeps_original(
    src_root: Seq<char>,
    dest: Seq<char>,
    ignore: Seq<Seq<char>>,
    probe: DestProbe,
    files: Seq<FileView>,
    outs: Seq<Option<Seq<char>>>,
    fs: Map<Seq<char>, FileData>,
    path: Seq<char>,
)
    requires
        probe.dest_exists,
        under(trimmed(dest), path),
        fs.dom().contains(path),
    ensures
        run(fs, deploy_steps(src_root, dest, ignore, probe, files, outs)).dom().contains(
            backup_path(trimmed(dest)) + path.skip(trimmed(dest).len() as int),
        ),
        run(fs, deploy_steps(src_root, dest, ignore, probe, files, outs))[backup_path(trimmed(dest))
            + path.skip(trimmed(dest).len() as int)] == fs[path],
{
    let root = trimmed(dest);
    let b = backup_path(root);
    let kept = b + path.skip(root.len() as int);
    let first = backup_steps(root, probe);
    let second = copy_steps(trimmed(src_root), root, ignore, files, outs);
    lemma_run_concat(fs, first, second);
    lemma_backup_steps_keep(root, probe, fs, path);
    assert(under(b, kept)) by {
        if path == root {
            assert(kept =~= b);
        } else {
            assert(kept.take(b.len() as int) =~= b);
            assert(kept[b.len() as int] == path[root.len() as int]);
        }
    }
    assert forall|i: int|
        0 <= i < files.len() && !ignored((#[trigger] files[i]).relative_path, ignore) implies child(
        root,
        files[i].relative_path,
    ) != kept by {
        lemma_child_under(root, files[i].relative_path);
        lemma_backup_apart(root, child(root, files[i].relative_path));
    }
    lemma_copy_steps_elsewhere(trimmed(src_root), root, ignore, files, outs, kept);
    lemma_run_elsewhere(run(fs, first), second, root, kept);
}

/// The steps of an update put files in place below the store only, and
/// none at a path that is no stored path of a live file that is brought
/// back.
pub proof fn lemma_update_steps_elsewhere(
    live_root: Seq<char>,
    store_root: Seq<char>,
    ignore: Seq<Seq<char>>,
    live: Seq<Seq<char>>,
    path: Seq<char>,
)
    requires
        forall|j: int|
            0 <= j < live.len() && !is_backup(#[trigger] live[j]) && !ignored(live[j], ignore)
                ==> child(store_root, live[j]) != path,
    ensures
        forall|s: int|
            0 <= s < update_files_steps(live_root, store_root, ignore, live).len()
                ==> places_elsewhere(
                #[trigger] update_files_steps(live_root, store_root, ignore, live)[s],
                store_root,
                path,
            ),
    decreases live.len(),
{
    if live.len() > 0 {
        let front = update_files_steps(live_root, store_root, ignore, live.drop_last());
        let back = update_file_steps(live_root, store_root, ignore, live.last());
        assert forall|j: int|
            0 <= j < live.drop_last().len() && !is_backup(#[trigger] live.drop_last()[j])
                && !ignored(live.drop_last()[j], ignore) implies child(
            store_root,
            live.drop_last()[j],
        ) != path by {
            assert(live.drop_last()[j] == live[j]);
        }
        lemma_update_steps_elsewhere(live_root, store_root, ignore, live.drop_last(), path);
        lemma_child_under(store_root, live.last());
        assert(live[live.len() - 1] == live.last());
        assert forall|s: int| 0 <= s < (front + back).len() implies places_elsewhere(
            #[trigger] (front + back)[s],
            store_root,
            path,
        ) by {
            if s < front.len() {
                assert((front + back)[s] == front[s]);
            } else {
                assert((front + back)[s] == back[s - front.len()]);
            }
        }
    }
}

/// Ignore filtering on update: the steps of an update leave the stored
/// copy of an ignored relative path as it was.
pub proof fn lemma_update_passes_over_ignored(
    live_root: Seq<char>,
    store_root: Seq<char>,
    ignore: Seq<Seq<char>>,
    live: Seq<Seq<char>>,
    fs: Map<Seq<char>, FileData>,
    rel: Seq<char>,
)
    requires
        ignored(rel, ignore),
    ensures
        same_at(
            run(fs, update_files_steps(live_root, store_root, ignore, live)),
            fs,
            child(store_root, rel),
        ),
{
    assert forall|j: int|
        0 <= j < live.len() && !is_backup(#[trigger] live[j]) && !ignored(live[j], ignore) implies child(
        store_root,
        live[j],
    ) != child(store_root, rel) by {
        if child(store_root, live[j]) == child(store_root, rel) {
            lemma_child_injective(store_root, live[j], rel);
        }
    }
    lemma_update_steps_elsewhere(live_root, store_root, ignore, live, child(store_root, rel));
    lemma_run_elsewhere(
        fs,
        update_files_steps(live_root, store_root, ignore, live),
        store_root,
        child(store_root, rel),
    );
}

/// Template skip on update: the update of a templated package changes
/// nothing, whatever is live.
pub proof fn lemma_templated_update_changes_nothing(
    store: Seq<char>,
    dest: Seq<char>,
    ignore: Seq<Seq<char>>,
    stored: Seq<FileView>,
    live: Seq<Seq<char>>,
    fs: Map<Seq<char>, FileData>,
)
    requires
        package_templated(stored),
    ensures
        update_steps(store, dest, ignore, stored, live).len() == 0,
        run(fs, update_steps(store, dest, ignore, stored, live)) == fs,
{
}

/// What an update leaves in the store for a live file that is neither
/// ignored nor a backup is what the live file holds, where the live file
/// does not lie at or below the store.
pub proof fn lemma_update_bytes(
    live_root: Seq<char>,
    store_root: Seq<char>,
    ignore: Seq<Seq<char>>,
    live: Seq<Seq<char>>,
    fs: Map<Seq<char>, FileData>,
    i: int,
)
    requires
        live.no_duplicates(),
        0 <= i < live.len(),
        !ignored(live[i], ignore),
        !is_backup(live[i]),
        fs.dom().contains(child(live_root, live[i])),
        !under(store_root, child(live_root, live[i])),
    ensures
        run(fs, update_files_steps(live_root, store_root, ignore, live)).dom().contains(
            child(store_root, live[i]),
        ),
        run(fs, update_files_steps(live_root, store_root, ignore, live))[child(store_root, live[i])]
            == fs[child(live_root, live[i])],
    decreases live.len(),
{
    let target = child(store_root, live[i]);
    let source = child(live_root, live[i]);
    let front = update_files_steps(live_root, store_root, ignore, live.drop_last());
    let back = update_file_steps(live_root, store_root, ignore, live.last());
    let mid = run(fs, front);
    lemma_run_concat(fs, front, back);
    if i == live.len() - 1 {
        let put = StepView::CopyFile { from: source, to: target };
        assert forall|j: int|
            0 <= j < live.drop_last().len() && !is_backup(#[trigger] live.drop_last()[j])
                && !ignored(live.drop_last()[j], ignore) implies child(
            store_root,
            live.drop_last()[j],
        ) != source by {
            lemma_child_under(store_root, live.drop_last()[j]);
        }
        lemma_update_steps_elsewhere(live_root, store_root, ignore, live.drop_last(), source);
        lemma_run_elsewhere(fs, front, store_root, source);
        lemma_run_last(mid, back);
    } else {
        assert(live.drop_last().no_duplicates()) by {
            assert forall|a: int, b: int|
                0 <= a < live.drop_last().len() && 0 <= b < live.drop_last().len() && a
                    != b implies live.drop_last()[a] != live.drop_last()[b] by {
                assert(live.drop_last()[a] == live[a]);
                assert(live.drop_last()[b] == live[b]);
            }
        }
        assert(live.drop_last()[i] == live[i]);
        lemma_update_bytes(live_root, store_root, ignore, live.drop_last(), fs, i);
        lemma_child_under(store_root, live.last());
        assert(live[live.len() - 1] == live.last());
        if child(store_root, live.last()) == target {
            lemma_child_injective(store_root, live.last(), live[i]);
        }
        assert forall|s: int| 0 <= s < back.len() implies places_elsewhere(
            #[trigger] back[s],
            store_root,
            target,
        ) by {}
        lemma_run_elsewhere(mid, back, store_root, target);
    }
}

/// Steps that put files in place below `root` leave what lies elsewhere as
/// it was.
pub proof fn lemma_copy_steps_leave_outside(
    src_root: Seq<char>,
    root: Seq<char>,
    ignore: Seq<Seq<char>>,
    files: Seq<FileView>,
    outs: Seq<Option<Seq<char>>>,
    fs: Map<Seq<char>, FileData>,
    path: Seq<char>,
)
    requires
        !under(root, path),
    ensures
        same_at(run(fs, copy_steps(src_root, root, ignore, files, outs)), fs, path),
{
    assert forall|i: int|
        0 <= i < files.len() && !ignored((#[trigger] files[i]).relative_path, ignore) implies child(
        root,
        files[i].relative_path,
    ) != path by {
        lemma_child_under(root, files[i].relative_path);
    }
    lemma_copy_steps_elsewhere(src_root, root, ignore, files, outs, path);
    lemma_run_elsewhere(fs, copy_steps(src_root, root, ignore, files, outs), root, path);
}

/// What the steps for the files leave at the destination of a file that is
/// copied is what its stored copy holds, where the stored copy does not lie
/// at or below the destination.
pub proof fn lemma_copy_bytes(
    src_root: Seq<char>,
    root: Seq<char>,
    ignore: Seq<Seq<char>>,
    files: Seq<FileView>,
    outs: Seq<Option<Seq<char>>>,
    fs: Map<Seq<char>, FileData>,
    i: int,
)
    requires
        distinct_paths(files),
        outs.len() == files.len(),
        0 <= i < files.len(),
        !ignored(files[i].relative_path, ignore),
        outs[i] is None,
        fs.dom().contains(child(src_root, files[i].relative_path)),
        !under(root, child(src_root, files[i].relative_path)),
    ensures
        run(fs, copy_steps(src_root, root, ignore, files, outs)).dom().contains(
            child(root, files[i].relative_path),
        ),
        run(fs, copy_steps(src_root, root, ignore, files, outs))[child(root, files[i].relative_path)]
            == fs[child(src_root, files[i].relative_path)],
    decreases files.len(),
{
    let target = child(root, files[i].relative_path);
    let source = child(src_root, files[i].relative_path);
    let front = copy_steps(src_root, root, ignore, files.drop_last(), outs.drop_last());
    let back = file_steps(src_root, root, ignore, files.last(), outs.last());
    let mid = run(fs, front);
    lemma_run_concat(fs, front, back);
    if i == files.len() - 1 {
        let put = place_step(src_root, root, files.last().relative_path, outs.last());
        lemma_copy_steps_leave_outside(
            src_root,
            root,
            ignore,
            files.drop_last(),
            outs.drop_last(),
            fs,
            source,
        );
        lemma_run_last(mid, back);
    } else {
        assert(distinct_paths(files.drop_last())) by {
            assert forall|a: int, b: int| 0 <= a < b < files.drop_last().len() implies (
            #[trigger] files.drop_last()[a]).relative_path != (
            #[trigger] files.drop_last()[b]).relative_path by {
                assert(files.drop_last()[a] == files[a]);
                assert(files.drop_last()[b] == files[b]);
            }
        }
        assert(files.drop_last()[i] == files[i]);
        assert(outs.drop_last()[i] == outs[i]);
        lemma_copy_bytes(src_root, root, ignore, files.drop_last(), outs.drop_last(), fs, i);
        lemma_child_under(root, files.last().relative_path);
        assert(files[files.len() - 1] == files.last());
        if child(root, files.last().relative_path) == target {
            lemma_child_injective(root, files.last().relative_path, files[i].relative_path);
        }
        assert forall|s: int| 0 <= s < back.len() implies places_elsewhere(
            #[trigger] back[s],
            root,
            target,
        ) by {}
        lemma_run_elsewhere(mid, back, root, target);
    }
}

/// Idempotent deploy content, for a file that is copied: what a deploy
/// leaves at its destination is what its stored copy holds, whatever else
/// was on disk and whatever the probe found, where the stored copy lies
/// neither at or below the destination nor at or below its backup path.
pub proof fn lemma_deploy_bytes(
    src_root: Seq<char>,
    dest: Seq<char>,
    ignore: Seq<Seq<char>>,
    probe: DestProbe,
    files: Seq<FileView>,
    outs: Seq<Option<Seq<char>>>,
    fs: Map<Seq<char>, FileData>,
    i: int,
)
    requires
        distinct_paths(files),
        outs.len() == files.len(),
        0 <= i < files.len(),
        !ignored(files[i].relative_path, ignore),
        outs[i] is None,
        fs.dom().contains(child(trimmed(src_root), files[i].relative_path)),
        !under(trimmed(dest), child(trimmed(src_root), files[i].relative_path)),
        !under(backup_path(trimmed(dest)), child(trimmed(src_root), files[i].relative_path)),
    ensures
        run(fs, deploy_steps(src_root, dest, ignore, probe, files, outs)).dom().contains(
            child(trimmed(dest), files[i].relative_path),
        ),
        run(fs, deploy_steps(src_root, dest, ignore, probe, files, outs))[child(
            trimmed(dest),
            files[i].relative_path,
        )] == fs[child(trimmed(src_root), files[i].relative_path)],
{
    let root = trimmed(dest);
    let b = backup_path(root);
    let source = child(trimmed(src_root), files[i].relative_path);
    let first = backup_steps(root, probe);
    let second = copy_steps(trimmed(src_root), root, ignore, files, outs);
    let rename = StepView::Rename { from: root, to: b };
    let remove = StepView::RemoveDirAll { path: b };
    lemma_run_concat(fs, first, second);
    assert(same_at(run(fs, first), fs, source)) by {
        if !probe.dest_exists {
            assert(first =~= Seq::<StepView>::empty());
        } else {
            lemma_run_last(fs, first);
        }
    }
    lemma_copy_bytes(trimmed(src_root), root, ignore, files, outs, run(fs, first), i);
}

/// Idempotent deploy content: two deploys of the same stored files with the
/// same variables leave the same content at the destination of every text
/// file that is not ignored, whatever was on disk either time and whatever
/// the probes found.
pub proof fn lemma_deploy_twice(
    src_root: Seq<char>,
    dest: Seq<char>,
    ignore: Seq<Seq<char>>,
    variables: Map<Seq<char>, TomlView>,
    files: Seq<FileView>,
    first_probe: DestProbe,
    first_outs: Seq<Option<Seq<char>>>,
    first_fs: Map<Seq<char>, FileData>,
    second_probe: DestProbe,
    second_outs: Seq<Option<Seq<char>>>,
    second_fs: Map<Seq<char>, FileData>,
    i: int,
)
    requires
        distinct_paths(files),
        all_admissible(ignore, variables, files, first_outs),
        all_admissible(ignore, variables, files, second_outs),
        0 <= i < files.len(),
        !ignored(files[i].relative_path, ignore),
        files[i].content is Some,
    ensures
        run(
            first_fs,
            deploy_steps(src_root, dest, ignore, first_probe, files, first_outs),
        ).dom().contains(child(trimmed(dest), files[i].relative_path)),
        run(first_fs, deploy_steps(src_root, dest, ignore, first_probe, files, first_outs))[child(
            trimmed(dest),
            files[i].relative_path,
        )] == run(
            second_fs,
            deploy_steps(src_root, dest, ignore, second_probe, files, second_outs),
        )[child(trimmed(dest), files[i].relative_path)],
{
    assert(first_outs[i] == second_outs[i]);
    lemma_deploy_content(src_root, dest, ignore, first_probe, files, first_outs, first_fs, i);
    lemma_deploy_content(src_root, dest, ignore, second_probe, files, second_outs, second_fs, i);
}

/// Rotating backup: a second deploy that finds the destination moves what
/// the first deploy wrote for a text file to the same place below the
/// backup path.
pub proof fn lemma_second_deploy_backs_up_first(
    src_root: Seq<char>,
    dest: Seq<char>,
    ignore: Seq<Seq<char>>,
    files: Seq<FileView>,
    first_probe: DestProbe,
    first_outs: Seq<Option<Seq<char>>>,
    second_probe: DestProbe,
    second_outs: Seq<Option<Seq<char>>>,
    fs: Map<Seq<char>, FileData>,
    i: int,
)
    requires
        distinct_paths(files),
        first_outs.len() == files.len(),
        0 <= i < files.len(),
        !ignored(files[i].relative_path, ignore),
        first_outs[i] is Some,
        second_probe.dest_exists,
    ensures
        run(
            run(fs, deploy_steps(src_root, dest, ignore, first_probe, files, first_outs)),
            deploy_steps(src_root, dest, ignore, second_probe, files, second_outs),
        )[backup_path(trimmed(dest)) + child(trimmed(dest), files[i].relative_path).skip(
            trimmed(dest).len() as int,
        )] == FileData::Text(first_outs[i]->0),
{
    let after_first = run(fs, deploy_steps(src_root, dest, ignore, first_probe, files, first_outs));
    lemma_deploy_content(src_root, dest, ignore, first_probe, files, first_outs, fs, i);
    lemma_child_under(trimmed(dest), files[i].relative_path);
    lemma_deploy_keeps_original(
        src_root,
        dest,
        ignore,
        second_probe,
        files,
        second_outs,
        after_first,
        child(trimmed(dest), files[i].relative_path),
    );
}

} // verus!
