//! Deploy, update and diff as plans of filesystem steps.
//!
//! The library never touches the disk. The caller probes what is there and
//! reads the files, the functions here decide what is to be done, and the
//! caller carries the steps out in order. Pre-actions run before the caller
//! probes and reads, post-actions after the last step.

use vstd::prelude::*;
use crate::context::Context;
use crate::error::{DotrError, ErrorView};
use crate::ignore::{ignored, is_ignored};
use crate::package::{
    backup_path, create_backup_path, deploy_variables, effective_dest, file_name, file_name_of,
    profile_name, Package,
};
use crate::template::{
    compile_string, compiled, found, is_templated_str, regex_search, tera_text, TEMPLATE_PATTERN,
};
use crate::text::{
    chars_of, concat3, count_trailing, last_index_of, rfind_char, str_eq, trailing_count,
};
use crate::utils::{resolved_path, BACKUP_EXT};
use crate::value::{strings_view, Table, TomlView};

verus! {

/// One step for the caller to carry out.
#[derive(Debug, PartialEq)]
pub enum Step {
    /// Remove a directory and all below it: a stale backup.
    RemoveDirAll { path: String },
    /// Rename a file or directory: the backup of what is live.
    Rename { from: String, to: String },
    /// Create a directory and its parents where they are missing.
    CreateDirAll { path: String },
    /// Write a text file.
    WriteFile { path: String, content: String },
    /// Copy a file byte for byte.
    CopyFile { from: String, to: String },
}

/// The content of a step.
pub ghost enum StepView {
    RemoveDirAll { path: Seq<char> },
    Rename { from: Seq<char>, to: Seq<char> },
    CreateDirAll { path: Seq<char> },
    WriteFile { path: Seq<char>, content: Seq<char> },
    CopyFile { from: Seq<char>, to: Seq<char> },
}

impl View for Step {
    type V = StepView;

    open spec fn view(&self) -> StepView {
        match self {
            Step::RemoveDirAll { path } => StepView::RemoveDirAll { path: path@ },
            Step::Rename { from, to } => StepView::Rename { from: from@, to: to@ },
            Step::CreateDirAll { path } => StepView::CreateDirAll { path: path@ },
            Step::WriteFile { path, content } => StepView::WriteFile {
                path: path@,
                content: content@,
            },
            Step::CopyFile { from, to } => StepView::CopyFile { from: from@, to: to@ },
        }
    }
}

impl StepView {
    /// The line that reports the step once it is done: one for each backup
    /// and for each file put in place, none for the other steps.
    pub open spec fn message(self) -> Option<Seq<char>> {
        match self {
            StepView::Rename { from, to } => Some(
                "[INFO] Backed up '"@ + from + "' to '"@ + to + "'"@,
            ),
            StepView::WriteFile { path, content } => Some("[INFO] Deployed file '"@ + path + "'"@),
            StepView::CopyFile { from, to } => Some(
                "[INFO] Copied file '"@ + from + "' to '"@ + to + "'"@,
            ),
            _ => None,
        }
    }

    /// The error that a step that could not be carried out amounts to: a
    /// backup conflict where the backup could not be made, an I/O error
    /// otherwise. `reason` says what went wrong.
    pub open spec fn failure(self, reason: Seq<char>) -> ErrorView {
        match self {
            StepView::RemoveDirAll { path } => ErrorView::BackupConflict(
                "cannot remove stale backup '"@ + path + "': "@ + reason,
            ),
            StepView::Rename { from, to } => ErrorView::BackupConflict(
                "cannot rename '"@ + from + "' to '"@ + to + "': "@ + reason,
            ),
            StepView::CreateDirAll { path } => ErrorView::IoError(
                "cannot create directory '"@ + path + "': "@ + reason,
            ),
            StepView::WriteFile { path, content } => ErrorView::IoError(
                "cannot write '"@ + path + "': "@ + reason,
            ),
            StepView::CopyFile { from, to } => ErrorView::IoError(
                "cannot copy '"@ + from + "' to '"@ + to + "': "@ + reason,
            ),
        }
    }
}

impl Step {
    /// The line that reports the step once it is done.
    pub fn message(&self) -> (r: Option<String>)
        ensures
            text_view(r) == self@.message(),
    {
        match self {
            Step::Rename { from, to } => {
                let mut line = concat3("[INFO] Backed up '", from.as_str(), "' to '");
                line.append(to.as_str());
                line.append("'");
                Some(line)
            },
            Step::WriteFile { path, content } => Some(
                concat3("[INFO] Deployed file '", path.as_str(), "'"),
            ),
            Step::CopyFile { from, to } => {
                let mut line = concat3("[INFO] Copied file '", from.as_str(), "' to '");
                line.append(to.as_str());
                line.append("'");
                Some(line)
            },
            _ => None,
        }
    }

    /// The error that the step amounts to where it could not be carried
    /// out.
    pub fn failure(&self, reason: &str) -> (r: DotrError)
        ensures
            r@ == self@.failure(reason@),
    {
        match self {
            Step::RemoveDirAll { path } => {
                let mut m = concat3("cannot remove stale backup '", path.as_str(), "': ");
                m.append(reason);
                DotrError::BackupConflict(m)
            },
            Step::Rename { from, to } => {
                let mut m = concat3("cannot rename '", from.as_str(), "' to '");
                m.append(to.as_str());
                m.append("': ");
                m.append(reason);
                DotrError::BackupConflict(m)
            },
            Step::CreateDirAll { path } => {
                let mut m = concat3("cannot create directory '", path.as_str(), "': ");
                m.append(reason);
                DotrError::IoError(m)
            },
            Step::WriteFile { path, content } => {
                let mut m = concat3("cannot write '", path.as_str(), "': ");
                m.append(reason);
                DotrError::IoError(m)
            },
            Step::CopyFile { from, to } => {
                let mut m = concat3("cannot copy '", from.as_str(), "' to '");
                m.append(to.as_str());
                m.append("': ");
                m.append(reason);
                DotrError::IoError(m)
            },
        }
    }
}

/// The contents of a list of steps.
pub open spec fn steps_view(steps: Seq<Step>) -> Seq<StepView> {
    Seq::new(steps.len(), |i: int| steps[i]@)
}

/// A file found below the root of a package, or the root itself where the
/// package is a single file.
#[derive(Debug, PartialEq)]
pub struct SourceFile {
    /// Path below the root, with `/` between its segments; empty for the
    /// root itself.
    pub relative_path: String,
    /// The text of the file; `None` where the file is not UTF-8 text.
    pub content: Option<String>,
}

/// The content of a source file.
pub ghost struct FileView {
    pub relative_path: Seq<char>,
    pub content: Option<Seq<char>>,
}

impl View for SourceFile {
    type V = FileView;

    open spec fn view(&self) -> FileView {
        FileView {
            relative_path: self.relative_path@,
            content: match self.content {
                Some(s) => Some(s@),
                None => None,
            },
        }
    }
}

/// The contents of a list of files.
pub open spec fn files_view(files: Seq<SourceFile>) -> Seq<FileView> {
    Seq::new(files.len(), |i: int| files[i]@)
}

/// What the caller found at the destination before a deploy.
#[derive(Debug, Clone, Copy, PartialEq)]
pub struct DestProbe {
    /// Something exists at the destination.
    pub dest_exists: bool,
    /// A directory exists at the backup path.
    pub stale_backup_dir: bool,
}

/// A path without its trailing `/`.
pub open spec fn trimmed(path: Seq<char>) -> Seq<char> {
    path.take(path.len() - trailing_count(path, '/'))
}

/// The path of `rel` below `root`; `root` itself for an empty `rel`.
pub open spec fn child(root: Seq<char>, rel: Seq<char>) -> Seq<char> {
    if rel.len() == 0 {
        root
    } else {
        root + seq!['/'] + rel
    }
}

/// The directory that holds a path: what stands before its last `/`; empty
/// where it has none.
pub open spec fn parent(path: Seq<char>) -> Seq<char> {
    if last_index_of(path, '/') >= 0 {
        path.take(last_index_of(path, '/'))
    } else {
        Seq::empty()
    }
}

/// Whether a text is templated.
pub open spec fn templated(text: Seq<char>) -> bool {
    found(regex_search(TEMPLATE_PATTERN@, text))
}

/// Whether `out` may be what deploy writes for the file: nothing for a file
/// that is not text, which is copied; the text itself for a text without
/// template markers; the text of the templating engine for one that is
/// rendered.
pub open spec fn admissible(
    ignore: Seq<Seq<char>>,
    variables: Map<Seq<char>, TomlView>,
    file: FileView,
    out: Option<Seq<char>>,
) -> bool {
    match file.content {
        None => out is None,
        Some(text) => out is Some && (!templated(text) ==> out == Some(text)) && (needs_rendering(
            ignore,
            file,
        ) ==> tera_text(text, variables, false) == out),
    }
}

/// Whether rendering fails for a file: it needs rendering, and its text is
/// not handed to the templating engine or the engine fails on it.
pub open spec fn render_fails(ignore: Seq<Seq<char>>, variables: &Table, file: FileView) -> bool {
    needs_rendering(ignore, file) && compiled(file.content->0, variables) is None
}

/// The steps that make room at the destination: none where nothing is
/// there; else the rename of what is there to the backup path, after the
/// removal of a stale backup directory.
pub open spec fn backup_steps(root: Seq<char>, probe: DestProbe) -> Seq<StepView> {
    if !probe.dest_exists {
        Seq::empty()
    } else if probe.stale_backup_dir {
        seq![
            StepView::RemoveDirAll { path: backup_path(root) },
            StepView::Rename { from: root, to: backup_path(root) },
        ]
    } else {
        seq![StepView::Rename { from: root, to: backup_path(root) }]
    }
}

/// The step that puts one file in place.
pub open spec fn place_step(
    src_root: Seq<char>,
    root: Seq<char>,
    rel: Seq<char>,
    out: Option<Seq<char>>,
) -> StepView {
    match out {
        Some(text) => StepView::WriteFile { path: child(root, rel), content: text },
        None => StepView::CopyFile { from: child(src_root, rel), to: child(root, rel) },
    }
}

/// The steps for one file: none where it is ignored; else the creation of
/// the directory that will hold it, where its path names one, and the step
/// that puts it in place.
pub open spec fn file_steps(
    src_root: Seq<char>,
    root: Seq<char>,
    ignore: Seq<Seq<char>>,
    file: FileView,
    out: Option<Seq<char>>,
) -> Seq<StepView> {
    if ignored(file.relative_path, ignore) {
        Seq::empty()
    } else if parent(child(root, file.relative_path)).len() > 0 {
        seq![
            StepView::CreateDirAll { path: parent(child(root, file.relative_path)) },
            place_step(src_root, root, file.relative_path, out),
        ]
    } else {
        seq![place_step(src_root, root, file.relative_path, out)]
    }
}

/// The steps for the files, in their order. `outs` holds for each file what
/// is written for it.
pub open spec fn copy_steps(
    src_root: Seq<char>,
    root: Seq<char>,
    ignore: Seq<Seq<char>>,
    files: Seq<FileView>,
    outs: Seq<Option<Seq<char>>>,
) -> Seq<StepView>
    decreases files.len(),
{
    if files.len() == 0 || outs.len() != files.len() {
        Seq::empty()
    } else {
        copy_steps(src_root, root, ignore, files.drop_last(), outs.drop_last()) + file_steps(
            src_root,
            root,
            ignore,
            files.last(),
            outs.last(),
        )
    }
}

/// The steps of a deploy between the pre- and the post-actions: the backup
/// of what is live, then the files.
pub open spec fn deploy_steps(
    src_root: Seq<char>,
    dest: Seq<char>,
    ignore: Seq<Seq<char>>,
    probe: DestProbe,
    files: Seq<FileView>,
    outs: Seq<Option<Seq<char>>>,
) -> Seq<StepView> {
    backup_steps(trimmed(dest), probe) + copy_steps(
        trimmed(src_root),
        trimmed(dest),
        ignore,
        files,
        outs,
    )
}

/// Every file has an admissible output.
pub open spec fn all_admissible(
    ignore: Seq<Seq<char>>,
    variables: Map<Seq<char>, TomlView>,
    files: Seq<FileView>,
    outs: Seq<Option<Seq<char>>>,
) -> bool {
    &&& outs.len() == files.len()
    &&& forall|i: int|
        0 <= i < files.len() ==> admissible(ignore, variables, #[trigger] files[i], outs[i])
}

/// Whether deploy has to render the file: it is text with template
/// markers, and not ignored.
pub open spec fn needs_rendering(ignore: Seq<Seq<char>>, file: FileView) -> bool {
    !ignored(file.relative_path, ignore) && file.content is Some && templated(file.content->0)
}

/// A path without its trailing `/`.
pub fn trim_slashes(path: &str) -> (r: String)
    ensures
        r@ == trimmed(path@),
{
    let cs = chars_of(path);
    let end: usize = cs.len() - count_trailing(&cs, '/');
    let r = path.substring_char(0, end);
    assert(r@ =~= trimmed(path@));
    r.to_owned()
}

/// The path of `rel` below `root`.
pub fn child_path(root: &str, rel: &str) -> (r: String)
    ensures
        r@ == child(root@, rel@),
{
    if rel.unicode_len() == 0 {
        root.to_owned()
    } else {
        proof {
            reveal_strlit("/");
            assert("/"@ =~= seq!['/']);
        }
        concat3(root, "/", rel)
    }
}

/// The directory that holds a path.
pub fn parent_path(path: &str) -> (r: String)
    ensures
        r@ == parent(path@),
{
    let cs = chars_of(path);
    proof {
        assert(cs@.take(cs.len() as int) =~= cs@);
    }
    match rfind_char(&cs, cs.len(), '/') {
        Some(i) => {
            let r = path.substring_char(0, i);
            assert(r@ =~= parent(path@));
            r.to_owned()
        },
        None => {
            let r = String::new();
            assert(r@ =~= parent(path@));
            r
        },
    }
}

/// The steps that make room at the destination `root`.
pub fn plan_backup(root: &str, probe: DestProbe) -> (r: Vec<Step>)
    ensures
        steps_view(r@) == backup_steps(root@, probe),
{
    let mut steps: Vec<Step> = Vec::new();
    if probe.dest_exists {
        if probe.stale_backup_dir {
            steps.push(Step::RemoveDirAll { path: create_backup_path(root) });
        }
        steps.push(Step::Rename { from: root.to_owned(), to: create_backup_path(root) });
    }
    assert(steps_view(steps@) =~= backup_steps(root@, probe));
    steps
}

/// The steps for one file, given what is written for it.
pub fn plan_file(
    src_root: &str,
    root: &str,
    ignore: &Vec<String>,
    file: &SourceFile,
    out: Option<String>,
) -> (r: Vec<Step>)
    ensures
        steps_view(r@) == file_steps(
            src_root@,
            root@,
            strings_view(ignore@),
            file@,
            match out {
                Some(s) => Some(s@),
                None => None,
            },
        ),
{
    let mut steps: Vec<Step> = Vec::new();
    if !is_ignored(file.relative_path.as_str(), ignore) {
        let target = child_path(root, file.relative_path.as_str());
        let dir = parent_path(target.as_str());
        if dir.as_str().unicode_len() > 0 {
            steps.push(Step::CreateDirAll { path: dir });
        }
        match out {
            Some(text) => {
                steps.push(Step::WriteFile { path: target, content: text });
            },
            None => {
                let from = child_path(src_root, file.relative_path.as_str());
                steps.push(Step::CopyFile { from, to: target });
            },
        }
    }
    assert(steps_view(steps@) =~= file_steps(
        src_root@,
        root@,
        strings_view(ignore@),
        file@,
        match out {
            Some(s) => Some(s@),
            None => None,
        },
    ));
    steps
}

/// The view of an optional text.
pub open spec fn text_view(text: Option<String>) -> Option<Seq<char>> {
    match text {
        Some(s) => Some(s@),
        None => None,
    }
}

/// Unfolds the steps of a list of files that is one file longer.
pub proof fn lemma_copy_steps_push(
    src_root: Seq<char>,
    root: Seq<char>,
    ignore: Seq<Seq<char>>,
    files: Seq<FileView>,
    outs: Seq<Option<Seq<char>>>,
    file: FileView,
    out: Option<Seq<char>>,
)
    requires
        files.len() == outs.len(),
    ensures
        copy_steps(src_root, root, ignore, files.push(file), outs.push(out)) == copy_steps(
            src_root,
            root,
            ignore,
            files,
            outs,
        ) + file_steps(src_root, root, ignore, file, out),
{
    assert(files.push(file).drop_last() =~= files);
    assert(outs.push(out).drop_last() =~= outs);
}

/// The steps for one file, rendered against the variables where it is a
/// text with template markers and not ignored. Where the templating engine
/// fails, nothing is planned.
pub fn place_file(
    src_root: &str,
    root: &str,
    ignore: &Vec<String>,
    file: &SourceFile,
    variables: &Table,
) -> (r: Result<Vec<Step>, DotrError>)
    ensures
        match r {
            Ok(steps) => !render_fails(strings_view(ignore@), variables, file@) && exists|
                out: Option<Seq<char>>,
            |
                admissible(strings_view(ignore@), variables@, file@, out) && steps_view(steps@)
                    == #[trigger] file_steps(src_root@, root@, strings_view(ignore@), file@, out),
            Err(e) => e is RenderError && render_fails(strings_view(ignore@), variables, file@),
        },
{
    let out: Option<String> = match &file.content {
        None => None,
        Some(text) => {
            if is_templated_str(text.as_str()) && !is_ignored(file.relative_path.as_str(), ignore) {
                match compile_string(text.as_str(), variables) {
                    Ok(rendered) => Some(rendered),
                    Err(e) => {
                        return Err(e);
                    },
                }
            } else {
                Some(text.clone())
            }
        },
    };
    let ghost o = text_view(out);
    let steps = plan_file(src_root, root, ignore, file, out);
    assert(admissible(strings_view(ignore@), variables@, file@, o));
    assert(steps_view(steps@) == file_steps(src_root@, root@, strings_view(ignore@), file@, o));
    Ok(steps)
}

/// The steps that put the files of a package in place below `root`, from
/// their stored copies below `src_root`. A text with template markers is
/// rendered against the variables, unless it is ignored; where the
/// templating engine fails on one, nothing is planned.
pub fn plan_copy(
    src_root: &str,
    root: &str,
    ignore: &Vec<String>,
    files: &Vec<SourceFile>,
    variables: &Table,
) -> (r: Result<Vec<Step>, DotrError>)
    ensures
        match r {
            Ok(steps) => (forall|i: int|
                0 <= i < files.len() ==> !render_fails(
                    strings_view(ignore@),
                    variables,
                    #[trigger] files_view(files@)[i],
                )) && exists|outs: Seq<Option<Seq<char>>>|
                all_admissible(strings_view(ignore@), variables@, files_view(files@), outs)
                    && steps_view(steps@) == #[trigger] copy_steps(
                    src_root@,
                    root@,
                    strings_view(ignore@),
                    files_view(files@),
                    outs,
                ),
            Err(e) => e is RenderError && exists|i: int|
                0 <= i < files.len() && render_fails(
                    strings_view(ignore@),
                    variables,
                    #[trigger] files_view(files@)[i],
                ),
        },
{
    let ghost all = files_view(files@);
    let ghost pats = strings_view(ignore@);
    let mut steps: Vec<Step> = Vec::new();
    let ghost mut outs: Seq<Option<Seq<char>>> = Seq::empty();
    let mut i: usize = 0;
    proof {
        assert(all.take(0) =~= Seq::<FileView>::empty());
        assert(steps_view(steps@) =~= copy_steps(src_root@, root@, pats, all.take(0), outs));
    }
    while i < files.len()
        invariant
            i <= files.len(),
            all == files_view(files@),
            pats == strings_view(ignore@),
            outs.len() == i,
            forall|j: int| 0 <= j < i ==> admissible(pats, variables@, #[trigger] all[j], outs[j]),
            forall|j: int| 0 <= j < i ==> !render_fails(pats, variables, #[trigger] all[j]),
            steps_view(steps@) == copy_steps(src_root@, root@, pats, all.take(i as int), outs),
        decreases files.len() - i,
    {
        let file = &files[i];
        assert(all[i as int] == file@);
        let mut more = match place_file(src_root, root, ignore, file, variables) {
            Ok(more) => more,
            Err(e) => {
                return Err(e);
            },
        };
        let ghost before = steps@;
        let ghost added = more@;
        steps.append(&mut more);
        proof {
            let o = choose|out: Option<Seq<char>>|
                admissible(pats, variables@, file@, out) && steps_view(added) == #[trigger] file_steps(
                    src_root@,
                    root@,
                    pats,
                    file@,
                    out,
                );
            lemma_copy_steps_push(src_root@, root@, pats, all.take(i as int), outs, file@, o);
            assert(all.take(i + 1) =~= all.take(i as int).push(file@));
            assert(steps_view(steps@) =~= steps_view(before) + steps_view(added));
            outs = outs.push(o);
        }
        i += 1;
    }
    proof {
        assert(all.take(files.len() as int) =~= all);
    }
    Ok(steps)
}

/// What the plan of one file is, against given variables: the steps for
/// the file with an admissible output, or a render error where rendering
/// fails for it.
pub open spec fn file_planned(
    src_root: Seq<char>,
    root: Seq<char>,
    ignore: Seq<Seq<char>>,
    variables: &Table,
    file: FileView,
    r: Result<Vec<Step>, DotrError>,
) -> bool {
    match r {
        Ok(steps) => !render_fails(ignore, variables, file) && exists|out: Option<Seq<char>>|
            admissible(ignore, variables@, file, out) && steps_view(steps@) == #[trigger] file_steps(
                src_root,
                root,
                ignore,
                file,
                out,
            ),
        Err(e) => e is RenderError && render_fails(ignore, variables, file),
    }
}

/// What the plan of a deploy is, against given variables: the steps of the
/// deploy with admissible outputs where rendering fails for no file, or a
/// render error where it fails for one.
pub open spec fn deploy_planned(
    src_root: Seq<char>,
    dest: Seq<char>,
    ignore: Seq<Seq<char>>,
    variables: &Table,
    probe: DestProbe,
    files: Seq<FileView>,
    r: Result<Vec<Step>, DotrError>,
) -> bool {
    match r {
        Ok(steps) => (forall|i: int|
            0 <= i < files.len() ==> !render_fails(ignore, variables, #[trigger] files[i]))
            && exists|outs: Seq<Option<Seq<char>>>|
            all_admissible(ignore, variables@, files, outs) && steps_view(steps@)
                == #[trigger] deploy_steps(src_root, dest, ignore, probe, files, outs),
        Err(e) => e is RenderError && exists|i: int|
            0 <= i < files.len() && render_fails(ignore, variables, #[trigger] files[i]),
    }
}

impl Package {
    /// Plans the deploy of one file of the package below the destination
    /// `root`, from its stored copy below `src_root`: nothing where the
    /// package ignores it; else the directory that will hold it and the file
    /// itself, rendered against the variables of the package where it is
    /// templated.
    pub fn deploy_file(&self, src_root: &str, root: &str, file: &SourceFile, ctx: &Context) -> (r:
        Result<Vec<Step>, DotrError>)
        ensures
            exists|v: Table|
                v@ == deploy_variables(self, ctx) && #[trigger] file_planned(
                    src_root@,
                    root@,
                    self@.ignore,
                    &v,
                    file@,
                    r,
                ),
    {
        let variables = self.get_context_variables(ctx);
        let r = place_file(src_root, root, &self.ignore, file, &variables);
        assert(file_planned(src_root@, root@, self@.ignore, &variables, file@, r));
        r
    }

    /// Plans the deploy of the package between its pre- and post-actions:
    /// the backup of what is live at the destination in effect, then the
    /// files, each rendered against the variables of the package where it is
    /// templated. `probe` says what is at the destination, `files` are the
    /// files of the stored copy in the order of the walk.
    pub fn deploy(&self, ctx: &Context, home: &str, probe: DestProbe, files: &Vec<SourceFile>) -> (r:
        Result<Vec<Step>, DotrError>)
        ensures
            exists|v: Table|
                v@ == deploy_variables(self, ctx) && #[trigger] deploy_planned(
                    resolved_path(self.src@, ctx.working_dir@, home@),
                    resolved_path(
                        effective_dest(self@, profile_name(ctx.profile)),
                        ctx.working_dir@,
                        home@,
                    ),
                    self@.ignore,
                    &v,
                    probe,
                    files_view(files@),
                    r,
                ),
    {
        let src_root = trim_slashes(self.resolve_src(ctx, home).as_str());
        let root = trim_slashes(self.resolve_dest(ctx, home).as_str());
        let variables = self.get_context_variables(ctx);
        let ghost src = resolved_path(self.src@, ctx.working_dir@, home@);
        let ghost dest = resolved_path(
            effective_dest(self@, profile_name(ctx.profile)),
            ctx.working_dir@,
            home@,
        );
        let mut copy = match plan_copy(
            src_root.as_str(),
            root.as_str(),
            &self.ignore,
            files,
            &variables,
        ) {
            Ok(steps) => steps,
            Err(e) => {
                let r: Result<Vec<Step>, DotrError> = Err(e);
                assert(deploy_planned(src, dest, self@.ignore, &variables, probe, files_view(files@), r));
                return r;
            },
        };
        let mut steps = plan_backup(root.as_str(), probe);
        let ghost first = steps@;
        let ghost second = copy@;
        steps.append(&mut copy);
        proof {
            assert(steps_view(steps@) =~= steps_view(first) + steps_view(second));
            let outs = choose|outs: Seq<Option<Seq<char>>>|
                all_admissible(self@.ignore, variables@, files_view(files@), outs) && steps_view(
                    second,
                ) == #[trigger] copy_steps(
                    src_root@,
                    root@,
                    self@.ignore,
                    files_view(files@),
                    outs,
                );
            assert(steps_view(steps@) == deploy_steps(
                src,
                dest,
                self@.ignore,
                probe,
                files_view(files@),
                outs,
            ));
        }
        let r: Result<Vec<Step>, DotrError> = Ok(steps);
        assert(deploy_planned(src, dest, self@.ignore, &variables, probe, files_view(files@), r));
        r
    }
}

/// The extension of the last component of a path: what follows its last
/// dot, unless the component starts with that dot or has none.
pub open spec fn extension(path: Seq<char>) -> Option<Seq<char>> {
    let name = file_name(path);
    if last_index_of(name, '.') > 0 {
        Some(name.skip(last_index_of(name, '.') + 1))
    } else {
        None
    }
}

/// Whether a path names a backup.
pub open spec fn is_backup(path: Seq<char>) -> bool {
    extension(path) == Some(BACKUP_EXT@)
}

/// The text of the first file that is text: it decides whether a package is
/// templated.
pub open spec fn first_text(files: Seq<FileView>) -> Option<Seq<char>>
    decreases files.len(),
{
    if files.len() == 0 {
        None
    } else if files[0].content is Some {
        files[0].content
    } else {
        first_text(files.drop_first())
    }
}

/// Whether a package with these stored files is templated.
pub open spec fn package_templated(stored: Seq<FileView>) -> bool {
    match first_text(stored) {
        Some(text) => templated(text),
        None => false,
    }
}

/// The steps that bring one live file back into the store: none for a
/// backup and none for an ignored path; else the creation of the directory
/// that will hold the file, where its path names one, and the copy.
pub open spec fn update_file_steps(
    live_root: Seq<char>,
    store_root: Seq<char>,
    ignore: Seq<Seq<char>>,
    rel: Seq<char>,
) -> Seq<StepView> {
    if is_backup(rel) || ignored(rel, ignore) {
        Seq::empty()
    } else if parent(child(store_root, rel)).len() > 0 {
        seq![
            StepView::CreateDirAll { path: parent(child(store_root, rel)) },
            StepView::CopyFile { from: child(live_root, rel), to: child(store_root, rel) },
        ]
    } else {
        seq![StepView::CopyFile { from: child(live_root, rel), to: child(store_root, rel) }]
    }
}

/// The steps that bring the live files back into the store, in their order.
pub open spec fn update_files_steps(
    live_root: Seq<char>,
    store_root: Seq<char>,
    ignore: Seq<Seq<char>>,
    live: Seq<Seq<char>>,
) -> Seq<StepView>
    decreases live.len(),
{
    if live.len() == 0 {
        Seq::empty()
    } else {
        update_files_steps(live_root, store_root, ignore, live.drop_last()) + update_file_steps(
            live_root,
            store_root,
            ignore,
            live.last(),
        )
    }
}

/// The steps of an update: none for a templated package, whose stored
/// templates stay as they are; else those that bring the live files back.
pub open spec fn update_steps(
    store: Seq<char>,
    dest: Seq<char>,
    ignore: Seq<Seq<char>>,
    stored: Seq<FileView>,
    live: Seq<Seq<char>>,
) -> Seq<StepView> {
    if package_templated(stored) {
        Seq::empty()
    } else {
        update_files_steps(trimmed(dest), trimmed(store), ignore, live)
    }
}

/// Whether a relative path names a backup.
pub fn has_backup_ext(relative_path: &str) -> (r: bool)
    ensures
        r == is_backup(relative_path@),
{
    let name = file_name_of(relative_path);
    let ns = chars_of(name.as_str());
    proof {
        assert(ns@.take(ns.len() as int) =~= ns@);
    }
    match rfind_char(&ns, ns.len(), '.') {
        Some(d) => {
            if d > 0 {
                let ext = name.as_str().substring_char(d + 1, ns.len());
                assert(ext@ =~= ns@.skip(d + 1));
                str_eq(ext, BACKUP_EXT)
            } else {
                false
            }
        },
        None => false,
    }
}

/// Whether a package with these stored files is templated: whether the
/// first of them that is text holds a template marker.
pub fn package_is_templated(stored: &Vec<SourceFile>) -> (r: bool)
    ensures
        r == package_templated(files_view(stored@)),
{
    let ghost all = files_view(stored@);
    let mut i: usize = 0;
    assert(all.skip(0) =~= all);
    while i < stored.len()
        invariant
            i <= stored.len(),
            all == files_view(stored@),
            first_text(all) == first_text(all.skip(i as int)),
        decreases stored.len() - i,
    {
        proof {
            assert(all.skip(i as int)[0] == stored[i as int]@);
            assert(all.skip(i as int).drop_first() =~= all.skip(i + 1));
        }
        match &stored[i].content {
            Some(text) => {
                return is_templated_str(text.as_str());
            },
            None => {},
        }
        i += 1;
    }
    proof {
        assert(all.skip(stored.len() as int) =~= Seq::<FileView>::empty());
    }
    false
}

/// The steps that bring one live file back into the store.
pub fn plan_update_file(live_root: &str, store_root: &str, ignore: &Vec<String>, rel: &str) -> (r:
    Vec<Step>)
    ensures
        steps_view(r@) == update_file_steps(live_root@, store_root@, strings_view(ignore@), rel@),
{
    let mut steps: Vec<Step> = Vec::new();
    if !has_backup_ext(rel) && !is_ignored(rel, ignore) {
        let target = child_path(store_root, rel);
        let dir = parent_path(target.as_str());
        if dir.as_str().unicode_len() > 0 {
            steps.push(Step::CreateDirAll { path: dir });
        }
        steps.push(Step::CopyFile { from: child_path(live_root, rel), to: target });
    }
    assert(steps_view(steps@) =~= update_file_steps(
        live_root@,
        store_root@,
        strings_view(ignore@),
        rel@,
    ));
    steps
}

impl Package {
    /// Plans the update of the stored copy from what is live at the
    /// destination in effect. `stored` are the files of the stored copy,
    /// `live` the relative paths of the files found at the destination; for
    /// a single file, one empty path. A templated package is left as it is.
    pub fn backup(&self, ctx: &Context, home: &str, stored: &Vec<SourceFile>, live: &Vec<String>) -> (r:
        Vec<Step>)
        ensures
            steps_view(r@) == update_steps(
                resolved_path(self.src@, ctx.working_dir@, home@),
                resolved_path(
                    effective_dest(self@, profile_name(ctx.profile)),
                    ctx.working_dir@,
                    home@,
                ),
                self@.ignore,
                files_view(stored@),
                strings_view(live@),
            ),
            package_templated(files_view(stored@)) ==> r@.len() == 0,
    {
        let mut steps: Vec<Step> = Vec::new();
        if package_is_templated(stored) {
            assert(steps_view(steps@) =~= Seq::<StepView>::empty());
            return steps;
        }
        let store_root = trim_slashes(self.resolve_src(ctx, home).as_str());
        let live_root = trim_slashes(self.resolve_dest(ctx, home).as_str());
        let ghost paths = strings_view(live@);
        let mut i: usize = 0;
        proof {
            assert(paths.take(0) =~= Seq::<Seq<char>>::empty());
            assert(steps_view(steps@) =~= update_files_steps(
                live_root@,
                store_root@,
                self@.ignore,
                paths.take(0),
            ));
        }
        while i < live.len()
            invariant
                i <= live.len(),
                paths == strings_view(live@),
                steps_view(steps@) == update_files_steps(
                    live_root@,
                    store_root@,
                    self@.ignore,
                    paths.take(i as int),
                ),
            decreases live.len() - i,
        {
            let ghost before = steps@;
            let mut more = plan_update_file(
                live_root.as_str(),
                store_root.as_str(),
                &self.ignore,
                live[i].as_str(),
            );
            let ghost added = more@;
            steps.append(&mut more);
            proof {
                assert(paths.take(i + 1).drop_last() =~= paths.take(i as int));
                assert(paths.take(i + 1).last() == live[i as int]@);
                assert(steps_view(steps@) =~= steps_view(before) + steps_view(added));
            }
            i += 1;
        }
        proof {
            assert(paths.take(live.len() as int) =~= paths);
        }
        steps
    }
}

/// What the caller found for one stored file when it compared it with its
/// live counterpart.
#[derive(Debug, PartialEq)]
pub struct Comparison {
    /// Path below the root of the package; empty for a single file.
    pub relative_path: String,
    /// The live counterpart exists.
    pub live_exists: bool,
    /// Both hold the same bytes.
    pub identical: bool,
}

/// The differences between a stored copy and what is live.
#[derive(Debug, PartialEq)]
pub struct DiffReport {
    /// The relative paths of the files that differ, in the order given.
    pub changed: Vec<String>,
}

/// Whether a compared file counts as a difference: it is not ignored, it is
/// live, and the two do not hold the same bytes. A file that has not been
/// deployed yet is no difference.
pub open spec fn differs(ignore: Seq<Seq<char>>, c: Comparison) -> bool {
    !ignored(c.relative_path@, ignore) && c.live_exists && !c.identical
}

/// The relative paths of the files that differ, in their order.
pub open spec fn changed_paths(ignore: Seq<Seq<char>>, found: Seq<Comparison>) -> Seq<Seq<char>>
    decreases found.len(),
{
    if found.len() == 0 {
        Seq::empty()
    } else if differs(ignore, found.last()) {
        changed_paths(ignore, found.drop_last()).push(found.last().relative_path@)
    } else {
        changed_paths(ignore, found.drop_last())
    }
}

/// Where no compared file differs, no path is reported.
pub proof fn lemma_no_differences(ignore: Seq<Seq<char>>, found: Seq<Comparison>)
    requires
        forall|i: int| 0 <= i < found.len() ==> !differs(ignore, #[trigger] found[i]),
    ensures
        changed_paths(ignore, found).len() == 0,
    decreases found.len(),
{
    if found.len() > 0 {
        assert forall|i: int| 0 <= i < found.drop_last().len() implies !differs(
            ignore,
            #[trigger] found.drop_last()[i],
        ) by {
            assert(found.drop_last()[i] == found[i]);
        }
        lemma_no_differences(ignore, found.drop_last());
        assert(!differs(ignore, found[found.len() - 1]));
    }
}

impl DiffReport {
    /// Whether anything differs.
    pub fn has_differences(&self) -> (r: bool)
        ensures
            r == (self.changed@.len() > 0),
    {
        self.changed.len() > 0
    }
}

impl Package {
    /// Compares the stored copy with what is live, from what the caller
    /// found for each stored file. Nothing is changed on either side.
    pub fn diff(&self, found: &Vec<Comparison>) -> (r: DiffReport)
        ensures
            strings_view(r.changed@) == changed_paths(self@.ignore, found@),
    {
        let mut changed: Vec<String> = Vec::new();
        let mut i: usize = 0;
        proof {
            assert(found@.take(0) =~= Seq::<Comparison>::empty());
            assert(strings_view(changed@) =~= changed_paths(self@.ignore, found@.take(0)));
        }
        while i < found.len()
            invariant
                i <= found.len(),
                strings_view(changed@) == changed_paths(self@.ignore, found@.take(i as int)),
            decreases found.len() - i,
        {
            let c = &found[i];
            proof {
                assert(found@.take(i + 1).drop_last() =~= found@.take(i as int));
                assert(found@.take(i + 1).last() == found[i as int]);
            }
            if c.live_exists && !c.identical && !is_ignored(c.relative_path.as_str(), &self.ignore) {
                let ghost before = changed@;
                changed.push(c.relative_path.clone());
                assert(strings_view(changed@) =~= strings_view(before).push(c.relative_path@));
            }
            i += 1;
        }
        proof {
            assert(found@.take(found.len() as int) =~= found@);
        }
        DiffReport { changed }
    }
}

/// The steps that create the directories of a stored tree at the
/// destination, in their order: one for each directory that is not
/// ignored. They keep the directories that hold no file.
pub open spec fn directory_steps(
    root: Seq<char>,
    ignore: Seq<Seq<char>>,
    dirs: Seq<Seq<char>>,
) -> Seq<StepView>
    decreases dirs.len(),
{
    if dirs.len() == 0 {
        Seq::empty()
    } else if ignored(dirs.last(), ignore) {
        directory_steps(root, ignore, dirs.drop_last())
    } else {
        directory_steps(root, ignore, dirs.drop_last()).push(
            StepView::CreateDirAll { path: child(root, dirs.last()) },
        )
    }
}

impl Package {
    /// Plans the directories of the destination: one step for each
    /// directory of the stored tree that the package does not ignore.
    /// `dirs` are the relative paths of the directories found below the
    /// stored copy. The steps come after those of `deploy`.
    pub fn deploy_directories(&self, ctx: &Context, home: &str, dirs: &Vec<String>) -> (r: Vec<Step>)
        ensures
            steps_view(r@) == directory_steps(
                trimmed(
                    resolved_path(
                        effective_dest(self@, profile_name(ctx.profile)),
                        ctx.working_dir@,
                        home@,
                    ),
                ),
                self@.ignore,
                strings_view(dirs@),
            ),
    {
        let root = trim_slashes(self.resolve_dest(ctx, home).as_str());
        let ghost paths = strings_view(dirs@);
        let mut steps: Vec<Step> = Vec::new();
        let mut i: usize = 0;
        proof {
            assert(paths.take(0) =~= Seq::<Seq<char>>::empty());
            assert(steps_view(steps@) =~= directory_steps(root@, self@.ignore, paths.take(0)));
        }
        while i < dirs.len()
            invariant
                i <= dirs.len(),
                paths == strings_view(dirs@),
                steps_view(steps@) == directory_steps(root@, self@.ignore, paths.take(i as int)),
            decreases dirs.len() - i,
        {
            proof {
                assert(paths.take(i + 1).drop_last() =~= paths.take(i as int));
                assert(paths.take(i + 1).last() == dirs[i as int]@);
            }
            if !is_ignored(dirs[i].as_str(), &self.ignore) {
                let ghost before = steps@;
                steps.push(Step::CreateDirAll { path: child_path(root.as_str(), dirs[i].as_str()) });
                assert(steps_view(steps@) =~= steps_view(before).push(
                    StepView::CreateDirAll { path: child(root@, dirs[i as int]@) },
                ));
            }
            i += 1;
        }
        proof {
            assert(paths.take(dirs.len() as int) =~= paths);
        }
        steps
    }
}

} // verus!
