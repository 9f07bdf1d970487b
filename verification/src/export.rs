//! The export of the kept files, each with its RAW sidecar, into a mirror of the
//! tree below the output directory.

use vstd::prelude::*;
use crate::filename::{file_stem, is_file_name, spec_file_stem, spec_is_file_name};
use crate::path::{FilePath, paths_view, starts_with};

verus! {

/// The name of the output directory, `kept_images`, directly below the root.
pub open spec fn output_name() -> Seq<u8> {
    seq![0x6b, 0x65, 0x70, 0x74, 0x5f, 0x69, 0x6d, 0x61, 0x67, 0x65, 0x73]
}

/// The sidecar suffix `.CR3`, which is looked for first.
pub open spec fn upper_suffix() -> Seq<u8> {
    seq![0x2e, 0x43, 0x52, 0x33]
}

/// The sidecar suffix `.cr3`, which is looked for second.
pub open spec fn lower_suffix() -> Seq<u8> {
    seq![0x2e, 0x63, 0x72, 0x33]
}

/// The output directory of the export rooted at `root`.
pub open spec fn output_root(root: Seq<Seq<u8>>) -> Seq<Seq<u8>> {
    root.push(output_name())
}

/// The path of `path` relative to `root`, where `path` lies under `root`.
pub open spec fn relative(path: Seq<Seq<u8>>, root: Seq<Seq<u8>>) -> Option<Seq<Seq<u8>>> {
    if starts_with(path, root) {
        Some(path.skip(root.len() as int))
    } else {
        None
    }
}

/// Where the export puts the file at `path`: at the same relative place below the
/// output directory.
pub open spec fn destination(path: Seq<Seq<u8>>, root: Seq<Seq<u8>>) -> Seq<Seq<u8>> {
    output_root(root) + path.skip(root.len() as int)
}

/// The file name that a path ends in; a path without components has none, nor has
/// one whose last component is no file name, such as `..`.
pub open spec fn spec_file_name(path: Seq<Seq<u8>>) -> Option<Seq<u8>> {
    if path.len() > 0 && spec_is_file_name(path.last()) {
        Some(path.last())
    } else {
        None
    }
}

/// The sidecar of `path` with the given suffix: the file beside it that shares its
/// stem.
pub open spec fn spec_sidecar(path: Seq<Seq<u8>>, suffix: Seq<u8>) -> Option<Seq<Seq<u8>>> {
    match spec_file_name(path) {
        Some(name) => Some(path.drop_last().push(spec_file_stem(name) + suffix)),
        None => None,
    }
}

/// Which of the two sidecar candidates of a kept file exist.
#[derive(Clone, Copy, Debug, PartialEq, Eq)]
pub struct Presence {
    /// The candidate with the suffix `.CR3` exists.
    pub upper: bool,
    /// The candidate with the suffix `.cr3` exists.
    pub lower: bool,
}

/// The sidecar that is copied with `path`: the first candidate that exists, the
/// upper-case one before the lower-case one, and never both.
pub open spec fn chosen_sidecar(path: Seq<Seq<u8>>, presence: Presence) -> Option<Seq<Seq<u8>>> {
    if presence.upper {
        spec_sidecar(path, upper_suffix())
    } else if presence.lower {
        spec_sidecar(path, lower_suffix())
    } else {
        None
    }
}

/// First match wins: where the upper-case candidate exists it is the one that is
/// copied, whether or not the lower-case one exists too; the lower-case one is
/// copied only where it exists alone.
pub proof fn lemma_first_match_wins(path: Seq<Seq<u8>>, presence: Presence)
    ensures
        presence.upper ==> chosen_sidecar(path, presence) == spec_sidecar(path, upper_suffix()),
        !presence.upper && presence.lower ==> chosen_sidecar(path, presence) == spec_sidecar(
            path,
            lower_suffix(),
        ),
        !presence.upper && !presence.lower ==> chosen_sidecar(path, presence) is None,
{
}

/// One operation on the file system.
#[derive(Clone, Debug, PartialEq, Eq)]
pub enum FileOp {
    /// Create the directory, with the directories above it, unless it exists.
    CreateDir { path: FilePath },
    /// Copy the file at `from` to `to`.
    Copy { from: FilePath, to: FilePath },
}

/// The mathematical form of a `FileOp`.
pub enum Op {
    CreateDir { path: Seq<Seq<u8>> },
    Copy { from: Seq<Seq<u8>>, to: Seq<Seq<u8>> },
}

impl View for FileOp {
    type V = Op;

    open spec fn view(&self) -> Op {
        match self {
            FileOp::CreateDir { path } => Op::CreateDir { path: path@ },
            FileOp::Copy { from, to } => Op::Copy { from: from@, to: to@ },
        }
    }
}

/// What a list of operations holds: the mathematical form of each, in order.
pub open spec fn ops_view(ops: Seq<FileOp>) -> Seq<Op> {
    ops.map_values(|op: FileOp| op@)
}

/// Why an export did not complete.
#[derive(Clone, Copy, Debug, PartialEq, Eq)]
pub enum ExportError {
    /// A path to be copied does not lie under the root.
    Path,
    /// A directory could not be created or a file could not be copied.
    Io,
}

/// The operations that copy the file at `path` to its place below the output
/// directory: its directory is created, then the file is copied.
pub open spec fn copy_ops(path: Seq<Seq<u8>>, root: Seq<Seq<u8>>) -> Seq<Op> {
    seq![
        Op::CreateDir { path: destination(path, root).drop_last() },
        Op::Copy { from: path, to: destination(path, root) },
    ]
}

/// The operations of one kept file, and whether they end in a path error. A file
/// that does not lie under the root has no operations and fails. Else the file is
/// copied; then its chosen sidecar, if there is one, is copied in the same way,
/// unless it does not lie under the root, which fails.
pub open spec fn item_plan(path: Seq<Seq<u8>>, root: Seq<Seq<u8>>, presence: Presence) -> (
    Seq<Op>,
    bool,
) {
    if !starts_with(path, root) {
        (Seq::empty(), true)
    } else {
        match chosen_sidecar(path, presence) {
            Some(sidecar) => if starts_with(sidecar, root) {
                (copy_ops(path, root) + copy_ops(sidecar, root), false)
            } else {
                (copy_ops(path, root), true)
            },
            None => (copy_ops(path, root), false),
        }
    }
}

/// The presence that goes with the kept file of index `i`; a file for which none
/// is given has no sidecar.
pub open spec fn presence_at(presence: Seq<Presence>, i: int) -> Presence {
    if 0 <= i < presence.len() {
        presence[i]
    } else {
        Presence { upper: false, lower: false }
    }
}

/// The operations of a whole export, and whether they end in a path error: the
/// output directory is created, then the kept files follow in order, up to and
/// with the first that fails.
pub open spec fn export_plan(
    kept: Seq<Seq<Seq<u8>>>,
    root: Seq<Seq<u8>>,
    presence: Seq<Presence>,
) -> (Seq<Op>, bool)
    decreases kept.len(),
{
    if kept.len() == 0 {
        (seq![Op::CreateDir { path: output_root(root) }], false)
    } else {
        let before = export_plan(kept.drop_last(), root, presence);
        if before.1 {
            before
        } else {
            let item = item_plan(kept.last(), root, presence_at(presence, kept.len() - 1));
            (before.0 + item.0, item.1)
        }
    }
}

/// The operations of an export in the order in which they are to be performed,
/// and the error in which the export ends once they are performed, if any.
#[derive(Clone, Debug, PartialEq, Eq)]
pub struct ExportPlan {
    pub operations: Vec<FileOp>,
    pub failure: Option<ExportError>,
}

impl ExportPlan {
    /// The operations and whether they end in a path error.
    pub open spec fn spec_plan(&self) -> (Seq<Op>, bool) {
        (ops_view(self.operations@), self.failure == Some(ExportError::Path))
    }

    /// The plan holds one of the two: no error, or a path error.
    pub open spec fn wf(&self) -> bool {
        self.failure is None || self.failure == Some(ExportError::Path)
    }
}

/// The name of the output directory.
pub fn output_directory_name() -> (r: Vec<u8>)
    ensures
        r@ == output_name(),
{
    let r: Vec<u8> = vec![0x6b, 0x65, 0x70, 0x74, 0x5f, 0x69, 0x6d, 0x61, 0x67, 0x65, 0x73];
    r
}

/// The path of `path` relative to `root`, or a path error where `path` does not
/// lie under `root`.
pub fn strip_prefix(path: &FilePath, root: &FilePath) -> (r: Result<FilePath, ExportError>)
    ensures
        match r {
            Ok(rest) => relative(path@, root@) == Some(rest@),
            Err(e) => e == ExportError::Path && relative(path@, root@) is None,
        },
{
    if path.starts_with(root) {
        Ok(path.range(root.len(), path.len()))
    } else {
        Err(ExportError::Path)
    }
}

/// The sidecar of `path` with the suffix `.CR3`, or with `.cr3` where `upper` is
/// false; none where the path ends in no file name.
pub fn sidecar(path: &FilePath, upper: bool) -> (r: Option<FilePath>)
    ensures
        match r {
            Some(found) => spec_sidecar(path@, if upper { upper_suffix() } else { lower_suffix() })
                == Some(found@),
            None => spec_sidecar(path@, if upper { upper_suffix() } else { lower_suffix() })
                is None,
        },
{
    let n: usize = path.len();
    if n == 0 {
        return None;
    }
    let name = &path.components[n - 1];
    if !is_file_name(name) {
        return None;
    }
    let mut file = file_stem(name);
    let suffix: Vec<u8> = if upper {
        vec![0x2e, 0x43, 0x52, 0x33]
    } else {
        vec![0x2e, 0x63, 0x72, 0x33]
    };
    let ghost stem = file@;
    let mut i: usize = 0;
    while i < suffix.len()
        invariant
            i <= suffix.len(),
            file@ == stem + suffix@.subrange(0, i as int),
        decreases suffix.len() - i,
    {
        file.push(suffix[i]);
        i += 1;
    }
    assert(suffix@.subrange(0, suffix.len() as int) =~= suffix@);
    let mut found = path.prefix(n - 1);
    found.components.push(file);
    Some(found)
}

/// The sidecar that is copied with `path`, given which candidates exist: the
/// first that exists, the upper-case one before the lower-case one.
pub fn choose_sidecar(path: &FilePath, presence: Presence) -> (r: Option<FilePath>)
    ensures
        match r {
            Some(found) => chosen_sidecar(path@, presence) == Some(found@),
            None => chosen_sidecar(path@, presence) is None,
        },
{
    if presence.upper {
        sidecar(path, true)
    } else if presence.lower {
        sidecar(path, false)
    } else {
        None
    }
}

/// Adds to `operations` the two that copy the file at `path`, whose relative path
/// is `rest`, to its place below the output directory.
fn push_copy(operations: &mut Vec<FileOp>, path: &FilePath, root: &FilePath, rest: &FilePath)
    requires
        relative(path@, root@) == Some(rest@),
    ensures
        ops_view(final(operations)@) == ops_view(old(operations)@) + copy_ops(path@, root@),
{
    let to = root.join(&output_directory_name()).concat(rest);
    let directory = to.prefix(to.len() - 1);
    let create = FileOp::CreateDir { path: directory };
    let copy = FileOp::Copy { from: path.duplicate(), to };
    operations.push(create);
    operations.push(copy);
}

/// Adds to `operations` those of one kept file, and says whether they end in a
/// path error.
pub fn plan_item(
    operations: &mut Vec<FileOp>,
    path: &FilePath,
    root: &FilePath,
    presence: Presence,
) -> (failed: bool)
    ensures
        ops_view(final(operations)@) == ops_view(old(operations)@) + item_plan(
            path@,
            root@,
            presence,
        ).0,
        failed == item_plan(path@, root@, presence).1,
{
    match strip_prefix(path, root) {
        Err(_) => true,
        Ok(rest) => {
            push_copy(operations, path, root, &rest);
            match choose_sidecar(path, presence) {
                Some(found) => match strip_prefix(&found, root) {
                    Ok(beside) => {
                        push_copy(operations, &found, root, &beside);
                        false
                    },
                    Err(_) => true,
                },
                None => false,
            }
        },
    }
}

/// Plans the export of the kept files into the output directory below
/// `working_root`. `presence` says, for each kept file in order, which of its
/// sidecar candidates exist. The plan lists every operation in the order in which
/// it is to be performed; where a path does not lie under the root, the plan ends
/// with the operations before that path and fails with a path error.
pub fn copy_kept_images(
    kept_paths: &Vec<FilePath>,
    working_root: &FilePath,
    presence: &Vec<Presence>,
) -> (plan: ExportPlan)
    ensures
        plan.wf(),
        plan.spec_plan() == export_plan(paths_view(kept_paths@), working_root@, presence@),
{
    let ghost kept = paths_view(kept_paths@);
    let mut operations: Vec<FileOp> = Vec::new();
    let first = FileOp::CreateDir { path: working_root.join(&output_directory_name()) };
    operations.push(first);
    let mut i: usize = 0;
    while i < kept_paths.len()
        invariant
            i <= kept_paths.len(),
            kept == paths_view(kept_paths@),
            (ops_view(operations@), false) == export_plan(
                kept.subrange(0, i as int),
                working_root@,
                presence@,
            ),
        decreases kept_paths.len() - i,
    {
        let found = if i < presence.len() {
            presence[i]
        } else {
            Presence { upper: false, lower: false }
        };
        proof {
            assert(kept.subrange(0, i + 1).drop_last() =~= kept.subrange(0, i as int));
        }
        let failed = plan_item(&mut operations, &kept_paths[i], working_root, found);
        if failed {
            proof {
                lemma_export_plan_failed(kept, working_root@, presence@, i + 1);
            }
            return ExportPlan { operations, failure: Some(ExportError::Path) };
        }
        i += 1;
    }
    assert(kept.subrange(0, i as int) =~= kept);
    ExportPlan { operations, failure: None }
}

/// Once the plan of the first `n` kept files fails, the plan of them all is that
/// plan: nothing is planned past the first failure.
pub proof fn lemma_export_plan_failed(
    kept: Seq<Seq<Seq<u8>>>,
    root: Seq<Seq<u8>>,
    presence: Seq<Presence>,
    n: int,
)
    requires
        0 <= n <= kept.len(),
        export_plan(kept.subrange(0, n), root, presence).1,
    ensures
        export_plan(kept, root, presence) == export_plan(kept.subrange(0, n), root, presence),
    decreases kept.len() - n,
{
    if n == kept.len() {
        assert(kept.subrange(0, n) =~= kept);
    } else {
        assert(kept.drop_last().subrange(0, n) =~= kept.subrange(0, n));
        lemma_export_plan_failed(kept.drop_last(), root, presence, n);
    }
}

/// A file that lies under the root, and deeper, is planned without a path error:
/// its sidecar lies beside it, so under the root too.
pub proof fn lemma_item_under_root(path: Seq<Seq<u8>>, root: Seq<Seq<u8>>, presence: Presence)
    requires
        starts_with(path, root),
        path.len() > root.len(),
    ensures
        !item_plan(path, root, presence).1,
{
    match chosen_sidecar(path, presence) {
        Some(found) => {
            assert(found.subrange(0, root.len() as int) =~= path.subrange(0, root.len() as int));
        },
        None => {},
    }
}

/// Where every kept path lies under the root, and deeper, the plan of the export
/// holds no path error, whatever sidecars exist.
pub proof fn lemma_paths_under_root(
    kept: Seq<Seq<Seq<u8>>>,
    root: Seq<Seq<u8>>,
    presence: Seq<Presence>,
)
    requires
        forall|i: int|
            0 <= i < kept.len() ==> starts_with(#[trigger] kept[i], root) && kept[i].len()
                > root.len(),
    ensures
        !export_plan(kept, root, presence).1,
    decreases kept.len(),
{
    if kept.len() > 0 {
        lemma_paths_under_root(kept.drop_last(), root, presence);
        lemma_item_under_root(kept.last(), root, presence_at(presence, kept.len() - 1));
    }
}

/// The plan of an export goes by the presence of as many files as are kept: what
/// is said beyond them changes nothing.
pub proof fn lemma_export_plan_presence(
    kept: Seq<Seq<Seq<u8>>>,
    root: Seq<Seq<u8>>,
    presence: Seq<Presence>,
    other: Seq<Presence>,
)
    requires
        forall|i: int| 0 <= i < kept.len() ==> presence_at(presence, i) == presence_at(other, i),
    ensures
        export_plan(kept, root, presence) == export_plan(kept, root, other),
    decreases kept.len(),
{
    if kept.len() > 0 {
        lemma_export_plan_presence(kept.drop_last(), root, presence, other);
    }
}

} // verus!
