//! The export as it is run: what is asked of the file system, step by step, and
//! how each answer decides the next step.

use vstd::prelude::*;
use crate::export::{
    ExportError, FileOp, Op, Presence, export_plan, item_plan, lemma_export_plan_failed,
    lemma_export_plan_presence, lower_suffix, ops_view, output_directory_name,
    output_root, plan_item, sidecar, spec_sidecar, upper_suffix,
};
use crate::path::{FilePath, paths_view};

verus! {

/// What the export asks for next.
#[derive(Debug, PartialEq, Eq)]
pub enum Step {
    /// Say which sidecar candidates of the next kept file exist; a candidate that
    /// is none does not exist.
    Probe { upper: Option<FilePath>, lower: Option<FilePath> },
    /// Perform the operation and say whether it succeeded.
    Perform { operation: FileOp },
    /// Nothing: the export has ended.
    Finished { outcome: Result<(), ExportError> },
}

/// The mathematical form of a `Step`.
pub enum StepView {
    Probe { upper: Option<Seq<Seq<u8>>>, lower: Option<Seq<Seq<u8>>> },
    Perform { operation: Op },
    Finished { outcome: Result<(), ExportError> },
}

/// The components of a path that may be none.
pub open spec fn option_view(path: Option<FilePath>) -> Option<Seq<Seq<u8>>> {
    match path {
        Some(p) => Some(p@),
        None => None,
    }
}

impl View for Step {
    type V = StepView;

    open spec fn view(&self) -> StepView {
        match self {
            Step::Probe { upper, lower } => StepView::Probe {
                upper: option_view(*upper),
                lower: option_view(*lower),
            },
            Step::Perform { operation } => StepView::Perform { operation: operation@ },
            Step::Finished { outcome } => StepView::Finished { outcome: *outcome },
        }
    }
}

/// An export under way. The kept files are taken in order. For each, the sidecar
/// candidates are probed, then the file's operations are performed one by one. The
/// first operation that fails aborts the export; what was copied before stays.
pub struct ExportEngine {
    kept: Vec<FilePath>,
    root: FilePath,
    planned: usize,
    pending: Vec<FileOp>,
    next: usize,
    path_error: bool,
    aborted: bool,
    answers: Ghost<Seq<Presence>>,
    performed: Ghost<Seq<Op>>,
}

impl ExportEngine {
    /// The kept paths.
    pub closed spec fn kept(&self) -> Seq<Seq<Seq<u8>>> {
        paths_view(self.kept@)
    }

    /// The root of the export.
    pub closed spec fn root(&self) -> Seq<Seq<u8>> {
        self.root@
    }

    /// The answers to the probes so far, one for each kept file that was begun.
    pub closed spec fn answers(&self) -> Seq<Presence> {
        self.answers@
    }

    /// The operations that were performed with success, in order.
    pub closed spec fn performed(&self) -> Seq<Op> {
        self.performed@
    }

    /// The operations of the file that was begun last that are still to be
    /// performed, in order.
    pub closed spec fn pending(&self) -> Seq<Op> {
        ops_view(self.pending@).skip(self.next as int)
    }

    /// The file that was begun last does not lie under the root, or its sidecar
    /// does not.
    pub closed spec fn path_error(&self) -> bool {
        self.path_error
    }

    /// An operation failed.
    pub closed spec fn aborted(&self) -> bool {
        self.aborted
    }

    /// How the fields stand to each other.
    pub closed spec fn inv(&self) -> bool {
        &&& self.planned == self.answers@.len()
        &&& self.planned <= self.kept@.len()
        &&& self.next <= self.pending@.len()
    }

    /// What holds of an export at all times: the operations performed so far,
    /// followed by those still pending, are the plan of the kept files begun so
    /// far under the answers given; and an export is aborted only with an
    /// operation pending, the one that failed.
    pub open spec fn wf(&self) -> bool {
        &&& self.inv()
        &&& self.answers().len() <= self.kept().len()
        &&& export_plan(
            self.kept().subrange(0, self.answers().len() as int),
            self.root(),
            self.answers(),
        ) == (self.performed() + self.pending(), self.path_error())
        &&& self.aborted() ==> self.pending().len() > 0
    }

    /// What the export asks for next. After a failed operation it has ended in an
    /// I/O error. Else the pending operations come first. When none is pending, a
    /// path error ends the export; else the next kept file is begun with a probe
    /// for its sidecars; and when no kept file is left the export has ended well.
    pub open spec fn spec_step(&self) -> StepView {
        if self.aborted() {
            StepView::Finished { outcome: Err(ExportError::Io) }
        } else if self.pending().len() > 0 {
            StepView::Perform { operation: self.pending()[0] }
        } else if self.path_error() {
            StepView::Finished { outcome: Err(ExportError::Path) }
        } else if self.answers().len() < self.kept().len() {
            StepView::Probe {
                upper: spec_sidecar(self.kept()[self.answers().len() as int], upper_suffix()),
                lower: spec_sidecar(self.kept()[self.answers().len() as int], lower_suffix()),
            }
        } else {
            StepView::Finished { outcome: Ok(()) }
        }
    }

    /// The export of `kept_paths` into the output directory below `working_root`,
    /// before its first step: the creation of the output directory is pending.
    pub fn new(kept_paths: Vec<FilePath>, working_root: FilePath) -> (r: ExportEngine)
        ensures
            r.wf(),
            r.kept() == paths_view(kept_paths@),
            r.root() == working_root@,
            r.answers() == Seq::<Presence>::empty(),
            r.performed() == Seq::<Op>::empty(),
            r.pending() == seq![Op::CreateDir { path: output_root(working_root@) }],
            !r.path_error(),
            !r.aborted(),
    {
        let first = FileOp::CreateDir { path: working_root.join(&output_directory_name()) };
        let mut pending: Vec<FileOp> = Vec::new();
        pending.push(first);
        let r = ExportEngine {
            kept: kept_paths,
            root: working_root,
            planned: 0,
            pending,
            next: 0,
            path_error: false,
            aborted: false,
            answers: Ghost(Seq::empty()),
            performed: Ghost(Seq::empty()),
        };
        proof {
            assert(r.pending() =~= seq![Op::CreateDir { path: output_root(working_root@) }]);
        }
        r
    }

    /// What the export asks for next.
    pub fn step(&self) -> (r: Step)
        requires
            self.wf(),
        ensures
            r@ == self.spec_step(),
    {
        if self.aborted {
            Step::Finished { outcome: Err(ExportError::Io) }
        } else if self.next < self.pending.len() {
            Step::Perform { operation: copy_op(&self.pending[self.next]) }
        } else if self.path_error {
            Step::Finished { outcome: Err(ExportError::Path) }
        } else if self.planned < self.kept.len() {
            let path = &self.kept[self.planned];
            Step::Probe { upper: sidecar(path, true), lower: sidecar(path, false) }
        } else {
            Step::Finished { outcome: Ok(()) }
        }
    }

    /// Takes the answer to a probe: the kept file is begun, and its operations
    /// under this answer are pending. Where no probe was asked for, nothing
    /// changes.
    pub fn answer(&mut self, presence: Presence)
        requires
            old(self).wf(),
        ensures
            final(self).wf(),
            final(self).kept() == old(self).kept(),
            final(self).root() == old(self).root(),
            final(self).performed() == old(self).performed(),
            final(self).aborted() == old(self).aborted(),
            old(self).spec_step() is Probe ==> {
                &&& final(self).answers() == old(self).answers().push(presence)
                &&& (final(self).pending(), final(self).path_error()) == item_plan(
                    old(self).kept()[old(self).answers().len() as int],
                    old(self).root(),
                    presence,
                )
            },
            !(old(self).spec_step() is Probe) ==> {
                &&& final(self).answers() == old(self).answers()
                &&& final(self).pending() == old(self).pending()
                &&& final(self).path_error() == old(self).path_error()
            },
    {
        if !self.aborted && self.next >= self.pending.len() && !self.path_error && self.planned
            < self.kept.len() {
            let ghost begun = self.kept().subrange(0, self.planned as int);
            let ghost answers = self.answers@.push(presence);
            let mut operations: Vec<FileOp> = Vec::new();
            let failed = plan_item(&mut operations, &self.kept[self.planned], &self.root, presence);
            proof {
                lemma_export_plan_presence(begun, self.root(), self.answers@, answers);
                assert(self.kept().subrange(0, self.planned + 1).drop_last() =~= begun);
            }
            self.pending = operations;
            self.next = 0;
            self.path_error = failed;
            self.planned = self.planned + 1;
            self.answers = Ghost(answers);
            proof {
                assert(self.pending() =~= ops_view(self.pending@));
            }
        }
    }

    /// Takes note of how the operation that was asked for went. Success moves on;
    /// failure aborts the export. Where no operation was asked for, nothing
    /// changes.
    pub fn report(&mut self, succeeded: bool)
        requires
            old(self).wf(),
        ensures
            final(self).wf(),
            final(self).kept() == old(self).kept(),
            final(self).root() == old(self).root(),
            final(self).answers() == old(self).answers(),
            final(self).path_error() == old(self).path_error(),
            old(self).spec_step() is Perform && succeeded ==> {
                &&& final(self).performed() == old(self).performed().push(old(self).pending()[0])
                &&& final(self).pending() == old(self).pending().drop_first()
                &&& !final(self).aborted()
            },
            old(self).spec_step() is Perform && !succeeded ==> {
                &&& final(self).performed() == old(self).performed()
                &&& final(self).pending() == old(self).pending()
                &&& final(self).aborted()
            },
            !(old(self).spec_step() is Perform) ==> {
                &&& final(self).performed() == old(self).performed()
                &&& final(self).pending() == old(self).pending()
                &&& final(self).aborted() == old(self).aborted()
            },
    {
        if !self.aborted && self.next < self.pending.len() {
            if succeeded {
                let ghost done = self.pending[self.next as int]@;
                proof {
                    assert(self.performed().push(done) + self.pending().drop_first()
                        =~= self.performed() + self.pending());
                    assert(ops_view(self.pending@).skip(self.next + 1) =~= self.pending().drop_first());
                }
                self.next = self.next + 1;
                self.performed = Ghost(self.performed@.push(done));
            } else {
                self.aborted = true;
            }
        }
    }
}

/// A copy of an operation.
fn copy_op(operation: &FileOp) -> (r: FileOp)
    ensures
        r@ == operation@,
{
    match operation {
        FileOp::CreateDir { path } => FileOp::CreateDir { path: path.duplicate() },
        FileOp::Copy { from, to } => FileOp::Copy { from: from.duplicate(), to: to.duplicate() },
    }
}

/// An export that has ended well has performed the whole plan of the kept files
/// under the answers given, and that plan holds no path error.
pub proof fn lemma_finished_well(engine: ExportEngine)
    requires
        engine.wf(),
        engine.spec_step() == (StepView::Finished { outcome: Ok(()) }),
    ensures
        engine.answers().len() == engine.kept().len(),
        export_plan(engine.kept(), engine.root(), engine.answers()) == (engine.performed(), false),
{
    assert(engine.kept().subrange(0, engine.kept().len() as int) =~= engine.kept());
}

/// An export that has ended in a path error has performed the whole plan of the
/// kept files, which ends in that error: every operation before the path that
/// does not lie under the root, and none after it.
pub proof fn lemma_finished_in_path_error(engine: ExportEngine)
    requires
        engine.wf(),
        engine.spec_step() == (StepView::Finished { outcome: Err(ExportError::Path) }),
    ensures
        export_plan(engine.kept(), engine.root(), engine.answers()) == (engine.performed(), true),
{
    lemma_export_plan_failed(
        engine.kept(),
        engine.root(),
        engine.answers(),
        engine.answers().len() as int,
    );
}

/// An export that was aborted has performed the plan up to the operation that
/// failed, and nothing of it from that operation on.
pub proof fn lemma_aborted(engine: ExportEngine)
    requires
        engine.wf(),
        engine.aborted(),
    ensures
        engine.spec_step() == (StepView::Finished { outcome: Err(ExportError::Io) }),
        engine.performed().len() < export_plan(
            engine.kept().subrange(0, engine.answers().len() as int),
            engine.root(),
            engine.answers(),
        ).0.len(),
        engine.performed() == export_plan(
            engine.kept().subrange(0, engine.answers().len() as int),
            engine.root(),
            engine.answers(),
        ).0.subrange(0, engine.performed().len() as int),
{
}

} // verus!
