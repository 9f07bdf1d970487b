use image_sifter::engine::{ExportEngine, Step};
use image_sifter::export::{copy_kept_images, ExportError, FileOp, Presence};
use image_sifter::path::FilePath;

fn fp(parts: &[&str]) -> FilePath {
    FilePath { components: parts.iter().map(|p| p.as_bytes().to_vec()).collect() }
}

fn mkdir(parts: &[&str]) -> Step {
    Step::Perform { operation: FileOp::CreateDir { path: fp(parts) } }
}

fn cp(from: &[&str], to: &[&str]) -> Step {
    Step::Perform { operation: FileOp::Copy { from: fp(from), to: fp(to) } }
}

fn probe(upper: &[&str], lower: &[&str]) -> Step {
    Step::Probe { upper: Some(fp(upper)), lower: Some(fp(lower)) }
}

const ABSENT: Presence = Presence { upper: false, lower: false };
const ONLY_UPPER: Presence = Presence { upper: true, lower: false };
const ONLY_LOWER: Presence = Presence { upper: false, lower: true };
const BOTH_PRESENT: Presence = Presence { upper: true, lower: true };

/// Runs the export with the given answers; the operation with index `fail_at`,
/// if any, fails. Gives the steps in order, the last being the end.
fn drive(kept: Vec<FilePath>, root: FilePath, answers: &[Presence], fail_at: Option<usize>) -> Vec<Step> {
    let mut engine = ExportEngine::new(kept, root);
    let mut steps = Vec::new();
    let mut probes = 0;
    let mut operations = 0;
    loop {
        let step = engine.step();
        match &step {
            Step::Probe { .. } => {
                engine.answer(answers.get(probes).copied().unwrap_or(ABSENT));
                probes += 1;
            }
            Step::Perform { .. } => {
                engine.report(fail_at != Some(operations));
                operations += 1;
            }
            Step::Finished { .. } => {
                steps.push(step);
                return steps;
            }
        }
        steps.push(step);
        assert!(steps.len() < 1000);
    }
}

fn performed(steps: &[Step]) -> Vec<FileOp> {
    steps
        .iter()
        .filter_map(|step| match step {
            Step::Perform { operation } => Some(operation.clone()),
            _ => None,
        })
        .collect()
}

#[test]
fn the_export_of_an_image_with_its_sidecar_step_by_step() {
    let steps = drive(vec![fp(&["w", "a", "b", "img1.jpg"])], fp(&["w"]), &[ONLY_UPPER], None);
    assert_eq!(
        steps,
        vec![
            mkdir(&["w", "kept_images"]),
            probe(&["w", "a", "b", "img1.CR3"], &["w", "a", "b", "img1.cr3"]),
            mkdir(&["w", "kept_images", "a", "b"]),
            cp(&["w", "a", "b", "img1.jpg"], &["w", "kept_images", "a", "b", "img1.jpg"]),
            mkdir(&["w", "kept_images", "a", "b"]),
            cp(&["w", "a", "b", "img1.CR3"], &["w", "kept_images", "a", "b", "img1.CR3"]),
            Step::Finished { outcome: Ok(()) },
        ]
    );
}

#[test]
fn the_export_of_nothing_step_by_step() {
    let steps = drive(vec![], fp(&["w"]), &[], None);
    assert_eq!(steps, vec![mkdir(&["w", "kept_images"]), Step::Finished { outcome: Ok(()) }]);
}

#[test]
fn each_kept_file_is_probed_when_its_turn_comes() {
    let kept = vec![fp(&["w", "1.jpg"]), fp(&["w", "2.jpg"])];
    let steps = drive(kept, fp(&["w"]), &[ABSENT, ONLY_LOWER], None);
    assert_eq!(
        steps,
        vec![
            mkdir(&["w", "kept_images"]),
            probe(&["w", "1.CR3"], &["w", "1.cr3"]),
            mkdir(&["w", "kept_images"]),
            cp(&["w", "1.jpg"], &["w", "kept_images", "1.jpg"]),
            probe(&["w", "2.CR3"], &["w", "2.cr3"]),
            mkdir(&["w", "kept_images"]),
            cp(&["w", "2.jpg"], &["w", "kept_images", "2.jpg"]),
            mkdir(&["w", "kept_images"]),
            cp(&["w", "2.cr3"], &["w", "kept_images", "2.cr3"]),
            Step::Finished { outcome: Ok(()) },
        ]
    );
}

#[test]
fn one_sidecar_is_copied_where_both_exist() {
    let steps = drive(vec![fp(&["w", "i.jpg"])], fp(&["w"]), &[BOTH_PRESENT], None);
    let copies: Vec<FileOp> =
        performed(&steps).into_iter().filter(|op| matches!(op, FileOp::Copy { .. })).collect();
    assert_eq!(
        copies,
        vec![
            FileOp::Copy { from: fp(&["w", "i.jpg"]), to: fp(&["w", "kept_images", "i.jpg"]) },
            FileOp::Copy { from: fp(&["w", "i.CR3"]), to: fp(&["w", "kept_images", "i.CR3"]) },
        ]
    );
}

#[test]
fn a_failed_operation_aborts_the_export() {
    let kept = vec![fp(&["w", "1.jpg"]), fp(&["w", "2.jpg"])];
    let steps = drive(kept, fp(&["w"]), &[ONLY_UPPER, ONLY_UPPER], Some(2));
    assert_eq!(
        steps,
        vec![
            mkdir(&["w", "kept_images"]),
            probe(&["w", "1.CR3"], &["w", "1.cr3"]),
            mkdir(&["w", "kept_images"]),
            cp(&["w", "1.jpg"], &["w", "kept_images", "1.jpg"]),
            Step::Finished { outcome: Err(ExportError::Io) },
        ]
    );
}

#[test]
fn a_failure_to_create_the_output_directory_aborts_at_once() {
    let steps = drive(vec![fp(&["w", "1.jpg"])], fp(&["w"]), &[ABSENT], Some(0));
    assert_eq!(
        steps,
        vec![mkdir(&["w", "kept_images"]), Step::Finished { outcome: Err(ExportError::Io) }]
    );
}

#[test]
fn a_path_outside_the_root_ends_the_export() {
    let kept = vec![fp(&["w", "1.jpg"]), fp(&["x", "2.jpg"]), fp(&["w", "3.jpg"])];
    let steps = drive(kept, fp(&["w"]), &[ABSENT, BOTH_PRESENT, ABSENT], None);
    assert_eq!(
        steps,
        vec![
            mkdir(&["w", "kept_images"]),
            probe(&["w", "1.CR3"], &["w", "1.cr3"]),
            mkdir(&["w", "kept_images"]),
            cp(&["w", "1.jpg"], &["w", "kept_images", "1.jpg"]),
            probe(&["x", "2.CR3"], &["x", "2.cr3"]),
            Step::Finished { outcome: Err(ExportError::Path) },
        ]
    );
}

#[test]
fn a_path_without_file_name_has_nothing_to_probe() {
    let mut engine = ExportEngine::new(vec![fp(&["w", ".."])], fp(&["w"]));
    engine.report(true);
    assert_eq!(engine.step(), Step::Probe { upper: None, lower: None });
    engine.answer(BOTH_PRESENT);
    assert_eq!(engine.step(), mkdir(&["w", "kept_images"]));
    engine.report(true);
    assert_eq!(engine.step(), cp(&["w", ".."], &["w", "kept_images", ".."]));
    engine.report(true);
    assert_eq!(engine.step(), Step::Finished { outcome: Ok(()) });
}

#[test]
fn the_step_stays_until_it_is_answered() {
    let mut engine = ExportEngine::new(vec![fp(&["w", "1.jpg"])], fp(&["w"]));
    assert_eq!(engine.step(), mkdir(&["w", "kept_images"]));
    assert_eq!(engine.step(), mkdir(&["w", "kept_images"]));
    engine.answer(BOTH_PRESENT);
    assert_eq!(engine.step(), mkdir(&["w", "kept_images"]));
    engine.report(true);
    assert_eq!(engine.step(), probe(&["w", "1.CR3"], &["w", "1.cr3"]));
    engine.report(true);
    engine.report(false);
    assert_eq!(engine.step(), probe(&["w", "1.CR3"], &["w", "1.cr3"]));
}

#[test]
fn nothing_changes_after_the_end() {
    let mut engine = ExportEngine::new(vec![], fp(&["w"]));
    engine.report(false);
    assert_eq!(engine.step(), Step::Finished { outcome: Err(ExportError::Io) });
    engine.report(true);
    engine.answer(BOTH_PRESENT);
    assert_eq!(engine.step(), Step::Finished { outcome: Err(ExportError::Io) });

    let mut done = ExportEngine::new(vec![], fp(&["w"]));
    done.report(true);
    assert_eq!(done.step(), Step::Finished { outcome: Ok(()) });
    done.report(false);
    done.answer(ONLY_UPPER);
    assert_eq!(done.step(), Step::Finished { outcome: Ok(()) });
}

#[test]
fn the_engine_performs_the_plan() {
    let kept = vec![
        fp(&["w", "2.jpg"]),
        fp(&["w", "s", "t", "1.jpeg"]),
        fp(&["w", "s", "3.JPG"]),
        fp(&["w", "plain"]),
    ];
    let answers = [ONLY_LOWER, BOTH_PRESENT, ABSENT, ONLY_UPPER];
    let plan = copy_kept_images(&kept, &fp(&["w"]), &answers.to_vec());
    let steps = drive(kept, fp(&["w"]), &answers, None);
    assert_eq!(performed(&steps), plan.operations);
    assert_eq!(plan.failure, None);
    assert_eq!(steps.last(), Some(&Step::Finished { outcome: Ok(()) }));
}

#[test]
fn the_engine_performs_the_plan_up_to_its_path_error() {
    let kept = vec![fp(&["w", "2.jpg"]), fp(&["v", "1.jpg"]), fp(&["w", "3.jpg"])];
    let answers = [ONLY_UPPER, ONLY_UPPER, ONLY_UPPER];
    let plan = copy_kept_images(&kept, &fp(&["w"]), &answers.to_vec());
    let steps = drive(kept, fp(&["w"]), &answers, None);
    assert_eq!(performed(&steps), plan.operations);
    assert_eq!(plan.failure, Some(ExportError::Path));
    assert_eq!(steps.last(), Some(&Step::Finished { outcome: Err(ExportError::Path) }));
}

#[test]
fn an_aborted_export_performed_the_start_of_the_plan() {
    let kept = vec![fp(&["w", "2.jpg"]), fp(&["w", "1.jpg"])];
    let answers = [ONLY_UPPER, ONLY_LOWER];
    let plan = copy_kept_images(&kept, &fp(&["w"]), &answers.to_vec());
    for fail_at in 0..plan.operations.len() {
        let steps = drive(kept.clone(), fp(&["w"]), &answers, Some(fail_at));
        let done = performed(&steps);
        assert_eq!(&done[..fail_at], &plan.operations[..fail_at]);
        assert_eq!(done.len(), fail_at + 1);
        assert_eq!(steps.last(), Some(&Step::Finished { outcome: Err(ExportError::Io) }));
    }
}
