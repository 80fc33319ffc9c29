use karbeat_core::{
    first_missing_external, throttle_limit, AudioExportError, EffectId, ExportPhase, ExportPlan,
    ExportStep, GeneratorId, PluginTarget, TailHandling, EXPORT_BLOCK_SIZE,
};

/// Runs a plan to completion and returns its steps.
fn run(mut plan: ExportPlan) -> Vec<ExportStep> {
    let mut steps = Vec::new();
    loop {
        let step = plan.next_step();
        steps.push(step);
        if step == ExportStep::Finish {
            return steps;
        }
    }
}

fn written(steps: &[ExportStep]) -> u64 {
    steps
        .iter()
        .map(|s| match s {
            ExportStep::Render { frames, write: true, .. } => *frames as u64,
            _ => 0,
        })
        .sum()
}

#[test]
fn missing_external_generators_and_effects_fail_export_validation() {
    assert_eq!(first_missing_external(&[], &[]), None);
    for target in [PluginTarget::Generator(GeneratorId(0)), PluginTarget::MasterEffect(EffectId(0))] {
        let missing = first_missing_external(&[target], &[]);
        assert_eq!(missing, Some(0));
        let error = AudioExportError::new("HostedPlugin", format!("{:?} is missing from the audio engine", target));
        assert_eq!(error.error_source, "HostedPlugin");
    }
    let hosted = [PluginTarget::Generator(GeneratorId(0))];
    let externals = [PluginTarget::Generator(GeneratorId(0)), PluginTarget::MasterEffect(EffectId(2))];
    assert_eq!(first_missing_external(&externals, &hosted), Some(1));
    assert_eq!(first_missing_external(&externals[..1], &hosted), None);
}

#[test]
fn export_error_keeps_source_and_message() {
    let error = AudioExportError::new("Writer", "Write error".to_string());
    assert_eq!(error.error_source, "Writer");
    assert_eq!(error.message, "Write error");
    assert_eq!(error.message(), "Audio export failed (Writer): Write error");
}

#[test]
fn tail_handling_defaults_to_cut() {
    assert_eq!(TailHandling::default(), TailHandling::CutRemainder);
}

#[test]
fn progress_is_throttled_to_thirty_reports_per_second() {
    assert_eq!(throttle_limit(48_000), 1);
    assert_eq!(throttle_limit(4_096 * 30 * 3), 3);
}

#[test]
fn cut_export_writes_the_song_in_blocks() {
    let plan = ExportPlan::new(TailHandling::CutRemainder, 48_000, 10_000, 5_000);
    let steps = run(plan);
    assert_eq!(
        steps,
        vec![
            ExportStep::Render { frames: EXPORT_BLOCK_SIZE, write: true, report: true },
            ExportStep::Render { frames: EXPORT_BLOCK_SIZE, write: true, report: true },
            ExportStep::Render { frames: 10_000 - 2 * EXPORT_BLOCK_SIZE, write: true, report: true },
            ExportStep::Finish,
        ]
    );
}

#[test]
fn leave_export_stops_then_writes_the_tail() {
    let plan = ExportPlan::new(TailHandling::LeaveRemainder, 48_000, 100, 5_000);
    let steps = run(plan);
    assert_eq!(steps[1], ExportStep::StopPlayback);
    assert_eq!(written(&steps), 5_100);
}

#[test]
fn wrap_export_prerolls_without_writing_then_rewinds() {
    let plan = ExportPlan::new(TailHandling::WrapRemainder, 48_000, 5_000, 700);
    assert_eq!(plan.phase, ExportPhase::Preroll);
    let steps = run(plan);
    assert_eq!(
        steps,
        vec![
            ExportStep::Render { frames: EXPORT_BLOCK_SIZE, write: false, report: true },
            ExportStep::Render { frames: 5_000 - EXPORT_BLOCK_SIZE, write: false, report: true },
            ExportStep::RewindPlayhead,
            ExportStep::Render { frames: EXPORT_BLOCK_SIZE, write: true, report: true },
            ExportStep::Render { frames: 5_000 - EXPORT_BLOCK_SIZE, write: true, report: true },
            ExportStep::Finish,
        ]
    );
}

#[test]
fn empty_song_finishes_at_once() {
    let mut plan = ExportPlan::new(TailHandling::CutRemainder, 48_000, 0, 0);
    assert_eq!(plan.next_step(), ExportStep::Finish);
    assert!(plan.is_done());
    assert_eq!(plan.next_step(), ExportStep::Finish);
}

#[test]
fn throttled_progress_reports_every_third_block() {
    let rate = 4_096 * 30 * 3;
    let plan = ExportPlan::new(TailHandling::CutRemainder, rate, 6 * EXPORT_BLOCK_SIZE, 0);
    let reports: Vec<bool> = run(plan)
        .iter()
        .filter_map(|s| match s {
            ExportStep::Render { report, .. } => Some(*report),
            _ => None,
        })
        .collect();
    assert_eq!(reports, vec![false, false, true, false, false, true]);
}
