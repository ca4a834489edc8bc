use wellfriend_perception::detection::ModelTask;
use wellfriend_perception::readiness::{
    append_quality_guidance, decide_readiness, CaptureGuidance, CaptureReadiness, ReadinessFacts,
};

fn good_facts() -> ReadinessFacts {
    ReadinessFacts {
        has_quad: true,
        quad_outside_frame: false,
        coverage_below_minimum: false,
        coverage_above_maximum: false,
        unstable: false,
        low_confidence: false,
        high_disagreement: false,
        score_below_floor: false,
        score_below_ready: false,
        score_reaches_capture_now: true,
    }
}

#[test]
fn capture_readiness_handles_missing_blurry_unstable_good_and_cutoff_inputs() {
    let missing = decide_readiness(
        ReadinessFacts { has_quad: false, ..good_facts() },
        &Vec::new(),
    );
    assert_eq!(missing.readiness, CaptureReadiness::NotReady);
    assert_eq!(missing.guidance, vec![CaptureGuidance::NoDocument]);

    let ready = decide_readiness(good_facts(), &Vec::new());
    assert!(matches!(
        ready.readiness,
        CaptureReadiness::Ready | CaptureReadiness::CaptureNow
    ));
    let blurry = decide_readiness(good_facts(), &vec!["too_blurry".to_string()]);
    assert_eq!(blurry.readiness, CaptureReadiness::NotReady);
    let cutoff = decide_readiness(good_facts(), &vec!["document_cut_off".to_string()]);
    assert!(cutoff.guidance.contains(&CaptureGuidance::DocumentCutOff));
}

#[test]
fn readiness_classes_follow_the_score_and_guidance() {
    let now = decide_readiness(good_facts(), &Vec::new());
    assert_eq!(now.readiness, CaptureReadiness::CaptureNow);
    assert_eq!(now.guidance, vec![CaptureGuidance::Ready]);
    let manual = decide_readiness(
        ReadinessFacts { score_reaches_capture_now: false, ..good_facts() },
        &Vec::new(),
    );
    assert_eq!(manual.readiness, CaptureReadiness::Ready);
    assert_eq!(manual.guidance, vec![CaptureGuidance::Ready]);
    let glare = decide_readiness(good_facts(), &vec!["glare_detected".to_string()]);
    assert_eq!(glare.readiness, CaptureReadiness::AlmostReady);
    assert_eq!(glare.guidance, vec![CaptureGuidance::GlareDetected]);
    let middling = decide_readiness(
        ReadinessFacts { score_below_ready: true, ..good_facts() },
        &Vec::new(),
    );
    assert_eq!(middling.readiness, CaptureReadiness::AlmostReady);
    assert!(middling.guidance.is_empty());
    let low = decide_readiness(
        ReadinessFacts { score_below_floor: true, ..good_facts() },
        &Vec::new(),
    );
    assert_eq!(low.readiness, CaptureReadiness::NotReady);
    let shaky = decide_readiness(
        ReadinessFacts {
            unstable: true,
            coverage_below_minimum: true,
            high_disagreement: true,
            ..good_facts()
        },
        &vec!["too_dark".to_string(), "noise".to_string()],
    );
    assert_eq!(shaky.readiness, CaptureReadiness::NotReady);
    assert_eq!(
        shaky.guidance,
        vec![
            CaptureGuidance::MoveCloser,
            CaptureGuidance::TooDark,
            CaptureGuidance::HoldSteady,
            CaptureGuidance::LowDetectorAgreement,
        ]
    );
}

#[test]
fn quality_warnings_map_to_guidance_in_order() {
    let mut guidance = vec![CaptureGuidance::MoveFarther];
    append_quality_guidance(
        &mut guidance,
        &vec![
            "too_bright".to_string(),
            "unknown".to_string(),
            "too_blurry".to_string(),
            "glare_detected".to_string(),
        ],
    );
    assert_eq!(
        guidance,
        vec![
            CaptureGuidance::MoveFarther,
            CaptureGuidance::TooBright,
            CaptureGuidance::TooBlurry,
            CaptureGuidance::GlareDetected,
        ]
    );
}

#[test]
fn model_tasks_have_stable_labels() {
    assert_eq!(ModelTask::Segmentation.as_str(), "segmentation");
    assert_eq!(ModelTask::CornerRegression.as_str(), "corner-regression");
    assert_eq!(ModelTask::QualityPrediction.as_str(), "quality-prediction");
    assert_eq!(ModelTask::CleanupMask.as_str(), "cleanup-mask");
    assert_eq!(ModelTask::Custom("depth".to_string()).as_str(), "depth");
}
