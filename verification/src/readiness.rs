//! Platform-neutral capture-readiness policy: which guidance applies to the current
//! evidence and which readiness class follows from it.

use vstd::prelude::*;

use crate::text::text_is;

verus! {

/// Machine-readable capture guidance; rendering belongs to the platform layer.
#[derive(Clone, Copy, Debug, PartialEq, Eq, Structural)]
pub enum CaptureGuidance {
    /// No usable document candidate is present.
    NoDocument,
    /// Page geometry touches or leaves the visible frame.
    DocumentCutOff,
    /// Candidate is too small in the image.
    MoveCloser,
    /// Candidate is too large or borders are not visible.
    MoveFarther,
    /// Geometry track is not yet stable.
    HoldSteady,
    /// Quality analysis reports insufficient sharpness.
    TooBlurry,
    /// Quality analysis reports too little illumination.
    TooDark,
    /// Quality analysis reports excessive illumination.
    TooBright,
    /// Conservative glare baseline is elevated.
    GlareDetected,
    /// Fused/refined evidence is weak.
    LowConfidence,
    /// Detector candidates disagree substantially.
    LowDetectorAgreement,
    /// Current evidence meets capture policy.
    Ready,
}

/// Ordered readiness class supplied to a platform-specific capture controller.
#[derive(Clone, Copy, Debug, PartialEq, Eq, Structural)]
pub enum CaptureReadiness {
    /// Capture should not be offered automatically.
    NotReady,
    /// Input is close but one or more recoverable conditions remain.
    AlmostReady,
    /// Manual capture is justified.
    Ready,
    /// Automatic capture is justified by stable high-confidence evidence.
    CaptureNow,
}

/// Outcome of each threshold comparison the readiness policy makes on the current
/// evidence (the comparisons themselves are made on real-valued scores).
#[derive(Clone, Copy, Debug, PartialEq, Eq, Structural)]
pub struct ReadinessFacts {
    /// A fused or refined document quad is available.
    pub has_quad: bool,
    /// Some corner of that quad lies outside the image.
    pub quad_outside_frame: bool,
    /// Page coverage is below the configured minimum.
    pub coverage_below_minimum: bool,
    /// Page coverage is above the configured maximum.
    pub coverage_above_maximum: bool,
    /// The temporal track is unstable or its stability is below the minimum.
    pub unstable: bool,
    /// Fusion or refinement confidence is below the minimum.
    pub low_confidence: bool,
    /// Detector disagreement exceeds the tolerated level.
    pub high_disagreement: bool,
    /// The composite score is below the not-ready floor.
    pub score_below_floor: bool,
    /// The composite score is below the ready threshold.
    pub score_below_ready: bool,
    /// The composite score reaches the automatic-capture threshold.
    pub score_reaches_capture_now: bool,
}

/// Readiness class and ordered guidance.
#[derive(Clone, Debug, PartialEq, Eq)]
pub struct ReadinessVerdict {
    /// Decision class.
    pub readiness: CaptureReadiness,
    /// Ordered machine-readable guidance.
    pub guidance: Vec<CaptureGuidance>,
}

/// Guidance that a quality warning label maps to, if any.
pub open spec fn warning_guidance(warning: Seq<char>) -> Option<CaptureGuidance> {
    if warning == "too_blurry"@ {
        Some(CaptureGuidance::TooBlurry)
    } else if warning == "too_dark"@ {
        Some(CaptureGuidance::TooDark)
    } else if warning == "too_bright"@ {
        Some(CaptureGuidance::TooBright)
    } else if warning == "glare_detected"@ {
        Some(CaptureGuidance::GlareDetected)
    } else {
        None
    }
}

/// Guidance contributed by the first `n` quality warnings, in order.
pub open spec fn quality_guidance(warnings: Seq<String>, n: int) -> Seq<CaptureGuidance>
    decreases n,
{
    if n <= 0 {
        Seq::empty()
    } else {
        let rest = quality_guidance(warnings, n - 1);
        match warning_guidance(warnings[n - 1]@) {
            Some(item) => rest.push(item),
            None => rest,
        }
    }
}

/// `item` when `present`, nothing otherwise.
pub open spec fn guidance_if(present: bool, item: CaptureGuidance) -> Seq<CaptureGuidance> {
    if present {
        seq![item]
    } else {
        Seq::empty()
    }
}

/// Some quality warning is the label `"document_cut_off"`.
pub open spec fn warns_cut_off(warnings: Seq<String>) -> bool {
    exists|i: int| 0 <= i < warnings.len() && #[trigger] warnings[i]@ == "document_cut_off"@
}

/// Guidance collected before the readiness class is chosen, for evidence with a quad.
pub open spec fn collected_guidance(facts: ReadinessFacts, warnings: Seq<String>) -> Seq<CaptureGuidance> {
    guidance_if(warns_cut_off(warnings) || facts.quad_outside_frame, CaptureGuidance::DocumentCutOff) + guidance_if(
        facts.coverage_below_minimum,
        CaptureGuidance::MoveCloser,
    ) + guidance_if(facts.coverage_above_maximum, CaptureGuidance::MoveFarther) + quality_guidance(
        warnings,
        warnings.len() as int,
    ) + guidance_if(facts.unstable, CaptureGuidance::HoldSteady) + guidance_if(facts.low_confidence, CaptureGuidance::LowConfidence)
        + guidance_if(facts.high_disagreement, CaptureGuidance::LowDetectorAgreement)
}

/// Guidance that rules out any capture.
pub open spec fn is_blocking(item: CaptureGuidance) -> bool {
    item is NoDocument || item is DocumentCutOff || item is TooBlurry || item is TooDark || item is TooBright
        || item is HoldSteady
}

/// The readiness verdict for the given evidence, as (class, guidance).
pub open spec fn spec_verdict(facts: ReadinessFacts, warnings: Seq<String>) -> (CaptureReadiness, Seq<CaptureGuidance>) {
    if !facts.has_quad {
        (CaptureReadiness::NotReady, seq![CaptureGuidance::NoDocument])
    } else {
        let guidance = collected_guidance(facts, warnings);
        let blocking = exists|i: int| 0 <= i < guidance.len() && is_blocking(#[trigger] guidance[i]);
        if blocking || facts.score_below_floor {
            (CaptureReadiness::NotReady, guidance)
        } else if facts.score_below_ready || guidance.len() > 0 {
            (CaptureReadiness::AlmostReady, guidance)
        } else if facts.score_reaches_capture_now {
            (CaptureReadiness::CaptureNow, guidance.push(CaptureGuidance::Ready))
        } else {
            (CaptureReadiness::Ready, guidance.push(CaptureGuidance::Ready))
        }
    }
}

/// Appends the guidance that each recognised quality warning maps to, in order.
pub fn append_quality_guidance(guidance: &mut Vec<CaptureGuidance>, warnings: &Vec<String>)
    ensures
        final(guidance)@ == old(guidance)@ + quality_guidance(warnings@, warnings@.len() as int),
{
    let ghost start = guidance@;
    let mut i: usize = 0;
    while i < warnings.len()
        invariant
            i <= warnings@.len(),
            guidance@ == start + quality_guidance(warnings@, i as int),
        decreases warnings@.len() - i,
    {
        let warning = &warnings[i];
        let item = if text_is(warning, "too_blurry") {
            Some(CaptureGuidance::TooBlurry)
        } else if text_is(warning, "too_dark") {
            Some(CaptureGuidance::TooDark)
        } else if text_is(warning, "too_bright") {
            Some(CaptureGuidance::TooBright)
        } else if text_is(warning, "glare_detected") {
            Some(CaptureGuidance::GlareDetected)
        } else {
            None
        };
        proof {
            assert(item == warning_guidance(warnings@[i as int]@));
        }
        match item {
            Some(item) => {
                guidance.push(item);
                proof {
                    assert(guidance@ =~= start + quality_guidance(warnings@, i + 1));
                }
            },
            None => {},
        }
        i = i + 1;
    }
}

/// Whether some quality warning is the label `"document_cut_off"`.
fn any_cut_off_warning(warnings: &Vec<String>) -> (found: bool)
    ensures
        found == warns_cut_off(warnings@),
{
    let mut i: usize = 0;
    while i < warnings.len()
        invariant
            i <= warnings@.len(),
            forall|j: int| 0 <= j < i ==> #[trigger] warnings@[j]@ != "document_cut_off"@,
        decreases warnings@.len() - i,
    {
        if text_is(&warnings[i], "document_cut_off") {
            return true;
        }
        i = i + 1;
    }
    false
}

/// Chooses the guidance and readiness class: missing geometry and blocking guidance
/// (cut-off page, blur, exposure, instability) rule out capture, remaining guidance or a
/// middling score leaves capture almost ready, and otherwise the score decides between
/// manual and automatic capture.
pub fn decide_readiness(facts: ReadinessFacts, warnings: &Vec<String>) -> (verdict: ReadinessVerdict)
    ensures
        (verdict.readiness, verdict.guidance@) == spec_verdict(facts, warnings@),
{
    if !facts.has_quad {
        let guidance = vec![CaptureGuidance::NoDocument];
        proof {
            assert(guidance@ =~= seq![CaptureGuidance::NoDocument]);
        }
        return ReadinessVerdict { readiness: CaptureReadiness::NotReady, guidance };
    }
    let ghost target = collected_guidance(facts, warnings@);
    let mut guidance: Vec<CaptureGuidance> = Vec::new();
    let cut_off = any_cut_off_warning(warnings) || facts.quad_outside_frame;
    if cut_off {
        guidance.push(CaptureGuidance::DocumentCutOff);
    }
    if facts.coverage_below_minimum {
        guidance.push(CaptureGuidance::MoveCloser);
    }
    if facts.coverage_above_maximum {
        guidance.push(CaptureGuidance::MoveFarther);
    }
    proof {
        assert(guidance@ =~= guidance_if(cut_off, CaptureGuidance::DocumentCutOff) + guidance_if(
            facts.coverage_below_minimum,
            CaptureGuidance::MoveCloser,
        ) + guidance_if(facts.coverage_above_maximum, CaptureGuidance::MoveFarther));
    }
    append_quality_guidance(&mut guidance, warnings);
    if facts.unstable {
        guidance.push(CaptureGuidance::HoldSteady);
    }
    if facts.low_confidence {
        guidance.push(CaptureGuidance::LowConfidence);
    }
    if facts.high_disagreement {
        guidance.push(CaptureGuidance::LowDetectorAgreement);
    }
    proof {
        assert(guidance@ =~= target);
    }
    let mut blocking = false;
    let mut i: usize = 0;
    while i < guidance.len()
        invariant
            guidance@ == target,
            i <= guidance@.len(),
            blocking == (exists|j: int| 0 <= j < i && is_blocking(#[trigger] guidance@[j])),
        decreases guidance@.len() - i,
    {
        let item = guidance[i];
        let item_blocks = match item {
            CaptureGuidance::NoDocument | CaptureGuidance::DocumentCutOff | CaptureGuidance::TooBlurry
            | CaptureGuidance::TooDark | CaptureGuidance::TooBright | CaptureGuidance::HoldSteady => true,
            _ => false,
        };
        proof {
            assert(item_blocks == is_blocking(guidance@[i as int]));
            if blocking {
                let j = choose|j: int| 0 <= j < i && is_blocking(#[trigger] guidance@[j]);
                assert(0 <= j < i + 1 && is_blocking(guidance@[j]));
            }
            if item_blocks {
                assert(is_blocking(guidance@[i as int]));
            }
        }
        blocking = blocking || item_blocks;
        i = i + 1;
    }
    let readiness = if blocking || facts.score_below_floor {
        CaptureReadiness::NotReady
    } else if facts.score_below_ready || guidance.len() > 0 {
        CaptureReadiness::AlmostReady
    } else if facts.score_reaches_capture_now {
        guidance.push(CaptureGuidance::Ready);
        CaptureReadiness::CaptureNow
    } else {
        guidance.push(CaptureGuidance::Ready);
        CaptureReadiness::Ready
    };
    ReadinessVerdict { readiness, guidance }
}

/// A verdict that offers capture carries the single guidance item `Ready`.
pub proof fn lemma_ready_means_no_other_guidance(facts: ReadinessFacts, warnings: Seq<String>)
    ensures
        ({
            let (readiness, guidance) = spec_verdict(facts, warnings);
            (readiness is Ready || readiness is CaptureNow) ==> guidance == seq![CaptureGuidance::Ready]
        }),
{
    let (readiness, guidance) = spec_verdict(facts, warnings);
    if facts.has_quad && (readiness is Ready || readiness is CaptureNow) {
        let collected = collected_guidance(facts, warnings);
        assert(collected.len() == 0);
        assert(guidance =~= seq![CaptureGuidance::Ready]);
    }
}

/// Any blocking guidance in the verdict makes it `NotReady`.
pub proof fn lemma_blocking_guidance_is_not_ready(facts: ReadinessFacts, warnings: Seq<String>, i: int)
    requires
        0 <= i < spec_verdict(facts, warnings).1.len(),
        is_blocking(spec_verdict(facts, warnings).1[i]),
    ensures
        spec_verdict(facts, warnings).0 is NotReady,
{
    if facts.has_quad {
        let collected = collected_guidance(facts, warnings);
        let (readiness, guidance) = spec_verdict(facts, warnings);
        if !(readiness is NotReady) {
            if i < collected.len() {
                assert(guidance[i] == collected[i]);
                assert(is_blocking(collected[i]));
            } else {
                assert(guidance[i] == CaptureGuidance::Ready);
            }
        }
    }
}


/// Guidance that comes from quality warnings only.
pub open spec fn is_quality_item(item: CaptureGuidance) -> bool {
    item is TooBlurry || item is TooDark || item is TooBright || item is GlareDetected
}

/// Every item that quality warnings contribute is a quality item.
proof fn lemma_quality_guidance_items(warnings: Seq<String>, n: int)
    ensures
        forall|k: int|
            0 <= k < quality_guidance(warnings, n).len() ==> is_quality_item(
                #[trigger] quality_guidance(warnings, n)[k],
            ),
    decreases n,
{
    if n > 0 {
        lemma_quality_guidance_items(warnings, n - 1);
        let rest = quality_guidance(warnings, n - 1);
        match warning_guidance(warnings[n - 1]@) {
            Some(item) => {
                assert(is_quality_item(item));
                assert forall|k: int| 0 <= k < rest.push(item).len() implies is_quality_item(
                    #[trigger] rest.push(item)[k],
                ) by {
                    if k < rest.len() {
                        assert(rest.push(item)[k] == rest[k]);
                    }
                }
            },
            None => {},
        }
    }
}

/// A one-item-or-empty guidance sequence contains exactly its item when present.
proof fn lemma_guidance_if_contains(present: bool, item: CaptureGuidance, x: CaptureGuidance)
    ensures
        guidance_if(present, item).contains(x) == (present && x == item),
{
    if present {
        assert(guidance_if(present, item)[0] == item);
    }
}

/// What the evidence says reaches the guidance, and the verdict respects it. With a
/// document in view: low confidence, low detector agreement, too little or too much
/// coverage and instability each appear in the guidance exactly when they hold; a quad
/// outside the frame is reported as cut off; any of the first four (or a score below the
/// ready level) rules out a ready verdict, and instability, a cut-off quad or a score below
/// the floor make it not ready. "Ready" guidance appears exactly with a ready verdict, and
/// capturing now needs the capture-now score.
pub proof fn lemma_evidence_shapes_verdict(facts: ReadinessFacts, warnings: Seq<String>)
    requires
        facts.has_quad,
    ensures
        ({
            let (readiness, guidance) = spec_verdict(facts, warnings);
            &&& guidance.contains(CaptureGuidance::LowConfidence) == facts.low_confidence
            &&& guidance.contains(CaptureGuidance::LowDetectorAgreement) == facts.high_disagreement
            &&& guidance.contains(CaptureGuidance::MoveCloser) == facts.coverage_below_minimum
            &&& guidance.contains(CaptureGuidance::MoveFarther) == facts.coverage_above_maximum
            &&& guidance.contains(CaptureGuidance::HoldSteady) == facts.unstable
            &&& facts.quad_outside_frame ==> guidance.contains(CaptureGuidance::DocumentCutOff)
            &&& !guidance.contains(CaptureGuidance::NoDocument)
            &&& facts.low_confidence || facts.high_disagreement || facts.coverage_below_minimum
                || facts.coverage_above_maximum || facts.score_below_ready ==> !(readiness is Ready)
                && !(readiness is CaptureNow)
            &&& facts.unstable || facts.quad_outside_frame || facts.score_below_floor ==> readiness is NotReady
            &&& guidance.contains(CaptureGuidance::Ready) == (readiness is Ready || readiness is CaptureNow)
            &&& readiness is CaptureNow ==> facts.score_reaches_capture_now
            &&& readiness is Ready ==> !facts.score_reaches_capture_now
        }),
{
    broadcast use vstd::seq_lib::lemma_seq_concat_contains_all_elements, vstd::seq_lib::lemma_seq_contains_after_push;

    let (readiness, guidance) = spec_verdict(facts, warnings);
    let collected = collected_guidance(facts, warnings);
    let q = quality_guidance(warnings, warnings.len() as int);
    lemma_quality_guidance_items(warnings, warnings.len() as int);
    let cut = warns_cut_off(warnings) || facts.quad_outside_frame;
    assert forall|x: CaptureGuidance| #[trigger] collected.contains(x) == (
        guidance_if(cut, CaptureGuidance::DocumentCutOff).contains(x)
        || guidance_if(facts.coverage_below_minimum, CaptureGuidance::MoveCloser).contains(x)
        || guidance_if(facts.coverage_above_maximum, CaptureGuidance::MoveFarther).contains(x)
        || q.contains(x)
        || guidance_if(facts.unstable, CaptureGuidance::HoldSteady).contains(x)
        || guidance_if(facts.low_confidence, CaptureGuidance::LowConfidence).contains(x)
        || guidance_if(facts.high_disagreement, CaptureGuidance::LowDetectorAgreement).contains(x)) by {
    }
    assert forall|x: CaptureGuidance| !is_quality_item(x) implies !q.contains(x) by {
        if q.contains(x) {
            let k = choose|k: int| 0 <= k < q.len() && q[k] == x;
            assert(is_quality_item(q[k]));
        }
    }
    lemma_guidance_if_contains(cut, CaptureGuidance::DocumentCutOff, CaptureGuidance::LowConfidence);
    lemma_guidance_if_contains(cut, CaptureGuidance::DocumentCutOff, CaptureGuidance::LowDetectorAgreement);
    lemma_guidance_if_contains(cut, CaptureGuidance::DocumentCutOff, CaptureGuidance::MoveCloser);
    lemma_guidance_if_contains(cut, CaptureGuidance::DocumentCutOff, CaptureGuidance::MoveFarther);
    lemma_guidance_if_contains(cut, CaptureGuidance::DocumentCutOff, CaptureGuidance::HoldSteady);
    lemma_guidance_if_contains(cut, CaptureGuidance::DocumentCutOff, CaptureGuidance::DocumentCutOff);
    lemma_guidance_if_contains(cut, CaptureGuidance::DocumentCutOff, CaptureGuidance::NoDocument);
    lemma_guidance_if_contains(cut, CaptureGuidance::DocumentCutOff, CaptureGuidance::Ready);
    lemma_guidance_if_contains(facts.coverage_below_minimum, CaptureGuidance::MoveCloser, CaptureGuidance::LowConfidence);
    lemma_guidance_if_contains(facts.coverage_below_minimum, CaptureGuidance::MoveCloser, CaptureGuidance::LowDetectorAgreement);
    lemma_guidance_if_contains(facts.coverage_below_minimum, CaptureGuidance::MoveCloser, CaptureGuidance::MoveCloser);
    lemma_guidance_if_contains(facts.coverage_below_minimum, CaptureGuidance::MoveCloser, CaptureGuidance::MoveFarther);
    lemma_guidance_if_contains(facts.coverage_below_minimum, CaptureGuidance::MoveCloser, CaptureGuidance::HoldSteady);
    lemma_guidance_if_contains(facts.coverage_below_minimum, CaptureGuidance::MoveCloser, CaptureGuidance::NoDocument);
    lemma_guidance_if_contains(facts.coverage_below_minimum, CaptureGuidance::MoveCloser, CaptureGuidance::Ready);
    lemma_guidance_if_contains(facts.coverage_above_maximum, CaptureGuidance::MoveFarther, CaptureGuidance::LowConfidence);
    lemma_guidance_if_contains(facts.coverage_above_maximum, CaptureGuidance::MoveFarther, CaptureGuidance::LowDetectorAgreement);
    lemma_guidance_if_contains(facts.coverage_above_maximum, CaptureGuidance::MoveFarther, CaptureGuidance::MoveCloser);
    lemma_guidance_if_contains(facts.coverage_above_maximum, CaptureGuidance::MoveFarther, CaptureGuidance::MoveFarther);
    lemma_guidance_if_contains(facts.coverage_above_maximum, CaptureGuidance::MoveFarther, CaptureGuidance::HoldSteady);
    lemma_guidance_if_contains(facts.coverage_above_maximum, CaptureGuidance::MoveFarther, CaptureGuidance::NoDocument);
    lemma_guidance_if_contains(facts.coverage_above_maximum, CaptureGuidance::MoveFarther, CaptureGuidance::Ready);
    lemma_guidance_if_contains(facts.unstable, CaptureGuidance::HoldSteady, CaptureGuidance::LowConfidence);
    lemma_guidance_if_contains(facts.unstable, CaptureGuidance::HoldSteady, CaptureGuidance::LowDetectorAgreement);
    lemma_guidance_if_contains(facts.unstable, CaptureGuidance::HoldSteady, CaptureGuidance::MoveCloser);
    lemma_guidance_if_contains(facts.unstable, CaptureGuidance::HoldSteady, CaptureGuidance::MoveFarther);
    lemma_guidance_if_contains(facts.unstable, CaptureGuidance::HoldSteady, CaptureGuidance::HoldSteady);
    lemma_guidance_if_contains(facts.unstable, CaptureGuidance::HoldSteady, CaptureGuidance::NoDocument);
    lemma_guidance_if_contains(facts.unstable, CaptureGuidance::HoldSteady, CaptureGuidance::Ready);
    lemma_guidance_if_contains(facts.low_confidence, CaptureGuidance::LowConfidence, CaptureGuidance::LowConfidence);
    lemma_guidance_if_contains(facts.low_confidence, CaptureGuidance::LowConfidence, CaptureGuidance::LowDetectorAgreement);
    lemma_guidance_if_contains(facts.low_confidence, CaptureGuidance::LowConfidence, CaptureGuidance::MoveCloser);
    lemma_guidance_if_contains(facts.low_confidence, CaptureGuidance::LowConfidence, CaptureGuidance::MoveFarther);
    lemma_guidance_if_contains(facts.low_confidence, CaptureGuidance::LowConfidence, CaptureGuidance::HoldSteady);
    lemma_guidance_if_contains(facts.low_confidence, CaptureGuidance::LowConfidence, CaptureGuidance::NoDocument);
    lemma_guidance_if_contains(facts.low_confidence, CaptureGuidance::LowConfidence, CaptureGuidance::Ready);
    lemma_guidance_if_contains(facts.high_disagreement, CaptureGuidance::LowDetectorAgreement, CaptureGuidance::LowConfidence);
    lemma_guidance_if_contains(facts.high_disagreement, CaptureGuidance::LowDetectorAgreement, CaptureGuidance::LowDetectorAgreement);
    lemma_guidance_if_contains(facts.high_disagreement, CaptureGuidance::LowDetectorAgreement, CaptureGuidance::MoveCloser);
    lemma_guidance_if_contains(facts.high_disagreement, CaptureGuidance::LowDetectorAgreement, CaptureGuidance::MoveFarther);
    lemma_guidance_if_contains(facts.high_disagreement, CaptureGuidance::LowDetectorAgreement, CaptureGuidance::HoldSteady);
    lemma_guidance_if_contains(facts.high_disagreement, CaptureGuidance::LowDetectorAgreement, CaptureGuidance::NoDocument);
    lemma_guidance_if_contains(facts.high_disagreement, CaptureGuidance::LowDetectorAgreement, CaptureGuidance::Ready);
    if facts.low_confidence || facts.high_disagreement || facts.coverage_below_minimum || facts.coverage_above_maximum {
        assert(collected.len() > 0) by {
            if facts.low_confidence {
                assert(collected.contains(CaptureGuidance::LowConfidence));
            } else if facts.high_disagreement {
                assert(collected.contains(CaptureGuidance::LowDetectorAgreement));
            } else if facts.coverage_below_minimum {
                assert(collected.contains(CaptureGuidance::MoveCloser));
            } else {
                assert(collected.contains(CaptureGuidance::MoveFarther));
            }
        }
    }
    if facts.unstable {
        assert(collected.contains(CaptureGuidance::HoldSteady));
        let k = choose|k: int| 0 <= k < collected.len() && collected[k] == CaptureGuidance::HoldSteady;
        assert(is_blocking(collected[k]));
    }
    if cut {
        assert(collected.contains(CaptureGuidance::DocumentCutOff));
        let k = choose|k: int| 0 <= k < collected.len() && collected[k] == CaptureGuidance::DocumentCutOff;
        assert(is_blocking(collected[k]));
    }
}

/// With no document in view the verdict is not ready, with the single guidance "no document".
pub proof fn lemma_no_document_verdict(facts: ReadinessFacts, warnings: Seq<String>)
    requires
        !facts.has_quad,
    ensures
        spec_verdict(facts, warnings) == (CaptureReadiness::NotReady, seq![CaptureGuidance::NoDocument]),
{
}


/// A warning text among the first `n` warnings.
pub open spec fn warned(warnings: Seq<String>, n: int, text: Seq<char>) -> bool {
    exists|i: int| 0 <= i < n && #[trigger] warnings[i]@ == text
}

/// The guidance from the first `n` warnings holds each quality item exactly when its
/// warning text is among them.
proof fn lemma_quality_guidance_contains(warnings: Seq<String>, n: int)
    requires
        0 <= n <= warnings.len(),
    ensures
        quality_guidance(warnings, n).contains(CaptureGuidance::TooBlurry) == warned(warnings, n, "too_blurry"@),
        quality_guidance(warnings, n).contains(CaptureGuidance::TooDark) == warned(warnings, n, "too_dark"@),
        quality_guidance(warnings, n).contains(CaptureGuidance::TooBright) == warned(warnings, n, "too_bright"@),
        quality_guidance(warnings, n).contains(CaptureGuidance::GlareDetected) == warned(
            warnings,
            n,
            "glare_detected"@,
        ),
    decreases n,
{
    broadcast use vstd::seq_lib::lemma_seq_contains_after_push;

    reveal_strlit("too_blurry");
    reveal_strlit("too_dark");
    reveal_strlit("too_bright");
    reveal_strlit("glare_detected");
    assert("too_dark"@ != "too_blurry"@) by {
        assert("too_dark"@.len() != "too_blurry"@.len());
    }
    assert("too_bright"@ != "too_blurry"@) by {
        assert("too_bright"@[5] != "too_blurry"@[5]);
    }
    assert("too_bright"@ != "too_dark"@) by {
        assert("too_bright"@.len() != "too_dark"@.len());
    }
    assert("glare_detected"@ != "too_dark"@ && "glare_detected"@ != "too_blurry"@ && "glare_detected"@
        != "too_bright"@) by {
        assert("glare_detected"@.len() == 14);
    }
    if n > 0 {
        lemma_quality_guidance_contains(warnings, n - 1);
        let w = warnings[n - 1]@;
        assert(warned(warnings, n, "too_blurry"@) == (warned(warnings, n - 1, "too_blurry"@) || w
            == "too_blurry"@));
        assert(warned(warnings, n, "too_dark"@) == (warned(warnings, n - 1, "too_dark"@) || w == "too_dark"@));
        assert(warned(warnings, n, "too_bright"@) == (warned(warnings, n - 1, "too_bright"@) || w
            == "too_bright"@));
        assert(warned(warnings, n, "glare_detected"@) == (warned(warnings, n - 1, "glare_detected"@) || w
            == "glare_detected"@));
        let rest = quality_guidance(warnings, n - 1);
        if w == "too_blurry"@ {
            assert(quality_guidance(warnings, n) == rest.push(CaptureGuidance::TooBlurry));
        } else if w == "too_dark"@ {
            assert(quality_guidance(warnings, n) == rest.push(CaptureGuidance::TooDark));
        } else if w == "too_bright"@ {
            assert(quality_guidance(warnings, n) == rest.push(CaptureGuidance::TooBright));
        } else if w == "glare_detected"@ {
            assert(quality_guidance(warnings, n) == rest.push(CaptureGuidance::GlareDetected));
        } else {
            assert(quality_guidance(warnings, n) == rest);
        }
    }
}

/// Warnings and verdict. The too-blurry, too-dark and too-bright items are in the guidance
/// exactly when their warning is present, and make the verdict not ready; the glare item is
/// there exactly when its warning is present, and rules out a ready verdict; a cut-off
/// warning or a quad outside the frame gives the cut-off item, and the verdict is then not
/// ready.
#[verifier::rlimit(40)]
pub proof fn lemma_warnings_shape_verdict(facts: ReadinessFacts, warnings: Seq<String>)
    requires
        facts.has_quad,
    ensures
        ({
            let (readiness, guidance) = spec_verdict(facts, warnings);
            let n = warnings.len() as int;
            &&& guidance.contains(CaptureGuidance::TooBlurry) == warned(warnings, n, "too_blurry"@)
            &&& guidance.contains(CaptureGuidance::TooDark) == warned(warnings, n, "too_dark"@)
            &&& guidance.contains(CaptureGuidance::TooBright) == warned(warnings, n, "too_bright"@)
            &&& guidance.contains(CaptureGuidance::GlareDetected) == warned(warnings, n, "glare_detected"@)
            &&& guidance.contains(CaptureGuidance::DocumentCutOff) == (warned(warnings, n, "document_cut_off"@)
                || facts.quad_outside_frame)
            &&& warned(warnings, n, "too_blurry"@) || warned(warnings, n, "too_dark"@) || warned(
                warnings,
                n,
                "too_bright"@,
            ) || warned(warnings, n, "document_cut_off"@) ==> readiness is NotReady
            &&& warned(warnings, n, "glare_detected"@) ==> !(readiness is Ready) && !(readiness is CaptureNow)
        }),
{
    broadcast use vstd::seq_lib::lemma_seq_concat_contains_all_elements, vstd::seq_lib::lemma_seq_contains_after_push;

    let n = warnings.len() as int;
    let (readiness, guidance) = spec_verdict(facts, warnings);
    let collected = collected_guidance(facts, warnings);
    let q = quality_guidance(warnings, n);
    lemma_quality_guidance_contains(warnings, n);
    assert(warns_cut_off(warnings) == warned(warnings, n, "document_cut_off"@));
    let cut = warns_cut_off(warnings) || facts.quad_outside_frame;
    let items = seq![
        CaptureGuidance::TooBlurry,
        CaptureGuidance::TooDark,
        CaptureGuidance::TooBright,
        CaptureGuidance::GlareDetected,
        CaptureGuidance::DocumentCutOff,
    ];
    assert forall|k: int| 0 <= k < items.len() implies #[trigger] collected.contains(items[k]) == (
        guidance_if(cut, CaptureGuidance::DocumentCutOff).contains(items[k])
        || q.contains(items[k])) by {
        let x = items[k];
        lemma_guidance_if_contains(cut, CaptureGuidance::DocumentCutOff, x);
        lemma_guidance_if_contains(facts.coverage_below_minimum, CaptureGuidance::MoveCloser, x);
        lemma_guidance_if_contains(facts.coverage_above_maximum, CaptureGuidance::MoveFarther, x);
        lemma_guidance_if_contains(facts.unstable, CaptureGuidance::HoldSteady, x);
        lemma_guidance_if_contains(facts.low_confidence, CaptureGuidance::LowConfidence, x);
        lemma_guidance_if_contains(facts.high_disagreement, CaptureGuidance::LowDetectorAgreement, x);
    }
    lemma_quality_guidance_items(warnings, n);
    assert(!q.contains(CaptureGuidance::DocumentCutOff)) by {
        if q.contains(CaptureGuidance::DocumentCutOff) {
            let k = choose|k: int| 0 <= k < q.len() && q[k] == CaptureGuidance::DocumentCutOff;
            assert(is_quality_item(q[k]));
        }
    }
    assert(collected.contains(items[0]) == collected.contains(CaptureGuidance::TooBlurry));
    assert(collected.contains(items[1]) == collected.contains(CaptureGuidance::TooDark));
    assert(collected.contains(items[2]) == collected.contains(CaptureGuidance::TooBright));
    assert(collected.contains(items[3]) == collected.contains(CaptureGuidance::GlareDetected));
    assert(collected.contains(items[4]) == collected.contains(CaptureGuidance::DocumentCutOff));
    lemma_guidance_if_contains(cut, CaptureGuidance::DocumentCutOff, CaptureGuidance::TooBlurry);
    lemma_guidance_if_contains(cut, CaptureGuidance::DocumentCutOff, CaptureGuidance::TooDark);
    lemma_guidance_if_contains(cut, CaptureGuidance::DocumentCutOff, CaptureGuidance::TooBright);
    lemma_guidance_if_contains(cut, CaptureGuidance::DocumentCutOff, CaptureGuidance::GlareDetected);
    lemma_guidance_if_contains(cut, CaptureGuidance::DocumentCutOff, CaptureGuidance::DocumentCutOff);
    let blockers = seq![
        CaptureGuidance::TooBlurry,
        CaptureGuidance::TooDark,
        CaptureGuidance::TooBright,
        CaptureGuidance::DocumentCutOff,
    ];
    assert forall|k: int| 0 <= k < blockers.len() && #[trigger] collected.contains(blockers[k])
        implies readiness is NotReady by {
        let j = choose|j: int| 0 <= j < collected.len() && collected[j] == blockers[k];
        assert(is_blocking(collected[j]));
    }
    assert(blockers[0] == CaptureGuidance::TooBlurry);
    assert(blockers[1] == CaptureGuidance::TooDark);
    assert(blockers[2] == CaptureGuidance::TooBright);
    assert(blockers[3] == CaptureGuidance::DocumentCutOff);
    if collected.contains(CaptureGuidance::GlareDetected) {
        assert(collected.len() > 0);
    }
}

/// With a document in view and nothing against it (no flag, no warning that yields
/// guidance, a score at the ready level) the verdict is ready, or capture-now when the
/// score reaches that level, with the single guidance "ready".
pub proof fn lemma_clear_evidence_is_ready(facts: ReadinessFacts, warnings: Seq<String>)
    requires
        facts.has_quad,
        !facts.quad_outside_frame,
        !facts.coverage_below_minimum,
        !facts.coverage_above_maximum,
        !facts.unstable,
        !facts.low_confidence,
        !facts.high_disagreement,
        !facts.score_below_floor,
        !facts.score_below_ready,
        forall|i: int|
            0 <= i < warnings.len() ==> #[trigger] warnings[i]@ != "too_blurry"@ && warnings[i]@ != "too_dark"@
                && warnings[i]@ != "too_bright"@ && warnings[i]@ != "glare_detected"@ && warnings[i]@
                != "document_cut_off"@,
    ensures
        spec_verdict(facts, warnings) == (
            if facts.score_reaches_capture_now {
                CaptureReadiness::CaptureNow
            } else {
                CaptureReadiness::Ready
            },
            seq![CaptureGuidance::Ready],
        ),
{
    let n = warnings.len() as int;
    lemma_quality_guidance_contains(warnings, n);
    lemma_quality_guidance_items(warnings, n);
    let q = quality_guidance(warnings, n);
    if q.len() > 0 {
        assert(is_quality_item(q[0]));
        assert(q.contains(q[0]));
    }
    assert(!warns_cut_off(warnings));
    let collected = collected_guidance(facts, warnings);
    assert(collected =~= Seq::<CaptureGuidance>::empty());
    assert(spec_verdict(facts, warnings).1 =~= seq![CaptureGuidance::Ready]);
}

} // verus!
