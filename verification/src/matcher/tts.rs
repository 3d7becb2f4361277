//! TTS (transcription termination site) zone checking.
//!
//! The mirror image of the TSS checker on the termination side: the TTS
//! zone lies directly past the end of a transcript's last exon, and
//! beyond it the unbounded downstream space (there is no promoter
//! analogue). On the Positive strand the termination site is at the
//! exon's high end and the query lies beyond it, so the query is mirrored
//! around that end to make the remaining arithmetic strand-invariant; on
//! the Negative strand the termination site is at the exon's low end and
//! the query already lies before it.

use vstd::prelude::*;

use crate::matcher::tss::{spec_min, ZoneHit};
use crate::pct::{ratio_pct, spec_ratio_pct, spec_zone_pct, zone_pct, Pct};
use crate::types::{coord_ok, Area, Strand, MAX_COORD};

verus! {

/// A reference exon boundary for TTS checking: its coordinates, strand,
/// and the signed distance of the query midpoint from the boundary.
pub struct TtsExonInfo {
    pub start: i64,
    pub end: i64,
    pub strand: Strand,
    pub distance: i64,
}

impl TtsExonInfo {
    /// Machine bounds on the coordinates and the distance.
    pub open spec fn wf(self) -> bool {
        coord_ok(self.start as int) && coord_ok(self.end as int) && -2 * MAX_COORD
            <= self.distance <= 2 * MAX_COORD
    }
}

/// The zone classifications of a query interval against the TTS and
/// downstream zones of an exon boundary, after strand mirroring:
///
/// - queries shorter than one base yield nothing;
/// - a query whose span reaches at most `tts_d` before the (mirrored)
///   anchor is TTS;
/// - one reaching past the TTS zone adds a Downstream hit with the
///   sentinel zone coverage;
/// - a query whose distance lies beyond the TTS zone is entirely
///   Downstream.
pub open spec fn spec_check_tts(
    dhs_start: int,
    dhs_end: int,
    ex_start: int,
    ex_end: int,
    strand: Strand,
    distance: int,
    tts_d: int,
) -> Seq<ZoneHit> {
    let s = if strand is Positive {
        2 * ex_end - dhs_end
    } else {
        dhs_start
    };
    let e = if strand is Positive {
        2 * ex_end - dhs_start
    } else {
        dhs_end
    };
    let anchor = if strand is Positive {
        ex_end
    } else {
        ex_start
    };
    let len = e - s + 1;
    if len <= 0 {
        Seq::empty()
    } else if distance <= tts_d {
        if anchor - s <= tts_d {
            let overlap = spec_min(anchor - 1, e) - s + 1;
            seq![(Area::Tts, spec_ratio_pct(overlap, len), spec_zone_pct(overlap, tts_d))]
        } else {
            let tts_start = anchor - tts_d;
            let tts_overlap = spec_min(anchor - 1, e) - tts_start + 1;
            let down_overlap = tts_start - s;
            seq![
                (Area::Tts, spec_ratio_pct(tts_overlap, len), spec_zone_pct(tts_overlap, tts_d)),
                (Area::Downstream, spec_ratio_pct(down_overlap, len), Pct { num: -1i64, den: 1 }),
            ]
        }
    } else {
        seq![(Area::Downstream, Pct { num: 100, den: 1 }, Pct { num: -1i64, den: 1 })]
    }
}

/// Check a query interval against the TTS and downstream zones of an exon
/// boundary. Returns zero to two classifications, exactly as
/// [`spec_check_tts`] defines them.
pub fn check_tts(dhs_start: i64, dhs_end: i64, exon_info: &TtsExonInfo, tts_distance: i64) -> (r:
    Vec<ZoneHit>)
    requires
        coord_ok(dhs_start as int),
        coord_ok(dhs_end as int),
        exon_info.wf(),
        0 <= tts_distance <= MAX_COORD,
    ensures
        r@ == spec_check_tts(
            dhs_start as int,
            dhs_end as int,
            exon_info.start as int,
            exon_info.end as int,
            exon_info.strand,
            exon_info.distance as int,
            tts_distance as int,
        ),
{
    let ghost model = spec_check_tts(
        dhs_start as int,
        dhs_end as int,
        exon_info.start as int,
        exon_info.end as int,
        exon_info.strand,
        exon_info.distance as int,
        tts_distance as int,
    );
    let distance_val = exon_info.distance;
    let mut anchor = exon_info.start;
    let mut actual_dhs_start = dhs_start;
    let mut actual_dhs_end = dhs_end;
    if exon_info.strand == Strand::Positive {
        // mirror the query around the exon end: the termination site of a
        // Positive-strand transcript is there and the query lies past it
        let aux = actual_dhs_end;
        actual_dhs_end = 2 * exon_info.end - actual_dhs_start;
        actual_dhs_start = 2 * exon_info.end - aux;
        anchor = exon_info.end;
    }
    let dhs_length = actual_dhs_end - actual_dhs_start + 1;

    let mut results: Vec<ZoneHit> = Vec::new();
    if dhs_length <= 0 {
        proof {
            assert(results@ =~= model);
        }
        return results;
    }
    if distance_val <= tts_distance {
        if anchor - actual_dhs_start <= tts_distance {
            // the query lies entirely within the TTS zone
            let overlap_end = if anchor - 1 <= actual_dhs_end {
                anchor - 1
            } else {
                actual_dhs_end
            };
            let overlap = overlap_end - actual_dhs_start + 1;
            results.push((Area::Tts, ratio_pct(overlap, dhs_length), zone_pct(overlap, tts_distance)));
        } else {
            // the query spans the TTS zone and extends downstream
            let tts_start = anchor - tts_distance;
            let overlap_end = if anchor - 1 <= actual_dhs_end {
                anchor - 1
            } else {
                actual_dhs_end
            };
            let tts_overlap = overlap_end - tts_start + 1;
            results.push(
                (Area::Tts, ratio_pct(tts_overlap, dhs_length), zone_pct(tts_overlap, tts_distance)),
            );
            let down_overlap = tts_start - actual_dhs_start;
            results.push(
                (Area::Downstream, ratio_pct(down_overlap, dhs_length), Pct::not_applicable()),
            );
        }
    } else {
        // the query is entirely in the unbounded downstream zone
        results.push((Area::Downstream, Pct::whole(100), Pct::not_applicable()));
    }
    proof {
        assert(results@ =~= model);
    }
    results
}

/// The downstream side mirrors the start side: checking a query against a
/// Positive-strand boundary gives exactly the hits of checking the
/// reflected query against the reflected boundary on the Negative strand,
/// for any reflection anchor `a`.
pub proof fn lemma_tts_checker_mirror(
    qs: int,
    qe: int,
    bs: int,
    be: int,
    distance: int,
    tts_d: int,
    a: int,
)
    ensures
        spec_check_tts(qs, qe, bs, be, Strand::Positive, distance, tts_d) == spec_check_tts(
            2 * a - qe,
            2 * a - qs,
            2 * a - be,
            2 * a - bs,
            Strand::Negative,
            distance,
            tts_d,
        ),
{
    let lhs = spec_check_tts(qs, qe, bs, be, Strand::Positive, distance, tts_d);
    let rhs = spec_check_tts(
        2 * a - qe,
        2 * a - qs,
        2 * a - be,
        2 * a - bs,
        Strand::Negative,
        distance,
        tts_d,
    );
    assert(lhs =~= rhs);
}

} // verus!
