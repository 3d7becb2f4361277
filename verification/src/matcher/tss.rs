//! TSS (transcription start site) zone checking.
//!
//! Classifies how a query interval sits relative to the zones upstream of
//! a transcript's first exon: the TSS zone directly before the
//! transcription start, the promoter zone before that, and the unbounded
//! upstream space beyond. On the Negative strand the transcription start
//! is at the exon's high end, so the query and anchor are mirrored around
//! that end (`new = 2 * anchor - old`, swapping the interval ends) and all
//! remaining arithmetic is strand-invariant.

use vstd::prelude::*;

use crate::pct::{ratio_pct, spec_ratio_pct, spec_zone_pct, zone_pct, Pct};
use crate::types::{coord_ok, Area, Strand, MAX_COORD};

verus! {

/// One zone classification: the zone tag, the percentage of the query
/// covered by the zone, and the percentage of the zone covered by the
/// query (the sentinel for the unbounded upstream zone).
pub type ZoneHit = (Area, Pct, Pct);

/// A reference exon boundary for zone checking: its coordinates, strand,
/// and the signed distance of the query midpoint from the boundary.
pub struct TssExonInfo {
    pub start: i64,
    pub end: i64,
    pub strand: Strand,
    pub distance: i64,
}

impl TssExonInfo {
    /// Machine bounds on the coordinates and the distance.
    pub open spec fn wf(self) -> bool {
        coord_ok(self.start as int) && coord_ok(self.end as int) && -2 * MAX_COORD
            <= self.distance <= 2 * MAX_COORD
    }
}

/// The smaller of two integers.
pub open spec fn spec_min(a: int, b: int) -> int {
    if a <= b {
        a
    } else {
        b
    }
}

/// The zone classifications of a query interval against the TSS, promoter
/// and upstream zones of an exon boundary, after strand mirroring. This
/// is the full definition of the zone checker on the start side:
///
/// - queries shorter than one base yield nothing (a defensive guard for
///   malformed intervals);
/// - a query whose span reaches at most `tss_d` before the anchor is TSS;
/// - one reaching past the TSS zone adds a Promoter hit, and past the
///   promoter zone an Upstream hit with full query coverage accounting;
/// - a query whose distance lies beyond the TSS zone but within the
///   promoter zone is Promoter (plus Upstream when it extends beyond);
/// - anything farther is entirely Upstream.
pub open spec fn spec_check_tss(
    dhs_start: int,
    dhs_end: int,
    ex_start: int,
    ex_end: int,
    strand: Strand,
    distance: int,
    tss_d: int,
    prom_d: int,
) -> Seq<ZoneHit> {
    let s = if strand is Negative {
        2 * ex_end - dhs_end
    } else {
        dhs_start
    };
    let e = if strand is Negative {
        2 * ex_end - dhs_start
    } else {
        dhs_end
    };
    let anchor = if strand is Negative {
        ex_end
    } else {
        ex_start
    };
    let len = e - s + 1;
    if len <= 0 {
        Seq::empty()
    } else if distance <= tss_d {
        if anchor - s <= tss_d {
            let overlap = spec_min(anchor - 1, e) - s + 1;
            seq![(Area::Tss, spec_ratio_pct(overlap, len), spec_zone_pct(overlap, tss_d))]
        } else {
            let tss_start = anchor - tss_d;
            let tss_overlap = spec_min(anchor - 1, e) - tss_start + 1;
            let tss_hit = (Area::Tss, spec_ratio_pct(tss_overlap, len), spec_zone_pct(tss_overlap, tss_d));
            if anchor - s <= tss_d + prom_d {
                let prom_overlap = tss_start - s;
                seq![
                    tss_hit,
                    (Area::Promoter, spec_ratio_pct(prom_overlap, len), spec_zone_pct(prom_overlap, prom_d)),
                ]
            } else {
                let upstream_overlap = tss_start - prom_d - s;
                seq![
                    tss_hit,
                    (Area::Promoter, spec_ratio_pct(prom_d, len), Pct { num: 100, den: 1 }),
                    (Area::Upstream, spec_ratio_pct(upstream_overlap, len), Pct { num: -1i64, den: 1 }),
                ]
            }
        }
    } else if distance <= tss_d + prom_d {
        if anchor - s <= tss_d + prom_d {
            seq![
                (Area::Promoter, Pct { num: 100, den: 1 }, spec_zone_pct(len, prom_d)),
            ]
        } else {
            let promoter_start = anchor - tss_d - prom_d;
            let prom_overlap = e - promoter_start + 1;
            let upstream_overlap = promoter_start - s;
            seq![
                (Area::Promoter, spec_ratio_pct(prom_overlap, len), spec_zone_pct(prom_overlap, prom_d)),
                (Area::Upstream, spec_ratio_pct(upstream_overlap, len), Pct { num: -1i64, den: 1 }),
            ]
        }
    } else {
        seq![(Area::Upstream, Pct { num: 100, den: 1 }, Pct { num: -1i64, den: 1 })]
    }
}

/// Check a query interval against the TSS, promoter and upstream zones of
/// an exon boundary. Returns zero to three classifications, exactly as
/// [`spec_check_tss`] defines them.
pub fn check_tss(
    dhs_start: i64,
    dhs_end: i64,
    exon_info: &TssExonInfo,
    tss_distance: i64,
    promoter_distance: i64,
) -> (r: Vec<ZoneHit>)
    requires
        coord_ok(dhs_start as int),
        coord_ok(dhs_end as int),
        exon_info.wf(),
        0 <= tss_distance <= MAX_COORD,
        0 <= promoter_distance <= MAX_COORD,
    ensures
        r@ == spec_check_tss(
            dhs_start as int,
            dhs_end as int,
            exon_info.start as int,
            exon_info.end as int,
            exon_info.strand,
            exon_info.distance as int,
            tss_distance as int,
            promoter_distance as int,
        ),
{
    let ghost model = spec_check_tss(
        dhs_start as int,
        dhs_end as int,
        exon_info.start as int,
        exon_info.end as int,
        exon_info.strand,
        exon_info.distance as int,
        tss_distance as int,
        promoter_distance as int,
    );
    let distance_val = exon_info.distance;
    let mut exon_start = exon_info.start;
    let mut actual_dhs_start = dhs_start;
    let mut actual_dhs_end = dhs_end;
    if exon_info.strand == Strand::Negative {
        // mirror the query around the exon end: the transcription start of
        // a Negative-strand transcript is there
        let aux = actual_dhs_end;
        actual_dhs_end = 2 * exon_info.end - actual_dhs_start;
        actual_dhs_start = 2 * exon_info.end - aux;
        exon_start = exon_info.end;
    }
    let dhs_length = actual_dhs_end - actual_dhs_start + 1;

    let mut results: Vec<ZoneHit> = Vec::new();
    if dhs_length <= 0 {
        proof {
            assert(results@ =~= model);
        }
        return results;
    }
    if distance_val <= tss_distance {
        if exon_start - actual_dhs_start <= tss_distance {
            // the query lies entirely within the TSS zone
            let overlap_end = if exon_start - 1 <= actual_dhs_end {
                exon_start - 1
            } else {
                actual_dhs_end
            };
            let overlap = overlap_end - actual_dhs_start + 1;
            results.push((Area::Tss, ratio_pct(overlap, dhs_length), zone_pct(overlap, tss_distance)));
        } else {
            // the query spans the TSS zone and extends into the promoter
            let tss_start = exon_start - tss_distance;
            let overlap_end = if exon_start - 1 <= actual_dhs_end {
                exon_start - 1
            } else {
                actual_dhs_end
            };
            let tss_overlap = overlap_end - tss_start + 1;
            results.push(
                (Area::Tss, ratio_pct(tss_overlap, dhs_length), zone_pct(tss_overlap, tss_distance)),
            );
            if exon_start - actual_dhs_start <= tss_distance + promoter_distance {
                let promoter_overlap = tss_start - actual_dhs_start;
                results.push(
                    (
                        Area::Promoter,
                        ratio_pct(promoter_overlap, dhs_length),
                        zone_pct(promoter_overlap, promoter_distance),
                    ),
                );
            } else {
                // the query extends past the promoter into upstream space
                results.push(
                    (Area::Promoter, ratio_pct(promoter_distance, dhs_length), Pct::whole(100)),
                );
                let upstream_overlap = tss_start - promoter_distance - actual_dhs_start;
                results.push(
                    (Area::Upstream, ratio_pct(upstream_overlap, dhs_length), Pct::not_applicable()),
                );
            }
        }
    } else if distance_val <= tss_distance + promoter_distance {
        if exon_start - actual_dhs_start <= tss_distance + promoter_distance {
            // the query lies entirely within the promoter zone
            results.push(
                (Area::Promoter, Pct::whole(100), zone_pct(dhs_length, promoter_distance)),
            );
        } else {
            // the query spans the promoter and extends into upstream space
            let promoter_start = exon_start - tss_distance - promoter_distance;
            let promoter_overlap = actual_dhs_end - promoter_start + 1;
            results.push(
                (
                    Area::Promoter,
                    ratio_pct(promoter_overlap, dhs_length),
                    zone_pct(promoter_overlap, promoter_distance),
                ),
            );
            let upstream_overlap = promoter_start - actual_dhs_start;
            results.push(
                (Area::Upstream, ratio_pct(upstream_overlap, dhs_length), Pct::not_applicable()),
            );
        }
    } else {
        // the query is entirely in the unbounded upstream zone
        results.push((Area::Upstream, Pct::whole(100), Pct::not_applicable()));
    }
    proof {
        assert(results@ =~= model);
    }
    results
}

/// Mirror symmetry of the zone checker: checking a query `[qs, qe]`
/// against a Positive-strand boundary `[bs, be]` gives exactly the hits of
/// checking the reflected query against the reflected boundary on the
/// Negative strand, for any reflection anchor `a` (`x` maps to `2a - x`,
/// interval ends swapping). Tags and both percentages agree exactly.
pub proof fn lemma_zone_checker_mirror(
    qs: int,
    qe: int,
    bs: int,
    be: int,
    distance: int,
    tss_d: int,
    prom_d: int,
    a: int,
)
    ensures
        spec_check_tss(qs, qe, bs, be, Strand::Positive, distance, tss_d, prom_d)
            == spec_check_tss(
            2 * a - qe,
            2 * a - qs,
            2 * a - be,
            2 * a - bs,
            Strand::Negative,
            distance,
            tss_d,
            prom_d,
        ),
{
    let lhs = spec_check_tss(qs, qe, bs, be, Strand::Positive, distance, tss_d, prom_d);
    let rhs = spec_check_tss(
        2 * a - qe,
        2 * a - qs,
        2 * a - be,
        2 * a - bs,
        Strand::Negative,
        distance,
        tss_d,
        prom_d,
    );
    assert(lhs =~= rhs);
}

} // verus!
