//! Region-gene overlap classification.
//!
//! The classifier walks a chromosome's genes (pre-sorted by start) against
//! one region and emits candidate associations: direct hits on first
//! exons, TSS/promoter/TTS zone hits through the zone checkers, aggregated
//! intron and gene-body fragments, and the nearest upstream/downstream
//! proximity candidates.

use vstd::prelude::*;
use vstd::string::StringExecFns;

use crate::config::Config;
use crate::matcher::rules::{
    cands_view, distinct_keys, groups_view, positions_in_range, spec_apply_rules,
    spec_select_transcript, apply_rules, select_transcript, GroupModel,
};
use crate::matcher::tss::{check_tss, spec_check_tss, TssExonInfo, ZoneHit};
use crate::matcher::tts::{check_tts, spec_check_tts, TtsExonInfo};
use crate::pct::{ratio_pct, spec_ratio_pct, spec_zone_pct, zone_pct, Pct};
use crate::text::{spec_dec_digits, str_eq, u64_to_string};
use crate::types::{
    coord_ok, Area, Candidate, CandidateModel, Exon, Gene, Region, ReportLevel, Strand,
    Transcript, MAX_COORD,
};

verus! {

/// The largest exon count per transcript the library accepts: it keeps
/// the aggregation sums of one transcript within `i64`.
pub const MAX_EXONS: usize = 0x4000;

/// The intron number between exon position `index` and the next: counted
/// forward on the Positive strand (`index + 1`), backward from the 3' end
/// on the Negative strand (`total_exons - 1 - index`), matching the exon
/// numbering direction.
pub fn calculate_intron_number(index: usize, total_exons: usize, strand: Strand) -> (r: usize)
    requires
        index < total_exons,
    ensures
        strand == Strand::Positive ==> r == index + 1,
        strand == Strand::Negative ==> r == total_exons - 1 - index,
{
    match strand {
        Strand::Positive => index + 1,
        Strand::Negative => total_exons - 1 - index,
    }
}

/// Genes are sorted by ascending start coordinate.
pub open spec fn genes_sorted(genes: Seq<Gene>) -> bool {
    forall|i: int, j: int| 0 <= i < j < genes.len() ==> genes[i].start <= genes[j].start
}

/// The length of the maximal leading run of genes with
/// `start < search_start`: for a sorted array, the index of the first
/// gene with `start >= search_start`.
pub open spec fn spec_search_index(genes: Seq<Gene>, search_start: int) -> int
    decreases genes.len(),
{
    if genes.len() == 0 {
        0
    } else if (genes.first().start as int) < search_start {
        1 + spec_search_index(genes.drop_first(), search_start)
    } else {
        0
    }
}

/// An index whose prefix is exactly the genes with `start` below the
/// bound is the [`spec_search_index`].
proof fn lemma_search_index_char(genes: Seq<Gene>, search_start: int, r: int)
    requires
        0 <= r <= genes.len(),
        forall|i: int| 0 <= i < r ==> (#[trigger] genes[i]).start < search_start,
        forall|i: int| r <= i < genes.len() ==> (#[trigger] genes[i]).start >= search_start,
    ensures
        r == spec_search_index(genes, search_start),
    decreases genes.len(),
{
    if genes.len() > 0 {
        if r == 0 {
        } else {
            assert(genes[0].start < search_start);
            let rest = genes.drop_first();
            assert forall|i: int| 0 <= i < r - 1 implies (#[trigger] rest[i]).start
                < search_start by {
                assert(rest[i] == genes[i + 1]);
            }
            assert forall|i: int| r - 1 <= i < rest.len() implies (#[trigger] rest[i]).start
                >= search_start by {
                assert(rest[i] == genes[i + 1]);
            }
            lemma_search_index_char(rest, search_start, r - 1);
        }
    }
}

/// The index of the first gene with `start >= search_start`, by binary
/// search over the sorted gene array.
pub fn find_search_start_index(genes: &Vec<Gene>, search_start: i64) -> (r: usize)
    requires
        genes_sorted(genes@),
    ensures
        r <= genes@.len(),
        r as int == spec_search_index(genes@, search_start as int),
        forall|i: int| 0 <= i < r ==> genes@[i].start < search_start,
        forall|i: int| r <= i < genes@.len() ==> genes@[i].start >= search_start,
{
    let mut lo: usize = 0;
    let mut hi: usize = genes.len();
    while lo < hi
        invariant
            lo <= hi <= genes@.len(),
            genes_sorted(genes@),
            forall|i: int| 0 <= i < lo ==> genes@[i].start < search_start,
            forall|i: int| hi <= i < genes@.len() ==> genes@[i].start >= search_start,
        decreases hi - lo,
    {
        let mid = lo + (hi - lo) / 2;
        if genes[mid].start < search_start {
            lo = mid + 1;
        } else {
            hi = mid;
        }
    }
    proof {
        lemma_search_index_char(genes@, search_start as int, lo as int);
    }
    lo
}

/// Advance a scan cursor past the genes that have already ended before
/// the lookback boundary: the first index at or past `from` whose gene
/// end reaches `search_start`. This is the monotonic fast path a
/// sequential or per-worker cursor may take over ascending regions; the
/// library's own pipeline recomputes the start index by binary search,
/// for which the classification result is pinned exactly.
pub fn advance_past_ended(genes: &Vec<Gene>, from: usize, search_start: i64) -> (r: usize)
    requires
        from <= genes@.len(),
    ensures
        from <= r <= genes@.len(),
        forall|i: int| from <= i < r ==> genes@[i].end < search_start,
        r < genes@.len() ==> genes@[r as int].end >= search_start,
{
    let n = genes.len();
    let mut idx = from;
    while idx < n && genes[idx].end < search_start
        invariant
            from <= idx <= n,
            n == genes@.len(),
            forall|i: int| from <= i < idx ==> genes@[i].end < search_start,
        decreases n - idx,
    {
        idx += 1;
    }
    idx
}

/// One intron or gene-body fragment awaiting aggregation: the candidate
/// it came from, the full length of its area, and how much of it the
/// region overlapped.
pub struct AggEntry {
    pub candidate: Candidate,
    pub area_len: i64,
    pub overlap: i64,
}

/// The fragments of one gene-transcript key, in insertion order.
pub struct AggGroup {
    pub key: String,
    pub entries: Vec<AggEntry>,
}

/// The mathematical value of an [`AggEntry`].
#[verifier::ext_equal]
pub ghost struct AggEntryModel {
    pub candidate: CandidateModel,
    pub area_len: int,
    pub overlap: int,
}

impl View for AggEntry {
    type V = AggEntryModel;

    open spec fn view(&self) -> AggEntryModel {
        AggEntryModel {
            candidate: self.candidate@,
            area_len: self.area_len as int,
            overlap: self.overlap as int,
        }
    }
}

/// The model of an entry list.
pub open spec fn entries_view(es: Seq<AggEntry>) -> Seq<AggEntryModel> {
    es.map_values(|e: AggEntry| e@)
}

/// The entry lists of an aggregation map, at the model level.
pub open spec fn groups_entries_view(groups: Seq<AggGroup>) -> Seq<Seq<AggEntryModel>> {
    groups.map_values(|g: AggGroup| entries_view(g.entries@))
}

/// Machine bounds on an aggregation entry's values.
pub open spec fn agg_entry_model_wf(e: AggEntryModel) -> bool {
    &&& 0 <= e.area_len <= 2 * MAX_COORD
    &&& 0 <= e.overlap <= 2 * MAX_COORD
    &&& candidate_wf(e.candidate)
}

/// Machine bounds on an aggregation entry's values.
pub open spec fn agg_entry_wf(e: AggEntry) -> bool {
    agg_entry_model_wf(e@)
}

/// Machine bounds on an aggregation group: a non-empty, bounded list of
/// well-formed entries.
pub open spec fn agg_group_wf(g: AggGroup) -> bool {
    &&& 1 <= g.entries@.len() <= 2 * MAX_EXONS
    &&& forall|i: int| 0 <= i < g.entries@.len() ==> agg_entry_wf(#[trigger] g.entries@[i])
}

/// Machine bounds on the fields of a classified candidate.
pub open spec fn candidate_wf(c: CandidateModel) -> bool {
    &&& c.pctg_region.wf()
    &&& c.pctg_area.wf()
    &&& 0 <= c.start <= MAX_COORD
    &&& 0 <= c.end <= MAX_COORD
    &&& -2 * MAX_COORD <= c.distance <= 2 * MAX_COORD
    &&& -2 * MAX_COORD <= c.tss_distance <= 2 * MAX_COORD
}

/// The sum of the area lengths of the fragments.
pub open spec fn spec_total_area(es: Seq<AggEntryModel>) -> int
    decreases es.len(),
{
    if es.len() == 0 {
        0
    } else {
        spec_total_area(es.drop_last()) + es.last().area_len
    }
}

/// The sum of the overlaps of the fragments.
pub open spec fn spec_total_overlap(es: Seq<AggEntryModel>) -> int
    decreases es.len(),
{
    if es.len() == 0 {
        0
    } else {
        spec_total_overlap(es.drop_last()) + es.last().overlap
    }
}

/// The comma-joined labels of the fragments.
pub open spec fn spec_join_labels(es: Seq<AggEntryModel>) -> Seq<char>
    decreases es.len(),
{
    if es.len() == 0 {
        Seq::empty()
    } else if es.len() == 1 {
        es.first().candidate.exon_number
    } else {
        spec_join_labels(es.drop_last()) + seq![','] + es.last().candidate.exon_number
    }
}

/// What aggregating one group yields. A single fragment passes through
/// unchanged; several fragments merge into one candidate whose labels are
/// comma-joined, whose region coverage is the summed overlap against the
/// region length, and whose area coverage is the summed overlap against
/// the summed area length (with the explicit zero-width guard).
pub open spec fn spec_aggregate_group(es: Seq<AggEntryModel>, region_length: int) -> CandidateModel {
    if es.len() == 1 {
        es[0].candidate
    } else {
        let total_overlap = spec_total_overlap(es);
        let total_area = spec_total_area(es);
        CandidateModel {
            start: es[0].candidate.start,
            end: es[0].candidate.end,
            strand: es[0].candidate.strand,
            exon_number: spec_join_labels(es),
            area: es[0].candidate.area,
            transcript: es[0].candidate.transcript,
            gene: es[0].candidate.gene,
            distance: es[0].candidate.distance,
            pctg_region: spec_ratio_pct(total_overlap, region_length),
            pctg_area: spec_zone_pct(total_overlap, total_area),
            tss_distance: es[0].candidate.tss_distance,
        }
    }
}

/// What aggregating a whole map yields: one candidate per group, in map
/// order.
pub open spec fn spec_aggregate(groups: Seq<Seq<AggEntryModel>>, region_length: int) -> Seq<
    CandidateModel,
>
    decreases groups.len(),
{
    if groups.len() == 0 {
        Seq::empty()
    } else {
        spec_aggregate(groups.drop_last(), region_length).push(
            spec_aggregate_group(groups.last(), region_length),
        )
    }
}

/// Aggregation conserves the fragment sums: for a region split across
/// fragments of one transcript, the merged candidate's area-coverage
/// denominator is the sum of the fragment area lengths, its numerator the
/// sum of the fragment overlaps scaled by 100, and its region coverage is
/// exactly (sum of overlaps) / (region length) x 100.
pub proof fn lemma_aggregation_conservation(es: Seq<AggEntryModel>, region_length: int)
    requires
        es.len() >= 2,
        region_length >= 1,
        spec_total_overlap(es) * 100 <= i64::MAX,
        -(i64::MAX as int) <= spec_total_overlap(es) * 100,
        spec_total_area(es) <= i64::MAX,
        region_length <= i64::MAX,
    ensures
        spec_aggregate_group(es, region_length).pctg_region == (Pct {
            num: (spec_total_overlap(es) * 100) as i64,
            den: region_length as i64,
        }),
        spec_total_area(es) >= 1 ==> spec_aggregate_group(es, region_length).pctg_area == (Pct {
            num: (spec_total_overlap(es) * 100) as i64,
            den: spec_total_area(es) as i64,
        }),
{
}

/// The total area length of well-formed bounded entries stays within
/// machine range.
proof fn lemma_totals_bounded(es: Seq<AggEntryModel>)
    requires
        forall|i: int| 0 <= i < es.len() ==> agg_entry_model_wf(#[trigger] es[i]),
        es.len() <= 2 * MAX_EXONS,
    ensures
        0 <= spec_total_area(es) <= es.len() * 2 * MAX_COORD,
        0 <= spec_total_overlap(es) <= es.len() * 2 * MAX_COORD,
    decreases es.len(),
{
    if es.len() > 0 {
        lemma_totals_bounded(es.drop_last());
        assert(agg_entry_model_wf(es[es.len() - 1]));
        assert((es.len() - 1) * 2 * MAX_COORD + 2 * MAX_COORD == es.len() * 2 * MAX_COORD)
            by (nonlinear_arith);
    }
}

/// Aggregate the fragments of every group into one candidate per group,
/// exactly as [`spec_aggregate`] defines.
pub fn aggregate_entries(entries_map: &Vec<AggGroup>, region_length: i64) -> (r: Vec<Candidate>)
    requires
        1 <= region_length <= 2 * MAX_COORD,
        forall|i: int| 0 <= i < entries_map@.len() ==> agg_group_wf(#[trigger] entries_map@[i]),
    ensures
        cands_view(r@) == spec_aggregate(groups_entries_view(entries_map@), region_length as int),
        forall|i: int| 0 <= i < r@.len() ==> candidate_wf(#[trigger] r@[i]@),
        forall|i: int|
            0 <= i < r@.len() ==> #[trigger] r@[i]@.area == entries_map@[i].entries@[0].candidate@.area,
        forall|i: int|
            0 <= i < r@.len() ==> #[trigger] r@[i]@.gene == entries_map@[i].entries@[0].candidate@.gene,
        forall|i: int|
            0 <= i < r@.len() ==> #[trigger] r@[i]@.transcript
                == entries_map@[i].entries@[0].candidate@.transcript,
        r@.len() == entries_map@.len(),
{
    let gn = entries_map.len();
    let mut out: Vec<Candidate> = Vec::new();
    let mut gi: usize = 0;
    proof {
        assert(cands_view(out@) =~= Seq::<CandidateModel>::empty());
        assert(entries_map@.take(0) =~= Seq::<AggGroup>::empty());
    }
    while gi < gn
        invariant
            gi <= gn,
            gn == entries_map@.len(),
            1 <= region_length <= 2 * MAX_COORD,
            forall|i: int| 0 <= i < entries_map@.len() ==> agg_group_wf(#[trigger] entries_map@[i]),
            cands_view(out@) == spec_aggregate(
                groups_entries_view(entries_map@).take(gi as int),
                region_length as int,
            ),
            out@.len() == gi,
            forall|i: int| 0 <= i < out@.len() ==> candidate_wf(#[trigger] out@[i]@),
            forall|i: int|
                0 <= i < out@.len() ==> #[trigger] out@[i]@.area
                    == entries_map@[i].entries@[0].candidate@.area,
            forall|i: int|
                0 <= i < out@.len() ==> #[trigger] out@[i]@.gene
                    == entries_map@[i].entries@[0].candidate@.gene,
            forall|i: int|
                0 <= i < out@.len() ==> #[trigger] out@[i]@.transcript
                    == entries_map@[i].entries@[0].candidate@.transcript,
        decreases gn - gi,
    {
        proof {
            let gv = groups_entries_view(entries_map@);
            assert(gv.take(gi + 1).drop_last() =~= gv.take(gi as int));
            assert(gv.take(gi + 1).last() == gv[gi as int]);
            assert(gv[gi as int] == entries_view(entries_map@[gi as int].entries@));
            assert(agg_group_wf(entries_map@[gi as int]));
        }
        let group = &entries_map[gi];
        let ghost out0 = out@;
        let merged = aggregate_group(group, region_length);
        out.push(merged);
        proof {
            assert(cands_view(out@) =~= cands_view(out0).push(
                spec_aggregate_group(
                    entries_view(entries_map@[gi as int].entries@),
                    region_length as int,
                ),
            ));
        }
        gi += 1;
    }
    proof {
        assert(groups_entries_view(entries_map@).take(gn as int) =~= groups_entries_view(
            entries_map@,
        ));
    }
    out
}

/// Aggregate one group of fragments into a single candidate.
fn aggregate_group(group: &AggGroup, region_length: i64) -> (r: Candidate)
    requires
        1 <= region_length <= 2 * MAX_COORD,
        agg_group_wf(*group),
    ensures
        r@ == spec_aggregate_group(entries_view(group.entries@), region_length as int),
        candidate_wf(r@),
        r@.area == group.entries@[0].candidate@.area,
        r@.gene == group.entries@[0].candidate@.gene,
        r@.transcript == group.entries@[0].candidate@.transcript,
{
    let es = &group.entries;
    let n = es.len();
    if n == 1 {
        let r = es[0].candidate.clone();
        proof {
            assert(entries_view(es@).len() == 1);
            assert(entries_view(es@)[0] == es@[0]@);
            assert(r@ == spec_aggregate_group(entries_view(group.entries@), region_length as int));
        }
        return r;
    }
    let mut total_area: i64 = 0;
    let mut total_overlap: i64 = 0;
    let comma = ",";
    proof {
        reveal_strlit(",");
        assert(comma@ =~= seq![',']);
    }
    let mut labels = String::new();
    let mut i: usize = 0;
    let ghost em = entries_view(es@);
    proof {
        assert(em.take(0) =~= Seq::<AggEntryModel>::empty());
        assert forall|k: int| 0 <= k < em.len() implies agg_entry_model_wf(#[trigger] em[k]) by {
            assert(em[k] == es@[k]@);
        }
        lemma_totals_bounded(em);
    }
    while i < n
        invariant
            i <= n,
            n == es@.len(),
            2 <= n <= 2 * MAX_EXONS,
            comma@ == seq![','],
            em == entries_view(es@),
            forall|k: int| 0 <= k < em.len() ==> agg_entry_model_wf(#[trigger] em[k]),
            total_area == spec_total_area(em.take(i as int)),
            total_overlap == spec_total_overlap(em.take(i as int)),
            labels@ == spec_join_labels(em.take(i as int)),
        decreases n - i,
    {
        proof {
            assert(em.take(i + 1).drop_last() =~= em.take(i as int));
            assert(em.take(i + 1).last() == em[i as int]);
            assert(em.take(i + 1).first() == em[0]);
            assert(em[i as int] == es@[i as int]@);
            assert(em[0] == es@[0]@);
            lemma_totals_bounded(em.take(i as int));
            assert(em.take(i as int).len() * 2 * MAX_COORD <= 2 * MAX_EXONS * 2 * MAX_COORD)
                by (nonlinear_arith)
                requires
                    0 <= em.take(i as int).len() <= 2 * MAX_EXONS,
            ;
            assert(agg_entry_model_wf(em[i as int]));
        }
        total_area = total_area + es[i].area_len;
        total_overlap = total_overlap + es[i].overlap;
        if i > 0 {
            labels.append(comma);
        }
        labels.append(es[i].candidate.exon_number.as_str());
        proof {
            if i == 0 {
                assert(labels@ =~= em[0].candidate.exon_number);
            } else {
                assert(labels@ =~= spec_join_labels(em.take(i as int)) + seq![','] + em[
                    i as int
                ].candidate.exon_number);
            }
        }
        i += 1;
    }
    proof {
        assert(em.take(n as int) =~= em);
        lemma_totals_bounded(em);
        assert(em.len() * 2 * MAX_COORD <= 2 * MAX_EXONS * 2 * MAX_COORD) by (nonlinear_arith)
            requires
                0 <= em.len() <= 2 * MAX_EXONS,
        ;
    }
    let first = &es[0];
    let r = Candidate::new(
        first.candidate.start,
        first.candidate.end,
        first.candidate.strand,
        labels,
        first.candidate.area,
        first.candidate.transcript.clone(),
        first.candidate.gene.clone(),
        first.candidate.distance,
        ratio_pct(total_overlap, region_length),
        zone_pct(total_overlap, total_area),
        first.candidate.tss_distance,
    );
    proof {
        assert(r@ =~= spec_aggregate_group(entries_view(group.entries@), region_length as int));
    }
    r
}

// ---------- counting candidates by area ----------

/// How many candidates in the sequence have this area.
pub open spec fn count_area(s: Seq<CandidateModel>, a: Area) -> int {
    s.filter(|c: CandidateModel| c.area == a).len() as int
}

/// How many candidates have this area under this gene-transcript key.
pub open spec fn count_key_area(
    s: Seq<CandidateModel>,
    gene: Seq<char>,
    transcript: Seq<char>,
    a: Area,
) -> int {
    s.filter(|c: CandidateModel| c.gene == gene && c.transcript == transcript && c.area == a).len() as int
}

/// Counting distributes over push.
pub broadcast proof fn lemma_count_area_push(s: Seq<CandidateModel>, c: CandidateModel, a: Area)
    ensures
        #[trigger] count_area(s.push(c), a) == count_area(s, a) + (if c.area == a {
            1int
        } else {
            0int
        }),
{
    reveal(Seq::filter);
    assert(s.push(c).drop_last() =~= s);
    assert(s.push(c).last() == c);
}

/// Per-key counting distributes over push.
pub broadcast proof fn lemma_count_key_area_push(
    s: Seq<CandidateModel>,
    c: CandidateModel,
    gene: Seq<char>,
    transcript: Seq<char>,
    a: Area,
)
    ensures
        #[trigger] count_key_area(s.push(c), gene, transcript, a) == count_key_area(
            s,
            gene,
            transcript,
            a,
        ) + (if c.gene == gene && c.transcript == transcript && c.area == a {
            1int
        } else {
            0int
        }),
{
    reveal(Seq::filter);
    assert(s.push(c).drop_last() =~= s);
    assert(s.push(c).last() == c);
}

/// Counting an empty sequence.
pub broadcast proof fn lemma_count_area_empty(a: Area)
    ensures
        #[trigger] count_area(Seq::<CandidateModel>::empty(), a) == 0,
{
    reveal(Seq::filter);
}

/// How many zone hits carry this tag.
pub open spec fn count_hits(hits: Seq<ZoneHit>, a: Area) -> int {
    hits.filter(|h: ZoneHit| h.0 == a).len() as int
}

/// Hit counting distributes over push.
pub broadcast proof fn lemma_count_hits_push(s: Seq<ZoneHit>, h: ZoneHit, a: Area)
    ensures
        #[trigger] count_hits(s.push(h), a) == count_hits(s, a) + (if h.0 == a {
            1int
        } else {
            0int
        }),
{
    reveal(Seq::filter);
    assert(s.push(h).drop_last() =~= s);
    assert(s.push(h).last() == h);
}

/// No hit carries the tag: none is counted.
proof fn lemma_count_hits_zero(hits: Seq<ZoneHit>, a: Area)
    requires
        forall|i: int| 0 <= i < hits.len() ==> hits[i].0 != a,
    ensures
        count_hits(hits, a) == 0,
    decreases hits.len(),
{
    reveal(Seq::filter);
    if hits.len() > 0 {
        lemma_count_hits_zero(hits.drop_last(), a);
    }
}

/// At most one hit carries the tag: at most one is counted.
proof fn lemma_count_hits_le_one(hits: Seq<ZoneHit>, a: Area)
    requires
        forall|i: int, j: int| 0 <= i < j < hits.len() ==> !(hits[i].0 == a && hits[j].0 == a),
    ensures
        count_hits(hits, a) <= 1,
    decreases hits.len(),
{
    reveal(Seq::filter);
    if hits.len() > 0 {
        let prefix = hits.drop_last();
        if hits.last().0 == a {
            assert forall|i: int| 0 <= i < prefix.len() implies prefix[i].0 != a by {
                assert(hits[i] == prefix[i]);
                assert(hits[hits.len() - 1].0 == a);
            }
            lemma_count_hits_zero(prefix, a);
        } else {
            lemma_count_hits_le_one(prefix, a);
        }
    }
}

/// The TSS checker emits at most one Upstream hit and never a Downstream
/// hit.
pub proof fn lemma_tss_hit_bounds(
    dhs_start: int,
    dhs_end: int,
    ex_start: int,
    ex_end: int,
    strand: Strand,
    distance: int,
    tss_d: int,
    prom_d: int,
)
    ensures
        count_hits(
            spec_check_tss(dhs_start, dhs_end, ex_start, ex_end, strand, distance, tss_d, prom_d),
            Area::Upstream,
        ) <= 1,
        count_hits(
            spec_check_tss(dhs_start, dhs_end, ex_start, ex_end, strand, distance, tss_d, prom_d),
            Area::Downstream,
        ) == 0,
{
    let hits = spec_check_tss(
        dhs_start,
        dhs_end,
        ex_start,
        ex_end,
        strand,
        distance,
        tss_d,
        prom_d,
    );
    assert forall|i: int, j: int|
        0 <= i < j < hits.len() implies !(hits[i].0 == Area::Upstream && hits[j].0
        == Area::Upstream) by {}
    lemma_count_hits_le_one(hits, Area::Upstream);
    assert forall|i: int| 0 <= i < hits.len() implies hits[i].0 != Area::Downstream by {}
    lemma_count_hits_zero(hits, Area::Downstream);
}

/// The TTS checker emits at most one Downstream hit and never an
/// Upstream hit.
pub proof fn lemma_tts_hit_bounds(
    dhs_start: int,
    dhs_end: int,
    ex_start: int,
    ex_end: int,
    strand: Strand,
    distance: int,
    tts_d: int,
)
    ensures
        count_hits(
            spec_check_tts(dhs_start, dhs_end, ex_start, ex_end, strand, distance, tts_d),
            Area::Downstream,
        ) <= 1,
        count_hits(
            spec_check_tts(dhs_start, dhs_end, ex_start, ex_end, strand, distance, tts_d),
            Area::Upstream,
        ) == 0,
{
    let hits = spec_check_tts(dhs_start, dhs_end, ex_start, ex_end, strand, distance, tts_d);
    assert forall|i: int, j: int|
        0 <= i < j < hits.len() implies !(hits[i].0 == Area::Downstream && hits[j].0
        == Area::Downstream) by {}
    lemma_count_hits_le_one(hits, Area::Downstream);
    assert forall|i: int| 0 <= i < hits.len() implies hits[i].0 != Area::Upstream by {}
    lemma_count_hits_zero(hits, Area::Upstream);
}


/// The candidates a zone-hit list denotes, over a template of positional
/// fields: one candidate per hit, carrying the hit's tag and percentages.
pub open spec fn spec_zone_cands(
    hits: Seq<ZoneHit>,
    ex_start: int,
    ex_end: int,
    strand: Strand,
    number: Seq<char>,
    transcript: Seq<char>,
    gene: Seq<char>,
    distance: int,
    tss_distance: int,
) -> Seq<CandidateModel> {
    hits.map_values(
        |h: ZoneHit|
            CandidateModel {
                start: ex_start,
                end: ex_end,
                strand: strand,
                exon_number: number,
                area: h.0,
                transcript: transcript,
                gene: gene,
                distance: distance,
                pctg_region: h.1,
                pctg_area: h.2,
                tss_distance: tss_distance,
            },
    )
}

/// Counting the zone candidates equals counting the hit tags.
proof fn lemma_count_zone_cands(
    hits: Seq<ZoneHit>,
    ex_start: int,
    ex_end: int,
    strand: Strand,
    number: Seq<char>,
    transcript: Seq<char>,
    gene: Seq<char>,
    distance: int,
    tss_distance: int,
    a: Area,
)
    ensures
        count_area(
            spec_zone_cands(
                hits,
                ex_start,
                ex_end,
                strand,
                number,
                transcript,
                gene,
                distance,
                tss_distance,
            ),
            a,
        ) == count_hits(hits, a),
    decreases hits.len(),
{
    reveal(Seq::filter);
    let cs = spec_zone_cands(
        hits,
        ex_start,
        ex_end,
        strand,
        number,
        transcript,
        gene,
        distance,
        tss_distance,
    );
    if hits.len() == 0 {
        assert(cs.len() == 0);
    } else {
        let prefix = hits.drop_last();
        lemma_count_zone_cands(
            prefix,
            ex_start,
            ex_end,
            strand,
            number,
            transcript,
            gene,
            distance,
            tss_distance,
            a,
        );
        let csp = spec_zone_cands(
            prefix,
            ex_start,
            ex_end,
            strand,
            number,
            transcript,
            gene,
            distance,
            tss_distance,
        );
        assert(cs.drop_last() =~= csp);
        assert(cs.last().area == hits.last().0);
        assert(prefix.push(hits.last()) =~= hits);
        lemma_count_hits_push(prefix, hits.last(), a);
        lemma_count_area_push(csp, cs.last(), a);
        assert(csp.push(cs.last()) =~= cs);
    }
}

/// Push one candidate per zone hit, carrying the template's positional
/// fields and the hit's tag and percentages.
fn push_zone_hits(
    out: &mut Vec<Candidate>,
    hits: &Vec<ZoneHit>,
    ex_start: i64,
    ex_end: i64,
    strand: Strand,
    number: &String,
    transcript_id: &String,
    gene_id: &String,
    distance: i64,
    tss_distance: i64,
)
    requires
        forall|i: int| 0 <= i < hits@.len() ==> (#[trigger] hits@[i].1).wf() && hits@[i].2.wf(),
        coord_ok(ex_start as int),
        coord_ok(ex_end as int),
        -2 * MAX_COORD <= distance <= 2 * MAX_COORD,
        -2 * MAX_COORD <= tss_distance <= 2 * MAX_COORD,
    ensures
        cands_view(final(out)@) == cands_view(old(out)@) + spec_zone_cands(
            hits@,
            ex_start as int,
            ex_end as int,
            strand,
            number@,
            transcript_id@,
            gene_id@,
            distance as int,
            tss_distance as int,
        ),
{
    let ghost zc = spec_zone_cands(
        hits@,
        ex_start as int,
        ex_end as int,
        strand,
        number@,
        transcript_id@,
        gene_id@,
        distance as int,
        tss_distance as int,
    );
    let n = hits.len();
    let mut i: usize = 0;
    proof {
        assert(cands_view(out@) =~= cands_view(old(out)@) + zc.take(0));
    }
    while i < n
        invariant
            i <= n,
            n == hits@.len(),
            zc == spec_zone_cands(
                hits@,
                ex_start as int,
                ex_end as int,
                strand,
                number@,
                transcript_id@,
                gene_id@,
                distance as int,
                tss_distance as int,
            ),
            cands_view(out@) == cands_view(old(out)@) + zc.take(i as int),
        decreases n - i,
    {
        let ghost out0 = out@;
        let h = (hits[i].0, hits[i].1, hits[i].2);
        out.push(
            Candidate::new(
                ex_start,
                ex_end,
                strand,
                number.clone(),
                h.0,
                transcript_id.clone(),
                gene_id.clone(),
                distance,
                h.1,
                h.2,
                tss_distance,
            ),
        );
        proof {
            assert(cands_view(out@) =~= cands_view(out0).push(zc[i as int]));
            assert(cands_view(out0).push(zc[i as int]) =~= cands_view(old(out)@) + zc.take(i + 1));
        }
        i += 1;
    }
    proof {
        assert(zc.take(n as int) =~= zc);
    }
}


/// Counting distributes over concatenation.
proof fn lemma_count_area_add(s: Seq<CandidateModel>, t: Seq<CandidateModel>, a: Area)
    ensures
        count_area(s + t, a) == count_area(s, a) + count_area(t, a),
    decreases t.len(),
{
    reveal(Seq::filter);
    if t.len() == 0 {
        assert(s + t =~= s);
    } else {
        lemma_count_area_add(s, t.drop_last(), a);
        lemma_count_area_push(s + t.drop_last(), t.last(), a);
        lemma_count_area_push(t.drop_last(), t.last(), a);
        assert((s + t.drop_last()).push(t.last()) =~= s + t);
        assert(t.drop_last().push(t.last()) =~= t);
    }
}

/// Every percentage a zone checker emits is well-formed.
proof fn lemma_tss_hits_wf(
    dhs_start: int,
    dhs_end: int,
    ex_start: int,
    ex_end: int,
    strand: Strand,
    distance: int,
    tss_d: int,
    prom_d: int,
)
    requires
        0 <= dhs_start <= MAX_COORD,
        0 <= dhs_end <= MAX_COORD,
        0 <= ex_start <= MAX_COORD,
        0 <= ex_end <= MAX_COORD,
        0 <= tss_d <= MAX_COORD,
        0 <= prom_d <= MAX_COORD,
    ensures
        forall|i: int|
            0 <= i < spec_check_tss(
                dhs_start,
                dhs_end,
                ex_start,
                ex_end,
                strand,
                distance,
                tss_d,
                prom_d,
            ).len() ==> (#[trigger] spec_check_tss(
                dhs_start,
                dhs_end,
                ex_start,
                ex_end,
                strand,
                distance,
                tss_d,
                prom_d,
            )[i].1).wf() && spec_check_tss(
                dhs_start,
                dhs_end,
                ex_start,
                ex_end,
                strand,
                distance,
                tss_d,
                prom_d,
            )[i].2.wf(),
{
}

/// Every percentage the TTS checker emits is well-formed.
proof fn lemma_tts_hits_wf(
    dhs_start: int,
    dhs_end: int,
    ex_start: int,
    ex_end: int,
    strand: Strand,
    distance: int,
    tts_d: int,
)
    requires
        0 <= dhs_start <= MAX_COORD,
        0 <= dhs_end <= MAX_COORD,
        0 <= ex_start <= MAX_COORD,
        0 <= ex_end <= MAX_COORD,
        0 <= tts_d <= MAX_COORD,
    ensures
        forall|i: int|
            0 <= i < spec_check_tts(
                dhs_start,
                dhs_end,
                ex_start,
                ex_end,
                strand,
                distance,
                tts_d,
            ).len() ==> (#[trigger] spec_check_tts(
                dhs_start,
                dhs_end,
                ex_start,
                ex_end,
                strand,
                distance,
                tts_d,
            )[i].1).wf() && spec_check_tts(
                dhs_start,
                dhs_end,
                ex_start,
                ex_end,
                strand,
                distance,
                tts_d,
            )[i].2.wf(),
{
}

/// A transcript the classifier can process: at least one exon, coordinates
/// in machine range, each exon's end at or past its start, and exons
/// sorted with disjoint spans (each next exon starts past the previous
/// end), as the pre-sorted annotation model guarantees.
pub open spec fn transcript_scan_wf(t: Transcript) -> bool {
    &&& 1 <= t.exons@.len() <= MAX_EXONS
    &&& forall|i: int|
        0 <= i < t.exons@.len() ==> coord_ok((#[trigger] t.exons@[i]).start as int) && coord_ok(
            t.exons@[i].end as int,
        ) && t.exons@[i].start <= t.exons@[i].end
    &&& forall|i: int|
        0 <= i + 1 < t.exons@.len() ==> (#[trigger] t.exons@[i + 1]).start > t.exons@[i].end
}

/// The proximity tracker is coherent: the tracked distance is positive
/// and a tracked candidate is well-formed, carries the given area, and
/// records exactly that distance.
pub open spec fn prox_inv(d: i64, c: Option<Candidate>, a: Area) -> bool {
    &&& 0 < d
    &&& c matches Some(cand) ==> (candidate_wf(cand@) && cand@.area == a && cand@.distance
        == d as int)
}

/// Every emission carries the classifier's bounds and the ids of its
/// gene and transcript.
pub open spec fn emitted_from(
    s: Seq<CandidateModel>,
    gene: Seq<char>,
    transcript: Seq<char>,
    strand: Strand,
) -> bool {
    forall|k: int|
        0 <= k < s.len() ==> (candidate_wf(#[trigger] s[k]) && s[k].gene == gene && s[k].transcript
            == transcript && s[k].strand == strand)
}

/// The TSS distance of the region midpoint for a transcript: measured
/// from the first exon's start when the lowest exon carries label "1"
/// (Positive-strand numbering), else from the last exon's end.
pub open spec fn spec_tss_distance(t: Transcript, pm: int) -> int {
    if t.exons@[0].exon_number matches Some(s) && s@ == seq!['1'] {
        pm - t.exons@[0].start
    } else {
        t.exons@.last().end - pm
    }
}

fn transcript_tss_distance(transcript: &Transcript, pm: i64) -> (r: i64)
    requires
        transcript_scan_wf(*transcript),
        0 <= pm <= MAX_COORD,
    ensures
        r == spec_tss_distance(*transcript, pm as int),
        -2 * MAX_COORD <= r <= 2 * MAX_COORD,
{
    proof {
        reveal_strlit("1");
        assert("1"@ =~= seq!['1']);
        assert(transcript.exons@.last() == transcript.exons@[transcript.exons@.len() - 1]);
    }
    let first_is_one = match &transcript.exons[0].exon_number {
        Some(s) => str_eq(s.as_str(), "1"),
        None => false,
    };
    if first_is_one {
        pm - transcript.exons[0].start
    } else {
        transcript.exons[transcript.exons.len() - 1].end - pm
    }
}


/// Whether the proximity tracker moved: 0 while both the distance and the
/// tracked candidate still hold their values from function entry.
pub open spec fn prox_changed(d: i64, c: Option<Candidate>, d0: i64, c0: Option<Candidate>) -> int {
    if d == d0 && c == c0 {
        0
    } else {
        1
    }
}

/// A candidate model from plain fields.
pub open spec fn spec_candidate(
    start: int,
    end: int,
    strand: Strand,
    exon_number: Seq<char>,
    area: Area,
    transcript: Seq<char>,
    gene: Seq<char>,
    distance: int,
    pctg_region: Pct,
    pctg_area: Pct,
    tss_distance: int,
) -> CandidateModel {
    CandidateModel {
        start,
        end,
        strand,
        exon_number,
        area,
        transcript,
        gene,
        distance,
        pctg_region,
        pctg_area,
        tss_distance,
    }
}

/// What the downstream-side emission yields: the TTS checker's hits when
/// a TTS zone is configured, else one raw Downstream candidate with the
/// given region coverage and the sentinel area coverage.
pub open spec fn spec_emit_down(
    start: int,
    end: int,
    ex_start: int,
    ex_end: int,
    strand: Strand,
    number: Seq<char>,
    transcript: Seq<char>,
    gene: Seq<char>,
    distance: int,
    fallback_pr: Pct,
    tssd: int,
    tts_d: int,
) -> Seq<CandidateModel> {
    if tts_d > 0 {
        spec_zone_cands(
            spec_check_tts(start, end, ex_start, ex_end, strand, distance, tts_d),
            ex_start,
            ex_end,
            strand,
            number,
            transcript,
            gene,
            distance,
            tssd,
        )
    } else {
        seq![
            spec_candidate(
                ex_start,
                ex_end,
                strand,
                number,
                Area::Downstream,
                transcript,
                gene,
                distance,
                fallback_pr,
                Pct { num: -1i64, den: 1 },
                tssd,
            ),
        ]
    }
}

/// What the upstream-side emission yields: the TSS checker's hits.
pub open spec fn spec_emit_up(
    start: int,
    end: int,
    ex_start: int,
    ex_end: int,
    strand: Strand,
    number: Seq<char>,
    transcript: Seq<char>,
    gene: Seq<char>,
    distance: int,
    tssd: int,
    tss_d: int,
    prom_d: int,
) -> Seq<CandidateModel> {
    spec_zone_cands(
        spec_check_tss(start, end, ex_start, ex_end, strand, distance, tss_d, prom_d),
        ex_start,
        ex_end,
        strand,
        number,
        transcript,
        gene,
        distance,
        tssd,
    )
}

/// The intron index between exon position `j` and the next, matching the
/// exon numbering direction.
pub open spec fn spec_intron_index(strand: Strand, j: int, n: int) -> nat {
    match strand {
        Strand::Positive => (j + 1) as nat,
        Strand::Negative => (n - 1 - j) as nat,
    }
}

/// Emit the downstream-side association for an exon boundary: through
/// the TTS checker when a TTS zone is configured, else as one raw
/// Downstream candidate with the given region coverage.
fn emit_down_side(
    out: &mut Vec<Candidate>,
    start: i64,
    end: i64,
    exon_start: i64,
    exon_end: i64,
    strand: Strand,
    number: &String,
    transcript_id: &String,
    gene_id: &String,
    distance: i64,
    fallback_pr: Pct,
    tssd: i64,
    config: &Config,
)
    requires
        0 <= start <= end <= MAX_COORD,
        coord_ok(exon_start as int),
        coord_ok(exon_end as int),
        -2 * MAX_COORD <= distance <= 2 * MAX_COORD,
        -2 * MAX_COORD <= tssd <= 2 * MAX_COORD,
        config.wf(),
        fallback_pr.wf(),
        emitted_from(cands_view(old(out)@), gene_id@, transcript_id@, strand),
    ensures
        cands_view(final(out)@) == cands_view(old(out)@) + spec_emit_down(
            start as int,
            end as int,
            exon_start as int,
            exon_end as int,
            strand,
            number@,
            transcript_id@,
            gene_id@,
            distance as int,
            fallback_pr,
            tssd as int,
            config.tts as int,
        ),
        emitted_from(cands_view(final(out)@), gene_id@, transcript_id@, strand),
        count_area(cands_view(final(out)@), Area::Downstream) <= count_area(
            cands_view(old(out)@),
            Area::Downstream,
        ) + 1,
        count_area(cands_view(final(out)@), Area::Upstream) == count_area(
            cands_view(old(out)@),
            Area::Upstream,
        ),
{
    let ghost ov0 = cands_view(out@);
    if config.tts > 0 {
        let info = TtsExonInfo { start: exon_start, end: exon_end, strand, distance };
        let hits = check_tts(start, end, &info, config.tts);
        proof {
            lemma_tts_hits_wf(
                start as int,
                end as int,
                exon_start as int,
                exon_end as int,
                strand,
                distance as int,
                config.tts as int,
            );
        }
        push_zone_hits(
            out,
            &hits,
            exon_start,
            exon_end,
            strand,
            number,
            transcript_id,
            gene_id,
            distance,
            tssd,
        );
        proof {
            let zc = spec_zone_cands(
                hits@,
                exon_start as int,
                exon_end as int,
                strand,
                number@,
                transcript_id@,
                gene_id@,
                distance as int,
                tssd as int,
            );
            lemma_count_area_add(ov0, zc, Area::Downstream);
            lemma_count_area_add(ov0, zc, Area::Upstream);
            lemma_count_zone_cands(
                hits@,
                exon_start as int,
                exon_end as int,
                strand,
                number@,
                transcript_id@,
                gene_id@,
                distance as int,
                tssd as int,
                Area::Downstream,
            );
            lemma_count_zone_cands(
                hits@,
                exon_start as int,
                exon_end as int,
                strand,
                number@,
                transcript_id@,
                gene_id@,
                distance as int,
                tssd as int,
                Area::Upstream,
            );
            lemma_tts_hit_bounds(
                start as int,
                end as int,
                exon_start as int,
                exon_end as int,
                strand,
                distance as int,
                config.tts as int,
            );
            assert forall|k: int| 0 <= k < cands_view(out@).len() implies (candidate_wf(
                #[trigger] cands_view(out@)[k],
            ) && cands_view(out@)[k].gene == gene_id@ && cands_view(out@)[k].transcript
                == transcript_id@ && cands_view(out@)[k].strand == strand) by {
                if k < ov0.len() {
                    assert(cands_view(out@)[k] == ov0[k]);
                } else {
                    assert(cands_view(out@)[k] == zc[k - ov0.len()]);
                }
            }
        }
    } else {
        let c = Candidate::new(
            exon_start,
            exon_end,
            strand,
            number.clone(),
            Area::Downstream,
            transcript_id.clone(),
            gene_id.clone(),
            distance,
            fallback_pr,
            Pct::not_applicable(),
            tssd,
        );
        out.push(c);
        proof {
            assert(cands_view(out@) =~= ov0.push(out@.last()@));
            lemma_count_area_push(ov0, out@.last()@, Area::Downstream);
            lemma_count_area_push(ov0, out@.last()@, Area::Upstream);
            assert(cands_view(out@) =~~= ov0 + spec_emit_down(
                start as int,
                end as int,
                exon_start as int,
                exon_end as int,
                strand,
                number@,
                transcript_id@,
                gene_id@,
                distance as int,
                fallback_pr,
                tssd as int,
                config.tts as int,
            ));
        }
    }
}

/// Emit the upstream-side association for an exon boundary through the
/// TSS/promoter/upstream zone checker.
fn emit_up_side(
    out: &mut Vec<Candidate>,
    start: i64,
    end: i64,
    exon_start: i64,
    exon_end: i64,
    strand: Strand,
    number: &String,
    transcript_id: &String,
    gene_id: &String,
    distance: i64,
    tssd: i64,
    config: &Config,
)
    requires
        0 <= start <= end <= MAX_COORD,
        coord_ok(exon_start as int),
        coord_ok(exon_end as int),
        -2 * MAX_COORD <= distance <= 2 * MAX_COORD,
        -2 * MAX_COORD <= tssd <= 2 * MAX_COORD,
        config.wf(),
        emitted_from(cands_view(old(out)@), gene_id@, transcript_id@, strand),
    ensures
        cands_view(final(out)@) == cands_view(old(out)@) + spec_emit_up(
            start as int,
            end as int,
            exon_start as int,
            exon_end as int,
            strand,
            number@,
            transcript_id@,
            gene_id@,
            distance as int,
            tssd as int,
            config.tss as int,
            config.promoter as int,
        ),
        emitted_from(cands_view(final(out)@), gene_id@, transcript_id@, strand),
        count_area(cands_view(final(out)@), Area::Upstream) <= count_area(
            cands_view(old(out)@),
            Area::Upstream,
        ) + 1,
        count_area(cands_view(final(out)@), Area::Downstream) == count_area(
            cands_view(old(out)@),
            Area::Downstream,
        ),
{
    let ghost ov0 = cands_view(out@);
    let info = TssExonInfo { start: exon_start, end: exon_end, strand, distance };
    let hits = check_tss(start, end, &info, config.tss, config.promoter);
    proof {
        lemma_tss_hits_wf(
            start as int,
            end as int,
            exon_start as int,
            exon_end as int,
            strand,
            distance as int,
            config.tss as int,
            config.promoter as int,
        );
    }
    push_zone_hits(
        out,
        &hits,
        exon_start,
        exon_end,
        strand,
        number,
        transcript_id,
        gene_id,
        distance,
        tssd,
    );
    proof {
        let zc = spec_zone_cands(
            hits@,
            exon_start as int,
            exon_end as int,
            strand,
            number@,
            transcript_id@,
            gene_id@,
            distance as int,
            tssd as int,
        );
        lemma_count_area_add(ov0, zc, Area::Downstream);
        lemma_count_area_add(ov0, zc, Area::Upstream);
        lemma_count_zone_cands(
            hits@,
            exon_start as int,
            exon_end as int,
            strand,
            number@,
            transcript_id@,
            gene_id@,
            distance as int,
            tssd as int,
            Area::Downstream,
        );
        lemma_count_zone_cands(
            hits@,
            exon_start as int,
            exon_end as int,
            strand,
            number@,
            transcript_id@,
            gene_id@,
            distance as int,
            tssd as int,
            Area::Upstream,
        );
        lemma_tss_hit_bounds(
            start as int,
            end as int,
            exon_start as int,
            exon_end as int,
            strand,
            distance as int,
            config.tss as int,
            config.promoter as int,
        );
        assert forall|k: int| 0 <= k < cands_view(out@).len() implies (candidate_wf(
            #[trigger] cands_view(out@)[k],
        ) && cands_view(out@)[k].gene == gene_id@ && cands_view(out@)[k].transcript
            == transcript_id@ && cands_view(out@)[k].strand == strand) by {
            if k < ov0.len() {
                assert(cands_view(out@)[k] == ov0[k]);
            } else {
                assert(cands_view(out@)[k] == zc[k - ov0.len()]);
            }
        }
    }
}

/// The FirstExon candidate for an overlapped first exon.
pub open spec fn spec_first_exon_cand(
    ex_start: int,
    ex_end: int,
    strand: Strand,
    number: Seq<char>,
    transcript: Seq<char>,
    gene: Seq<char>,
    pr: Pct,
    pa: Pct,
    tssd: int,
) -> CandidateModel {
    spec_candidate(
        ex_start,
        ex_end,
        strand,
        number,
        Area::FirstExon,
        transcript,
        gene,
        0,
        pr,
        pa,
        tssd,
    )
}

/// The gene-body fragment for an overlapped non-first exon.
pub open spec fn spec_gene_body_entry(
    ex_start: int,
    ex_end: int,
    strand: Strand,
    number: Seq<char>,
    transcript: Seq<char>,
    gene: Seq<char>,
    exon_length: int,
    overlap: int,
    pr: Pct,
    pa: Pct,
    tssd: int,
) -> AggEntryModel {
    AggEntryModel {
        candidate: spec_candidate(
            ex_start,
            ex_end,
            strand,
            number,
            Area::GeneBody,
            transcript,
            gene,
            0,
            pr,
            pa,
            tssd,
        ),
        area_len: exon_length,
        overlap,
    }
}

/// The intron fragment for the gap after exon position `j` of `n`.
pub open spec fn spec_intron_entry(
    ex_start: int,
    ex_end: int,
    strand: Strand,
    j: int,
    n: int,
    transcript: Seq<char>,
    gene: Seq<char>,
    intron_length: int,
    overlap: int,
    pr: Pct,
    tssd: int,
) -> AggEntryModel {
    AggEntryModel {
        candidate: spec_candidate(
            ex_start,
            ex_end,
            strand,
            spec_dec_digits(spec_intron_index(strand, j, n)),
            Area::Intron,
            transcript,
            gene,
            0,
            pr,
            spec_zone_pct(overlap, intron_length),
            tssd,
        ),
        area_len: intron_length,
        overlap,
    }
}

/// Push a first-exon or gene-body association for an overlapped exon:
/// a first exon (in transcription direction) is emitted directly, any
/// other exon becomes a gene-body fragment for aggregation.
fn emit_exon_overlap(
    out: &mut Vec<Candidate>,
    gbs: &mut Vec<AggEntry>,
    first_exon: bool,
    exon_start: i64,
    exon_end: i64,
    exon_length: i64,
    overlap: i64,
    strand: Strand,
    number: &String,
    transcript_id: &String,
    gene_id: &String,
    pr: Pct,
    pa: Pct,
    tssd: i64,
)
    requires
        coord_ok(exon_start as int),
        coord_ok(exon_end as int),
        0 <= exon_length <= 2 * MAX_COORD,
        0 <= overlap <= 2 * MAX_COORD,
        -2 * MAX_COORD <= tssd <= 2 * MAX_COORD,
        pr.wf(),
        pa.wf(),
        emitted_from(cands_view(old(out)@), gene_id@, transcript_id@, strand),
        forall|i: int|
            0 <= i < old(gbs)@.len() ==> (agg_entry_wf(#[trigger] old(gbs)@[i])
                && old(gbs)@[i].candidate@.area == Area::GeneBody && old(gbs)@[i].candidate@.gene
                == gene_id@ && old(gbs)@[i].candidate@.transcript == transcript_id@),
    ensures
        first_exon ==> (cands_view(final(out)@) == cands_view(old(out)@).push(
            spec_first_exon_cand(
                exon_start as int,
                exon_end as int,
                strand,
                number@,
                transcript_id@,
                gene_id@,
                pr,
                pa,
                tssd as int,
            ),
        ) && final(gbs)@ == old(gbs)@),
        !first_exon ==> (final(out)@ == old(out)@ && entries_view(final(gbs)@) == entries_view(
            old(gbs)@,
        ).push(
            spec_gene_body_entry(
                exon_start as int,
                exon_end as int,
                strand,
                number@,
                transcript_id@,
                gene_id@,
                exon_length as int,
                overlap as int,
                pr,
                pa,
                tssd as int,
            ),
        )),
        emitted_from(cands_view(final(out)@), gene_id@, transcript_id@, strand),
        count_area(cands_view(final(out)@), Area::Downstream) == count_area(
            cands_view(old(out)@),
            Area::Downstream,
        ),
        count_area(cands_view(final(out)@), Area::Upstream) == count_area(
            cands_view(old(out)@),
            Area::Upstream,
        ),
        forall|i: int|
            0 <= i < final(gbs)@.len() ==> (agg_entry_wf(#[trigger] final(gbs)@[i])
                && final(gbs)@[i].candidate@.area == Area::GeneBody
                && final(gbs)@[i].candidate@.gene == gene_id@
                && final(gbs)@[i].candidate@.transcript == transcript_id@),
        final(gbs)@.len() <= old(gbs)@.len() + 1,
        final(out)@.len() + final(gbs)@.len() <= old(out)@.len() + old(gbs)@.len() + 1,
{
    let c = Candidate::new(
        exon_start,
        exon_end,
        strand,
        number.clone(),
        if first_exon {
            Area::FirstExon
        } else {
            Area::GeneBody
        },
        transcript_id.clone(),
        gene_id.clone(),
        0,
        pr,
        pa,
        tssd,
    );
    if first_exon {
        let ghost ov0 = cands_view(out@);
        out.push(c);
        proof {
            assert(cands_view(out@) =~= ov0.push(out@.last()@));
            lemma_count_area_push(ov0, out@.last()@, Area::Downstream);
            lemma_count_area_push(ov0, out@.last()@, Area::Upstream);
        }
    } else {
        let ghost gv0 = entries_view(gbs@);
        gbs.push(AggEntry { candidate: c, area_len: exon_length, overlap });
        proof {
            assert(entries_view(gbs@) =~~= gv0.push(
                spec_gene_body_entry(
                    exon_start as int,
                    exon_end as int,
                    strand,
                    number@,
                    transcript_id@,
                    gene_id@,
                    exon_length as int,
                    overlap as int,
                    pr,
                    pa,
                    tssd as int,
                ),
            ));
        }
    }
}

/// Push an intron fragment for the gap after exon `j`, with the given
/// overlap accounting.
fn push_intron_entry(
    introns: &mut Vec<AggEntry>,
    exon_start: i64,
    exon_end: i64,
    intron_length: i64,
    overlap: i64,
    pr: Pct,
    strand: Strand,
    j: usize,
    n: usize,
    transcript_id: &String,
    gene_id: &String,
    tssd: i64,
)
    requires
        coord_ok(exon_start as int),
        coord_ok(exon_end as int),
        0 <= intron_length <= 2 * MAX_COORD,
        0 <= overlap <= 2 * MAX_COORD,
        -2 * MAX_COORD <= tssd <= 2 * MAX_COORD,
        pr.wf(),
        j < n,
        forall|i: int|
            0 <= i < old(introns)@.len() ==> (agg_entry_wf(#[trigger] old(introns)@[i]) && old(
                introns,
            )@[i].candidate@.area == Area::Intron && old(introns)@[i].candidate@.gene == gene_id@
                && old(introns)@[i].candidate@.transcript == transcript_id@),
    ensures
        entries_view(final(introns)@) == entries_view(old(introns)@).push(
            spec_intron_entry(
                exon_start as int,
                exon_end as int,
                strand,
                j as int,
                n as int,
                transcript_id@,
                gene_id@,
                intron_length as int,
                overlap as int,
                pr,
                tssd as int,
            ),
        ),
        forall|i: int|
            0 <= i < final(introns)@.len() ==> (agg_entry_wf(#[trigger] final(introns)@[i])
                && final(introns)@[i].candidate@.area == Area::Intron
                && final(introns)@[i].candidate@.gene == gene_id@
                && final(introns)@[i].candidate@.transcript == transcript_id@),
        final(introns)@.len() == old(introns)@.len() + 1,
{
    let intron_number = calculate_intron_number(j, n, strand);
    let label = u64_to_string(intron_number as u64);
    let cand = Candidate::new(
        exon_start,
        exon_end,
        strand,
        label,
        Area::Intron,
        transcript_id.clone(),
        gene_id.clone(),
        0,
        pr,
        zone_pct(overlap, intron_length),
        tssd,
    );
    let ghost iv0 = entries_view(introns@);
    introns.push(AggEntry { candidate: cand, area_len: intron_length, overlap });
    proof {
        assert(intron_number as nat == spec_intron_index(strand, j as int, n as int));
        assert(entries_view(introns@) =~~= iv0.push(
            spec_intron_entry(
                exon_start as int,
                exon_end as int,
                strand,
                j as int,
                n as int,
                transcript_id@,
                gene_id@,
                intron_length as int,
                overlap as int,
                pr,
                tssd as int,
            ),
        ));
    }
}

/// The model of an optional tracked candidate.
pub open spec fn opt_cand_view(c: Option<Candidate>) -> Option<CandidateModel> {
    match c {
        Some(x) => Some(x@),
        None => None,
    }
}

/// The classifier's per-transcript scan state: the emissions and
/// fragments collected so far, the overlap flag, and the two proximity
/// trackers.
#[verifier::ext_equal]
pub ghost struct ExonScan {
    pub ems: Seq<CandidateModel>,
    pub introns: Seq<AggEntryModel>,
    pub gbs: Seq<AggEntryModel>,
    pub flag: bool,
    pub down: int,
    pub exon_down: Option<CandidateModel>,
    pub upst: int,
    pub exon_up: Option<CandidateModel>,
}

/// The scan state the executable values denote.
pub open spec fn scan_state(
    out: Seq<Candidate>,
    introns: Seq<AggEntry>,
    gbs: Seq<AggEntry>,
    flag: bool,
    down: i64,
    exon_down: Option<Candidate>,
    upst: i64,
    exon_up: Option<Candidate>,
) -> ExonScan {
    ExonScan {
        ems: cands_view(out),
        introns: entries_view(introns),
        gbs: entries_view(gbs),
        flag,
        down: down as int,
        exon_down: opt_cand_view(exon_down),
        upst: upst as int,
        exon_up: opt_cand_view(exon_up),
    }
}

/// The effect of an overlapped exon: a FirstExon emission for the first
/// exon in transcription direction, else a gene-body fragment.
pub open spec fn spec_overlap_step(
    es: ExonScan,
    first_exon: bool,
    ex_start: int,
    ex_end: int,
    strand: Strand,
    number: Seq<char>,
    transcript: Seq<char>,
    gene: Seq<char>,
    exon_length: int,
    overlap: int,
    pr: Pct,
    pa: Pct,
    tssd: int,
) -> ExonScan {
    if first_exon {
        ExonScan {
            ems: es.ems.push(
                spec_first_exon_cand(
                    ex_start,
                    ex_end,
                    strand,
                    number,
                    transcript,
                    gene,
                    pr,
                    pa,
                    tssd,
                ),
            ),
            ..es
        }
    } else {
        ExonScan {
            gbs: es.gbs.push(
                spec_gene_body_entry(
                    ex_start,
                    ex_end,
                    strand,
                    number,
                    transcript,
                    gene,
                    exon_length,
                    overlap,
                    pr,
                    pa,
                    tssd,
                ),
            ),
            ..es
        }
    }
}

/// One exon of the classifier's scan: the new state and whether the scan
/// of this transcript stops here. This is the full definition of the six
/// mutually exclusive positional cases of one exon against the region:
///
/// - an exon entirely before the region tracks the nearest last-exon
///   proximity (Downstream on the Positive strand, Upstream on the
///   Negative), or records the intron after it when the region reaches
///   into that gap, stopping once the region lies wholly inside it;
/// - an exon overlapping the region's left edge yields a FirstExon or
///   gene-body overlap, then the downstream/upstream side or the next
///   intron for the remainder;
/// - an exon inside the region yields the upstream-side report before a
///   first exon, the overlap itself, and the remainder as above;
/// - an exon overlapping the right edge yields the before-portion and the
///   overlap;
/// - an exon containing the region yields the overlap alone;
/// - a first exon entirely past the region tracks the nearest proximity
///   on the other side and stops once neither tracked distance can
///   improve.
/// An exon entirely before the region: track the nearest last-exon
/// proximity, or record the intron after it when the region reaches into
/// that gap, stopping once the region lies wholly inside it.
pub open spec fn spec_case_before(
    start: int,
    end: int,
    pm: int,
    region_length: int,
    strand: Strand,
    gene_id: Seq<char>,
    t: Transcript,
    tss_d: int,
    tts_d: int,
    prom_d: int,
    tssd: int,
    j: int,
    es: ExonScan,
) -> (ExonScan, bool) {
    let n = t.exons@.len() as int;
    let ex = t.exons@[j];
    let exs = ex.start as int;
    let exe = ex.end as int;
    let is_first = j == 0;
    let is_last = j == n - 1;
    let exon_length = exe - exs + 1;
    let tid = t.transcript_id@;
    let number: Seq<char> = match ex.exon_number {
        Some(s) => s@,
        None => Seq::empty(),
    };
    let first_exon = (is_first && strand == Strand::Positive) || (is_last && strand
        == Strand::Negative);
        let dist_tmp = pm - exe;
        if is_last {
            if strand == Strand::Positive && dist_tmp < es.down {
                (
                    ExonScan {
                        down: dist_tmp,
                        exon_down: Some(
                            spec_candidate(
                                exs,
                                exe,
                                strand,
                                number,
                                Area::Downstream,
                                tid,
                                gene_id,
                                dist_tmp,
                                Pct { num: 100, den: 1 },
                                Pct { num: -1i64, den: 1 },
                                tssd,
                            ),
                        ),
                        ..es
                    },
                    false,
                )
            } else if strand == Strand::Negative && dist_tmp < es.upst {
                (
                    ExonScan {
                        upst: dist_tmp,
                        exon_up: Some(
                            spec_candidate(
                                exs,
                                exe,
                                strand,
                                number,
                                Area::Upstream,
                                tid,
                                gene_id,
                                dist_tmp,
                                Pct { num: 100, den: 1 },
                                Pct { num: -1i64, den: 1 },
                                tssd,
                            ),
                        ),
                        ..es
                    },
                    false,
                )
            } else {
                (es, false)
            }
        } else {
            let next_start = t.exons@[j + 1].start as int;
            if next_start > start {
                let es1 = ExonScan { flag: true, ..es };
                let ilen = next_start - exe - 1;
                if next_start > end {
                    (
                        ExonScan {
                            introns: es1.introns.push(
                                spec_intron_entry(
                                    exs,
                                    exe,
                                    strand,
                                    j,
                                    n,
                                    tid,
                                    gene_id,
                                    ilen,
                                    region_length,
                                    Pct { num: 100, den: 1 },
                                    tssd,
                                ),
                            ),
                            ..es1
                        },
                        true,
                    )
                } else {
                    let ov = next_start - start;
                    (
                        ExonScan {
                            introns: es1.introns.push(
                                spec_intron_entry(
                                    exs,
                                    exe,
                                    strand,
                                    j,
                                    n,
                                    tid,
                                    gene_id,
                                    ilen,
                                    ov,
                                    spec_ratio_pct(ov, region_length),
                                    tssd,
                                ),
                            ),
                            ..es1
                        },
                        false,
                    )
                }
            } else {
                (es, false)
            }
        }
}

/// An exon overlapping the region's left edge: the FirstExon or
/// gene-body overlap, then the downstream/upstream side or the next
/// intron for the remainder.
pub open spec fn spec_case_left_edge(
    start: int,
    end: int,
    pm: int,
    region_length: int,
    strand: Strand,
    gene_id: Seq<char>,
    t: Transcript,
    tss_d: int,
    tts_d: int,
    prom_d: int,
    tssd: int,
    j: int,
    es: ExonScan,
) -> (ExonScan, bool) {
    let n = t.exons@.len() as int;
    let ex = t.exons@[j];
    let exs = ex.start as int;
    let exe = ex.end as int;
    let is_first = j == 0;
    let is_last = j == n - 1;
    let exon_length = exe - exs + 1;
    let tid = t.transcript_id@;
    let number: Seq<char> = match ex.exon_number {
        Some(s) => s@,
        None => Seq::empty(),
    };
    let first_exon = (is_first && strand == Strand::Positive) || (is_last && strand
        == Strand::Negative);
        let es1 = ExonScan { flag: true, ..es };
        let body_overlap = exe - start + 1;
        let es2 = spec_overlap_step(
            es1,
            first_exon,
            exs,
            exe,
            strand,
            number,
            tid,
            gene_id,
            exon_length,
            body_overlap,
            spec_ratio_pct(body_overlap, region_length),
            spec_ratio_pct(body_overlap, exon_length),
            tssd,
        );
        if exe < end {
            if is_last {
                let ov = end - exe;
                if strand == Strand::Positive {
                    (
                        ExonScan {
                            ems: es2.ems + spec_emit_down(
                                start,
                                end,
                                exs,
                                exe,
                                strand,
                                number,
                                tid,
                                gene_id,
                                0,
                                spec_ratio_pct(ov, region_length),
                                tssd,
                                tts_d,
                            ),
                            ..es2
                        },
                        false,
                    )
                } else {
                    (
                        ExonScan {
                            ems: es2.ems + spec_emit_up(
                                start,
                                end,
                                exs,
                                exe,
                                strand,
                                number,
                                tid,
                                gene_id,
                                0,
                                tssd,
                                tss_d,
                                prom_d,
                            ),
                            ..es2
                        },
                        false,
                    )
                }
            } else {
                let next_start = t.exons@[j + 1].start as int;
                let ilen = next_start - exe - 1;
                if next_start > end {
                    let ov = end - exe;
                    (
                        ExonScan {
                            introns: es2.introns.push(
                                spec_intron_entry(
                                    exs,
                                    exe,
                                    strand,
                                    j,
                                    n,
                                    tid,
                                    gene_id,
                                    ilen,
                                    ov,
                                    spec_ratio_pct(ov, region_length),
                                    tssd,
                                ),
                            ),
                            ..es2
                        },
                        true,
                    )
                } else {
                    let ov = next_start - exe - 1;
                    (
                        ExonScan {
                            introns: es2.introns.push(
                                spec_intron_entry(
                                    exs,
                                    exe,
                                    strand,
                                    j,
                                    n,
                                    tid,
                                    gene_id,
                                    ilen,
                                    ov,
                                    spec_ratio_pct(ov, region_length),
                                    tssd,
                                ),
                            ),
                            ..es2
                        },
                        false,
                    )
                }
            }
        } else {
            (es2, false)
        }
}

/// An exon inside the region: the upstream-side report before a first
/// exon, the overlap itself, and the remainder as on the left edge.
pub open spec fn spec_case_inside(
    start: int,
    end: int,
    pm: int,
    region_length: int,
    strand: Strand,
    gene_id: Seq<char>,
    t: Transcript,
    tss_d: int,
    tts_d: int,
    prom_d: int,
    tssd: int,
    j: int,
    es: ExonScan,
) -> (ExonScan, bool) {
    let n = t.exons@.len() as int;
    let ex = t.exons@[j];
    let exs = ex.start as int;
    let exe = ex.end as int;
    let is_first = j == 0;
    let is_last = j == n - 1;
    let exon_length = exe - exs + 1;
    let tid = t.transcript_id@;
    let number: Seq<char> = match ex.exon_number {
        Some(s) => s@,
        None => Seq::empty(),
    };
    let first_exon = (is_first && strand == Strand::Positive) || (is_last && strand
        == Strand::Negative);
        let es1 = ExonScan { flag: true, ..es };
        let es2 = if start < exs && is_first {
            if strand == Strand::Negative {
                ExonScan {
                    ems: es1.ems + spec_emit_down(
                        start,
                        end,
                        exs,
                        exe,
                        strand,
                        number,
                        tid,
                        gene_id,
                        0,
                        spec_ratio_pct(exs - start, region_length),
                        tssd,
                        tts_d,
                    ),
                    ..es1
                }
            } else {
                ExonScan {
                    ems: es1.ems + spec_emit_up(
                        start,
                        end,
                        exs,
                        exe,
                        strand,
                        number,
                        tid,
                        gene_id,
                        0,
                        tssd,
                        tss_d,
                        prom_d,
                    ),
                    ..es1
                }
            }
        } else {
            es1
        };
        let es3 = spec_overlap_step(
            es2,
            first_exon,
            exs,
            exe,
            strand,
            number,
            tid,
            gene_id,
            exon_length,
            exon_length,
            spec_ratio_pct(exon_length, region_length),
            Pct { num: 100, den: 1 },
            tssd,
        );
        if end > exe {
            if is_last {
                let ov = end - exe;
                if strand == Strand::Positive {
                    (
                        ExonScan {
                            ems: es3.ems + spec_emit_down(
                                start,
                                end,
                                exs,
                                exe,
                                strand,
                                number,
                                tid,
                                gene_id,
                                0,
                                spec_ratio_pct(ov, region_length),
                                tssd,
                                tts_d,
                            ),
                            ..es3
                        },
                        false,
                    )
                } else {
                    (
                        ExonScan {
                            ems: es3.ems + spec_emit_up(
                                start,
                                end,
                                exs,
                                exe,
                                strand,
                                number,
                                tid,
                                gene_id,
                                0,
                                tssd,
                                tss_d,
                                prom_d,
                            ),
                            ..es3
                        },
                        false,
                    )
                }
            } else {
                let next_start = t.exons@[j + 1].start as int;
                let ilen = next_start - exe - 1;
                if next_start > end {
                    let ov = end - exe;
                    (
                        ExonScan {
                            introns: es3.introns.push(
                                spec_intron_entry(
                                    exs,
                                    exe,
                                    strand,
                                    j,
                                    n,
                                    tid,
                                    gene_id,
                                    ilen,
                                    ov,
                                    spec_ratio_pct(ov, region_length),
                                    tssd,
                                ),
                            ),
                            ..es3
                        },
                        true,
                    )
                } else {
                    let ov = next_start - exe - 1;
                    (
                        ExonScan {
                            introns: es3.introns.push(
                                spec_intron_entry(
                                    exs,
                                    exe,
                                    strand,
                                    j,
                                    n,
                                    tid,
                                    gene_id,
                                    ilen,
                                    ov,
                                    spec_ratio_pct(ov, region_length),
                                    tssd,
                                ),
                            ),
                            ..es3
                        },
                        false,
                    )
                }
            }
        } else {
            (es3, false)
        }
}

/// An exon overlapping the region's right edge: the before-portion and
/// the overlap.
pub open spec fn spec_case_right_edge(
    start: int,
    end: int,
    pm: int,
    region_length: int,
    strand: Strand,
    gene_id: Seq<char>,
    t: Transcript,
    tss_d: int,
    tts_d: int,
    prom_d: int,
    tssd: int,
    j: int,
    es: ExonScan,
) -> (ExonScan, bool) {
    let n = t.exons@.len() as int;
    let ex = t.exons@[j];
    let exs = ex.start as int;
    let exe = ex.end as int;
    let is_first = j == 0;
    let is_last = j == n - 1;
    let exon_length = exe - exs + 1;
    let tid = t.transcript_id@;
    let number: Seq<char> = match ex.exon_number {
        Some(s) => s@,
        None => Seq::empty(),
    };
    let first_exon = (is_first && strand == Strand::Positive) || (is_last && strand
        == Strand::Negative);
        let es1 = ExonScan { flag: true, ..es };
        let es2 = if start < exs && is_first {
            if strand == Strand::Negative {
                ExonScan {
                    ems: es1.ems + spec_emit_down(
                        start,
                        end,
                        exs,
                        exe,
                        strand,
                        number,
                        tid,
                        gene_id,
                        0,
                        spec_ratio_pct(exs - start, region_length),
                        tssd,
                        tts_d,
                    ),
                    ..es1
                }
            } else {
                ExonScan {
                    ems: es1.ems + spec_emit_up(
                        start,
                        end,
                        exs,
                        exe,
                        strand,
                        number,
                        tid,
                        gene_id,
                        0,
                        tssd,
                        tss_d,
                        prom_d,
                    ),
                    ..es1
                }
            }
        } else {
            es1
        };
        let ov = end - exs + 1;
        (
            spec_overlap_step(
                es2,
                first_exon,
                exs,
                exe,
                strand,
                number,
                tid,
                gene_id,
                exon_length,
                ov,
                spec_ratio_pct(ov, region_length),
                spec_ratio_pct(ov, exon_length),
                tssd,
            ),
            false,
        )
}

/// An exon containing the region: the overlap alone.
pub open spec fn spec_case_within(
    start: int,
    end: int,
    pm: int,
    region_length: int,
    strand: Strand,
    gene_id: Seq<char>,
    t: Transcript,
    tss_d: int,
    tts_d: int,
    prom_d: int,
    tssd: int,
    j: int,
    es: ExonScan,
) -> (ExonScan, bool) {
    let n = t.exons@.len() as int;
    let ex = t.exons@[j];
    let exs = ex.start as int;
    let exe = ex.end as int;
    let is_first = j == 0;
    let is_last = j == n - 1;
    let exon_length = exe - exs + 1;
    let tid = t.transcript_id@;
    let number: Seq<char> = match ex.exon_number {
        Some(s) => s@,
        None => Seq::empty(),
    };
    let first_exon = (is_first && strand == Strand::Positive) || (is_last && strand
        == Strand::Negative);
        let es1 = ExonScan { flag: true, ..es };
        (
            spec_overlap_step(
                es1,
                first_exon,
                exs,
                exe,
                strand,
                number,
                tid,
                gene_id,
                exon_length,
                region_length,
                Pct { num: 100, den: 1 },
                spec_ratio_pct(region_length, exon_length),
                tssd,
            ),
            false,
        )
}

/// A first exon entirely past the region: track the nearest proximity
/// on the other side and stop once neither tracked distance can improve.
pub open spec fn spec_case_after(
    start: int,
    end: int,
    pm: int,
    region_length: int,
    strand: Strand,
    gene_id: Seq<char>,
    t: Transcript,
    tss_d: int,
    tts_d: int,
    prom_d: int,
    tssd: int,
    j: int,
    es: ExonScan,
) -> (ExonScan, bool) {
    let n = t.exons@.len() as int;
    let ex = t.exons@[j];
    let exs = ex.start as int;
    let exe = ex.end as int;
    let is_first = j == 0;
    let is_last = j == n - 1;
    let exon_length = exe - exs + 1;
    let tid = t.transcript_id@;
    let number: Seq<char> = match ex.exon_number {
        Some(s) => s@,
        None => Seq::empty(),
    };
    let first_exon = (is_first && strand == Strand::Positive) || (is_last && strand
        == Strand::Negative);
        let dist_tmp = exs - pm;
        let es1 = if strand == Strand::Negative && dist_tmp < es.down {
            ExonScan {
                down: dist_tmp,
                exon_down: Some(
                    spec_candidate(
                        exs,
                        exe,
                        strand,
                        number,
                        Area::Downstream,
                        tid,
                        gene_id,
                        dist_tmp,
                        Pct { num: 100, den: 1 },
                        Pct { num: -1i64, den: 1 },
                        tssd,
                    ),
                ),
                ..es
            }
        } else if strand == Strand::Positive && dist_tmp < es.upst {
            ExonScan {
                upst: dist_tmp,
                exon_up: Some(
                    spec_candidate(
                        exs,
                        exe,
                        strand,
                        number,
                        Area::Upstream,
                        tid,
                        gene_id,
                        dist_tmp,
                        Pct { num: 100, den: 1 },
                        Pct { num: -1i64, den: 1 },
                        tssd,
                    ),
                ),
                ..es
            }
        } else {
            es
        };
        if es1.down <= dist_tmp && es1.upst <= dist_tmp {
            (es1, true)
        } else {
            (es1, false)
        }
}

/// One exon of the classifier's scan: the new state and whether the scan
/// of this transcript stops here, by the six mutually exclusive
/// positional cases of one exon against the region.
pub open spec fn spec_scan_step(
    start: int,
    end: int,
    pm: int,
    region_length: int,
    strand: Strand,
    gene_id: Seq<char>,
    t: Transcript,
    tss_d: int,
    tts_d: int,
    prom_d: int,
    tssd: int,
    j: int,
    es: ExonScan,
) -> (ExonScan, bool) {
    let n = t.exons@.len() as int;
    let ex = t.exons@[j];
    let exs = ex.start as int;
    let exe = ex.end as int;
    let is_first = j == 0;
    if exe < start {
        spec_case_before(start, end, pm, region_length, strand, gene_id, t, tss_d, tts_d, prom_d, tssd, j, es)
    } else if start <= exe && exe <= end && exs < start {
        spec_case_left_edge(start, end, pm, region_length, strand, gene_id, t, tss_d, tts_d, prom_d, tssd, j, es)
    } else if start <= exs && end >= exe {
        spec_case_inside(start, end, pm, region_length, strand, gene_id, t, tss_d, tts_d, prom_d, tssd, j, es)
    } else if start <= exs && exs <= end && end < exe {
        spec_case_right_edge(start, end, pm, region_length, strand, gene_id, t, tss_d, tts_d, prom_d, tssd, j, es)
    } else if exs <= start && start <= exe && end < exe {
        spec_case_within(start, end, pm, region_length, strand, gene_id, t, tss_d, tts_d, prom_d, tssd, j, es)
    } else if exs > end && is_first {
        spec_case_after(start, end, pm, region_length, strand, gene_id, t, tss_d, tts_d, prom_d, tssd, j, es)
    } else {
        (es, false)
    }
}

/// The classifier's scan of a transcript's exons from position `j` on:
/// one step per exon, stopping early where the step says so.
pub open spec fn spec_scan_exons(
    start: int,
    end: int,
    pm: int,
    region_length: int,
    strand: Strand,
    gene_id: Seq<char>,
    t: Transcript,
    tss_d: int,
    tts_d: int,
    prom_d: int,
    tssd: int,
    j: int,
    es: ExonScan,
) -> ExonScan
    decreases t.exons@.len() - j,
{
    if j < 0 || j >= t.exons@.len() {
        es
    } else {
        let step = spec_scan_step(
            start,
            end,
            pm,
            region_length,
            strand,
            gene_id,
            t,
            tss_d,
            tts_d,
            prom_d,
            tssd,
            j,
            es,
        );
        if step.1 {
            step.0
        } else {
            spec_scan_exons(
                start,
                end,
                pm,
                region_length,
                strand,
                gene_id,
                t,
                tss_d,
                tts_d,
                prom_d,
                tssd,
                j + 1,
                step.0,
            )
        }
    }
}

/// Perform the before-the-region case of one exon, exactly as its
/// specification defines.
#[verifier::rlimit(100)]
#[verifier::spinoff_prover]
fn scan_case_before(
    start: i64,
    end: i64,
    pm: i64,
    region_length: i64,
    strand: Strand,
    gene_id: &String,
    transcript: &Transcript,
    config: &Config,
    tssd: i64,
    j: usize,
    out: &mut Vec<Candidate>,
    introns: &mut Vec<AggEntry>,
    gbs: &mut Vec<AggEntry>,
    flag: &mut bool,
    down: &mut i64,
    exon_down: &mut Option<Candidate>,
    upst: &mut i64,
    exon_up: &mut Option<Candidate>,
) -> (stop: bool)
    requires
        0 <= start <= end <= MAX_COORD,
        pm == (start + end) as int / 2,
        region_length == end - start + 1,
        transcript_scan_wf(*transcript),
        config.wf(),
        j < transcript.exons@.len(),
        -2 * MAX_COORD <= tssd <= 2 * MAX_COORD,
        emitted_from(cands_view(old(out)@), gene_id@, transcript.transcript_id@, strand),
        prox_inv(*old(down), *old(exon_down), Area::Downstream),
        prox_inv(*old(upst), *old(exon_up), Area::Upstream),
        forall|i: int|
            0 <= i < old(introns)@.len() ==> (agg_entry_wf(#[trigger] old(introns)@[i]) && old(
                introns,
            )@[i].candidate@.area == Area::Intron && old(introns)@[i].candidate@.gene == gene_id@
                && old(introns)@[i].candidate@.transcript == transcript.transcript_id@),
        forall|i: int|
            0 <= i < old(gbs)@.len() ==> (agg_entry_wf(#[trigger] old(gbs)@[i])
                && old(gbs)@[i].candidate@.area == Area::GeneBody && old(gbs)@[i].candidate@.gene
                == gene_id@ && old(gbs)@[i].candidate@.transcript == transcript.transcript_id@),
        transcript.exons@[j as int].end < start,
    ensures
        scan_state(
            final(out)@,
            final(introns)@,
            final(gbs)@,
            *final(flag),
            *final(down),
            *final(exon_down),
            *final(upst),
            *final(exon_up),
        ) == spec_case_before(
            start as int,
            end as int,
            pm as int,
            region_length as int,
            strand,
            gene_id@,
            *transcript,
            config.tss as int,
            config.tts as int,
            config.promoter as int,
            tssd as int,
            j as int,
            scan_state(
                old(out)@,
                old(introns)@,
                old(gbs)@,
                *old(flag),
                *old(down),
                *old(exon_down),
                *old(upst),
                *old(exon_up),
            ),
        ).0,
        stop == spec_case_before(
            start as int,
            end as int,
            pm as int,
            region_length as int,
            strand,
            gene_id@,
            *transcript,
            config.tss as int,
            config.tts as int,
            config.promoter as int,
            tssd as int,
            j as int,
            scan_state(
                old(out)@,
                old(introns)@,
                old(gbs)@,
                *old(flag),
                *old(down),
                *old(exon_down),
                *old(upst),
                *old(exon_up),
            ),
        ).1,
        emitted_from(cands_view(final(out)@), gene_id@, transcript.transcript_id@, strand),
        prox_inv(*final(down), *final(exon_down), Area::Downstream),
        prox_inv(*final(upst), *final(exon_up), Area::Upstream),
        *final(down) <= *old(down),
        *final(upst) <= *old(upst),
        count_area(cands_view(final(out)@), Area::Downstream) <= count_area(
            cands_view(old(out)@),
            Area::Downstream,
        ) + 1,
        count_area(cands_view(final(out)@), Area::Upstream) <= count_area(
            cands_view(old(out)@),
            Area::Upstream,
        ) + 1,
        (strand == Strand::Positive && j as int != transcript.exons@.len() - 1) ==> (count_area(
            cands_view(final(out)@),
            Area::Downstream,
        ) == count_area(cands_view(old(out)@), Area::Downstream) && *final(down) == *old(down)
            && *final(exon_down) == *old(exon_down)),
        (strand == Strand::Negative && j != 0) ==> (count_area(
            cands_view(final(out)@),
            Area::Downstream,
        ) == count_area(cands_view(old(out)@), Area::Downstream) && *final(down) == *old(down)
            && *final(exon_down) == *old(exon_down)),
        (strand == Strand::Positive && j != 0) ==> (count_area(
            cands_view(final(out)@),
            Area::Upstream,
        ) == count_area(cands_view(old(out)@), Area::Upstream) && *final(upst) == *old(upst)
            && *final(exon_up) == *old(exon_up)),
        (strand == Strand::Negative && j as int != transcript.exons@.len() - 1) ==> (count_area(
            cands_view(final(out)@),
            Area::Upstream,
        ) == count_area(cands_view(old(out)@), Area::Upstream) && *final(upst) == *old(upst)
            && *final(exon_up) == *old(exon_up)),
        count_area(cands_view(final(out)@), Area::Downstream) > count_area(
            cands_view(old(out)@),
            Area::Downstream,
        ) ==> (*final(down) == *old(down) && *final(exon_down) == *old(exon_down)),
        count_area(cands_view(final(out)@), Area::Upstream) > count_area(
            cands_view(old(out)@),
            Area::Upstream,
        ) ==> (*final(upst) == *old(upst) && *final(exon_up) == *old(exon_up)),
        !(*final(down) == *old(down) && *final(exon_down) == *old(exon_down)) ==> (count_area(
            cands_view(final(out)@),
            Area::Downstream,
        ) == count_area(cands_view(old(out)@), Area::Downstream) && ((*final(exon_down)) matches
        Some(c) && c@.gene == gene_id@ && c@.transcript == transcript.transcript_id@)),
        !(*final(upst) == *old(upst) && *final(exon_up) == *old(exon_up)) ==> (count_area(
            cands_view(final(out)@),
            Area::Upstream,
        ) == count_area(cands_view(old(out)@), Area::Upstream) && ((*final(exon_up)) matches Some(
            c,
        ) && c@.gene == gene_id@ && c@.transcript == transcript.transcript_id@)),
        forall|i: int|
            0 <= i < final(introns)@.len() ==> (agg_entry_wf(#[trigger] final(introns)@[i])
                && final(introns)@[i].candidate@.area == Area::Intron
                && final(introns)@[i].candidate@.gene == gene_id@
                && final(introns)@[i].candidate@.transcript == transcript.transcript_id@),
        final(introns)@.len() <= old(introns)@.len() + 1,
        forall|i: int|
            0 <= i < final(gbs)@.len() ==> (agg_entry_wf(#[trigger] final(gbs)@[i])
                && final(gbs)@[i].candidate@.area == Area::GeneBody
                && final(gbs)@[i].candidate@.gene == gene_id@
                && final(gbs)@[i].candidate@.transcript == transcript.transcript_id@),
        final(gbs)@.len() <= old(gbs)@.len() + 1,
{
    let transcript_id = &transcript.transcript_id;
    let n = transcript.exons.len();
    let mut stop = false;
    let exon_start = transcript.exons[j].start;
    let exon_end = transcript.exons[j].end;
    let is_first = j == 0;
    let is_last = j == n - 1;
    let exon_length = exon_end - exon_start + 1;
    let exon_number: String = match &transcript.exons[j].exon_number {
        Some(s) => s.clone(),
        None => String::new(),
    };
    let first_exon = (is_first && strand == Strand::Positive) || (is_last && strand
        == Strand::Negative);
    // the exon lies entirely before the region
    let dist_tmp = pm - exon_end;
    if is_last {
        if strand == Strand::Positive && dist_tmp < *down {
            *down = dist_tmp;
            *exon_down = Some(
                Candidate::new(
                    exon_start,
                    exon_end,
                    strand,
                    exon_number,
                    Area::Downstream,
                    transcript_id.clone(),
                    gene_id.clone(),
                    dist_tmp,
                    Pct::whole(100),
                    Pct::not_applicable(),
                    tssd,
                ),
            );
        } else if strand == Strand::Negative && dist_tmp < *upst {
            *upst = dist_tmp;
            *exon_up = Some(
                Candidate::new(
                    exon_start,
                    exon_end,
                    strand,
                    exon_number,
                    Area::Upstream,
                    transcript_id.clone(),
                    gene_id.clone(),
                    dist_tmp,
                    Pct::whole(100),
                    Pct::not_applicable(),
                    tssd,
                ),
            );
        }
    } else {
        let next_start = transcript.exons[j + 1].start;
        if next_start > start {
            *flag = true;
            let intron_length = next_start - exon_end - 1;
            if next_start > end {
                // the region is completely inside this intron
                push_intron_entry(
                    introns,
                    exon_start,
                    exon_end,
                    intron_length,
                    region_length,
                    Pct::whole(100),
                    strand,
                    j,
                    n,
                    transcript_id,
                    gene_id,
                    tssd,
                );
                stop = true;
            } else {
                // the region extends over the next exon
                let region_overlap = next_start - start;
                push_intron_entry(
                    introns,
                    exon_start,
                    exon_end,
                    intron_length,
                    region_overlap,
                    ratio_pct(region_overlap, region_length),
                    strand,
                    j,
                    n,
                    transcript_id,
                    gene_id,
                    tssd,
                );
            }
        }
    }
    stop
}

/// Perform the left-edge overlap case of one exon, exactly as its
/// specification defines.
#[verifier::rlimit(100)]
#[verifier::spinoff_prover]
fn scan_case_left_edge(
    start: i64,
    end: i64,
    pm: i64,
    region_length: i64,
    strand: Strand,
    gene_id: &String,
    transcript: &Transcript,
    config: &Config,
    tssd: i64,
    j: usize,
    out: &mut Vec<Candidate>,
    introns: &mut Vec<AggEntry>,
    gbs: &mut Vec<AggEntry>,
    flag: &mut bool,
    down: &mut i64,
    exon_down: &mut Option<Candidate>,
    upst: &mut i64,
    exon_up: &mut Option<Candidate>,
) -> (stop: bool)
    requires
        0 <= start <= end <= MAX_COORD,
        pm == (start + end) as int / 2,
        region_length == end - start + 1,
        transcript_scan_wf(*transcript),
        config.wf(),
        j < transcript.exons@.len(),
        -2 * MAX_COORD <= tssd <= 2 * MAX_COORD,
        emitted_from(cands_view(old(out)@), gene_id@, transcript.transcript_id@, strand),
        prox_inv(*old(down), *old(exon_down), Area::Downstream),
        prox_inv(*old(upst), *old(exon_up), Area::Upstream),
        forall|i: int|
            0 <= i < old(introns)@.len() ==> (agg_entry_wf(#[trigger] old(introns)@[i]) && old(
                introns,
            )@[i].candidate@.area == Area::Intron && old(introns)@[i].candidate@.gene == gene_id@
                && old(introns)@[i].candidate@.transcript == transcript.transcript_id@),
        forall|i: int|
            0 <= i < old(gbs)@.len() ==> (agg_entry_wf(#[trigger] old(gbs)@[i])
                && old(gbs)@[i].candidate@.area == Area::GeneBody && old(gbs)@[i].candidate@.gene
                == gene_id@ && old(gbs)@[i].candidate@.transcript == transcript.transcript_id@),
        start <= transcript.exons@[j as int].end <= end && transcript.exons@[j as int].start < start,
    ensures
        scan_state(
            final(out)@,
            final(introns)@,
            final(gbs)@,
            *final(flag),
            *final(down),
            *final(exon_down),
            *final(upst),
            *final(exon_up),
        ) == spec_case_left_edge(
            start as int,
            end as int,
            pm as int,
            region_length as int,
            strand,
            gene_id@,
            *transcript,
            config.tss as int,
            config.tts as int,
            config.promoter as int,
            tssd as int,
            j as int,
            scan_state(
                old(out)@,
                old(introns)@,
                old(gbs)@,
                *old(flag),
                *old(down),
                *old(exon_down),
                *old(upst),
                *old(exon_up),
            ),
        ).0,
        stop == spec_case_left_edge(
            start as int,
            end as int,
            pm as int,
            region_length as int,
            strand,
            gene_id@,
            *transcript,
            config.tss as int,
            config.tts as int,
            config.promoter as int,
            tssd as int,
            j as int,
            scan_state(
                old(out)@,
                old(introns)@,
                old(gbs)@,
                *old(flag),
                *old(down),
                *old(exon_down),
                *old(upst),
                *old(exon_up),
            ),
        ).1,
        emitted_from(cands_view(final(out)@), gene_id@, transcript.transcript_id@, strand),
        prox_inv(*final(down), *final(exon_down), Area::Downstream),
        prox_inv(*final(upst), *final(exon_up), Area::Upstream),
        *final(down) <= *old(down),
        *final(upst) <= *old(upst),
        count_area(cands_view(final(out)@), Area::Downstream) <= count_area(
            cands_view(old(out)@),
            Area::Downstream,
        ) + 1,
        count_area(cands_view(final(out)@), Area::Upstream) <= count_area(
            cands_view(old(out)@),
            Area::Upstream,
        ) + 1,
        (strand == Strand::Positive && j as int != transcript.exons@.len() - 1) ==> (count_area(
            cands_view(final(out)@),
            Area::Downstream,
        ) == count_area(cands_view(old(out)@), Area::Downstream) && *final(down) == *old(down)
            && *final(exon_down) == *old(exon_down)),
        (strand == Strand::Negative && j != 0) ==> (count_area(
            cands_view(final(out)@),
            Area::Downstream,
        ) == count_area(cands_view(old(out)@), Area::Downstream) && *final(down) == *old(down)
            && *final(exon_down) == *old(exon_down)),
        (strand == Strand::Positive && j != 0) ==> (count_area(
            cands_view(final(out)@),
            Area::Upstream,
        ) == count_area(cands_view(old(out)@), Area::Upstream) && *final(upst) == *old(upst)
            && *final(exon_up) == *old(exon_up)),
        (strand == Strand::Negative && j as int != transcript.exons@.len() - 1) ==> (count_area(
            cands_view(final(out)@),
            Area::Upstream,
        ) == count_area(cands_view(old(out)@), Area::Upstream) && *final(upst) == *old(upst)
            && *final(exon_up) == *old(exon_up)),
        count_area(cands_view(final(out)@), Area::Downstream) > count_area(
            cands_view(old(out)@),
            Area::Downstream,
        ) ==> (*final(down) == *old(down) && *final(exon_down) == *old(exon_down)),
        count_area(cands_view(final(out)@), Area::Upstream) > count_area(
            cands_view(old(out)@),
            Area::Upstream,
        ) ==> (*final(upst) == *old(upst) && *final(exon_up) == *old(exon_up)),
        !(*final(down) == *old(down) && *final(exon_down) == *old(exon_down)) ==> (count_area(
            cands_view(final(out)@),
            Area::Downstream,
        ) == count_area(cands_view(old(out)@), Area::Downstream) && ((*final(exon_down)) matches
        Some(c) && c@.gene == gene_id@ && c@.transcript == transcript.transcript_id@)),
        !(*final(upst) == *old(upst) && *final(exon_up) == *old(exon_up)) ==> (count_area(
            cands_view(final(out)@),
            Area::Upstream,
        ) == count_area(cands_view(old(out)@), Area::Upstream) && ((*final(exon_up)) matches Some(
            c,
        ) && c@.gene == gene_id@ && c@.transcript == transcript.transcript_id@)),
        forall|i: int|
            0 <= i < final(introns)@.len() ==> (agg_entry_wf(#[trigger] final(introns)@[i])
                && final(introns)@[i].candidate@.area == Area::Intron
                && final(introns)@[i].candidate@.gene == gene_id@
                && final(introns)@[i].candidate@.transcript == transcript.transcript_id@),
        final(introns)@.len() <= old(introns)@.len() + 1,
        forall|i: int|
            0 <= i < final(gbs)@.len() ==> (agg_entry_wf(#[trigger] final(gbs)@[i])
                && final(gbs)@[i].candidate@.area == Area::GeneBody
                && final(gbs)@[i].candidate@.gene == gene_id@
                && final(gbs)@[i].candidate@.transcript == transcript.transcript_id@),
        final(gbs)@.len() <= old(gbs)@.len() + 1,
{
    let transcript_id = &transcript.transcript_id;
    let n = transcript.exons.len();
    let mut stop = false;
    let exon_start = transcript.exons[j].start;
    let exon_end = transcript.exons[j].end;
    let is_first = j == 0;
    let is_last = j == n - 1;
    let exon_length = exon_end - exon_start + 1;
    let exon_number: String = match &transcript.exons[j].exon_number {
        Some(s) => s.clone(),
        None => String::new(),
    };
    let first_exon = (is_first && strand == Strand::Positive) || (is_last && strand
        == Strand::Negative);
    // the exon overlaps the region's left edge
    *flag = true;
    let body_overlap = exon_end - start + 1;
    emit_exon_overlap(
        out,
        gbs,
        first_exon,
        exon_start,
        exon_end,
        exon_length,
        body_overlap,
        strand,
        &exon_number,
        transcript_id,
        gene_id,
        ratio_pct(body_overlap, region_length),
        ratio_pct(body_overlap, exon_length),
        tssd,
    );
    if exon_end < end {
        if is_last {
            let region_overlap = end - exon_end;
            if strand == Strand::Positive {
                emit_down_side(
                    out,
                    start,
                    end,
                    exon_start,
                    exon_end,
                    strand,
                    &exon_number,
                    transcript_id,
                    gene_id,
                    0,
                    ratio_pct(region_overlap, region_length),
                    tssd,
                    config,
                );
            } else {
                emit_up_side(
                    out,
                    start,
                    end,
                    exon_start,
                    exon_end,
                    strand,
                    &exon_number,
                    transcript_id,
                    gene_id,
                    0,
                    tssd,
                    config,
                );
            }
        } else {
            let next_start = transcript.exons[j + 1].start;
            let intron_length = next_start - exon_end - 1;
            if next_start > end {
                let region_overlap = end - exon_end;
                push_intron_entry(
                    introns,
                    exon_start,
                    exon_end,
                    intron_length,
                    region_overlap,
                    ratio_pct(region_overlap, region_length),
                    strand,
                    j,
                    n,
                    transcript_id,
                    gene_id,
                    tssd,
                );
                stop = true;
            } else {
                let region_overlap = next_start - exon_end - 1;
                push_intron_entry(
                    introns,
                    exon_start,
                    exon_end,
                    intron_length,
                    region_overlap,
                    ratio_pct(region_overlap, region_length),
                    strand,
                    j,
                    n,
                    transcript_id,
                    gene_id,
                    tssd,
                );
            }
        }
    }
    stop
}

/// Perform the inside-the-region case of one exon, exactly as its
/// specification defines.
#[verifier::rlimit(100)]
#[verifier::spinoff_prover]
fn scan_case_inside(
    start: i64,
    end: i64,
    pm: i64,
    region_length: i64,
    strand: Strand,
    gene_id: &String,
    transcript: &Transcript,
    config: &Config,
    tssd: i64,
    j: usize,
    out: &mut Vec<Candidate>,
    introns: &mut Vec<AggEntry>,
    gbs: &mut Vec<AggEntry>,
    flag: &mut bool,
    down: &mut i64,
    exon_down: &mut Option<Candidate>,
    upst: &mut i64,
    exon_up: &mut Option<Candidate>,
) -> (stop: bool)
    requires
        0 <= start <= end <= MAX_COORD,
        pm == (start + end) as int / 2,
        region_length == end - start + 1,
        transcript_scan_wf(*transcript),
        config.wf(),
        j < transcript.exons@.len(),
        -2 * MAX_COORD <= tssd <= 2 * MAX_COORD,
        emitted_from(cands_view(old(out)@), gene_id@, transcript.transcript_id@, strand),
        prox_inv(*old(down), *old(exon_down), Area::Downstream),
        prox_inv(*old(upst), *old(exon_up), Area::Upstream),
        forall|i: int|
            0 <= i < old(introns)@.len() ==> (agg_entry_wf(#[trigger] old(introns)@[i]) && old(
                introns,
            )@[i].candidate@.area == Area::Intron && old(introns)@[i].candidate@.gene == gene_id@
                && old(introns)@[i].candidate@.transcript == transcript.transcript_id@),
        forall|i: int|
            0 <= i < old(gbs)@.len() ==> (agg_entry_wf(#[trigger] old(gbs)@[i])
                && old(gbs)@[i].candidate@.area == Area::GeneBody && old(gbs)@[i].candidate@.gene
                == gene_id@ && old(gbs)@[i].candidate@.transcript == transcript.transcript_id@),
        start <= transcript.exons@[j as int].start && end >= transcript.exons@[j as int].end,
    ensures
        scan_state(
            final(out)@,
            final(introns)@,
            final(gbs)@,
            *final(flag),
            *final(down),
            *final(exon_down),
            *final(upst),
            *final(exon_up),
        ) == spec_case_inside(
            start as int,
            end as int,
            pm as int,
            region_length as int,
            strand,
            gene_id@,
            *transcript,
            config.tss as int,
            config.tts as int,
            config.promoter as int,
            tssd as int,
            j as int,
            scan_state(
                old(out)@,
                old(introns)@,
                old(gbs)@,
                *old(flag),
                *old(down),
                *old(exon_down),
                *old(upst),
                *old(exon_up),
            ),
        ).0,
        stop == spec_case_inside(
            start as int,
            end as int,
            pm as int,
            region_length as int,
            strand,
            gene_id@,
            *transcript,
            config.tss as int,
            config.tts as int,
            config.promoter as int,
            tssd as int,
            j as int,
            scan_state(
                old(out)@,
                old(introns)@,
                old(gbs)@,
                *old(flag),
                *old(down),
                *old(exon_down),
                *old(upst),
                *old(exon_up),
            ),
        ).1,
        emitted_from(cands_view(final(out)@), gene_id@, transcript.transcript_id@, strand),
        prox_inv(*final(down), *final(exon_down), Area::Downstream),
        prox_inv(*final(upst), *final(exon_up), Area::Upstream),
        *final(down) <= *old(down),
        *final(upst) <= *old(upst),
        count_area(cands_view(final(out)@), Area::Downstream) <= count_area(
            cands_view(old(out)@),
            Area::Downstream,
        ) + 1,
        count_area(cands_view(final(out)@), Area::Upstream) <= count_area(
            cands_view(old(out)@),
            Area::Upstream,
        ) + 1,
        (strand == Strand::Positive && j as int != transcript.exons@.len() - 1) ==> (count_area(
            cands_view(final(out)@),
            Area::Downstream,
        ) == count_area(cands_view(old(out)@), Area::Downstream) && *final(down) == *old(down)
            && *final(exon_down) == *old(exon_down)),
        (strand == Strand::Negative && j != 0) ==> (count_area(
            cands_view(final(out)@),
            Area::Downstream,
        ) == count_area(cands_view(old(out)@), Area::Downstream) && *final(down) == *old(down)
            && *final(exon_down) == *old(exon_down)),
        (strand == Strand::Positive && j != 0) ==> (count_area(
            cands_view(final(out)@),
            Area::Upstream,
        ) == count_area(cands_view(old(out)@), Area::Upstream) && *final(upst) == *old(upst)
            && *final(exon_up) == *old(exon_up)),
        (strand == Strand::Negative && j as int != transcript.exons@.len() - 1) ==> (count_area(
            cands_view(final(out)@),
            Area::Upstream,
        ) == count_area(cands_view(old(out)@), Area::Upstream) && *final(upst) == *old(upst)
            && *final(exon_up) == *old(exon_up)),
        count_area(cands_view(final(out)@), Area::Downstream) > count_area(
            cands_view(old(out)@),
            Area::Downstream,
        ) ==> (*final(down) == *old(down) && *final(exon_down) == *old(exon_down)),
        count_area(cands_view(final(out)@), Area::Upstream) > count_area(
            cands_view(old(out)@),
            Area::Upstream,
        ) ==> (*final(upst) == *old(upst) && *final(exon_up) == *old(exon_up)),
        !(*final(down) == *old(down) && *final(exon_down) == *old(exon_down)) ==> (count_area(
            cands_view(final(out)@),
            Area::Downstream,
        ) == count_area(cands_view(old(out)@), Area::Downstream) && ((*final(exon_down)) matches
        Some(c) && c@.gene == gene_id@ && c@.transcript == transcript.transcript_id@)),
        !(*final(upst) == *old(upst) && *final(exon_up) == *old(exon_up)) ==> (count_area(
            cands_view(final(out)@),
            Area::Upstream,
        ) == count_area(cands_view(old(out)@), Area::Upstream) && ((*final(exon_up)) matches Some(
            c,
        ) && c@.gene == gene_id@ && c@.transcript == transcript.transcript_id@)),
        forall|i: int|
            0 <= i < final(introns)@.len() ==> (agg_entry_wf(#[trigger] final(introns)@[i])
                && final(introns)@[i].candidate@.area == Area::Intron
                && final(introns)@[i].candidate@.gene == gene_id@
                && final(introns)@[i].candidate@.transcript == transcript.transcript_id@),
        final(introns)@.len() <= old(introns)@.len() + 1,
        forall|i: int|
            0 <= i < final(gbs)@.len() ==> (agg_entry_wf(#[trigger] final(gbs)@[i])
                && final(gbs)@[i].candidate@.area == Area::GeneBody
                && final(gbs)@[i].candidate@.gene == gene_id@
                && final(gbs)@[i].candidate@.transcript == transcript.transcript_id@),
        final(gbs)@.len() <= old(gbs)@.len() + 1,
{
    let transcript_id = &transcript.transcript_id;
    let n = transcript.exons.len();
    let mut stop = false;
    let exon_start = transcript.exons[j].start;
    let exon_end = transcript.exons[j].end;
    let is_first = j == 0;
    let is_last = j == n - 1;
    let exon_length = exon_end - exon_start + 1;
    let exon_number: String = match &transcript.exons[j].exon_number {
        Some(s) => s.clone(),
        None => String::new(),
    };
    let first_exon = (is_first && strand == Strand::Positive) || (is_last && strand
        == Strand::Negative);
    // the exon lies completely inside the region
    *flag = true;
    if start < exon_start && is_first {
        let region_overlap_b = exon_start - start;
        if strand == Strand::Negative {
            emit_down_side(
                out,
                start,
                end,
                exon_start,
                exon_end,
                strand,
                &exon_number,
                transcript_id,
                gene_id,
                0,
                ratio_pct(region_overlap_b, region_length),
                tssd,
                config,
            );
        } else {
            emit_up_side(
                out,
                start,
                end,
                exon_start,
                exon_end,
                strand,
                &exon_number,
                transcript_id,
                gene_id,
                0,
                tssd,
                config,
            );
        }
    }
    emit_exon_overlap(
        out,
        gbs,
        first_exon,
        exon_start,
        exon_end,
        exon_length,
        exon_length,
        strand,
        &exon_number,
        transcript_id,
        gene_id,
        ratio_pct(exon_length, region_length),
        Pct::whole(100),
        tssd,
    );
    if end > exon_end {
        if is_last {
            let region_overlap = end - exon_end;
            if strand == Strand::Positive {
                emit_down_side(
                    out,
                    start,
                    end,
                    exon_start,
                    exon_end,
                    strand,
                    &exon_number,
                    transcript_id,
                    gene_id,
                    0,
                    ratio_pct(region_overlap, region_length),
                    tssd,
                    config,
                );
            } else {
                emit_up_side(
                    out,
                    start,
                    end,
                    exon_start,
                    exon_end,
                    strand,
                    &exon_number,
                    transcript_id,
                    gene_id,
                    0,
                    tssd,
                    config,
                );
            }
        } else {
            let next_start = transcript.exons[j + 1].start;
            let intron_length = next_start - exon_end - 1;
            if next_start > end {
                let region_overlap = end - exon_end;
                push_intron_entry(
                    introns,
                    exon_start,
                    exon_end,
                    intron_length,
                    region_overlap,
                    ratio_pct(region_overlap, region_length),
                    strand,
                    j,
                    n,
                    transcript_id,
                    gene_id,
                    tssd,
                );
                stop = true;
            } else {
                let region_overlap = next_start - exon_end - 1;
                push_intron_entry(
                    introns,
                    exon_start,
                    exon_end,
                    intron_length,
                    region_overlap,
                    ratio_pct(region_overlap, region_length),
                    strand,
                    j,
                    n,
                    transcript_id,
                    gene_id,
                    tssd,
                );
            }
        }
    }
    stop
}

/// Perform the right-edge overlap case of one exon, exactly as its
/// specification defines.
#[verifier::rlimit(100)]
#[verifier::spinoff_prover]
fn scan_case_right_edge(
    start: i64,
    end: i64,
    pm: i64,
    region_length: i64,
    strand: Strand,
    gene_id: &String,
    transcript: &Transcript,
    config: &Config,
    tssd: i64,
    j: usize,
    out: &mut Vec<Candidate>,
    introns: &mut Vec<AggEntry>,
    gbs: &mut Vec<AggEntry>,
    flag: &mut bool,
    down: &mut i64,
    exon_down: &mut Option<Candidate>,
    upst: &mut i64,
    exon_up: &mut Option<Candidate>,
) -> (stop: bool)
    requires
        0 <= start <= end <= MAX_COORD,
        pm == (start + end) as int / 2,
        region_length == end - start + 1,
        transcript_scan_wf(*transcript),
        config.wf(),
        j < transcript.exons@.len(),
        -2 * MAX_COORD <= tssd <= 2 * MAX_COORD,
        emitted_from(cands_view(old(out)@), gene_id@, transcript.transcript_id@, strand),
        prox_inv(*old(down), *old(exon_down), Area::Downstream),
        prox_inv(*old(upst), *old(exon_up), Area::Upstream),
        forall|i: int|
            0 <= i < old(introns)@.len() ==> (agg_entry_wf(#[trigger] old(introns)@[i]) && old(
                introns,
            )@[i].candidate@.area == Area::Intron && old(introns)@[i].candidate@.gene == gene_id@
                && old(introns)@[i].candidate@.transcript == transcript.transcript_id@),
        forall|i: int|
            0 <= i < old(gbs)@.len() ==> (agg_entry_wf(#[trigger] old(gbs)@[i])
                && old(gbs)@[i].candidate@.area == Area::GeneBody && old(gbs)@[i].candidate@.gene
                == gene_id@ && old(gbs)@[i].candidate@.transcript == transcript.transcript_id@),
        start <= transcript.exons@[j as int].start <= end && end < transcript.exons@[j as int].end,
    ensures
        scan_state(
            final(out)@,
            final(introns)@,
            final(gbs)@,
            *final(flag),
            *final(down),
            *final(exon_down),
            *final(upst),
            *final(exon_up),
        ) == spec_case_right_edge(
            start as int,
            end as int,
            pm as int,
            region_length as int,
            strand,
            gene_id@,
            *transcript,
            config.tss as int,
            config.tts as int,
            config.promoter as int,
            tssd as int,
            j as int,
            scan_state(
                old(out)@,
                old(introns)@,
                old(gbs)@,
                *old(flag),
                *old(down),
                *old(exon_down),
                *old(upst),
                *old(exon_up),
            ),
        ).0,
        stop == spec_case_right_edge(
            start as int,
            end as int,
            pm as int,
            region_length as int,
            strand,
            gene_id@,
            *transcript,
            config.tss as int,
            config.tts as int,
            config.promoter as int,
            tssd as int,
            j as int,
            scan_state(
                old(out)@,
                old(introns)@,
                old(gbs)@,
                *old(flag),
                *old(down),
                *old(exon_down),
                *old(upst),
                *old(exon_up),
            ),
        ).1,
        emitted_from(cands_view(final(out)@), gene_id@, transcript.transcript_id@, strand),
        prox_inv(*final(down), *final(exon_down), Area::Downstream),
        prox_inv(*final(upst), *final(exon_up), Area::Upstream),
        *final(down) <= *old(down),
        *final(upst) <= *old(upst),
        count_area(cands_view(final(out)@), Area::Downstream) <= count_area(
            cands_view(old(out)@),
            Area::Downstream,
        ) + 1,
        count_area(cands_view(final(out)@), Area::Upstream) <= count_area(
            cands_view(old(out)@),
            Area::Upstream,
        ) + 1,
        (strand == Strand::Positive && j as int != transcript.exons@.len() - 1) ==> (count_area(
            cands_view(final(out)@),
            Area::Downstream,
        ) == count_area(cands_view(old(out)@), Area::Downstream) && *final(down) == *old(down)
            && *final(exon_down) == *old(exon_down)),
        (strand == Strand::Negative && j != 0) ==> (count_area(
            cands_view(final(out)@),
            Area::Downstream,
        ) == count_area(cands_view(old(out)@), Area::Downstream) && *final(down) == *old(down)
            && *final(exon_down) == *old(exon_down)),
        (strand == Strand::Positive && j != 0) ==> (count_area(
            cands_view(final(out)@),
            Area::Upstream,
        ) == count_area(cands_view(old(out)@), Area::Upstream) && *final(upst) == *old(upst)
            && *final(exon_up) == *old(exon_up)),
        (strand == Strand::Negative && j as int != transcript.exons@.len() - 1) ==> (count_area(
            cands_view(final(out)@),
            Area::Upstream,
        ) == count_area(cands_view(old(out)@), Area::Upstream) && *final(upst) == *old(upst)
            && *final(exon_up) == *old(exon_up)),
        count_area(cands_view(final(out)@), Area::Downstream) > count_area(
            cands_view(old(out)@),
            Area::Downstream,
        ) ==> (*final(down) == *old(down) && *final(exon_down) == *old(exon_down)),
        count_area(cands_view(final(out)@), Area::Upstream) > count_area(
            cands_view(old(out)@),
            Area::Upstream,
        ) ==> (*final(upst) == *old(upst) && *final(exon_up) == *old(exon_up)),
        !(*final(down) == *old(down) && *final(exon_down) == *old(exon_down)) ==> (count_area(
            cands_view(final(out)@),
            Area::Downstream,
        ) == count_area(cands_view(old(out)@), Area::Downstream) && ((*final(exon_down)) matches
        Some(c) && c@.gene == gene_id@ && c@.transcript == transcript.transcript_id@)),
        !(*final(upst) == *old(upst) && *final(exon_up) == *old(exon_up)) ==> (count_area(
            cands_view(final(out)@),
            Area::Upstream,
        ) == count_area(cands_view(old(out)@), Area::Upstream) && ((*final(exon_up)) matches Some(
            c,
        ) && c@.gene == gene_id@ && c@.transcript == transcript.transcript_id@)),
        forall|i: int|
            0 <= i < final(introns)@.len() ==> (agg_entry_wf(#[trigger] final(introns)@[i])
                && final(introns)@[i].candidate@.area == Area::Intron
                && final(introns)@[i].candidate@.gene == gene_id@
                && final(introns)@[i].candidate@.transcript == transcript.transcript_id@),
        final(introns)@.len() <= old(introns)@.len() + 1,
        forall|i: int|
            0 <= i < final(gbs)@.len() ==> (agg_entry_wf(#[trigger] final(gbs)@[i])
                && final(gbs)@[i].candidate@.area == Area::GeneBody
                && final(gbs)@[i].candidate@.gene == gene_id@
                && final(gbs)@[i].candidate@.transcript == transcript.transcript_id@),
        final(gbs)@.len() <= old(gbs)@.len() + 1,
{
    let transcript_id = &transcript.transcript_id;
    let n = transcript.exons.len();
    let mut stop = false;
    let exon_start = transcript.exons[j].start;
    let exon_end = transcript.exons[j].end;
    let is_first = j == 0;
    let is_last = j == n - 1;
    let exon_length = exon_end - exon_start + 1;
    let exon_number: String = match &transcript.exons[j].exon_number {
        Some(s) => s.clone(),
        None => String::new(),
    };
    let first_exon = (is_first && strand == Strand::Positive) || (is_last && strand
        == Strand::Negative);
    // the exon overlaps the region's right edge
    *flag = true;
    if start < exon_start && is_first {
        let region_overlap_b = exon_start - start;
        if strand == Strand::Negative {
            emit_down_side(
                out,
                start,
                end,
                exon_start,
                exon_end,
                strand,
                &exon_number,
                transcript_id,
                gene_id,
                0,
                ratio_pct(region_overlap_b, region_length),
                tssd,
                config,
            );
        } else {
            emit_up_side(
                out,
                start,
                end,
                exon_start,
                exon_end,
                strand,
                &exon_number,
                transcript_id,
                gene_id,
                0,
                tssd,
                config,
            );
        }
    }
    let region_overlap = end - exon_start + 1;
    emit_exon_overlap(
        out,
        gbs,
        first_exon,
        exon_start,
        exon_end,
        exon_length,
        region_overlap,
        strand,
        &exon_number,
        transcript_id,
        gene_id,
        ratio_pct(region_overlap, region_length),
        ratio_pct(region_overlap, exon_length),
        tssd,
    );
    stop
}

/// Perform the region-within-the-exon case of one exon, exactly as its
/// specification defines.
#[verifier::rlimit(100)]
#[verifier::spinoff_prover]
fn scan_case_within(
    start: i64,
    end: i64,
    pm: i64,
    region_length: i64,
    strand: Strand,
    gene_id: &String,
    transcript: &Transcript,
    config: &Config,
    tssd: i64,
    j: usize,
    out: &mut Vec<Candidate>,
    introns: &mut Vec<AggEntry>,
    gbs: &mut Vec<AggEntry>,
    flag: &mut bool,
    down: &mut i64,
    exon_down: &mut Option<Candidate>,
    upst: &mut i64,
    exon_up: &mut Option<Candidate>,
) -> (stop: bool)
    requires
        0 <= start <= end <= MAX_COORD,
        pm == (start + end) as int / 2,
        region_length == end - start + 1,
        transcript_scan_wf(*transcript),
        config.wf(),
        j < transcript.exons@.len(),
        -2 * MAX_COORD <= tssd <= 2 * MAX_COORD,
        emitted_from(cands_view(old(out)@), gene_id@, transcript.transcript_id@, strand),
        prox_inv(*old(down), *old(exon_down), Area::Downstream),
        prox_inv(*old(upst), *old(exon_up), Area::Upstream),
        forall|i: int|
            0 <= i < old(introns)@.len() ==> (agg_entry_wf(#[trigger] old(introns)@[i]) && old(
                introns,
            )@[i].candidate@.area == Area::Intron && old(introns)@[i].candidate@.gene == gene_id@
                && old(introns)@[i].candidate@.transcript == transcript.transcript_id@),
        forall|i: int|
            0 <= i < old(gbs)@.len() ==> (agg_entry_wf(#[trigger] old(gbs)@[i])
                && old(gbs)@[i].candidate@.area == Area::GeneBody && old(gbs)@[i].candidate@.gene
                == gene_id@ && old(gbs)@[i].candidate@.transcript == transcript.transcript_id@),
        transcript.exons@[j as int].start <= start <= transcript.exons@[j as int].end && end < transcript.exons@[j as int].end,
    ensures
        scan_state(
            final(out)@,
            final(introns)@,
            final(gbs)@,
            *final(flag),
            *final(down),
            *final(exon_down),
            *final(upst),
            *final(exon_up),
        ) == spec_case_within(
            start as int,
            end as int,
            pm as int,
            region_length as int,
            strand,
            gene_id@,
            *transcript,
            config.tss as int,
            config.tts as int,
            config.promoter as int,
            tssd as int,
            j as int,
            scan_state(
                old(out)@,
                old(introns)@,
                old(gbs)@,
                *old(flag),
                *old(down),
                *old(exon_down),
                *old(upst),
                *old(exon_up),
            ),
        ).0,
        stop == spec_case_within(
            start as int,
            end as int,
            pm as int,
            region_length as int,
            strand,
            gene_id@,
            *transcript,
            config.tss as int,
            config.tts as int,
            config.promoter as int,
            tssd as int,
            j as int,
            scan_state(
                old(out)@,
                old(introns)@,
                old(gbs)@,
                *old(flag),
                *old(down),
                *old(exon_down),
                *old(upst),
                *old(exon_up),
            ),
        ).1,
        emitted_from(cands_view(final(out)@), gene_id@, transcript.transcript_id@, strand),
        prox_inv(*final(down), *final(exon_down), Area::Downstream),
        prox_inv(*final(upst), *final(exon_up), Area::Upstream),
        *final(down) <= *old(down),
        *final(upst) <= *old(upst),
        count_area(cands_view(final(out)@), Area::Downstream) <= count_area(
            cands_view(old(out)@),
            Area::Downstream,
        ) + 1,
        count_area(cands_view(final(out)@), Area::Upstream) <= count_area(
            cands_view(old(out)@),
            Area::Upstream,
        ) + 1,
        (strand == Strand::Positive && j as int != transcript.exons@.len() - 1) ==> (count_area(
            cands_view(final(out)@),
            Area::Downstream,
        ) == count_area(cands_view(old(out)@), Area::Downstream) && *final(down) == *old(down)
            && *final(exon_down) == *old(exon_down)),
        (strand == Strand::Negative && j != 0) ==> (count_area(
            cands_view(final(out)@),
            Area::Downstream,
        ) == count_area(cands_view(old(out)@), Area::Downstream) && *final(down) == *old(down)
            && *final(exon_down) == *old(exon_down)),
        (strand == Strand::Positive && j != 0) ==> (count_area(
            cands_view(final(out)@),
            Area::Upstream,
        ) == count_area(cands_view(old(out)@), Area::Upstream) && *final(upst) == *old(upst)
            && *final(exon_up) == *old(exon_up)),
        (strand == Strand::Negative && j as int != transcript.exons@.len() - 1) ==> (count_area(
            cands_view(final(out)@),
            Area::Upstream,
        ) == count_area(cands_view(old(out)@), Area::Upstream) && *final(upst) == *old(upst)
            && *final(exon_up) == *old(exon_up)),
        count_area(cands_view(final(out)@), Area::Downstream) > count_area(
            cands_view(old(out)@),
            Area::Downstream,
        ) ==> (*final(down) == *old(down) && *final(exon_down) == *old(exon_down)),
        count_area(cands_view(final(out)@), Area::Upstream) > count_area(
            cands_view(old(out)@),
            Area::Upstream,
        ) ==> (*final(upst) == *old(upst) && *final(exon_up) == *old(exon_up)),
        !(*final(down) == *old(down) && *final(exon_down) == *old(exon_down)) ==> (count_area(
            cands_view(final(out)@),
            Area::Downstream,
        ) == count_area(cands_view(old(out)@), Area::Downstream) && ((*final(exon_down)) matches
        Some(c) && c@.gene == gene_id@ && c@.transcript == transcript.transcript_id@)),
        !(*final(upst) == *old(upst) && *final(exon_up) == *old(exon_up)) ==> (count_area(
            cands_view(final(out)@),
            Area::Upstream,
        ) == count_area(cands_view(old(out)@), Area::Upstream) && ((*final(exon_up)) matches Some(
            c,
        ) && c@.gene == gene_id@ && c@.transcript == transcript.transcript_id@)),
        forall|i: int|
            0 <= i < final(introns)@.len() ==> (agg_entry_wf(#[trigger] final(introns)@[i])
                && final(introns)@[i].candidate@.area == Area::Intron
                && final(introns)@[i].candidate@.gene == gene_id@
                && final(introns)@[i].candidate@.transcript == transcript.transcript_id@),
        final(introns)@.len() <= old(introns)@.len() + 1,
        forall|i: int|
            0 <= i < final(gbs)@.len() ==> (agg_entry_wf(#[trigger] final(gbs)@[i])
                && final(gbs)@[i].candidate@.area == Area::GeneBody
                && final(gbs)@[i].candidate@.gene == gene_id@
                && final(gbs)@[i].candidate@.transcript == transcript.transcript_id@),
        final(gbs)@.len() <= old(gbs)@.len() + 1,
{
    let transcript_id = &transcript.transcript_id;
    let n = transcript.exons.len();
    let mut stop = false;
    let exon_start = transcript.exons[j].start;
    let exon_end = transcript.exons[j].end;
    let is_first = j == 0;
    let is_last = j == n - 1;
    let exon_length = exon_end - exon_start + 1;
    let exon_number: String = match &transcript.exons[j].exon_number {
        Some(s) => s.clone(),
        None => String::new(),
    };
    let first_exon = (is_first && strand == Strand::Positive) || (is_last && strand
        == Strand::Negative);
    // the region lies completely within the exon
    *flag = true;
    emit_exon_overlap(
        out,
        gbs,
        first_exon,
        exon_start,
        exon_end,
        exon_length,
        region_length,
        strand,
        &exon_number,
        transcript_id,
        gene_id,
        Pct::whole(100),
        ratio_pct(region_length, exon_length),
        tssd,
    );
    stop
}

/// Perform the past-the-region case of a first exon, exactly as its
/// specification defines.
#[verifier::rlimit(100)]
#[verifier::spinoff_prover]
fn scan_case_after(
    start: i64,
    end: i64,
    pm: i64,
    region_length: i64,
    strand: Strand,
    gene_id: &String,
    transcript: &Transcript,
    config: &Config,
    tssd: i64,
    j: usize,
    out: &mut Vec<Candidate>,
    introns: &mut Vec<AggEntry>,
    gbs: &mut Vec<AggEntry>,
    flag: &mut bool,
    down: &mut i64,
    exon_down: &mut Option<Candidate>,
    upst: &mut i64,
    exon_up: &mut Option<Candidate>,
) -> (stop: bool)
    requires
        0 <= start <= end <= MAX_COORD,
        pm == (start + end) as int / 2,
        region_length == end - start + 1,
        transcript_scan_wf(*transcript),
        config.wf(),
        j < transcript.exons@.len(),
        -2 * MAX_COORD <= tssd <= 2 * MAX_COORD,
        emitted_from(cands_view(old(out)@), gene_id@, transcript.transcript_id@, strand),
        prox_inv(*old(down), *old(exon_down), Area::Downstream),
        prox_inv(*old(upst), *old(exon_up), Area::Upstream),
        forall|i: int|
            0 <= i < old(introns)@.len() ==> (agg_entry_wf(#[trigger] old(introns)@[i]) && old(
                introns,
            )@[i].candidate@.area == Area::Intron && old(introns)@[i].candidate@.gene == gene_id@
                && old(introns)@[i].candidate@.transcript == transcript.transcript_id@),
        forall|i: int|
            0 <= i < old(gbs)@.len() ==> (agg_entry_wf(#[trigger] old(gbs)@[i])
                && old(gbs)@[i].candidate@.area == Area::GeneBody && old(gbs)@[i].candidate@.gene
                == gene_id@ && old(gbs)@[i].candidate@.transcript == transcript.transcript_id@),
        transcript.exons@[j as int].start > end && j == 0,
    ensures
        scan_state(
            final(out)@,
            final(introns)@,
            final(gbs)@,
            *final(flag),
            *final(down),
            *final(exon_down),
            *final(upst),
            *final(exon_up),
        ) == spec_case_after(
            start as int,
            end as int,
            pm as int,
            region_length as int,
            strand,
            gene_id@,
            *transcript,
            config.tss as int,
            config.tts as int,
            config.promoter as int,
            tssd as int,
            j as int,
            scan_state(
                old(out)@,
                old(introns)@,
                old(gbs)@,
                *old(flag),
                *old(down),
                *old(exon_down),
                *old(upst),
                *old(exon_up),
            ),
        ).0,
        stop == spec_case_after(
            start as int,
            end as int,
            pm as int,
            region_length as int,
            strand,
            gene_id@,
            *transcript,
            config.tss as int,
            config.tts as int,
            config.promoter as int,
            tssd as int,
            j as int,
            scan_state(
                old(out)@,
                old(introns)@,
                old(gbs)@,
                *old(flag),
                *old(down),
                *old(exon_down),
                *old(upst),
                *old(exon_up),
            ),
        ).1,
        emitted_from(cands_view(final(out)@), gene_id@, transcript.transcript_id@, strand),
        prox_inv(*final(down), *final(exon_down), Area::Downstream),
        prox_inv(*final(upst), *final(exon_up), Area::Upstream),
        *final(down) <= *old(down),
        *final(upst) <= *old(upst),
        count_area(cands_view(final(out)@), Area::Downstream) <= count_area(
            cands_view(old(out)@),
            Area::Downstream,
        ) + 1,
        count_area(cands_view(final(out)@), Area::Upstream) <= count_area(
            cands_view(old(out)@),
            Area::Upstream,
        ) + 1,
        (strand == Strand::Positive && j as int != transcript.exons@.len() - 1) ==> (count_area(
            cands_view(final(out)@),
            Area::Downstream,
        ) == count_area(cands_view(old(out)@), Area::Downstream) && *final(down) == *old(down)
            && *final(exon_down) == *old(exon_down)),
        (strand == Strand::Negative && j != 0) ==> (count_area(
            cands_view(final(out)@),
            Area::Downstream,
        ) == count_area(cands_view(old(out)@), Area::Downstream) && *final(down) == *old(down)
            && *final(exon_down) == *old(exon_down)),
        (strand == Strand::Positive && j != 0) ==> (count_area(
            cands_view(final(out)@),
            Area::Upstream,
        ) == count_area(cands_view(old(out)@), Area::Upstream) && *final(upst) == *old(upst)
            && *final(exon_up) == *old(exon_up)),
        (strand == Strand::Negative && j as int != transcript.exons@.len() - 1) ==> (count_area(
            cands_view(final(out)@),
            Area::Upstream,
        ) == count_area(cands_view(old(out)@), Area::Upstream) && *final(upst) == *old(upst)
            && *final(exon_up) == *old(exon_up)),
        count_area(cands_view(final(out)@), Area::Downstream) > count_area(
            cands_view(old(out)@),
            Area::Downstream,
        ) ==> (*final(down) == *old(down) && *final(exon_down) == *old(exon_down)),
        count_area(cands_view(final(out)@), Area::Upstream) > count_area(
            cands_view(old(out)@),
            Area::Upstream,
        ) ==> (*final(upst) == *old(upst) && *final(exon_up) == *old(exon_up)),
        !(*final(down) == *old(down) && *final(exon_down) == *old(exon_down)) ==> (count_area(
            cands_view(final(out)@),
            Area::Downstream,
        ) == count_area(cands_view(old(out)@), Area::Downstream) && ((*final(exon_down)) matches
        Some(c) && c@.gene == gene_id@ && c@.transcript == transcript.transcript_id@)),
        !(*final(upst) == *old(upst) && *final(exon_up) == *old(exon_up)) ==> (count_area(
            cands_view(final(out)@),
            Area::Upstream,
        ) == count_area(cands_view(old(out)@), Area::Upstream) && ((*final(exon_up)) matches Some(
            c,
        ) && c@.gene == gene_id@ && c@.transcript == transcript.transcript_id@)),
        forall|i: int|
            0 <= i < final(introns)@.len() ==> (agg_entry_wf(#[trigger] final(introns)@[i])
                && final(introns)@[i].candidate@.area == Area::Intron
                && final(introns)@[i].candidate@.gene == gene_id@
                && final(introns)@[i].candidate@.transcript == transcript.transcript_id@),
        final(introns)@.len() <= old(introns)@.len() + 1,
        forall|i: int|
            0 <= i < final(gbs)@.len() ==> (agg_entry_wf(#[trigger] final(gbs)@[i])
                && final(gbs)@[i].candidate@.area == Area::GeneBody
                && final(gbs)@[i].candidate@.gene == gene_id@
                && final(gbs)@[i].candidate@.transcript == transcript.transcript_id@),
        final(gbs)@.len() <= old(gbs)@.len() + 1,
{
    let transcript_id = &transcript.transcript_id;
    let n = transcript.exons.len();
    let mut stop = false;
    let exon_start = transcript.exons[j].start;
    let exon_end = transcript.exons[j].end;
    let is_first = j == 0;
    let is_last = j == n - 1;
    let exon_length = exon_end - exon_start + 1;
    let exon_number: String = match &transcript.exons[j].exon_number {
        Some(s) => s.clone(),
        None => String::new(),
    };
    let first_exon = (is_first && strand == Strand::Positive) || (is_last && strand
        == Strand::Negative);
    // the exon lies entirely past the region
    let dist_tmp = exon_start - pm;
    if strand == Strand::Negative && dist_tmp < *down {
        *down = dist_tmp;
        *exon_down = Some(
            Candidate::new(
                exon_start,
                exon_end,
                strand,
                exon_number.clone(),
                Area::Downstream,
                transcript_id.clone(),
                gene_id.clone(),
                dist_tmp,
                Pct::whole(100),
                Pct::not_applicable(),
                tssd,
            ),
        );
    } else if strand == Strand::Positive && dist_tmp < *upst {
        *upst = dist_tmp;
        *exon_up = Some(
            Candidate::new(
                exon_start,
                exon_end,
                strand,
                exon_number.clone(),
                Area::Upstream,
                transcript_id.clone(),
                gene_id.clone(),
                dist_tmp,
                Pct::whole(100),
                Pct::not_applicable(),
                tssd,
            ),
        );
    }
    if *down <= dist_tmp && *upst <= dist_tmp {
        stop = true;
    }
    stop
}

/// Perform one exon of the scan on the mutable state, exactly as
/// [`spec_scan_step`] defines; returns whether the scan of this
/// transcript stops here.
#[verifier::rlimit(100)]
#[verifier::spinoff_prover]
fn scan_exon_step(
    start: i64,
    end: i64,
    pm: i64,
    region_length: i64,
    strand: Strand,
    gene_id: &String,
    transcript: &Transcript,
    config: &Config,
    tssd: i64,
    j: usize,
    out: &mut Vec<Candidate>,
    introns: &mut Vec<AggEntry>,
    gbs: &mut Vec<AggEntry>,
    flag: &mut bool,
    down: &mut i64,
    exon_down: &mut Option<Candidate>,
    upst: &mut i64,
    exon_up: &mut Option<Candidate>,
) -> (stop: bool)
    requires
        0 <= start <= end <= MAX_COORD,
        pm == (start + end) as int / 2,
        region_length == end - start + 1,
        transcript_scan_wf(*transcript),
        config.wf(),
        j < transcript.exons@.len(),
        -2 * MAX_COORD <= tssd <= 2 * MAX_COORD,
        emitted_from(cands_view(old(out)@), gene_id@, transcript.transcript_id@, strand),
        prox_inv(*old(down), *old(exon_down), Area::Downstream),
        prox_inv(*old(upst), *old(exon_up), Area::Upstream),
        forall|i: int|
            0 <= i < old(introns)@.len() ==> (agg_entry_wf(#[trigger] old(introns)@[i]) && old(
                introns,
            )@[i].candidate@.area == Area::Intron && old(introns)@[i].candidate@.gene == gene_id@
                && old(introns)@[i].candidate@.transcript == transcript.transcript_id@),
        forall|i: int|
            0 <= i < old(gbs)@.len() ==> (agg_entry_wf(#[trigger] old(gbs)@[i])
                && old(gbs)@[i].candidate@.area == Area::GeneBody && old(gbs)@[i].candidate@.gene
                == gene_id@ && old(gbs)@[i].candidate@.transcript == transcript.transcript_id@),
    ensures
        scan_state(
            final(out)@,
            final(introns)@,
            final(gbs)@,
            *final(flag),
            *final(down),
            *final(exon_down),
            *final(upst),
            *final(exon_up),
        ) == spec_scan_step(
            start as int,
            end as int,
            pm as int,
            region_length as int,
            strand,
            gene_id@,
            *transcript,
            config.tss as int,
            config.tts as int,
            config.promoter as int,
            tssd as int,
            j as int,
            scan_state(
                old(out)@,
                old(introns)@,
                old(gbs)@,
                *old(flag),
                *old(down),
                *old(exon_down),
                *old(upst),
                *old(exon_up),
            ),
        ).0,
        stop == spec_scan_step(
            start as int,
            end as int,
            pm as int,
            region_length as int,
            strand,
            gene_id@,
            *transcript,
            config.tss as int,
            config.tts as int,
            config.promoter as int,
            tssd as int,
            j as int,
            scan_state(
                old(out)@,
                old(introns)@,
                old(gbs)@,
                *old(flag),
                *old(down),
                *old(exon_down),
                *old(upst),
                *old(exon_up),
            ),
        ).1,
        emitted_from(cands_view(final(out)@), gene_id@, transcript.transcript_id@, strand),
        prox_inv(*final(down), *final(exon_down), Area::Downstream),
        prox_inv(*final(upst), *final(exon_up), Area::Upstream),
        *final(down) <= *old(down),
        *final(upst) <= *old(upst),
        count_area(cands_view(final(out)@), Area::Downstream) <= count_area(
            cands_view(old(out)@),
            Area::Downstream,
        ) + 1,
        count_area(cands_view(final(out)@), Area::Upstream) <= count_area(
            cands_view(old(out)@),
            Area::Upstream,
        ) + 1,
        (strand == Strand::Positive && j as int != transcript.exons@.len() - 1) ==> (count_area(
            cands_view(final(out)@),
            Area::Downstream,
        ) == count_area(cands_view(old(out)@), Area::Downstream) && *final(down) == *old(down)
            && *final(exon_down) == *old(exon_down)),
        (strand == Strand::Negative && j != 0) ==> (count_area(
            cands_view(final(out)@),
            Area::Downstream,
        ) == count_area(cands_view(old(out)@), Area::Downstream) && *final(down) == *old(down)
            && *final(exon_down) == *old(exon_down)),
        (strand == Strand::Positive && j != 0) ==> (count_area(
            cands_view(final(out)@),
            Area::Upstream,
        ) == count_area(cands_view(old(out)@), Area::Upstream) && *final(upst) == *old(upst)
            && *final(exon_up) == *old(exon_up)),
        (strand == Strand::Negative && j as int != transcript.exons@.len() - 1) ==> (count_area(
            cands_view(final(out)@),
            Area::Upstream,
        ) == count_area(cands_view(old(out)@), Area::Upstream) && *final(upst) == *old(upst)
            && *final(exon_up) == *old(exon_up)),
        count_area(cands_view(final(out)@), Area::Downstream) > count_area(
            cands_view(old(out)@),
            Area::Downstream,
        ) ==> (*final(down) == *old(down) && *final(exon_down) == *old(exon_down)),
        count_area(cands_view(final(out)@), Area::Upstream) > count_area(
            cands_view(old(out)@),
            Area::Upstream,
        ) ==> (*final(upst) == *old(upst) && *final(exon_up) == *old(exon_up)),
        !(*final(down) == *old(down) && *final(exon_down) == *old(exon_down)) ==> (count_area(
            cands_view(final(out)@),
            Area::Downstream,
        ) == count_area(cands_view(old(out)@), Area::Downstream) && ((*final(exon_down)) matches
        Some(c) && c@.gene == gene_id@ && c@.transcript == transcript.transcript_id@)),
        !(*final(upst) == *old(upst) && *final(exon_up) == *old(exon_up)) ==> (count_area(
            cands_view(final(out)@),
            Area::Upstream,
        ) == count_area(cands_view(old(out)@), Area::Upstream) && ((*final(exon_up)) matches Some(
            c,
        ) && c@.gene == gene_id@ && c@.transcript == transcript.transcript_id@)),
        forall|i: int|
            0 <= i < final(introns)@.len() ==> (agg_entry_wf(#[trigger] final(introns)@[i])
                && final(introns)@[i].candidate@.area == Area::Intron
                && final(introns)@[i].candidate@.gene == gene_id@
                && final(introns)@[i].candidate@.transcript == transcript.transcript_id@),
        final(introns)@.len() <= old(introns)@.len() + 1,
        forall|i: int|
            0 <= i < final(gbs)@.len() ==> (agg_entry_wf(#[trigger] final(gbs)@[i])
                && final(gbs)@[i].candidate@.area == Area::GeneBody
                && final(gbs)@[i].candidate@.gene == gene_id@
                && final(gbs)@[i].candidate@.transcript == transcript.transcript_id@),
        final(gbs)@.len() <= old(gbs)@.len() + 1,
{
    let exon_start = transcript.exons[j].start;
    let exon_end = transcript.exons[j].end;
    let is_first = j == 0;
    if exon_end < start {
        scan_case_before(
            start, end, pm, region_length, strand, gene_id, transcript, config, tssd, j, out,
            introns, gbs, flag, down, exon_down, upst, exon_up,
        )
    } else if start <= exon_end && exon_end <= end && exon_start < start {
        scan_case_left_edge(
            start, end, pm, region_length, strand, gene_id, transcript, config, tssd, j, out,
            introns, gbs, flag, down, exon_down, upst, exon_up,
        )
    } else if start <= exon_start && end >= exon_end {
        scan_case_inside(
            start, end, pm, region_length, strand, gene_id, transcript, config, tssd, j, out,
            introns, gbs, flag, down, exon_down, upst, exon_up,
        )
    } else if start <= exon_start && exon_start <= end && end < exon_end {
        scan_case_right_edge(
            start, end, pm, region_length, strand, gene_id, transcript, config, tssd, j, out,
            introns, gbs, flag, down, exon_down, upst, exon_up,
        )
    } else if exon_start <= start && start <= exon_end && end < exon_end {
        scan_case_within(
            start, end, pm, region_length, strand, gene_id, transcript, config, tssd, j, out,
            introns, gbs, flag, down, exon_down, upst, exon_up,
        )
    } else if exon_start > end && is_first {
        scan_case_after(
            start, end, pm, region_length, strand, gene_id, transcript, config, tssd, j, out,
            introns, gbs, flag, down, exon_down, upst, exon_up,
        )
    } else {
        false
    }
}

/// Classify one transcript's exons against the region, exactly as
/// [`spec_scan_exons`] defines: the returned emissions, intron and
/// gene-body fragments, overlap flag, and the updated proximity trackers
/// are the scan of the exons from the first onward, starting from empty
/// accumulators and the given trackers. Returns `(emissions, intron
/// fragments, gene-body fragments, overlapped)`.
fn process_transcript(
    start: i64,
    end: i64,
    pm: i64,
    region_length: i64,
    strand: Strand,
    gene_id: &String,
    transcript: &Transcript,
    config: &Config,
    down: &mut i64,
    exon_down: &mut Option<Candidate>,
    upst: &mut i64,
    exon_up: &mut Option<Candidate>,
) -> (r: (Vec<Candidate>, Vec<AggEntry>, Vec<AggEntry>, bool))
    requires
        0 <= start <= end <= MAX_COORD,
        pm == (start + end) as int / 2,
        region_length == end - start + 1,
        transcript_scan_wf(*transcript),
        config.wf(),
        prox_inv(*old(down), *old(exon_down), Area::Downstream),
        prox_inv(*old(upst), *old(exon_up), Area::Upstream),
    ensures
        scan_state(
            r.0@,
            r.1@,
            r.2@,
            r.3,
            *final(down),
            *final(exon_down),
            *final(upst),
            *final(exon_up),
        ) == spec_scan_exons(
            start as int,
            end as int,
            pm as int,
            region_length as int,
            strand,
            gene_id@,
            *transcript,
            config.tss as int,
            config.tts as int,
            config.promoter as int,
            spec_tss_distance(*transcript, pm as int),
            0,
            ExonScan {
                ems: Seq::empty(),
                introns: Seq::empty(),
                gbs: Seq::empty(),
                flag: false,
                down: *old(down) as int,
                exon_down: opt_cand_view(*old(exon_down)),
                upst: *old(upst) as int,
                exon_up: opt_cand_view(*old(exon_up)),
            },
        ),
        emitted_from(cands_view(r.0@), gene_id@, transcript.transcript_id@, strand),
        count_area(cands_view(r.0@), Area::Downstream) + prox_changed(
            *final(down),
            *final(exon_down),
            *old(down),
            *old(exon_down),
        ) <= 1,
        count_area(cands_view(r.0@), Area::Upstream) + prox_changed(
            *final(upst),
            *final(exon_up),
            *old(upst),
            *old(exon_up),
        ) <= 1,
        prox_inv(*final(down), *final(exon_down), Area::Downstream),
        prox_inv(*final(upst), *final(exon_up), Area::Upstream),
        *final(down) <= *old(down),
        *final(upst) <= *old(upst),
        prox_changed(*final(down), *final(exon_down), *old(down), *old(exon_down)) == 1
            ==> ((*final(exon_down)) matches Some(c) && c@.gene == gene_id@
                && c@.transcript == transcript.transcript_id@),
        prox_changed(*final(upst), *final(exon_up), *old(upst), *old(exon_up)) == 1
            ==> ((*final(exon_up)) matches Some(c) && c@.gene == gene_id@
                && c@.transcript == transcript.transcript_id@),
        forall|i: int|
            0 <= i < r.1@.len() ==> (agg_entry_wf(#[trigger] r.1@[i]) && r.1@[i].candidate@.area
                == Area::Intron && r.1@[i].candidate@.gene == gene_id@
                && r.1@[i].candidate@.transcript == transcript.transcript_id@),
        r.1@.len() <= transcript.exons@.len(),
        forall|i: int|
            0 <= i < r.2@.len() ==> (agg_entry_wf(#[trigger] r.2@[i]) && r.2@[i].candidate@.area
                == Area::GeneBody && r.2@[i].candidate@.gene == gene_id@
                && r.2@[i].candidate@.transcript == transcript.transcript_id@),
        r.2@.len() <= transcript.exons@.len(),
{
    let tssd = transcript_tss_distance(transcript, pm);
    let n = transcript.exons.len();
    let mut out: Vec<Candidate> = Vec::new();
    let mut introns: Vec<AggEntry> = Vec::new();
    let mut gbs: Vec<AggEntry> = Vec::new();
    let mut flag = false;
    let mut j: usize = 0;
    let ghost init = ExonScan {
        ems: Seq::empty(),
        introns: Seq::empty(),
        gbs: Seq::empty(),
        flag: false,
        down: *old(down) as int,
        exon_down: opt_cand_view(*old(exon_down)),
        upst: *old(upst) as int,
        exon_up: opt_cand_view(*old(exon_up)),
    };
    let ghost target = spec_scan_exons(
        start as int,
        end as int,
        pm as int,
        region_length as int,
        strand,
        gene_id@,
        *transcript,
        config.tss as int,
        config.tts as int,
        config.promoter as int,
        tssd as int,
        0,
        init,
    );
    proof {
        assert(cands_view(out@) =~= Seq::<CandidateModel>::empty());
        assert(entries_view(introns@) =~= Seq::<AggEntryModel>::empty());
        assert(entries_view(gbs@) =~= Seq::<AggEntryModel>::empty());
        assert(scan_state(out@, introns@, gbs@, flag, *down, *exon_down, *upst, *exon_up) =~~= init);
        lemma_count_area_empty(Area::Downstream);
        lemma_count_area_empty(Area::Upstream);
    }
    while j < n
        invariant_except_break
            introns@.len() <= j,
            gbs@.len() <= j,
            strand == Strand::Positive ==> (j < n ==> count_area(
                cands_view(out@),
                Area::Downstream,
            ) + prox_changed(*down, *exon_down, *old(down), *old(exon_down)) == 0),
            strand == Strand::Negative ==> (j < 1 ==> count_area(cands_view(out@), Area::Downstream)
                + prox_changed(*down, *exon_down, *old(down), *old(exon_down)) == 0),
            strand == Strand::Positive ==> (j < 1 ==> count_area(cands_view(out@), Area::Upstream)
                + prox_changed(*upst, *exon_up, *old(upst), *old(exon_up)) == 0),
            strand == Strand::Negative ==> (j < n ==> count_area(cands_view(out@), Area::Upstream)
                + prox_changed(*upst, *exon_up, *old(upst), *old(exon_up)) == 0),
            spec_scan_exons(
                start as int,
                end as int,
                pm as int,
                region_length as int,
                strand,
                gene_id@,
                *transcript,
                config.tss as int,
                config.tts as int,
                config.promoter as int,
                tssd as int,
                j as int,
                scan_state(out@, introns@, gbs@, flag, *down, *exon_down, *upst, *exon_up),
            ) == target,
        invariant
            j <= n,
            n == transcript.exons@.len(),
            0 <= start <= end <= MAX_COORD,
            pm == (start + end) as int / 2,
            region_length == end - start + 1,
            transcript_scan_wf(*transcript),
            config.wf(),
            -2 * MAX_COORD <= tssd <= 2 * MAX_COORD,
            target == spec_scan_exons(
                start as int,
                end as int,
                pm as int,
                region_length as int,
                strand,
                gene_id@,
                *transcript,
                config.tss as int,
                config.tts as int,
                config.promoter as int,
                tssd as int,
                0,
                init,
            ),
            emitted_from(cands_view(out@), gene_id@, transcript.transcript_id@, strand),
            count_area(cands_view(out@), Area::Downstream) + prox_changed(
                *down,
                *exon_down,
                *old(down),
                *old(exon_down),
            ) <= 1,
            count_area(cands_view(out@), Area::Upstream) + prox_changed(
                *upst,
                *exon_up,
                *old(upst),
                *old(exon_up),
            ) <= 1,
            prox_inv(*down, *exon_down, Area::Downstream),
            prox_inv(*upst, *exon_up, Area::Upstream),
            *down <= *old(down),
            *upst <= *old(upst),
            prox_changed(*down, *exon_down, *old(down), *old(exon_down)) == 1 ==> ((*exon_down)
                matches Some(c) && c@.gene == gene_id@ && c@.transcript
                == transcript.transcript_id@),
            prox_changed(*upst, *exon_up, *old(upst), *old(exon_up)) == 1 ==> ((*exon_up) matches
                Some(c) && c@.gene == gene_id@ && c@.transcript == transcript.transcript_id@),
            forall|i: int|
                0 <= i < introns@.len() ==> (agg_entry_wf(#[trigger] introns@[i])
                    && introns@[i].candidate@.area == Area::Intron && introns@[i].candidate@.gene
                    == gene_id@ && introns@[i].candidate@.transcript
                    == transcript.transcript_id@),
            introns@.len() <= n,
            forall|i: int|
                0 <= i < gbs@.len() ==> (agg_entry_wf(#[trigger] gbs@[i]) && gbs@[i].candidate@.area
                    == Area::GeneBody && gbs@[i].candidate@.gene == gene_id@
                    && gbs@[i].candidate@.transcript == transcript.transcript_id@),
            gbs@.len() <= n,
        ensures
            scan_state(out@, introns@, gbs@, flag, *down, *exon_down, *upst, *exon_up) == target,
        decreases n - j,
    {
        let ghost cur0 = scan_state(out@, introns@, gbs@, flag, *down, *exon_down, *upst, *exon_up);
        let stop = scan_exon_step(
            start,
            end,
            pm,
            region_length,
            strand,
            gene_id,
            transcript,
            config,
            tssd,
            j,
            &mut out,
            &mut introns,
            &mut gbs,
            &mut flag,
            down,
            exon_down,
            upst,
            exon_up,
        );
        proof {
            let cur1 = scan_state(out@, introns@, gbs@, flag, *down, *exon_down, *upst, *exon_up);
            let step = spec_scan_step(
                start as int,
                end as int,
                pm as int,
                region_length as int,
                strand,
                gene_id@,
                *transcript,
                config.tss as int,
                config.tts as int,
                config.promoter as int,
                tssd as int,
                j as int,
                cur0,
            );
            assert(cur1 == step.0);
            assert(stop == step.1);
            if stop {
                assert(spec_scan_exons(
                    start as int,
                    end as int,
                    pm as int,
                    region_length as int,
                    strand,
                    gene_id@,
                    *transcript,
                    config.tss as int,
                    config.tts as int,
                    config.promoter as int,
                    tssd as int,
                    j as int,
                    cur0,
                ) == cur1);
            } else {
                assert(spec_scan_exons(
                    start as int,
                    end as int,
                    pm as int,
                    region_length as int,
                    strand,
                    gene_id@,
                    *transcript,
                    config.tss as int,
                    config.tts as int,
                    config.promoter as int,
                    tssd as int,
                    j as int,
                    cur0,
                ) == spec_scan_exons(
                    start as int,
                    end as int,
                    pm as int,
                    region_length as int,
                    strand,
                    gene_id@,
                    *transcript,
                    config.tss as int,
                    config.tts as int,
                    config.promoter as int,
                    tssd as int,
                    j + 1,
                    cur1,
                ));
            }
        }
        if stop {
            break;
        }
        j += 1;
    }
    proof {
        assert(scan_state(out@, introns@, gbs@, flag, *down, *exon_down, *upst, *exon_up)
            == target);
    }
    (out, introns, gbs, flag)
}


// ---------- grouping and report-level reduction ----------

/// Grouping of candidate positions by key, in order of first appearance:
/// scanning left to right, a candidate extends its key's group or opens a
/// new one at the end.
pub open spec fn spec_group_by(cands: Seq<CandidateModel>, by_gene: bool) -> Seq<GroupModel>
    decreases cands.len(),
{
    if cands.len() == 0 {
        Seq::empty()
    } else {
        let prev = spec_group_by(cands.drop_last(), by_gene);
        let k = crate::matcher::rules::spec_key_of(by_gene, cands.last());
        let idx = cands.len() - 1;
        if exists|g: int| 0 <= g < prev.len() && prev[g].0 == k {
            let g = choose|g: int| 0 <= g < prev.len() && prev[g].0 == k;
            prev.update(g, (k, prev[g].1.push(idx)))
        } else {
            prev.push((k, seq![idx]))
        }
    }
}

/// The grouping the builder produces has distinct keys and in-range
/// positions.
proof fn lemma_group_by_wf(cands: Seq<CandidateModel>, by_gene: bool)
    ensures
        distinct_keys(spec_group_by(cands, by_gene)),
        positions_in_range(spec_group_by(cands, by_gene), cands.len() as int),
    decreases cands.len(),
{
    if cands.len() > 0 {
        lemma_group_by_wf(cands.drop_last(), by_gene);
        let prev = spec_group_by(cands.drop_last(), by_gene);
        let k = crate::matcher::rules::spec_key_of(by_gene, cands.last());
        if exists|g: int| 0 <= g < prev.len() && prev[g].0 == k {
        } else {
        }
    }
}

/// Build the grouping of the candidates by transcript or gene id, in
/// order of first appearance, exactly as [`spec_group_by`] defines.
fn group_by_key(candidates: &Vec<Candidate>, by_gene: bool) -> (r: Vec<(String, Vec<usize>)>)
    ensures
        groups_view(r@) == spec_group_by(cands_view(candidates@), by_gene),
        distinct_keys(groups_view(r@)),
        positions_in_range(groups_view(r@), candidates@.len() as int),
{
    let ghost cm = cands_view(candidates@);
    let n = candidates.len();
    let mut groups: Vec<(String, Vec<usize>)> = Vec::new();
    let mut i: usize = 0;
    proof {
        assert(cm.take(0) =~= Seq::<CandidateModel>::empty());
        assert(groups_view(groups@) =~= Seq::<GroupModel>::empty());
        assert(groups_view(groups@) == spec_group_by(cm.take(0), by_gene));
    }
    while i < n
        invariant
            i <= n,
            n == candidates@.len(),
            cm == cands_view(candidates@),
            groups_view(groups@) == spec_group_by(cm.take(i as int), by_gene),
        decreases n - i,
    {
        proof {
            assert(cm.take(i + 1).drop_last() =~= cm.take(i as int));
            assert(cm.take(i + 1).last() == cm[i as int]);
            assert(cm[i as int] == candidates@[i as int]@);
        }
        let key = if by_gene {
            &candidates[i].gene
        } else {
            &candidates[i].transcript
        };
        let ghost gm0 = groups_view(groups@);
        let ghost k = crate::matcher::rules::spec_key_of(by_gene, cm[i as int]);
        match find_group_idx(&groups, key) {
            Some(g) => {
                proof {
                    assert(gm0[g as int].0 == k);
                    assert(exists|q: int| 0 <= q < gm0.len() && gm0[q].0 == k);
                    let q = choose|q: int| 0 <= q < gm0.len() && gm0[q].0 == k;
                    lemma_group_by_wf(cm.take(i as int), by_gene);
                    if q != g as int {
                        assert(false);
                    }
                }
                let ghost groups0 = groups@;
                let mut entry = groups.remove(g);
                entry.1.push(i);
                groups.insert(g, entry);
                proof {
                    assert(groups@ =~= groups0.update(g as int, groups@[g as int]));
                    assert(groups_view(groups@) =~~= gm0.update(
                        g as int,
                        (k, gm0[g as int].1.push(i as int)),
                    ));
                }
            },
            None => {
                let mut positions: Vec<usize> = Vec::new();
                positions.push(i);
                groups.push((key.clone(), positions));
                proof {
                    assert(groups_view(groups@) =~~= gm0.push((k, seq![i as int])));
                }
            },
        }
        i += 1;
    }
    proof {
        assert(cm.take(n as int) =~= cm);
        lemma_group_by_wf(cm, by_gene);
    }
    groups
}

/// The index of the group with this key, scanning from the left.
fn find_group_idx(groups: &Vec<(String, Vec<usize>)>, key: &String) -> (r: Option<usize>)
    ensures
        r matches Some(g) ==> 0 <= g < groups@.len() && groups_view(groups@)[g as int].0 == key@,
        r is None ==> forall|g: int|
            0 <= g < groups@.len() ==> groups_view(groups@)[g].0 != key@,
{
    let n = groups.len();
    let mut i: usize = 0;
    while i < n
        invariant
            i <= n,
            n == groups@.len(),
            forall|g: int| 0 <= g < i ==> groups_view(groups@)[g].0 != key@,
        decreases n - i,
    {
        if groups[i].0.eq(key) {
            return Some(i);
        }
        proof {
            assert(groups_view(groups@)[i as int].0 == groups@[i as int].0@);
        }
        i += 1;
    }
    None
}

/// What reducing a region's candidates to the configured granularity
/// yields: at exon level every raw candidate; at transcript level the
/// per-transcript winners of the tie-break rules; at gene level the best
/// transcript per gene among those winners.
pub open spec fn spec_process_candidates(
    cands: Seq<CandidateModel>,
    level: ReportLevel,
    perc_region: Pct,
    perc_area: Pct,
    rules: Seq<Area>,
) -> Seq<CandidateModel> {
    match level {
        ReportLevel::Exon => cands,
        ReportLevel::Transcript => spec_apply_rules(
            cands,
            spec_group_by(cands, false),
            perc_region,
            perc_area,
            rules,
        ),
        ReportLevel::Gene => {
            let per_transcript = spec_apply_rules(
                cands,
                spec_group_by(cands, false),
                perc_region,
                perc_area,
                rules,
            );
            spec_select_transcript(per_transcript, spec_group_by(per_transcript, true), rules)
        },
    }
}

/// Reduce a region's candidates to the configured report granularity,
/// exactly as [`spec_process_candidates`] defines: exon level reports
/// every raw candidate, transcript level the best candidate per
/// transcript, gene level the best transcript per gene.
pub fn process_candidates_for_output(candidates: Vec<Candidate>, config: &Config) -> (r: Vec<
    Candidate,
>)
    ensures
        cands_view(r@) == spec_process_candidates(
            cands_view(candidates@),
            config.level,
            config.perc_region,
            config.perc_area,
            config.rules@,
        ),
{
    match config.level {
        ReportLevel::Exon => candidates,
        ReportLevel::Transcript => {
            let by_transcript = group_by_key(&candidates, false);
            apply_rules(&candidates, &by_transcript, config.perc_region, config.perc_area, &config.rules)
        },
        ReportLevel::Gene => {
            let by_transcript = group_by_key(&candidates, false);
            let per_transcript = apply_rules(
                &candidates,
                &by_transcript,
                config.perc_region,
                config.perc_area,
                &config.rules,
            );
            let by_gene = group_by_key(&per_transcript, true);
            select_transcript(&per_transcript, &by_gene, &config.rules)
        },
    }
}


// ---------- the per-region scan ----------

/// Per-key counting distributes over concatenation.
proof fn lemma_count_key_area_add(
    s: Seq<CandidateModel>,
    t: Seq<CandidateModel>,
    gene: Seq<char>,
    transcript: Seq<char>,
    a: Area,
)
    ensures
        count_key_area(s + t, gene, transcript, a) == count_key_area(s, gene, transcript, a)
            + count_key_area(t, gene, transcript, a),
    decreases t.len(),
{
    reveal(Seq::filter);
    if t.len() == 0 {
        assert(s + t =~= s);
    } else {
        lemma_count_key_area_add(s, t.drop_last(), gene, transcript, a);
        lemma_count_key_area_push(s + t.drop_last(), t.last(), gene, transcript, a);
        lemma_count_key_area_push(t.drop_last(), t.last(), gene, transcript, a);
        assert((s + t.drop_last()).push(t.last()) =~= s + t);
        assert(t.drop_last().push(t.last()) =~= t);
    }
}

/// For a sequence whose elements all carry one gene-transcript pair, the
/// per-key count is the area count at that key and zero elsewhere.
proof fn lemma_count_key_uniform(
    s: Seq<CandidateModel>,
    g0: Seq<char>,
    t0: Seq<char>,
    gene: Seq<char>,
    transcript: Seq<char>,
    a: Area,
)
    requires
        forall|k: int| 0 <= k < s.len() ==> (#[trigger] s[k]).gene == g0 && s[k].transcript == t0,
    ensures
        count_key_area(s, gene, transcript, a) == if gene == g0 && transcript == t0 {
            count_area(s, a)
        } else {
            0int
        },
    decreases s.len(),
{
    reveal(Seq::filter);
    if s.len() > 0 {
        lemma_count_key_uniform(s.drop_last(), g0, t0, gene, transcript, a);
        lemma_count_key_area_push(s.drop_last(), s.last(), gene, transcript, a);
        lemma_count_area_push(s.drop_last(), s.last(), a);
        assert(s.drop_last().push(s.last()) =~= s);
    }
}

/// A sequence without candidates of this area contributes nothing to any
/// per-key count of it.
proof fn lemma_count_key_no_area(s: Seq<CandidateModel>, a: Area)
    requires
        forall|k: int| 0 <= k < s.len() ==> (#[trigger] s[k]).area != a,
    ensures
        forall|gene: Seq<char>, transcript: Seq<char>|
            count_key_area(s, gene, transcript, a) == 0,
    decreases s.len(),
{
    reveal(Seq::filter);
    if s.len() > 0 {
        lemma_count_key_no_area(s.drop_last(), a);
        assert forall|gene: Seq<char>, transcript: Seq<char>|
            count_key_area(s, gene, transcript, a) == 0 by {
            lemma_count_key_area_push(s.drop_last(), s.last(), gene, transcript, a);
            assert(s.drop_last().push(s.last()) =~= s);
        }
    }
}

/// The per-key count never exceeds the area count.
proof fn lemma_count_key_le_area(
    s: Seq<CandidateModel>,
    gene: Seq<char>,
    transcript: Seq<char>,
    a: Area,
)
    ensures
        0 <= count_key_area(s, gene, transcript, a) <= count_area(s, a),
    decreases s.len(),
{
    reveal(Seq::filter);
    if s.len() > 0 {
        lemma_count_key_le_area(s.drop_last(), gene, transcript, a);
        lemma_count_key_area_push(s.drop_last(), s.last(), gene, transcript, a);
        lemma_count_area_push(s.drop_last(), s.last(), a);
        assert(s.drop_last().push(s.last()) =~= s);
    }
}

/// Machine bounds the classifier needs of every gene: coordinates in
/// range and every transcript fit for scanning.
pub open spec fn genes_scan_wf(genes: Seq<Gene>) -> bool {
    forall|i: int|
        0 <= i < genes.len() ==> (coord_ok((#[trigger] genes[i]).start as int) && coord_ok(
            genes[i].end as int,
        ) && (forall|t: int|
            0 <= t < genes[i].transcripts@.len() ==> transcript_scan_wf(
                #[trigger] genes[i].transcripts@[t],
            )))
}

/// Distinct gene-transcript identifier pairs across the whole gene array:
/// no two different (gene, transcript) positions carry the same pair of
/// id strings (as unique annotation identifiers guarantee).
pub open spec fn distinct_pairs(genes: Seq<Gene>) -> bool {
    forall|a: int, b: int, a2: int, b2: int|
        0 <= a < genes.len() && 0 <= b < genes[a].transcripts@.len() && 0 <= a2 < genes.len() && 0
            <= b2 < genes[a2].transcripts@.len() && !(a == a2 && b == b2) ==> !(genes[a].gene_id@
            == genes[a2].gene_id@ && (#[trigger] genes[a].transcripts@[b]).transcript_id@ == (
        #[trigger] genes[a2].transcripts@[b2]).transcript_id@)
}

/// No more than one Downstream and one Upstream candidate per
/// gene-transcript key.
pub open spec fn per_key_bounded(ov: Seq<CandidateModel>) -> bool {
    forall|gene: Seq<char>, transcript: Seq<char>|
        #![trigger count_key_area(ov, gene, transcript, Area::Downstream)]
        #![trigger count_key_area(ov, gene, transcript, Area::Upstream)]
        count_key_area(ov, gene, transcript, Area::Downstream) <= 1 && count_key_area(
            ov,
            gene,
            transcript,
            Area::Upstream,
        ) <= 1
}

/// The keys of the pairs at or past scan position `(i, t)` have no
/// Downstream or Upstream candidates yet.
pub open spec fn fresh_from(ov: Seq<CandidateModel>, genes: Seq<Gene>, i: int, t: int) -> bool {
    forall|a: int, b: int|
        0 <= a < genes.len() && 0 <= b < genes[a].transcripts@.len() && (a > i || (a == i && b
            >= t)) ==> count_key_area(
            ov,
            genes[a].gene_id@,
            (#[trigger] genes[a].transcripts@[b]).transcript_id@,
            Area::Downstream,
        ) == 0 && count_key_area(
            ov,
            genes[a].gene_id@,
            genes[a].transcripts@[b].transcript_id@,
            Area::Upstream,
        ) == 0
}

/// A tracked proximity candidate's key has no candidate of its area in
/// the output yet, and its key is the id pair of a pair already scanned.
pub open spec fn tracker_fresh(
    ov: Seq<CandidateModel>,
    c: Option<Candidate>,
    genes: Seq<Gene>,
    i: int,
    t: int,
    a: Area,
) -> bool {
    c matches Some(cand) ==> (count_key_area(ov, cand@.gene, cand@.transcript, a) == 0 && exists|
        x: int,
        y: int,
    |
        0 <= x < genes.len() && 0 <= y < genes[x].transcripts@.len() && (x < i || (x == i && y < t))
            && genes[x].gene_id@ == cand@.gene && (#[trigger] genes[x].transcripts@[y]).transcript_id@
            == cand@.transcript)
}

/// All candidates are well-formed.
pub open spec fn all_wf(ov: Seq<CandidateModel>) -> bool {
    forall|k: int| 0 <= k < ov.len() ==> candidate_wf(#[trigger] ov[k])
}

/// Append the candidates, exposing the concatenation.
fn append_all(dst: &mut Vec<Candidate>, src: Vec<Candidate>)
    ensures
        final(dst)@ == old(dst)@ + src@,
        cands_view(final(dst)@) == cands_view(old(dst)@) + cands_view(src@),
{
    let mut src = src;
    let ghost srcm = src@;
    dst.append(&mut src);
    proof {
        assert(cands_view(dst@) =~= cands_view(old(dst)@) + cands_view(srcm));
    }
}


/// The classifier's per-region scan state: all emissions so far, the
/// intron and gene-body fragment groups (one group per overlapped
/// transcript, in scan order), the overlap flag, and the proximity
/// trackers.
#[verifier::ext_equal]
pub ghost struct GeneScan {
    pub ems: Seq<CandidateModel>,
    pub intron_groups: Seq<Seq<AggEntryModel>>,
    pub gb_groups: Seq<Seq<AggEntryModel>>,
    pub flag: bool,
    pub down: int,
    pub exon_down: Option<CandidateModel>,
    pub upst: int,
    pub exon_up: Option<CandidateModel>,
}

/// The per-region scan state the executable values denote.
pub open spec fn gene_scan_state(
    output: Seq<Candidate>,
    introns_map: Seq<AggGroup>,
    gb_map: Seq<AggGroup>,
    flag: bool,
    down: i64,
    exon_down: Option<Candidate>,
    upst: i64,
    exon_up: Option<Candidate>,
) -> GeneScan {
    GeneScan {
        ems: cands_view(output),
        intron_groups: groups_entries_view(introns_map),
        gb_groups: groups_entries_view(gb_map),
        flag,
        down: down as int,
        exon_down: opt_cand_view(exon_down),
        upst: upst as int,
        exon_up: opt_cand_view(exon_up),
    }
}

/// The scan of one gene's transcripts from position `t` on: each
/// transcript's exons are scanned with fresh accumulators, its emissions
/// are appended, its fragments (when any) open one aggregation group, and
/// the proximity trackers carry over.
pub open spec fn spec_scan_transcripts(
    start: int,
    end: int,
    pm: int,
    region_length: int,
    strand: Strand,
    gene_id: Seq<char>,
    ts: Seq<Transcript>,
    tss_d: int,
    tts_d: int,
    prom_d: int,
    t: int,
    gs: GeneScan,
) -> GeneScan
    decreases ts.len() - t,
{
    if t < 0 || t >= ts.len() {
        gs
    } else {
        let tr = ts[t];
        let es = spec_scan_exons(
            start,
            end,
            pm,
            region_length,
            strand,
            gene_id,
            tr,
            tss_d,
            tts_d,
            prom_d,
            spec_tss_distance(tr, pm),
            0,
            ExonScan {
                ems: Seq::empty(),
                introns: Seq::empty(),
                gbs: Seq::empty(),
                flag: false,
                down: gs.down,
                exon_down: gs.exon_down,
                upst: gs.upst,
                exon_up: gs.exon_up,
            },
        );
        let gs1 = GeneScan {
            ems: gs.ems + es.ems,
            intron_groups: if es.introns.len() > 0 {
                gs.intron_groups.push(es.introns)
            } else {
                gs.intron_groups
            },
            gb_groups: if es.gbs.len() > 0 {
                gs.gb_groups.push(es.gbs)
            } else {
                gs.gb_groups
            },
            flag: gs.flag || es.flag,
            down: es.down,
            exon_down: es.exon_down,
            upst: es.upst,
            exon_up: es.exon_up,
        };
        spec_scan_transcripts(
            start,
            end,
            pm,
            region_length,
            strand,
            gene_id,
            ts,
            tss_d,
            tts_d,
            prom_d,
            t + 1,
            gs1,
        )
    }
}

/// The scan of the genes from `i` on, in ascending start order: once a
/// gene starts past the region and either an overlap was seen or neither
/// tracked proximity can improve on its distance, the scan stops.
pub open spec fn spec_scan_genes(
    start: int,
    end: int,
    pm: int,
    region_length: int,
    genes: Seq<Gene>,
    tss_d: int,
    tts_d: int,
    prom_d: int,
    i: int,
    gs: GeneScan,
) -> GeneScan
    decreases genes.len() - i,
{
    if i < 0 || i >= genes.len() {
        gs
    } else {
        let g = genes[i];
        let gstart = g.start as int;
        let dist = if gstart >= pm {
            gstart - pm
        } else {
            pm - gstart
        };
        if gstart > end && (gs.flag || gs.down < dist || gs.upst < dist) {
            gs
        } else {
            spec_scan_genes(
                start,
                end,
                pm,
                region_length,
                genes,
                tss_d,
                tts_d,
                prom_d,
                i + 1,
                spec_scan_transcripts(
                    start,
                    end,
                    pm,
                    region_length,
                    g.strand,
                    g.gene_id@,
                    g.transcripts@,
                    tss_d,
                    tts_d,
                    prom_d,
                    0,
                    gs,
                ),
            )
        }
    }
}

/// What classifying one region against the genes from `last_index` yields:
/// the scan's emissions; then the nearest downstream and upstream
/// proximity candidates, each only when it is the nearer side and within
/// the configured distance, reported through the zone checkers; then,
/// when any overlap was seen, one aggregated candidate per gene-body
/// group and per intron group, in scan order.
pub open spec fn spec_classify_region(
    region: Region,
    genes: Seq<Gene>,
    config: Config,
    last_index: int,
) -> Seq<CandidateModel> {
    let start = region.start as int;
    let end = region.end as int;
    let pm = (region.start + region.end) as int / 2;
    let region_length = end - start + 1;
    let gs = spec_scan_genes(
        start,
        end,
        pm,
        region_length,
        genes,
        config.tss as int,
        config.tts as int,
        config.promoter as int,
        last_index,
        GeneScan {
            ems: Seq::empty(),
            intron_groups: Seq::empty(),
            gb_groups: Seq::empty(),
            flag: false,
            down: i64::MAX as int,
            exon_down: None,
            upst: i64::MAX as int,
            exon_up: None,
        },
    );
    let down_part: Seq<CandidateModel> = match gs.exon_down {
        Some(c) => if gs.down <= gs.upst && c.distance <= config.distance {
            spec_emit_down(
                start,
                end,
                c.start,
                c.end,
                c.strand,
                c.exon_number,
                c.transcript,
                c.gene,
                c.distance,
                c.pctg_region,
                c.tss_distance,
                config.tts as int,
            )
        } else {
            Seq::empty()
        },
        None => Seq::empty(),
    };
    let up_part: Seq<CandidateModel> = match gs.exon_up {
        Some(c) => if gs.upst <= gs.down && c.distance <= config.distance {
            spec_emit_up(
                start,
                end,
                c.start,
                c.end,
                c.strand,
                c.exon_number,
                c.transcript,
                c.gene,
                c.distance,
                c.tss_distance,
                config.tss as int,
                config.promoter as int,
            )
        } else {
            Seq::empty()
        },
        None => Seq::empty(),
    };
    let agg: Seq<CandidateModel> = if gs.flag {
        spec_aggregate(gs.gb_groups, region_length) + spec_aggregate(
            gs.intron_groups,
            region_length,
        )
    } else {
        Seq::empty()
    };
    gs.ems + down_part + up_part + agg
}

/// Classify one region against the chromosome's genes from `last_index`
/// on, which must point at or before the first gene that can matter.
///
/// Walks genes in ascending start order, classifying every transcript's
/// exons; stops early once a gene starts past the region and no tracked
/// proximity candidate can improve. Then the nearest downstream and
/// upstream proximity candidates within the configured distance are
/// emitted through the zone checkers, and the collected intron and
/// gene-body fragments are aggregated, one candidate per gene-transcript
/// key.
///
/// Every returned candidate is well-formed, and the raw output holds at
/// most one Downstream and one Upstream candidate per gene-transcript
/// key.
#[verifier::rlimit(100)]
#[verifier::spinoff_prover]
pub fn match_region_to_genes(
    region: &Region,
    genes: &Vec<Gene>,
    config: &Config,
    last_index: usize,
) -> (r: Vec<Candidate>)
    requires
        region.wf(),
        region.start <= region.end,
        config.wf(),
        last_index <= genes@.len(),
        genes_scan_wf(genes@),
        distinct_pairs(genes@),
    ensures
        cands_view(r@) == spec_classify_region(*region, genes@, *config, last_index as int),
        all_wf(cands_view(r@)),
        per_key_bounded(cands_view(r@)),
{
    let start = region.start;
    let end = region.end;
    let pm = region.midpoint();
    let region_length = region.length();

    let mut down: i64 = i64::MAX;
    let mut exon_down: Option<Candidate> = None;
    let mut upst: i64 = i64::MAX;
    let mut exon_up: Option<Candidate> = None;
    let mut flag_gene_body = false;
    let mut output: Vec<Candidate> = Vec::new();
    let mut introns_map: Vec<AggGroup> = Vec::new();
    let mut gene_bodys_map: Vec<AggGroup> = Vec::new();

    let ghost gm = genes@;
    let ghost gs0 = GeneScan {
        ems: Seq::empty(),
        intron_groups: Seq::empty(),
        gb_groups: Seq::empty(),
        flag: false,
        down: i64::MAX as int,
        exon_down: None,
        upst: i64::MAX as int,
        exon_up: None,
    };
    let ghost target = spec_scan_genes(
        start as int,
        end as int,
        pm as int,
        region_length as int,
        genes@,
        config.tss as int,
        config.tts as int,
        config.promoter as int,
        last_index as int,
        gs0,
    );
    let gn = genes.len();
    let mut i: usize = last_index;
    proof {
        assert(groups_entries_view(introns_map@) =~= Seq::<Seq<AggEntryModel>>::empty());
        assert(groups_entries_view(gene_bodys_map@) =~= Seq::<Seq<AggEntryModel>>::empty());
        assert(gene_scan_state(
            output@,
            introns_map@,
            gene_bodys_map@,
            flag_gene_body,
            down,
            exon_down,
            upst,
            exon_up,
        ) =~~= gs0);
        assert(cands_view(output@) =~= Seq::<CandidateModel>::empty());
        assert forall|gene: Seq<char>, transcript: Seq<char>|
            count_key_area(cands_view(output@), gene, transcript, Area::Downstream) == 0
                && count_key_area(cands_view(output@), gene, transcript, Area::Upstream)
                == 0 by {
            reveal(Seq::filter);
        }
    }
    while i < gn
        invariant
            last_index <= i <= gn,
            gn == genes@.len(),
            gm == genes@,
            genes_scan_wf(genes@),
            distinct_pairs(genes@),
            config.wf(),
            0 <= start <= end <= MAX_COORD,
            pm == (start + end) as int / 2,
            region_length == end - start + 1,
            all_wf(cands_view(output@)),
            per_key_bounded(cands_view(output@)),
            fresh_from(cands_view(output@), genes@, i as int, 0),
            prox_inv(down, exon_down, Area::Downstream),
            prox_inv(upst, exon_up, Area::Upstream),
            tracker_fresh(cands_view(output@), exon_down, genes@, i as int, 0, Area::Downstream),
            tracker_fresh(cands_view(output@), exon_up, genes@, i as int, 0, Area::Upstream),
            down <= 2 * MAX_COORD || exon_down is None,
            upst <= 2 * MAX_COORD || exon_up is None,
            forall|k: int|
                0 <= k < introns_map@.len() ==> (agg_group_wf(#[trigger] introns_map@[k]) && (
                forall|e: int|
                    0 <= e < introns_map@[k].entries@.len()
                        ==> (#[trigger] introns_map@[k].entries@[e]).candidate@.area
                        == Area::Intron)),
            forall|k: int|
                0 <= k < gene_bodys_map@.len() ==> (agg_group_wf(#[trigger] gene_bodys_map@[k]) && (
                forall|e: int|
                    0 <= e < gene_bodys_map@[k].entries@.len()
                        ==> (#[trigger] gene_bodys_map@[k].entries@[e]).candidate@.area
                        == Area::GeneBody)),
            target == spec_scan_genes(
                start as int,
                end as int,
                pm as int,
                region_length as int,
                genes@,
                config.tss as int,
                config.tts as int,
                config.promoter as int,
                last_index as int,
                gs0,
            ),
            spec_scan_genes(
                start as int,
                end as int,
                pm as int,
                region_length as int,
                genes@,
                config.tss as int,
                config.tts as int,
                config.promoter as int,
                i as int,
                gene_scan_state(
                    output@,
                    introns_map@,
                    gene_bodys_map@,
                    flag_gene_body,
                    down,
                    exon_down,
                    upst,
                    exon_up,
                ),
            ) == target,
        ensures
            gene_scan_state(
                output@,
                introns_map@,
                gene_bodys_map@,
                flag_gene_body,
                down,
                exon_down,
                upst,
                exon_up,
            ) == target,
        decreases gn - i,
    {
        let gene_start = genes[i].start;
        if gene_start > end {
            // genes are sorted by start: once one starts past the region
            // and no tracked distance can improve, none can matter
            let distance_to_start_gene = if gene_start >= pm {
                gene_start - pm
            } else {
                pm - gene_start
            };
            if flag_gene_body || down < distance_to_start_gene || upst < distance_to_start_gene {
                proof {
                    let cur = gene_scan_state(
                        output@,
                        introns_map@,
                        gene_bodys_map@,
                        flag_gene_body,
                        down,
                        exon_down,
                        upst,
                        exon_up,
                    );
                    assert(spec_scan_genes(
                        start as int,
                        end as int,
                        pm as int,
                        region_length as int,
                        genes@,
                        config.tss as int,
                        config.tts as int,
                        config.promoter as int,
                        i as int,
                        cur,
                    ) == cur);
                }
                break;
            }
        }
        let tn = genes[i].transcripts.len();
        let mut t: usize = 0;
        let ghost gs_enter = gene_scan_state(
            output@,
            introns_map@,
            gene_bodys_map@,
            flag_gene_body,
            down,
            exon_down,
            upst,
            exon_up,
        );
        proof {
            assert(fresh_from(cands_view(output@), genes@, i as int, 0));
        }
        while t < tn
            invariant
                t <= tn,
                i < gn,
                tn == genes@[i as int].transcripts@.len(),
                gn == genes@.len(),
                gm == genes@,
                genes_scan_wf(genes@),
                distinct_pairs(genes@),
                config.wf(),
                0 <= start <= end <= MAX_COORD,
                pm == (start + end) as int / 2,
                region_length == end - start + 1,
                all_wf(cands_view(output@)),
                per_key_bounded(cands_view(output@)),
                fresh_from(cands_view(output@), genes@, i as int, t as int),
                prox_inv(down, exon_down, Area::Downstream),
                prox_inv(upst, exon_up, Area::Upstream),
                tracker_fresh(
                    cands_view(output@),
                    exon_down,
                    genes@,
                    i as int,
                    t as int,
                    Area::Downstream,
                ),
                tracker_fresh(
                    cands_view(output@),
                    exon_up,
                    genes@,
                    i as int,
                    t as int,
                    Area::Upstream,
                ),
                down <= 2 * MAX_COORD || exon_down is None,
                upst <= 2 * MAX_COORD || exon_up is None,
                forall|k: int|
                    0 <= k < introns_map@.len() ==> (agg_group_wf(#[trigger] introns_map@[k]) && (
                    forall|e: int|
                        0 <= e < introns_map@[k].entries@.len()
                            ==> (#[trigger] introns_map@[k].entries@[e]).candidate@.area
                            == Area::Intron)),
                forall|k: int|
                    0 <= k < gene_bodys_map@.len() ==> (agg_group_wf(#[trigger] gene_bodys_map@[k])
                        && (forall|e: int|
                        0 <= e < gene_bodys_map@[k].entries@.len()
                            ==> (#[trigger] gene_bodys_map@[k].entries@[e]).candidate@.area
                            == Area::GeneBody)),
                target == spec_scan_genes(
                    start as int,
                    end as int,
                    pm as int,
                    region_length as int,
                    genes@,
                    config.tss as int,
                    config.tts as int,
                    config.promoter as int,
                    last_index as int,
                    gs0,
                ),
                spec_scan_genes(
                    start as int,
                    end as int,
                    pm as int,
                    region_length as int,
                    genes@,
                    config.tss as int,
                    config.tts as int,
                    config.promoter as int,
                    i as int,
                    gs_enter,
                ) == target,
                !(genes@[i as int].start > end && (gs_enter.flag || gs_enter.down < (
                if genes@[i as int].start as int >= pm {
                    genes@[i as int].start - pm
                } else {
                    pm - genes@[i as int].start
                }) || gs_enter.upst < (
                if genes@[i as int].start as int >= pm {
                    genes@[i as int].start - pm
                } else {
                    pm - genes@[i as int].start
                }))),
                spec_scan_transcripts(
                    start as int,
                    end as int,
                    pm as int,
                    region_length as int,
                    genes@[i as int].strand,
                    genes@[i as int].gene_id@,
                    genes@[i as int].transcripts@,
                    config.tss as int,
                    config.tts as int,
                    config.promoter as int,
                    t as int,
                    gene_scan_state(
                        output@,
                        introns_map@,
                        gene_bodys_map@,
                        flag_gene_body,
                        down,
                        exon_down,
                        upst,
                        exon_up,
                    ),
                ) == spec_scan_transcripts(
                    start as int,
                    end as int,
                    pm as int,
                    region_length as int,
                    genes@[i as int].strand,
                    genes@[i as int].gene_id@,
                    genes@[i as int].transcripts@,
                    config.tss as int,
                    config.tts as int,
                    config.promoter as int,
                    0,
                    gs_enter,
                ),
            decreases tn - t,
        {
            let ghost ov0 = cands_view(output@);
            let ghost down0 = down;
            let ghost exon_down0 = exon_down;
            let ghost upst0 = upst;
            let ghost exon_up0 = exon_up;
            let ghost cur_gs0 = gene_scan_state(
                output@,
                introns_map@,
                gene_bodys_map@,
                flag_gene_body,
                down,
                exon_down,
                upst,
                exon_up,
            );
            let gene = &genes[i];
            proof {
                assert(transcript_scan_wf(genes@[i as int].transcripts@[t as int]));
            }
            let (em, intr, gb, f) = process_transcript(
                start,
                end,
                pm,
                region_length,
                gene.strand,
                &gene.gene_id,
                &gene.transcripts[t],
                config,
                &mut down,
                &mut exon_down,
                &mut upst,
                &mut exon_up,
            );
            flag_gene_body = flag_gene_body || f;
            let ghost emv = cands_view(em@);
            let ghost gid = genes@[i as int].gene_id@;
            let ghost tid = genes@[i as int].transcripts@[t as int].transcript_id@;
            append_all(&mut output, em);
            proof {
                let ov1 = cands_view(output@);
                assert(ov1 == ov0 + emv);
                let dchg = prox_changed(down, exon_down, down0, exon_down0);
                let uchg = prox_changed(upst, exon_up, upst0, exon_up0);
                // counts at the current key
                lemma_count_key_uniform(emv, gid, tid, gid, tid, Area::Downstream);
                lemma_count_key_uniform(emv, gid, tid, gid, tid, Area::Upstream);
                assert(per_key_bounded(ov1)) by {
                    assert forall|g: Seq<char>, tr: Seq<char>|
                        count_key_area(ov1, g, tr, Area::Downstream) <= 1 && count_key_area(
                            ov1,
                            g,
                            tr,
                            Area::Upstream,
                        ) <= 1 by {
                        lemma_count_key_area_add(ov0, emv, g, tr, Area::Downstream);
                        lemma_count_key_area_add(ov0, emv, g, tr, Area::Upstream);
                        lemma_count_key_uniform(emv, gid, tid, g, tr, Area::Downstream);
                        lemma_count_key_uniform(emv, gid, tid, g, tr, Area::Upstream);
                        if g == gid && tr == tid {
                            assert(count_key_area(ov0, g, tr, Area::Downstream) == 0);
                            assert(count_key_area(ov0, g, tr, Area::Upstream) == 0);
                        }
                    }
                }
                assert(fresh_from(ov1, genes@, i as int, t + 1)) by {
                    assert forall|a: int, b: int|
                        0 <= a < genes@.len() && 0 <= b < genes@[a].transcripts@.len() && (a > i
                            || (a == i && b >= t + 1)) implies count_key_area(
                        ov1,
                        genes@[a].gene_id@,
                        (#[trigger] genes@[a].transcripts@[b]).transcript_id@,
                        Area::Downstream,
                    ) == 0 && count_key_area(
                        ov1,
                        genes@[a].gene_id@,
                        genes@[a].transcripts@[b].transcript_id@,
                        Area::Upstream,
                    ) == 0 by {
                        let g2 = genes@[a].gene_id@;
                        let t2 = genes@[a].transcripts@[b].transcript_id@;
                        lemma_count_key_area_add(ov0, emv, g2, t2, Area::Downstream);
                        lemma_count_key_area_add(ov0, emv, g2, t2, Area::Upstream);
                        lemma_count_key_uniform(emv, gid, tid, g2, t2, Area::Downstream);
                        lemma_count_key_uniform(emv, gid, tid, g2, t2, Area::Upstream);
                        assert(!(a == i && b == t));
                        assert(!(g2 == gid && t2 == tid));
                    }
                }
                assert(tracker_fresh(ov1, exon_down, genes@, i as int, t + 1, Area::Downstream))
                    by {
                    if exon_down is Some {
                        let cand = exon_down->0;
                        let cg = cand@.gene;
                        let ct = cand@.transcript;
                        lemma_count_key_area_add(ov0, emv, cg, ct, Area::Downstream);
                        lemma_count_key_uniform(emv, gid, tid, cg, ct, Area::Downstream);
                        if dchg == 1 {
                            assert(cg == gid && ct == tid);
                            assert(count_area(emv, Area::Downstream) == 0);
                            assert(count_key_area(ov0, cg, ct, Area::Downstream) == 0);
                        } else {
                            assert(exon_down == exon_down0);
                            let (x, y) = choose|x: int, y: int|
                                0 <= x < genes@.len() && 0 <= y < genes@[x].transcripts@.len() && (
                                x < i || (x == i && y < t)) && genes@[x].gene_id@ == cg && (
                                #[trigger] genes@[x].transcripts@[y]).transcript_id@ == ct;
                            assert(!(x == i && y == t));
                            assert(!(cg == gid && ct == tid));
                        }
                    }
                }
                assert(tracker_fresh(ov1, exon_up, genes@, i as int, t + 1, Area::Upstream)) by {
                    if exon_up is Some {
                        let cand = exon_up->0;
                        let cg = cand@.gene;
                        let ct = cand@.transcript;
                        lemma_count_key_area_add(ov0, emv, cg, ct, Area::Upstream);
                        lemma_count_key_uniform(emv, gid, tid, cg, ct, Area::Upstream);
                        if uchg == 1 {
                            assert(cg == gid && ct == tid);
                            assert(count_area(emv, Area::Upstream) == 0);
                            assert(count_key_area(ov0, cg, ct, Area::Upstream) == 0);
                        } else {
                            assert(exon_up == exon_up0);
                            let (x, y) = choose|x: int, y: int|
                                0 <= x < genes@.len() && 0 <= y < genes@[x].transcripts@.len() && (
                                x < i || (x == i && y < t)) && genes@[x].gene_id@ == cg && (
                                #[trigger] genes@[x].transcripts@[y]).transcript_id@ == ct;
                            assert(!(x == i && y == t));
                            assert(!(cg == gid && ct == tid));
                        }
                    }
                }
            }
            let ghost intrv = entries_view(intr@);
            let ghost gbv = entries_view(gb@);
            let ghost imaps0 = groups_entries_view(introns_map@);
            let ghost gmaps0 = groups_entries_view(gene_bodys_map@);
            if intr.len() > 0 {
                let key = make_pair_key(&gene.gene_id, &gene.transcripts[t].transcript_id);
                introns_map.push(AggGroup { key, entries: intr });
                proof {
                    assert(groups_entries_view(introns_map@) =~~= imaps0.push(intrv));
                }
            }
            if gb.len() > 0 {
                let key = make_pair_key(&gene.gene_id, &gene.transcripts[t].transcript_id);
                gene_bodys_map.push(AggGroup { key, entries: gb });
                proof {
                    assert(groups_entries_view(gene_bodys_map@) =~~= gmaps0.push(gbv));
                }
            }
            proof {
                let ts = genes@[i as int].transcripts@;
                let tr = ts[t as int];
                let es = spec_scan_exons(
                    start as int,
                    end as int,
                    pm as int,
                    region_length as int,
                    genes@[i as int].strand,
                    genes@[i as int].gene_id@,
                    tr,
                    config.tss as int,
                    config.tts as int,
                    config.promoter as int,
                    spec_tss_distance(tr, pm as int),
                    0,
                    ExonScan {
                        ems: Seq::empty(),
                        introns: Seq::empty(),
                        gbs: Seq::empty(),
                        flag: false,
                        down: cur_gs0.down,
                        exon_down: cur_gs0.exon_down,
                        upst: cur_gs0.upst,
                        exon_up: cur_gs0.exon_up,
                    },
                );
                assert(emv == es.ems);
                assert(intrv == es.introns);
                assert(gbv == es.gbs);
                let cur1 = gene_scan_state(
                    output@,
                    introns_map@,
                    gene_bodys_map@,
                    flag_gene_body,
                    down,
                    exon_down,
                    upst,
                    exon_up,
                );
                assert(cur1 =~~= GeneScan {
                    ems: cur_gs0.ems + es.ems,
                    intron_groups: if es.introns.len() > 0 {
                        cur_gs0.intron_groups.push(es.introns)
                    } else {
                        cur_gs0.intron_groups
                    },
                    gb_groups: if es.gbs.len() > 0 {
                        cur_gs0.gb_groups.push(es.gbs)
                    } else {
                        cur_gs0.gb_groups
                    },
                    flag: cur_gs0.flag || es.flag,
                    down: es.down,
                    exon_down: es.exon_down,
                    upst: es.upst,
                    exon_up: es.exon_up,
                });
                assert(spec_scan_transcripts(
                    start as int,
                    end as int,
                    pm as int,
                    region_length as int,
                    genes@[i as int].strand,
                    genes@[i as int].gene_id@,
                    ts,
                    config.tss as int,
                    config.tts as int,
                    config.promoter as int,
                    t as int,
                    cur_gs0,
                ) == spec_scan_transcripts(
                    start as int,
                    end as int,
                    pm as int,
                    region_length as int,
                    genes@[i as int].strand,
                    genes@[i as int].gene_id@,
                    ts,
                    config.tss as int,
                    config.tts as int,
                    config.promoter as int,
                    t + 1,
                    cur1,
                ));
            }
            t += 1;
        }
        proof {
            let cur = gene_scan_state(
                output@,
                introns_map@,
                gene_bodys_map@,
                flag_gene_body,
                down,
                exon_down,
                upst,
                exon_up,
            );
            let ts = genes@[i as int].transcripts@;
            assert(spec_scan_transcripts(
                start as int,
                end as int,
                pm as int,
                region_length as int,
                genes@[i as int].strand,
                genes@[i as int].gene_id@,
                ts,
                config.tss as int,
                config.tts as int,
                config.promoter as int,
                tn as int,
                cur,
            ) == cur);
            assert(spec_scan_genes(
                start as int,
                end as int,
                pm as int,
                region_length as int,
                genes@,
                config.tss as int,
                config.tts as int,
                config.promoter as int,
                i as int,
                gs_enter,
            ) == spec_scan_genes(
                start as int,
                end as int,
                pm as int,
                region_length as int,
                genes@,
                config.tss as int,
                config.tts as int,
                config.promoter as int,
                i + 1,
                cur,
            ));
            assert(fresh_from(cands_view(output@), genes@, i + 1, 0)) by {
                assert forall|a: int, b: int|
                    0 <= a < genes@.len() && 0 <= b < genes@[a].transcripts@.len() && (a > i + 1
                        || (a == i + 1 && b >= 0)) implies count_key_area(
                    cands_view(output@),
                    genes@[a].gene_id@,
                    (#[trigger] genes@[a].transcripts@[b]).transcript_id@,
                    Area::Downstream,
                ) == 0 && count_key_area(
                    cands_view(output@),
                    genes@[a].gene_id@,
                    genes@[a].transcripts@[b].transcript_id@,
                    Area::Upstream,
                ) == 0 by {
                    assert(a > i || (a == i && b >= tn));
                }
            }
        }
        i += 1;
    }
    // report the nearest proximity candidates within the configured
    // distance, through the zone checkers
    let ghost gs_done = gene_scan_state(
        output@,
        introns_map@,
        gene_bodys_map@,
        flag_gene_body,
        down,
        exon_down,
        upst,
        exon_up,
    );
    let ghost down_part: Seq<CandidateModel> = match gs_done.exon_down {
        Some(c) => if gs_done.down <= gs_done.upst && c.distance <= config.distance {
            spec_emit_down(
                start as int,
                end as int,
                c.start,
                c.end,
                c.strand,
                c.exon_number,
                c.transcript,
                c.gene,
                c.distance,
                c.pctg_region,
                c.tss_distance,
                config.tts as int,
            )
        } else {
            Seq::empty()
        },
        None => Seq::empty(),
    };
    let ghost up_part: Seq<CandidateModel> = match gs_done.exon_up {
        Some(c) => if gs_done.upst <= gs_done.down && c.distance <= config.distance {
            spec_emit_up(
                start as int,
                end as int,
                c.start,
                c.end,
                c.strand,
                c.exon_number,
                c.transcript,
                c.gene,
                c.distance,
                c.tss_distance,
                config.tss as int,
                config.promoter as int,
            )
        } else {
            Seq::empty()
        },
        None => Seq::empty(),
    };
    match exon_down {
        Some(c) => {
            if down <= upst && c.distance <= config.distance {
                let mut block: Vec<Candidate> = Vec::new();
                proof {
                    assert(cands_view(block@) =~= Seq::<CandidateModel>::empty());
                    lemma_count_area_empty(Area::Downstream);
                    lemma_count_area_empty(Area::Upstream);
                }
                emit_down_side(
                    &mut block,
                    start,
                    end,
                    c.start,
                    c.end,
                    c.strand,
                    &c.exon_number,
                    &c.transcript,
                    &c.gene,
                    c.distance,
                    c.pctg_region,
                    c.tss_distance,
                    config,
                );
                let ghost bm = cands_view(block@);
                let ghost ov0 = cands_view(output@);
                append_all(&mut output, block);
                proof {
                    let ov1 = cands_view(output@);
                    assert(per_key_bounded(ov1)) by {
                        assert forall|g: Seq<char>, tr: Seq<char>|
                            count_key_area(ov1, g, tr, Area::Downstream) <= 1 && count_key_area(
                                ov1,
                                g,
                                tr,
                                Area::Upstream,
                            ) <= 1 by {
                            lemma_count_key_area_add(ov0, bm, g, tr, Area::Downstream);
                            lemma_count_key_area_add(ov0, bm, g, tr, Area::Upstream);
                            lemma_count_key_uniform(bm, c@.gene, c@.transcript, g, tr, Area::Downstream);
                            lemma_count_key_uniform(bm, c@.gene, c@.transcript, g, tr, Area::Upstream);
                            if g == c@.gene && tr == c@.transcript {
                                assert(count_key_area(ov0, g, tr, Area::Downstream) == 0);
                            }
                        }
                    }
                    assert(tracker_fresh(ov1, exon_up, genes@, gn as int, 0, Area::Upstream)) by {
                        if exon_up is Some {
                            let cu = exon_up->0;
                            lemma_count_key_area_add(ov0, bm, cu@.gene, cu@.transcript, Area::Upstream);
                            lemma_count_key_uniform(
                                bm,
                                c@.gene,
                                c@.transcript,
                                cu@.gene,
                                cu@.transcript,
                                Area::Upstream,
                            );
                        }
                    }
                    assert(all_wf(ov1));
                    assert(ov1 =~= gs_done.ems + down_part);
                }
            } else {
                proof {
                    assert(tracker_fresh(
                        cands_view(output@),
                        exon_up,
                        genes@,
                        gn as int,
                        0,
                        Area::Upstream,
                    ));
                    assert(cands_view(output@) =~= gs_done.ems + down_part);
                }
            }
        },
        None => {
            proof {
                assert(cands_view(output@) =~= gs_done.ems + down_part);
            }
        },
    }
    let ghost after_down = cands_view(output@);
    match exon_up {
        Some(c) => {
            if upst <= down && c.distance <= config.distance {
                let mut block: Vec<Candidate> = Vec::new();
                proof {
                    assert(cands_view(block@) =~= Seq::<CandidateModel>::empty());
                    lemma_count_area_empty(Area::Downstream);
                    lemma_count_area_empty(Area::Upstream);
                }
                emit_up_side(
                    &mut block,
                    start,
                    end,
                    c.start,
                    c.end,
                    c.strand,
                    &c.exon_number,
                    &c.transcript,
                    &c.gene,
                    c.distance,
                    c.tss_distance,
                    config,
                );
                let ghost bm = cands_view(block@);
                let ghost ov0 = cands_view(output@);
                append_all(&mut output, block);
                proof {
                    let ov1 = cands_view(output@);
                    assert(per_key_bounded(ov1)) by {
                        assert forall|g: Seq<char>, tr: Seq<char>|
                            count_key_area(ov1, g, tr, Area::Downstream) <= 1 && count_key_area(
                                ov1,
                                g,
                                tr,
                                Area::Upstream,
                            ) <= 1 by {
                            lemma_count_key_area_add(ov0, bm, g, tr, Area::Downstream);
                            lemma_count_key_area_add(ov0, bm, g, tr, Area::Upstream);
                            lemma_count_key_uniform(bm, c@.gene, c@.transcript, g, tr, Area::Downstream);
                            lemma_count_key_uniform(bm, c@.gene, c@.transcript, g, tr, Area::Upstream);
                            if g == c@.gene && tr == c@.transcript {
                                assert(count_key_area(ov0, g, tr, Area::Upstream) == 0);
                            }
                        }
                    }
                    assert(all_wf(ov1));
                    assert(ov1 =~= after_down + up_part);
                }
            } else {
                proof {
                    assert(cands_view(output@) =~= after_down + up_part);
                }
            }
        },
        None => {
            proof {
                assert(cands_view(output@) =~= after_down + up_part);
            }
        },
    }
    let ghost after_up = cands_view(output@);
    // aggregate the collected gene-body and intron fragments
    if flag_gene_body {
        let gb_out = aggregate_entries(&gene_bodys_map, region_length);
        let ghost gbm = cands_view(gb_out@);
        let ghost ov0 = cands_view(output@);
        append_all(&mut output, gb_out);
        proof {
            let ov1 = cands_view(output@);
            assert forall|k: int| 0 <= k < gbm.len() implies (#[trigger] gbm[k]).area
                != Area::Downstream && gbm[k].area != Area::Upstream by {}
            lemma_count_key_no_area(gbm, Area::Downstream);
            lemma_count_key_no_area(gbm, Area::Upstream);
            assert(per_key_bounded(ov1)) by {
                assert forall|g: Seq<char>, tr: Seq<char>|
                    count_key_area(ov1, g, tr, Area::Downstream) <= 1 && count_key_area(
                        ov1,
                        g,
                        tr,
                        Area::Upstream,
                    ) <= 1 by {
                    lemma_count_key_area_add(ov0, gbm, g, tr, Area::Downstream);
                    lemma_count_key_area_add(ov0, gbm, g, tr, Area::Upstream);
                }
            }
            assert(all_wf(ov1));
        }
        let intr_out = aggregate_entries(&introns_map, region_length);
        let ghost inm = cands_view(intr_out@);
        let ghost ov2 = cands_view(output@);
        append_all(&mut output, intr_out);
        proof {
            let ov3 = cands_view(output@);
            assert forall|k: int| 0 <= k < inm.len() implies (#[trigger] inm[k]).area
                != Area::Downstream && inm[k].area != Area::Upstream by {}
            lemma_count_key_no_area(inm, Area::Downstream);
            lemma_count_key_no_area(inm, Area::Upstream);
            assert(per_key_bounded(ov3)) by {
                assert forall|g: Seq<char>, tr: Seq<char>|
                    count_key_area(ov3, g, tr, Area::Downstream) <= 1 && count_key_area(
                        ov3,
                        g,
                        tr,
                        Area::Upstream,
                    ) <= 1 by {
                    lemma_count_key_area_add(ov2, inm, g, tr, Area::Downstream);
                    lemma_count_key_area_add(ov2, inm, g, tr, Area::Upstream);
                }
            }
            assert(all_wf(ov3));
            assert(ov3 =~= after_up + spec_aggregate(gs_done.gb_groups, region_length as int)
                + spec_aggregate(gs_done.intron_groups, region_length as int));
        }
    }
    proof {
        let expected = spec_classify_region(*region, genes@, *config, last_index as int);
        assert(GeneScan {
            ems: Seq::empty(),
            intron_groups: Seq::empty(),
            gb_groups: Seq::empty(),
            flag: false,
            down: i64::MAX as int,
            exon_down: None,
            upst: i64::MAX as int,
            exon_up: None,
        } =~~= gs0);
        assert(gs_done == target);
        if flag_gene_body {
            assert(cands_view(output@) =~= gs_done.ems + down_part + up_part + (spec_aggregate(
                gs_done.gb_groups,
                region_length as int,
            ) + spec_aggregate(gs_done.intron_groups, region_length as int)));
        } else {
            assert(cands_view(output@) =~= gs_done.ems + down_part + up_part);
            assert(gs_done.ems + down_part + up_part + Seq::<CandidateModel>::empty()
                =~= gs_done.ems + down_part + up_part);
        }
        assert(cands_view(output@) =~= expected);
    }
    output
}

/// The aggregation key of a gene-transcript pair.
fn make_pair_key(gene_id: &String, transcript_id: &String) -> (r: String)
    ensures
        r@ == gene_id@ + seq!['_'] + transcript_id@,
{
    let underscore = "_";
    proof {
        reveal_strlit("_");
        assert(underscore@ =~= seq!['_']);
    }
    let r = gene_id.clone();
    let r = r.concat(underscore);
    let r = r.concat(transcript_id.as_str());
    proof {
        assert(r@ =~= gene_id@ + seq!['_'] + transcript_id@);
    }
    r
}


/// What one region's report is: the classification of the region against
/// the genes from the binary-search start index (looking back over the
/// longest gene plus the widest configured zone or reporting distance),
/// reduced to the configured granularity.
pub open spec fn spec_region_report(
    region: Region,
    genes: Seq<Gene>,
    config: Config,
    max_gene_length: int,
) -> Seq<CandidateModel> {
    let lookback = max_gene_length + config.spec_max_lookback();
    let search_start = if region.start as int >= lookback {
        region.start - lookback
    } else {
        0
    };
    spec_process_candidates(
        spec_classify_region(region, genes, config, spec_search_index(genes, search_start)),
        config.level,
        config.perc_region,
        config.perc_area,
        config.rules@,
    )
}

/// Match a batch of regions, in order, against one chromosome's sorted
/// genes: per region the start index is found by binary search over the
/// lookback window (the longest gene plus the widest configured zone or
/// reporting distance), the region is classified, and the candidates are
/// reduced to the configured granularity — exactly as
/// [`spec_region_report`] defines, for every region in input order.
pub fn match_regions_to_genes(
    regions: &Vec<Region>,
    genes: &Vec<Gene>,
    config: &Config,
    max_gene_length: i64,
) -> (r: Vec<(Region, Vec<Candidate>)>)
    requires
        forall|k: int|
            0 <= k < regions@.len() ==> (#[trigger] regions@[k]).wf() && regions@[k].start
                <= regions@[k].end,
        config.wf(),
        genes_scan_wf(genes@),
        genes_sorted(genes@),
        distinct_pairs(genes@),
        0 <= max_gene_length <= MAX_COORD,
    ensures
        r@.len() == regions@.len(),
        forall|k: int|
            0 <= k < r@.len() ==> crate::types::region_eqv((#[trigger] r@[k]).0, regions@[k]),
        forall|k: int|
            0 <= k < r@.len() ==> cands_view((#[trigger] r@[k]).1@) == spec_region_report(
                regions@[k],
                genes@,
                *config,
                max_gene_length as int,
            ),
{
    let rn = regions.len();
    let mut results: Vec<(Region, Vec<Candidate>)> = Vec::new();
    let max_lookback = max_gene_length + config.max_lookback_distance();
    let mut k: usize = 0;
    while k < rn
        invariant
            k <= rn,
            rn == regions@.len(),
            results@.len() == k,
            config.wf(),
            genes_scan_wf(genes@),
            genes_sorted(genes@),
            distinct_pairs(genes@),
            0 <= max_lookback <= 2 * MAX_COORD,
            forall|q: int|
                0 <= q < regions@.len() ==> (#[trigger] regions@[q]).wf() && regions@[q].start
                    <= regions@[q].end,
            forall|q: int|
                0 <= q < k ==> crate::types::region_eqv((#[trigger] results@[q]).0, regions@[q]),
            max_lookback as int == max_gene_length + config.spec_max_lookback(),
            forall|q: int|
                0 <= q < k ==> cands_view((#[trigger] results@[q]).1@) == spec_region_report(
                    regions@[q],
                    genes@,
                    *config,
                    max_gene_length as int,
                ),
        decreases rn - k,
    {
        let region = &regions[k];
        // look back far enough to catch genes that start earlier but reach
        // into or near this region
        let search_start = if region.start >= max_lookback {
            region.start - max_lookback
        } else {
            0
        };
        let start_index = find_search_start_index(genes, search_start);
        let candidates = match_region_to_genes(region, genes, config, start_index);
        let processed = process_candidates_for_output(candidates, config);
        proof {
            assert(cands_view(processed@) == spec_region_report(
                regions@[k as int],
                genes@,
                *config,
                max_gene_length as int,
            ));
        }
        let cloned_region = region.clone();
        results.push((cloned_region, processed));
        k += 1;
    }
    results
}

} // verus!
