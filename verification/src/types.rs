//! Core data structures: strands, areas, the gene/transcript/exon
//! hierarchy, regions, and classified candidates.

use vstd::multiset::Multiset;
use vstd::prelude::*;

use crate::pct::Pct;
use crate::text::{
    spec_dec_digits, spec_eq_ci, spec_int_str, str_eq, str_eq_ignore_ascii_case, u64_to_string,
};
use vstd::string::StringExecFns;

verus! {

/// Largest genomic coordinate the library accepts (2^40, far beyond any
/// genome). Keeping coordinates below this bound keeps every derived
/// quantity (lengths, mirrored coordinates, scaled percentages) inside
/// `i64`.
pub const MAX_COORD: i64 = 0x100_0000_0000;

/// A machine-representable genomic coordinate.
pub open spec fn coord_ok(x: int) -> bool {
    0 <= x <= MAX_COORD
}

/// Strand orientation for genomic features.
#[derive(Debug, Clone, Copy, PartialEq, Eq, Hash, Structural)]
pub enum Strand {
    Positive,
    Negative,
}

/// Error for parsing a strand from a string.
#[derive(Debug, Clone, PartialEq, Eq, Structural)]
pub struct ParseStrandError;

/// What parsing a strand tag returns: `+` or `-`, anything else rejected.
pub open spec fn spec_parse_strand(s: Seq<char>) -> Result<Strand, ParseStrandError> {
    if s == seq!['+'] {
        Ok(Strand::Positive)
    } else if s == seq!['-'] {
        Ok(Strand::Negative)
    } else {
        Err(ParseStrandError)
    }
}

impl Strand {
    /// The label of this strand in input and output files.
    pub open spec fn spec_label(self) -> Seq<char> {
        match self {
            Strand::Positive => seq!['+'],
            Strand::Negative => seq!['-'],
        }
    }

    /// Convert strand to its string representation.
    pub fn as_str(&self) -> (r: &'static str)
        ensures
            r@ == self.spec_label(),
    {
        match self {
            Strand::Positive => {
                let r = "+";
                proof {
                    reveal_strlit("+");
                    assert(r@ =~= seq!['+']);
                }
                r
            },
            Strand::Negative => {
                let r = "-";
                proof {
                    reveal_strlit("-");
                    assert(r@ =~= seq!['-']);
                }
                r
            },
        }
    }

    /// Parse `+` or `-`; anything else is rejected.
    pub fn parse(s: &str) -> (r: Result<Strand, ParseStrandError>)
        ensures
            r == spec_parse_strand(s@),
    {
        proof {
            reveal_strlit("+");
            reveal_strlit("-");
            assert("+"@ =~= seq!['+']);
            assert("-"@ =~= seq!['-']);
        }
        if str_eq(s, "+") {
            Ok(Strand::Positive)
        } else if str_eq(s, "-") {
            Ok(Strand::Negative)
        } else {
            Err(ParseStrandError)
        }
    }
}

impl core::str::FromStr for Strand {
    type Err = ParseStrandError;

    fn from_str(s: &str) -> (r: Result<Strand, ParseStrandError>) {
        Strand::parse(s)
    }
}

/// Genomic area classifications for region annotation.
#[derive(Debug, Clone, Copy, PartialEq, Eq, Hash, PartialOrd, Ord, Structural)]
pub enum Area {
    Tss,
    FirstExon,
    Promoter,
    Tts,
    Intron,
    GeneBody,
    Upstream,
    Downstream,
}

/// Error for parsing an area from a string.
#[derive(Debug, Clone, PartialEq, Eq, Structural)]
pub struct ParseAreaError;

impl Area {
    /// The canonical tag of this area in configuration and output.
    pub open spec fn spec_label(self) -> Seq<char> {
        match self {
            Area::Tss => seq!['T', 'S', 'S'],
            Area::FirstExon => seq!['1', 's', 't', '_', 'E', 'X', 'O', 'N'],
            Area::Promoter => seq!['P', 'R', 'O', 'M', 'O', 'T', 'E', 'R'],
            Area::Tts => seq!['T', 'T', 'S'],
            Area::Intron => seq!['I', 'N', 'T', 'R', 'O', 'N'],
            Area::GeneBody => seq!['G', 'E', 'N', 'E', '_', 'B', 'O', 'D', 'Y'],
            Area::Upstream => seq!['U', 'P', 'S', 'T', 'R', 'E', 'A', 'M'],
            Area::Downstream => seq!['D', 'O', 'W', 'N', 'S', 'T', 'R', 'E', 'A', 'M'],
        }
    }

    /// Convert area to its canonical tag.
    pub fn as_str(&self) -> (r: &'static str)
        ensures
            r@ == self.spec_label(),
    {
        match self {
            Area::Tss => {
                let r = "TSS";
                proof {
                    reveal_strlit("TSS");
                    assert(r@ =~= self.spec_label());
                }
                r
            },
            Area::FirstExon => {
                let r = "1st_EXON";
                proof {
                    reveal_strlit("1st_EXON");
                    assert(r@ =~= self.spec_label());
                }
                r
            },
            Area::Promoter => {
                let r = "PROMOTER";
                proof {
                    reveal_strlit("PROMOTER");
                    assert(r@ =~= self.spec_label());
                }
                r
            },
            Area::Tts => {
                let r = "TTS";
                proof {
                    reveal_strlit("TTS");
                    assert(r@ =~= self.spec_label());
                }
                r
            },
            Area::Intron => {
                let r = "INTRON";
                proof {
                    reveal_strlit("INTRON");
                    assert(r@ =~= self.spec_label());
                }
                r
            },
            Area::GeneBody => {
                let r = "GENE_BODY";
                proof {
                    reveal_strlit("GENE_BODY");
                    assert(r@ =~= self.spec_label());
                }
                r
            },
            Area::Upstream => {
                let r = "UPSTREAM";
                proof {
                    reveal_strlit("UPSTREAM");
                    assert(r@ =~= self.spec_label());
                }
                r
            },
            Area::Downstream => {
                let r = "DOWNSTREAM";
                proof {
                    reveal_strlit("DOWNSTREAM");
                    assert(r@ =~= self.spec_label());
                }
                r
            },
        }
    }

    /// Parse a canonical area tag (case-sensitive); anything else is
    /// rejected.
    pub fn parse(s: &str) -> (r: Result<Area, ParseAreaError>)
        ensures
            r matches Ok(a) ==> s@ == a.spec_label(),
            r is Err ==> (forall|a: Area| s@ != a.spec_label()),
    {
        proof {
            reveal_strlit("TSS");
            reveal_strlit("1st_EXON");
            reveal_strlit("PROMOTER");
            reveal_strlit("TTS");
            reveal_strlit("INTRON");
            reveal_strlit("GENE_BODY");
            reveal_strlit("UPSTREAM");
            reveal_strlit("DOWNSTREAM");
            assert("TSS"@ =~= Area::Tss.spec_label());
            assert("1st_EXON"@ =~= Area::FirstExon.spec_label());
            assert("PROMOTER"@ =~= Area::Promoter.spec_label());
            assert("TTS"@ =~= Area::Tts.spec_label());
            assert("INTRON"@ =~= Area::Intron.spec_label());
            assert("GENE_BODY"@ =~= Area::GeneBody.spec_label());
            assert("UPSTREAM"@ =~= Area::Upstream.spec_label());
            assert("DOWNSTREAM"@ =~= Area::Downstream.spec_label());
        }
        if str_eq(s, "TSS") {
            Ok(Area::Tss)
        } else if str_eq(s, "1st_EXON") {
            Ok(Area::FirstExon)
        } else if str_eq(s, "PROMOTER") {
            Ok(Area::Promoter)
        } else if str_eq(s, "TTS") {
            Ok(Area::Tts)
        } else if str_eq(s, "INTRON") {
            Ok(Area::Intron)
        } else if str_eq(s, "GENE_BODY") {
            Ok(Area::GeneBody)
        } else if str_eq(s, "UPSTREAM") {
            Ok(Area::Upstream)
        } else if str_eq(s, "DOWNSTREAM") {
            Ok(Area::Downstream)
        } else {
            proof {
                assert forall|a: Area| s@ != a.spec_label() by {
                    match a {
                        Area::Tss => {},
                        Area::FirstExon => {},
                        Area::Promoter => {},
                        Area::Tts => {},
                        Area::Intron => {},
                        Area::GeneBody => {},
                        Area::Upstream => {},
                        Area::Downstream => {},
                    }
                }
            }
            Err(ParseAreaError)
        }
    }
}

impl core::str::FromStr for Area {
    type Err = ParseAreaError;

    fn from_str(s: &str) -> (r: Result<Area, ParseAreaError>) {
        Area::parse(s)
    }
}

/// An exon within a transcript.
#[derive(Debug)]
pub struct Exon {
    pub start: i64,
    pub end: i64,
    /// Exon number within the transcript (set by `renumber_exons`).
    pub exon_number: Option<String>,
}

impl Clone for Exon {
    fn clone(&self) -> (r: Exon)
        ensures
            r == *self,
    {
        Exon {
            start: self.start,
            end: self.end,
            exon_number: match &self.exon_number {
                Some(s) => Some(s.clone()),
                None => None,
            },
        }
    }
}

impl Exon {
    /// Machine bounds on the coordinates.
    pub open spec fn wf(self) -> bool {
        coord_ok(self.start as int) && coord_ok(self.end as int)
    }

    /// Create a new exon with start and end coordinates, not yet numbered.
    pub fn new(start: i64, end: i64) -> (r: Exon)
        ensures
            r.start == start,
            r.end == end,
            r.exon_number is None,
    {
        Exon { start, end, exon_number: None }
    }

    /// The exon length, `end - start + 1`.
    pub fn length(&self) -> (r: i64)
        requires
            self.wf(),
        ensures
            r == self.end - self.start + 1,
    {
        self.end - self.start + 1
    }
}

/// Least exon start of `s` folded over `init` (left to right).
pub open spec fn spec_min_start(s: Seq<Exon>, init: int) -> int
    decreases s.len(),
{
    if s.len() == 0 {
        init
    } else {
        let prev = spec_min_start(s.drop_last(), init);
        if s.last().start < prev {
            s.last().start as int
        } else {
            prev
        }
    }
}

/// Greatest exon end of `s` folded over `init` (left to right).
pub open spec fn spec_max_end(s: Seq<Exon>, init: int) -> int
    decreases s.len(),
{
    if s.len() == 0 {
        init
    } else {
        let prev = spec_max_end(s.drop_last(), init);
        if s.last().end > prev {
            s.last().end as int
        } else {
            prev
        }
    }
}

/// A transcript and its exons.
#[derive(Debug)]
pub struct Transcript {
    pub transcript_id: String,
    pub exons: Vec<Exon>,
    /// Minimum start coordinate (initialized to `i64::MAX`).
    pub start: i64,
    /// Maximum end coordinate (initialized to 0).
    pub end: i64,
}

/// Equivalence of transcripts up to the vector holding the exons: all
/// observable data agree.
pub open spec fn transcript_eqv(a: Transcript, b: Transcript) -> bool {
    a.transcript_id == b.transcript_id && a.exons@ == b.exons@ && a.start == b.start && a.end
        == b.end
}

impl Clone for Transcript {
    fn clone(&self) -> (r: Transcript)
        ensures
            transcript_eqv(r, *self),
    {
        let exons = self.exons.clone();
        proof {
            assert forall|i: int| 0 <= i < self.exons@.len() implies exons@[i]
                == self.exons@[i] by {
                assert(cloned::<Exon>(self.exons@[i], exons@[i]));
            }
            assert(exons@ =~= self.exons@);
        }
        Transcript {
            transcript_id: self.transcript_id.clone(),
            exons,
            start: self.start,
            end: self.end,
        }
    }
}

impl Transcript {
    /// Create a new transcript with the given id and no exons.
    pub fn new(transcript_id: String) -> (r: Transcript)
        ensures
            r.transcript_id == transcript_id,
            r.exons@.len() == 0,
            r.start == i64::MAX,
            r.end == 0,
    {
        Transcript { transcript_id, exons: Vec::new(), start: i64::MAX, end: 0 }
    }

    /// Append an exon to this transcript.
    pub fn add_exon(&mut self, exon: Exon)
        ensures
            final(self).exons@ == old(self).exons@.push(exon),
            final(self).transcript_id == old(self).transcript_id,
            final(self).start == old(self).start,
            final(self).end == old(self).end,
    {
        self.exons.push(exon);
    }

    /// Set transcript boundaries explicitly.
    pub fn set_length(&mut self, start: i64, end: i64)
        ensures
            final(self).start == start,
            final(self).end == end,
            final(self).transcript_id == old(self).transcript_id,
            final(self).exons == old(self).exons,
    {
        self.start = start;
        self.end = end;
    }

    /// Fold the exon coordinates into the transcript boundaries: the start
    /// becomes the least exon start (if smaller than the current start),
    /// the end the greatest exon end.
    pub fn calculate_size(&mut self)
        ensures
            final(self).start == spec_min_start(old(self).exons@, old(self).start as int),
            final(self).end == spec_max_end(old(self).exons@, old(self).end as int),
            final(self).transcript_id == old(self).transcript_id,
            final(self).exons == old(self).exons,
    {
        let n = self.exons.len();
        let mut i: usize = 0;
        let mut lo = self.start;
        let mut hi = self.end;
        while i < n
            invariant
                i <= n,
                n == self.exons@.len(),
                lo == spec_min_start(self.exons@.take(i as int), old(self).start as int),
                hi == spec_max_end(self.exons@.take(i as int), old(self).end as int),
                *self == *old(self),
            decreases n - i,
        {
            proof {
                assert(self.exons@.take(i + 1).drop_last() =~= self.exons@.take(i as int));
                assert(self.exons@.take(i + 1).last() == self.exons@[i as int]);
            }
            if self.exons[i].start < lo {
                lo = self.exons[i].start;
            }
            if self.exons[i].end > hi {
                hi = self.exons[i].end;
            }
            i += 1;
        }
        proof {
            assert(self.exons@.take(n as int) =~= self.exons@);
        }
        self.start = lo;
        self.end = hi;
    }

    /// Renumber exons based on strand orientation.
    ///
    /// Sorts the exons by start position (stably) and assigns decimal exon
    /// number labels: ascending `1, 2, ...` on the Positive strand,
    /// descending `N, ..., 1` on the Negative strand.
    pub fn renumber_exons(&mut self, strand: Strand)
        ensures
            final(self).transcript_id == old(self).transcript_id,
            final(self).start == old(self).start,
            final(self).end == old(self).end,
            final(self).exons@.len() == old(self).exons@.len(),
            final(self).exons@.map_values(|e: Exon| (e.start, e.end)).to_multiset()
                == old(self).exons@.map_values(|e: Exon| (e.start, e.end)).to_multiset(),
            forall|i: int, j: int|
                0 <= i < j < final(self).exons@.len()
                    ==> final(self).exons@[i].start <= final(self).exons@[j].start,
            forall|i: int|
                0 <= i < final(self).exons@.len() ==> exon_labeled(
                    #[trigger] final(self).exons@[i],
                    exon_label_index(strand, i, final(self).exons@.len() as int),
                ),
    {
        let sorted = sort_exons_by_start(&self.exons);
        let n = sorted.len();
        let mut out: Vec<Exon> = Vec::new();
        let mut i: usize = 0;
        while i < n
            invariant
                i <= n,
                n == sorted@.len(),
                n <= usize::MAX,
                out@.len() == i,
                forall|j: int|
                    0 <= j < i ==> (out@[j].start == sorted@[j].start && out@[j].end
                        == sorted@[j].end),
                forall|j: int|
                    0 <= j < i ==> exon_labeled(
                        #[trigger] out@[j],
                        exon_label_index(strand, j, n as int),
                    ),
            decreases n - i,
        {
            let num: u64 = match strand {
                Strand::Positive => (i as u64) + 1,
                Strand::Negative => (n as u64) - (i as u64),
            };
            let label = u64_to_string(num);
            proof {
                assert(num as nat == exon_label_index(strand, i as int, n as int));
                assert(label@ == spec_dec_digits(exon_label_index(strand, i as int, n as int)));
            }
            out.push(Exon { start: sorted[i].start, end: sorted[i].end, exon_number: Some(label) });
            proof {
                assert(out@[i as int].exon_number == Some(label));
                assert(exon_labeled(out@[i as int], exon_label_index(strand, i as int, n as int)));
            }
            i += 1;
        }
        proof {
            assert(out@.map_values(|e: Exon| (e.start, e.end)) =~= sorted@.map_values(
                |e: Exon| (e.start, e.end),
            ));
        }
        self.exons = out;
    }
}

/// Least transcript start of `s` folded over `init` (left to right).
pub open spec fn spec_min_start_tr(s: Seq<Transcript>, init: int) -> int
    decreases s.len(),
{
    if s.len() == 0 {
        init
    } else {
        let prev = spec_min_start_tr(s.drop_last(), init);
        if s.last().start < prev {
            s.last().start as int
        } else {
            prev
        }
    }
}

/// Greatest transcript end of `s` folded over `init` (left to right).
pub open spec fn spec_max_end_tr(s: Seq<Transcript>, init: int) -> int
    decreases s.len(),
{
    if s.len() == 0 {
        init
    } else {
        let prev = spec_max_end_tr(s.drop_last(), init);
        if s.last().end > prev {
            s.last().end as int
        } else {
            prev
        }
    }
}

/// A gene and its transcripts.
#[derive(Debug)]
pub struct Gene {
    pub gene_id: String,
    pub strand: Strand,
    pub transcripts: Vec<Transcript>,
    /// Minimum start coordinate (initialized to `i64::MAX`).
    pub start: i64,
    /// Maximum end coordinate (initialized to 0).
    pub end: i64,
}

/// Equivalence of genes up to the vectors inside: all observable data
/// agree.
pub open spec fn gene_eqv(a: Gene, b: Gene) -> bool {
    &&& a.gene_id == b.gene_id
    &&& a.strand == b.strand
    &&& a.start == b.start
    &&& a.end == b.end
    &&& a.transcripts@.len() == b.transcripts@.len()
    &&& forall|i: int|
        0 <= i < a.transcripts@.len() ==> transcript_eqv(
            #[trigger] a.transcripts@[i],
            b.transcripts@[i],
        )
}

impl Clone for Gene {
    fn clone(&self) -> (r: Gene)
        ensures
            gene_eqv(r, *self),
    {
        let transcripts = self.transcripts.clone();
        proof {
            assert forall|i: int| 0 <= i < self.transcripts@.len() implies transcript_eqv(
                transcripts@[i],
                self.transcripts@[i],
            ) by {
                assert(cloned::<Transcript>(self.transcripts@[i], transcripts@[i]));
            }
        }
        Gene {
            gene_id: self.gene_id.clone(),
            strand: self.strand,
            transcripts,
            start: self.start,
            end: self.end,
        }
    }
}

impl Gene {
    /// Create a new gene with the given id and strand and no transcripts.
    pub fn new(gene_id: String, strand: Strand) -> (r: Gene)
        ensures
            r.gene_id == gene_id,
            r.strand == strand,
            r.transcripts@.len() == 0,
            r.start == i64::MAX,
            r.end == 0,
    {
        Gene { gene_id, strand, transcripts: Vec::new(), start: i64::MAX, end: 0 }
    }

    /// Append a transcript to this gene.
    pub fn add_transcript(&mut self, transcript: Transcript)
        ensures
            final(self).transcripts@ == old(self).transcripts@.push(transcript),
            final(self).gene_id == old(self).gene_id,
            final(self).strand == old(self).strand,
            final(self).start == old(self).start,
            final(self).end == old(self).end,
    {
        self.transcripts.push(transcript);
    }

    /// Set gene boundaries explicitly.
    pub fn set_length(&mut self, start: i64, end: i64)
        ensures
            final(self).start == start,
            final(self).end == end,
            final(self).gene_id == old(self).gene_id,
            final(self).strand == old(self).strand,
            final(self).transcripts == old(self).transcripts,
    {
        self.start = start;
        self.end = end;
    }

    /// Fold the transcript boundaries into the gene boundaries.
    pub fn calculate_size(&mut self)
        ensures
            final(self).start == spec_min_start_tr(old(self).transcripts@, old(self).start as int),
            final(self).end == spec_max_end_tr(old(self).transcripts@, old(self).end as int),
            final(self).gene_id == old(self).gene_id,
            final(self).strand == old(self).strand,
            final(self).transcripts == old(self).transcripts,
    {
        let n = self.transcripts.len();
        let mut i: usize = 0;
        let mut lo = self.start;
        let mut hi = self.end;
        while i < n
            invariant
                i <= n,
                n == self.transcripts@.len(),
                lo == spec_min_start_tr(self.transcripts@.take(i as int), old(self).start as int),
                hi == spec_max_end_tr(self.transcripts@.take(i as int), old(self).end as int),
                *self == *old(self),
            decreases n - i,
        {
            proof {
                assert(self.transcripts@.take(i + 1).drop_last() =~= self.transcripts@.take(
                    i as int,
                ));
                assert(self.transcripts@.take(i + 1).last() == self.transcripts@[i as int]);
            }
            if self.transcripts[i].start < lo {
                lo = self.transcripts[i].start;
            }
            if self.transcripts[i].end > hi {
                hi = self.transcripts[i].end;
            }
            i += 1;
        }
        proof {
            assert(self.transcripts@.take(n as int) =~= self.transcripts@);
        }
        self.start = lo;
        self.end = hi;
    }
}

/// A candidate association between a genomic region and a gene
/// annotation. `exon_number` identifies which exon or intron numbers
/// contributed (comma-joined when merged); `distance` is 0 for overlaps
/// and positive for proximity associations; the sentinel percentage
/// [`Pct::not_applicable`] marks area coverages with no meaning.
#[derive(Debug)]
pub struct Candidate {
    pub start: i64,
    pub end: i64,
    pub strand: Strand,
    pub exon_number: String,
    pub area: Area,
    pub transcript: String,
    pub gene: String,
    pub distance: i64,
    pub pctg_region: Pct,
    pub pctg_area: Pct,
    pub tss_distance: i64,
}

/// The mathematical value of a [`Candidate`]: the same fields over `int`,
/// character sequences and exact percentages.
#[verifier::ext_equal]
pub ghost struct CandidateModel {
    pub start: int,
    pub end: int,
    pub strand: Strand,
    pub exon_number: Seq<char>,
    pub area: Area,
    pub transcript: Seq<char>,
    pub gene: Seq<char>,
    pub distance: int,
    pub pctg_region: Pct,
    pub pctg_area: Pct,
    pub tss_distance: int,
}

impl View for Candidate {
    type V = CandidateModel;

    open spec fn view(&self) -> CandidateModel {
        CandidateModel {
            start: self.start as int,
            end: self.end as int,
            strand: self.strand,
            exon_number: self.exon_number@,
            area: self.area,
            transcript: self.transcript@,
            gene: self.gene@,
            distance: self.distance as int,
            pctg_region: self.pctg_region,
            pctg_area: self.pctg_area,
            tss_distance: self.tss_distance as int,
        }
    }
}

impl Clone for Candidate {
    fn clone(&self) -> (r: Candidate)
        ensures
            r == *self,
    {
        Candidate {
            start: self.start,
            end: self.end,
            strand: self.strand,
            exon_number: self.exon_number.clone(),
            area: self.area,
            transcript: self.transcript.clone(),
            gene: self.gene.clone(),
            distance: self.distance,
            pctg_region: self.pctg_region,
            pctg_area: self.pctg_area,
            tss_distance: self.tss_distance,
        }
    }
}

impl Candidate {
    /// Create a new candidate with the given fields.
    #[allow(clippy::too_many_arguments)]
    pub fn new(
        start: i64,
        end: i64,
        strand: Strand,
        exon_number: String,
        area: Area,
        transcript: String,
        gene: String,
        distance: i64,
        pctg_region: Pct,
        pctg_area: Pct,
        tss_distance: i64,
    ) -> (r: Candidate)
        ensures
            r.start == start,
            r.end == end,
            r.strand == strand,
            r.exon_number == exon_number,
            r.area == area,
            r.transcript == transcript,
            r.gene == gene,
            r.distance == distance,
            r.pctg_region == pctg_region,
            r.pctg_area == pctg_area,
            r.tss_distance == tss_distance,
    {
        Candidate {
            start,
            end,
            strand,
            exon_number,
            area,
            transcript,
            gene,
            distance,
            pctg_region,
            pctg_area,
            tss_distance,
        }
    }
}

/// A genomic region to annotate.
#[derive(Debug)]
pub struct Region {
    pub chrom: String,
    pub start: i64,
    pub end: i64,
    pub metadata: Vec<String>,
}

/// Equivalence of regions up to the vector holding the metadata: all
/// observable data agree.
pub open spec fn region_eqv(a: Region, b: Region) -> bool {
    a.chrom == b.chrom && a.start == b.start && a.end == b.end && a.metadata@ == b.metadata@
}

impl Clone for Region {
    fn clone(&self) -> (r: Region)
        ensures
            region_eqv(r, *self),
    {
        let metadata = self.metadata.clone();
        proof {
            assert forall|i: int| 0 <= i < self.metadata@.len() implies metadata@[i]
                == self.metadata@[i] by {
                assert(cloned::<String>(self.metadata@[i], metadata@[i]));
            }
            assert(metadata@ =~= self.metadata@);
        }
        Region { chrom: self.chrom.clone(), start: self.start, end: self.end, metadata }
    }
}

impl Region {
    /// Machine bounds on the coordinates.
    pub open spec fn wf(self) -> bool {
        coord_ok(self.start as int) && coord_ok(self.end as int)
    }

    /// Create a new region.
    pub fn new(chrom: String, start: i64, end: i64, metadata: Vec<String>) -> (r: Region)
        ensures
            r.chrom == chrom,
            r.start == start,
            r.end == end,
            r.metadata == metadata,
    {
        Region { chrom, start, end, metadata }
    }

    /// The region length, `end - start + 1`.
    pub fn length(&self) -> (r: i64)
        requires
            self.wf(),
        ensures
            r == self.end - self.start + 1,
    {
        self.end - self.start + 1
    }

    /// The midpoint of the region, `(start + end) / 2` with truncating
    /// integer division.
    pub fn midpoint(&self) -> (r: i64)
        requires
            self.wf(),
        ensures
            r == (self.start + self.end) as int / 2,
    {
        (self.start + self.end) / 2
    }

    /// The region id, `chrom_start_end`.
    pub fn id(&self) -> (r: String)
        requires
            self.start > i64::MIN,
            self.end > i64::MIN,
        ensures
            r@ == self.chrom@ + seq!['_'] + spec_int_str(self.start as int) + seq!['_']
                + spec_int_str(self.end as int),
    {
        let underscore = "_";
        proof {
            reveal_strlit("_");
            assert(underscore@ =~= seq!['_']);
        }
        let r = self.chrom.clone();
        let r = r.concat(underscore);
        let r = r.concat(crate::text::i64_to_string(self.start).as_str());
        let r = r.concat(underscore);
        let r = r.concat(crate::text::i64_to_string(self.end).as_str());
        proof {
            assert(r@ =~= self.chrom@ + seq!['_'] + spec_int_str(self.start as int) + seq!['_']
                + spec_int_str(self.end as int));
        }
        r
    }
}

/// Report granularity for output.
#[derive(Debug, Clone, Copy, PartialEq, Eq, Structural)]
pub enum ReportLevel {
    Exon,
    Transcript,
    Gene,
}

/// Error for parsing a report level from a string.
#[derive(Debug, Clone, PartialEq, Eq, Structural)]
pub struct ParseReportLevelError;

/// What parsing a report level returns: `exon`, `transcript` or `gene`,
/// compared without regard to ASCII case; anything else rejected.
pub open spec fn spec_parse_report_level(s: Seq<char>) -> Result<
    ReportLevel,
    ParseReportLevelError,
> {
    if spec_eq_ci(s, seq!['e', 'x', 'o', 'n']) {
        Ok(ReportLevel::Exon)
    } else if spec_eq_ci(s, seq!['t', 'r', 'a', 'n', 's', 'c', 'r', 'i', 'p', 't']) {
        Ok(ReportLevel::Transcript)
    } else if spec_eq_ci(s, seq!['g', 'e', 'n', 'e']) {
        Ok(ReportLevel::Gene)
    } else {
        Err(ParseReportLevelError)
    }
}

impl ReportLevel {
    /// Parse a report level, ignoring ASCII case.
    pub fn parse(s: &str) -> (r: Result<ReportLevel, ParseReportLevelError>)
        ensures
            r == spec_parse_report_level(s@),
    {
        proof {
            reveal_strlit("exon");
            reveal_strlit("transcript");
            reveal_strlit("gene");
            assert("exon"@ =~= seq!['e', 'x', 'o', 'n']);
            assert("transcript"@ =~= seq!['t', 'r', 'a', 'n', 's', 'c', 'r', 'i', 'p', 't']);
            assert("gene"@ =~= seq!['g', 'e', 'n', 'e']);
        }
        if str_eq_ignore_ascii_case(s, "exon") {
            Ok(ReportLevel::Exon)
        } else if str_eq_ignore_ascii_case(s, "transcript") {
            Ok(ReportLevel::Transcript)
        } else if str_eq_ignore_ascii_case(s, "gene") {
            Ok(ReportLevel::Gene)
        } else {
            Err(ParseReportLevelError)
        }
    }
}

impl core::str::FromStr for ReportLevel {
    type Err = ParseReportLevelError;

    fn from_str(s: &str) -> (r: Result<ReportLevel, ParseReportLevelError>) {
        ReportLevel::parse(s)
    }
}

/// The exon carries the decimal label of number `k`.
pub open spec fn exon_labeled(e: Exon, k: nat) -> bool {
    e.exon_number is Some && (e.exon_number->0)@ == spec_dec_digits(k)
}

/// The exon number assigned at position `i` of `n` sorted exons: `i + 1`
/// on the Positive strand, `n - i` on the Negative strand.
pub open spec fn exon_label_index(strand: Strand, i: int, n: int) -> nat {
    match strand {
        Strand::Positive => (i + 1) as nat,
        Strand::Negative => (n - i) as nat,
    }
}

/// Stable insertion sort of exons by start coordinate.
fn sort_exons_by_start(v: &Vec<Exon>) -> (r: Vec<Exon>)
    ensures
        r@.len() == v@.len(),
        r@.map_values(|e: Exon| (e.start, e.end)).to_multiset() == v@.map_values(
            |e: Exon| (e.start, e.end),
        ).to_multiset(),
        r@.to_multiset() == v@.to_multiset(),
        forall|i: int, j: int| 0 <= i < j < r@.len() ==> r@[i].start <= r@[j].start,
{
    let mut src: Vec<Exon> = v.clone();
    proof {
        assert forall|i: int| 0 <= i < v@.len() implies src@[i] == v@[i] by {
            assert(cloned::<Exon>(v@[i], src@[i]));
        }
        assert(src@ =~= v@);
    }
    let mut out: Vec<Exon> = Vec::new();
    proof {
        out@.to_multiset_ensures();
        src@.to_multiset_ensures();
        assert(out@.to_multiset() =~= Multiset::<Exon>::empty());
        assert(out@.to_multiset().add(src@.to_multiset()) =~= v@.to_multiset());
    }
    while src.len() > 0
        invariant
            out@.to_multiset().add(src@.to_multiset()) == v@.to_multiset(),
            forall|i: int, j: int| 0 <= i < j < out@.len() ==> out@[i].start <= out@[j].start,
            out@.len() + src@.len() == v@.len(),
        decreases src@.len(),
    {
        let ghost src0 = src@;
        let x = src.remove(0);
        proof {
            lemma_remove_multiset(src0, 0);
        }
        // find the insertion point: after every element with start <= x.start
        let mut pos: usize = out.len();
        while pos > 0 && out[pos - 1].start > x.start
            invariant
                pos <= out@.len(),
                forall|j: int| pos <= j < out@.len() ==> out@[j].start > x.start,
            decreases pos,
        {
            pos -= 1;
        }
        let ghost out_before = out@;
        out.insert(pos, x);
        proof {
            lemma_insert_multiset(out_before, x, pos as int, out@);
            assert(out@.to_multiset().add(src@.to_multiset()) =~= v@.to_multiset());
            assert(out@ =~= out_before.take(pos as int) + seq![x] + out_before.skip(pos as int));
            assert forall|i: int, j: int|
                0 <= i < j < out@.len() implies out@[i].start <= out@[j].start by {
                let p = pos as int;
                assert(forall|k: int| 0 <= k < p ==> out@[k] == #[trigger] out_before[k]);
                assert(out@[p] == x);
                assert(forall|k: int| p < k < out@.len() ==> #[trigger] out@[k] == out_before[k
                    - 1]);
                if pos > 0 {
                    assert(out_before[p - 1].start <= x.start);
                    assert(forall|k: int|
                        0 <= k < p ==> #[trigger] out_before[k].start <= out_before[p - 1].start);
                }
            }
        }
    }
    proof {
        src@.to_multiset_ensures();
        assert(src@.to_multiset() =~= Multiset::<Exon>::empty());
        assert(out@.to_multiset() =~= v@.to_multiset());
        out@.to_multiset_ensures();
        v@.to_multiset_ensures();
        assert(out@.to_multiset().len() == out@.len());
        assert(v@.to_multiset().len() == v@.len());
        lemma_multiset_map_pairs(out@, v@);
    }
    out
}

proof fn lemma_insert_multiset(s: Seq<Exon>, x: Exon, pos: int, r: Seq<Exon>)
    requires
        0 <= pos <= s.len(),
        r == s.insert(pos, x),
    ensures
        r.to_multiset() == s.to_multiset().insert(x),
{
    broadcast use vstd::seq_lib::group_to_multiset_ensures;

    assert(s.insert(pos, x).to_multiset() == s.to_multiset().insert(x));
}

/// Multiset equality of exon sequences carries over to their
/// (start, end) projections.
proof fn lemma_multiset_map_pairs(a: Seq<Exon>, b: Seq<Exon>)
    requires
        a.to_multiset() == b.to_multiset(),
    ensures
        a.map_values(|e: Exon| (e.start, e.end)).to_multiset() == b.map_values(
            |e: Exon| (e.start, e.end),
        ).to_multiset(),
    decreases a.len(),
{
    broadcast use vstd::seq_lib::group_to_multiset_ensures;

    let f = |e: Exon| (e.start, e.end);
    if a.len() == 0 {
        assert(a.to_multiset().len() == 0);
        assert(b.len() == 0);
        assert(a.map_values(f) =~= Seq::<(i64, i64)>::empty());
        assert(b.map_values(f) =~= Seq::<(i64, i64)>::empty());
    } else {
        let x = a.last();
        assert(a.drop_last().push(x) =~= a);
        assert(a.to_multiset().count(x) > 0) by {
            assert(a.contains(x));
        }
        assert(b.to_multiset().count(x) > 0);
        assert(b.contains(x));
        let bi = choose|bi: int| 0 <= bi < b.len() && b[bi] == x;
        let a1 = a.drop_last();
        let b1 = b.remove(bi);
        assert(a.to_multiset() == a1.to_multiset().insert(x)) by {
            assert(a1.push(x).to_multiset() == a1.to_multiset().insert(x));
        }
        assert(b1.to_multiset() == b.to_multiset().remove(x));
        assert(a1.to_multiset() == b1.to_multiset()) by {
            assert(a1.to_multiset() =~= a.to_multiset().remove(x));
        }
        lemma_multiset_map_pairs(a1, b1);
        assert(a.map_values(f) =~= a1.map_values(f).push(f(x)));
        assert(b.map_values(f) =~= b1.map_values(f).insert(bi, f(x)));
        assert(a.map_values(f).to_multiset() == a1.map_values(f).to_multiset().insert(f(x)));
        assert(b.map_values(f).to_multiset() == b1.map_values(f).to_multiset().insert(f(x)));
    }
}

proof fn lemma_remove_multiset(s: Seq<Exon>, pos: int)
    requires
        0 <= pos < s.len(),
    ensures
        s.to_multiset() == s.remove(pos).to_multiset().insert(s[pos]),
{
    broadcast use vstd::seq_lib::group_to_multiset_ensures;

    assert(s.remove(pos).to_multiset() == s.to_multiset().remove(s[pos]));
    assert(s.contains(s[pos]));
    assert(s.to_multiset().count(s[pos]) > 0);
    assert(s.remove(pos).to_multiset().insert(s[pos]) =~= s.to_multiset());
}

} // verus!
