//! Configuration for the region-to-gene matching process: priority rules,
//! thresholds, zone distances, and report granularity.

use vstd::prelude::*;
use vstd::string::StrSliceExecFns;

use crate::pct::Pct;
use crate::types::{coord_ok, Area, ReportLevel, MAX_COORD};

verus! {

/// Configuration for the matching process. Distances are in base pairs;
/// percentage thresholds are exact rationals in `[0, 100]`.
#[derive(Debug)]
pub struct Config {
    /// Priority order of areas for resolving ties.
    pub rules: Vec<Area>,
    /// Threshold on the percentage of the area overlapped.
    pub perc_area: Pct,
    /// Threshold on the percentage of the region overlapped.
    pub perc_region: Pct,
    /// TSS zone width in bp.
    pub tss: i64,
    /// TTS zone width in bp.
    pub tts: i64,
    /// Promoter zone width in bp.
    pub promoter: i64,
    /// Maximum distance to report proximity associations, in bp.
    pub distance: i64,
    /// Report granularity.
    pub level: ReportLevel,
    /// Annotation attribute key for gene ids.
    pub gene_id_tag: String,
    /// Annotation attribute key for transcript ids.
    pub transcript_id_tag: String,
}

/// The default priority order: TSS first, Downstream last.
pub open spec fn spec_default_rules() -> Seq<Area> {
    seq![
        Area::Tss,
        Area::FirstExon,
        Area::Promoter,
        Area::Tts,
        Area::Intron,
        Area::GeneBody,
        Area::Upstream,
        Area::Downstream,
    ]
}

/// Equivalence of configurations up to the vector holding the rules: all
/// observable data agree.
pub open spec fn config_eqv(a: Config, b: Config) -> bool {
    &&& a.rules@ == b.rules@
    &&& a.perc_area == b.perc_area
    &&& a.perc_region == b.perc_region
    &&& a.tss == b.tss
    &&& a.tts == b.tts
    &&& a.promoter == b.promoter
    &&& a.distance == b.distance
    &&& a.level == b.level
    &&& a.gene_id_tag == b.gene_id_tag
    &&& a.transcript_id_tag == b.transcript_id_tag
}

impl Clone for Config {
    fn clone(&self) -> (r: Config)
        ensures
            config_eqv(r, *self),
    {
        let rules = self.rules.clone();
        proof {
            assert forall|i: int| 0 <= i < self.rules@.len() implies rules@[i]
                == self.rules@[i] by {
                assert(cloned::<Area>(self.rules@[i], rules@[i]));
            }
            assert(rules@ =~= self.rules@);
        }
        Config {
            rules,
            perc_area: self.perc_area,
            perc_region: self.perc_region,
            tss: self.tss,
            tts: self.tts,
            promoter: self.promoter,
            distance: self.distance,
            level: self.level,
            gene_id_tag: self.gene_id_tag.clone(),
            transcript_id_tag: self.transcript_id_tag.clone(),
        }
    }
}

/// The defaults a configuration satisfies when freshly built.
pub open spec fn spec_default_config(c: Config) -> bool {
    &&& c.rules@ == spec_default_rules()
    &&& c.perc_area == (Pct { num: 90, den: 1 })
    &&& c.perc_region == (Pct { num: 50, den: 1 })
    &&& c.tss == 200
    &&& c.tts == 0
    &&& c.promoter == 1300
    &&& c.distance == 10000
    &&& c.level == ReportLevel::Exon
    &&& c.gene_id_tag@ == seq!['g', 'e', 'n', 'e', '_', 'i', 'd']
    &&& c.transcript_id_tag@ == seq![
        't',
        'r',
        'a',
        'n',
        's',
        'c',
        'r',
        'i',
        'p',
        't',
        '_',
        'i',
        'd',
    ]
}

impl Default for Config {
    /// The default configuration: the standard rule order, a 90% area and
    /// 50% region threshold, a 200 bp TSS zone, no TTS zone, a 1300 bp
    /// promoter zone, and 10 kb maximum reporting distance.
    fn default() -> (r: Config)
        ensures
            spec_default_config(r),
    {
        let mut rules: Vec<Area> = Vec::new();
        rules.push(Area::Tss);
        rules.push(Area::FirstExon);
        rules.push(Area::Promoter);
        rules.push(Area::Tts);
        rules.push(Area::Intron);
        rules.push(Area::GeneBody);
        rules.push(Area::Upstream);
        rules.push(Area::Downstream);
        proof {
            assert(rules@ =~= spec_default_rules());
        }
        let gene_id_tag = "gene_id";
        let transcript_id_tag = "transcript_id";
        proof {
            reveal_strlit("gene_id");
            reveal_strlit("transcript_id");
            assert(gene_id_tag@ =~= seq!['g', 'e', 'n', 'e', '_', 'i', 'd']);
            assert(transcript_id_tag@ =~= seq![
                't',
                'r',
                'a',
                'n',
                's',
                'c',
                'r',
                'i',
                'p',
                't',
                '_',
                'i',
                'd',
            ]);
        }
        Config {
            rules,
            perc_area: Pct::whole(90),
            perc_region: Pct::whole(50),
            tss: 200,
            tts: 0,
            promoter: 1300,
            distance: 10000,
            level: ReportLevel::Exon,
            gene_id_tag: gene_id_tag.to_owned(),
            transcript_id_tag: transcript_id_tag.to_owned(),
        }
    }
}

/// Splitting `s` at commas, where `cur` is the segment read so far.
pub open spec fn spec_split_from(s: Seq<char>, cur: Seq<char>) -> Seq<Seq<char>>
    decreases s.len(),
{
    if s.len() == 0 {
        seq![cur]
    } else if s[0] == ',' {
        seq![cur] + spec_split_from(s.skip(1), Seq::empty())
    } else {
        spec_split_from(s.skip(1), cur.push(s[0]))
    }
}

/// The comma-separated segments of `s` (an empty string is one empty
/// segment, as `str::split` has it).
pub open spec fn spec_split_commas(s: Seq<char>) -> Seq<Seq<char>> {
    spec_split_from(s, Seq::empty())
}

/// The area whose canonical tag is `seg`, if any.
pub open spec fn spec_area_of(seg: Seq<char>) -> Option<Area> {
    if seg == Area::Tss.spec_label() {
        Some(Area::Tss)
    } else if seg == Area::FirstExon.spec_label() {
        Some(Area::FirstExon)
    } else if seg == Area::Promoter.spec_label() {
        Some(Area::Promoter)
    } else if seg == Area::Tts.spec_label() {
        Some(Area::Tts)
    } else if seg == Area::Intron.spec_label() {
        Some(Area::Intron)
    } else if seg == Area::GeneBody.spec_label() {
        Some(Area::GeneBody)
    } else if seg == Area::Upstream.spec_label() {
        Some(Area::Upstream)
    } else if seg == Area::Downstream.spec_label() {
        Some(Area::Downstream)
    } else {
        None
    }
}

/// One step of rule validation: a canonical, not yet seen tag is
/// appended; an unknown or repeated segment spoils the whole string.
pub open spec fn spec_rules_step(state: (Seq<Area>, bool), seg: Seq<char>) -> (Seq<Area>, bool) {
    match spec_area_of(seg) {
        Some(a) => if state.0.contains(a) {
            (state.0, false)
        } else {
            (state.0.push(a), state.1)
        },
        None => (state.0, false),
    }
}

/// Folding rule validation over the segments, left to right.
pub open spec fn spec_fold_rules(state: (Seq<Area>, bool), parts: Seq<Seq<char>>) -> (
    Seq<Area>,
    bool,
)
    decreases parts.len(),
{
    if parts.len() == 0 {
        state
    } else {
        spec_fold_rules(spec_rules_step(state, parts.first()), parts.drop_first())
    }
}

/// What a comma-separated rules string denotes: its tags in order, and
/// whether every segment was a distinct canonical tag.
pub open spec fn spec_collect_rules(s: Seq<char>) -> (Seq<Area>, bool) {
    spec_fold_rules((Seq::empty(), true), spec_split_commas(s))
}

/// A rules string is accepted exactly when it is a permutation of the
/// eight canonical tags: eight comma-separated segments, each a distinct
/// canonical tag, nothing else.
pub open spec fn spec_rules_accepted(s: Seq<char>) -> bool {
    spec_collect_rules(s).1 && spec_collect_rules(s).0.len() == 8
}

/// Character-vector equality against a string.
fn chars_eq_str(seg: &Vec<char>, s: &str) -> (r: bool)
    ensures
        r == (seg@ == s@),
{
    let n = s.unicode_len();
    if seg.len() != n {
        return false;
    }
    let mut i: usize = 0;
    while i < n
        invariant
            i <= n,
            n == s@.len(),
            seg@.len() == n,
            forall|j: int| 0 <= j < i ==> seg@[j] == s@[j],
        decreases n - i,
    {
        if seg[i] != s.get_char(i) {
            return false;
        }
        i += 1;
    }
    proof {
        assert(seg@ =~= s@);
    }
    true
}

/// The area whose canonical tag the character vector spells, if any.
fn area_of_chars(seg: &Vec<char>) -> (r: Option<Area>)
    ensures
        r == spec_area_of(seg@),
{
    proof {
        reveal_strlit("TSS");
        reveal_strlit("1st_EXON");
        reveal_strlit("PROMOTER");
        reveal_strlit("TTS");
        reveal_strlit("INTRON");
        reveal_strlit("GENE_BODY");
        reveal_strlit("UPSTREAM");
        reveal_strlit("DOWNSTREAM");
        assert("TSS"@ =~= Area::Tss.spec_label());
        assert("1st_EXON"@ =~= Area::FirstExon.spec_label());
        assert("PROMOTER"@ =~= Area::Promoter.spec_label());
        assert("TTS"@ =~= Area::Tts.spec_label());
        assert("INTRON"@ =~= Area::Intron.spec_label());
        assert("GENE_BODY"@ =~= Area::GeneBody.spec_label());
        assert("UPSTREAM"@ =~= Area::Upstream.spec_label());
        assert("DOWNSTREAM"@ =~= Area::Downstream.spec_label());
    }
    if chars_eq_str(seg, "TSS") {
        Some(Area::Tss)
    } else if chars_eq_str(seg, "1st_EXON") {
        Some(Area::FirstExon)
    } else if chars_eq_str(seg, "PROMOTER") {
        Some(Area::Promoter)
    } else if chars_eq_str(seg, "TTS") {
        Some(Area::Tts)
    } else if chars_eq_str(seg, "INTRON") {
        Some(Area::Intron)
    } else if chars_eq_str(seg, "GENE_BODY") {
        Some(Area::GeneBody)
    } else if chars_eq_str(seg, "UPSTREAM") {
        Some(Area::Upstream)
    } else if chars_eq_str(seg, "DOWNSTREAM") {
        Some(Area::Downstream)
    } else {
        None
    }
}

/// Whether the priority list already holds this area.
fn rules_contain(rules: &Vec<Area>, a: Area) -> (r: bool)
    ensures
        r == rules@.contains(a),
{
    let n = rules.len();
    let mut i: usize = 0;
    while i < n
        invariant
            i <= n,
            n == rules@.len(),
            forall|j: int| 0 <= j < i ==> rules@[j] != a,
        decreases n - i,
    {
        if rules[i] == a {
            return true;
        }
        i += 1;
    }
    false
}

impl Config {
    /// Machine bounds on the configured distances and thresholds.
    pub open spec fn wf(self) -> bool {
        &&& coord_ok(self.tss as int)
        &&& coord_ok(self.tts as int)
        &&& coord_ok(self.promoter as int)
        &&& coord_ok(self.distance as int)
        &&& self.perc_area.wf()
        &&& self.perc_region.wf()
    }

    /// Create a new configuration with default values.
    pub fn new() -> (r: Config)
        ensures
            spec_default_config(r),
    {
        Config::default()
    }

    /// Parse and validate a priority order from a comma-separated string.
    /// The string is accepted exactly when it is a case-sensitive
    /// permutation of the eight canonical tags, one per segment; any
    /// unknown, repeated or extra segment rejects the whole string and
    /// leaves the rules unchanged. On acceptance the rules become the
    /// eight areas in input order.
    pub fn parse_rules(&mut self, rules_str: &str) -> (r: bool)
        ensures
            r == spec_rules_accepted(rules_str@),
            r ==> final(self).rules@ == spec_collect_rules(rules_str@).0,
            !r ==> final(self).rules@ == old(self).rules@,
            final(self).perc_area == old(self).perc_area,
            final(self).perc_region == old(self).perc_region,
            final(self).tss == old(self).tss,
            final(self).tts == old(self).tts,
            final(self).promoter == old(self).promoter,
            final(self).distance == old(self).distance,
            final(self).level == old(self).level,
            final(self).gene_id_tag == old(self).gene_id_tag,
            final(self).transcript_id_tag == old(self).transcript_id_tag,
    {
        let n = rules_str.unicode_len();
        let mut new_rules: Vec<Area> = Vec::new();
        let mut ok = true;
        let mut seg: Vec<char> = Vec::new();
        let mut i: usize = 0;
        proof {
            assert(rules_str@.skip(0) =~= rules_str@);
            assert(seg@ =~= Seq::<char>::empty());
            assert(new_rules@ =~= Seq::<Area>::empty());
        }
        while i < n
            invariant
                i <= n,
                n == rules_str@.len(),
                spec_fold_rules(
                    (new_rules@, ok),
                    spec_split_from(rules_str@.skip(i as int), seg@),
                ) == spec_collect_rules(rules_str@),
            decreases n - i,
        {
            let ghost suffix = rules_str@.skip(i as int);
            let c = rules_str.get_char(i);
            proof {
                assert(suffix[0] == rules_str@[i as int]);
                assert(suffix.skip(1) =~= rules_str@.skip(i + 1));
            }
            if c == ',' {
                let ghost acc0 = new_rules@;
                let ghost ok0 = ok;
                let ghost seg0 = seg@;
                let area = area_of_chars(&seg);
                match area {
                    Some(a) => {
                        if !rules_contain(&new_rules, a) {
                            new_rules.push(a);
                        } else {
                            ok = false;
                        }
                    },
                    None => {
                        ok = false;
                    },
                }
                seg = Vec::new();
                proof {
                    assert(seg@ =~= Seq::<char>::empty());
                    assert((new_rules@, ok) == spec_rules_step((acc0, ok0), seg0));
                    let parts = spec_split_from(suffix, seg0);
                    let rest = spec_split_from(rules_str@.skip(i + 1), Seq::empty());
                    assert(parts == seq![seg0] + rest);
                    assert(parts.first() == seg0);
                    assert(parts.drop_first() =~= rest);
                    assert(spec_fold_rules((acc0, ok0), parts) == spec_fold_rules(
                        (new_rules@, ok),
                        rest,
                    ));
                }
            } else {
                let ghost seg0 = seg@;
                seg.push(c);
                proof {
                    assert(spec_split_from(suffix, seg0) == spec_split_from(
                        rules_str@.skip(i + 1),
                        seg0.push(c),
                    ));
                }
            }
            i += 1;
        }
        let ghost acc_end = new_rules@;
        let ghost ok_end = ok;
        let ghost seg_end = seg@;
        proof {
            assert(rules_str@.skip(n as int) =~= Seq::<char>::empty());
            let parts = spec_split_from(Seq::<char>::empty(), seg_end);
            assert(parts =~= seq![seg_end]);
            assert(parts.first() == seg_end);
            assert(parts.drop_first() =~= Seq::<Seq<char>>::empty());
            assert(spec_split_from(rules_str@.skip(n as int), seg_end) == parts);
            assert(spec_fold_rules((acc_end, ok_end), parts) == spec_fold_rules(
                spec_rules_step((acc_end, ok_end), seg_end),
                parts.drop_first(),
            ));
            assert(spec_fold_rules(
                spec_rules_step((acc_end, ok_end), seg_end),
                Seq::<Seq<char>>::empty(),
            ) == spec_rules_step((acc_end, ok_end), seg_end));
            assert(spec_collect_rules(rules_str@) == spec_rules_step((acc_end, ok_end), seg_end));
        }
        let area = area_of_chars(&seg);
        match area {
            Some(a) => {
                if !rules_contain(&new_rules, a) {
                    new_rules.push(a);
                } else {
                    ok = false;
                }
            },
            None => {
                ok = false;
            },
        }
        proof {
            assert((new_rules@, ok) == spec_rules_step((acc_end, ok_end), seg_end));
        }
        let complete = ok && new_rules.len() == 8;
        if complete {
            self.rules = new_rules;
            true
        } else {
            false
        }
    }

    /// Set the maximum reporting distance in kilobases (stored in bp). A
    /// negative value leaves the distance unchanged.
    pub fn set_distance_kb(&mut self, kb: i64)
        requires
            kb <= MAX_COORD,
        ensures
            kb >= 0 ==> final(self).distance == kb * 1000,
            kb < 0 ==> final(self).distance == old(self).distance,
            final(self).rules == old(self).rules,
            final(self).perc_area == old(self).perc_area,
            final(self).perc_region == old(self).perc_region,
            final(self).tss == old(self).tss,
            final(self).tts == old(self).tts,
            final(self).promoter == old(self).promoter,
            final(self).level == old(self).level,
            final(self).gene_id_tag == old(self).gene_id_tag,
            final(self).transcript_id_tag == old(self).transcript_id_tag,
    {
        if kb >= 0 {
            self.distance = kb * 1000;
        }
    }

    /// The widest zone the matching has to look back over.
    pub open spec fn spec_max_lookback(self) -> int {
        let z1 = if self.tss >= self.tts {
            self.tss as int
        } else {
            self.tts as int
        };
        let z2 = if z1 >= self.promoter {
            z1
        } else {
            self.promoter as int
        };
        if self.distance >= z2 {
            self.distance as int
        } else {
            z2
        }
    }

    /// The maximum distance to consider for lookback: the reporting
    /// distance or the widest configured zone, whichever is larger.
    pub fn max_lookback_distance(&self) -> (r: i64)
        ensures
            r == self.spec_max_lookback(),
    {
        let mut m = self.tss;
        if self.tts > m {
            m = self.tts;
        }
        if self.promoter > m {
            m = self.promoter;
        }
        if self.distance > m {
            m = self.distance;
        }
        m
    }
}

} // verus!
