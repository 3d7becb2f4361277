//! Output formatting: the header line and one tab-separated line per
//! region-candidate pair, with percentages rendered to exactly two
//! fraction digits.

use vstd::prelude::*;
use vstd::string::StrSliceExecFns;
use vstd::string::StringExecFns;

use crate::matcher::overlap::candidate_wf;
use crate::pct::Pct;
use crate::text::{
    i64_to_string, spec_dec_digits, spec_digit_char, spec_int_str, spec_is_ascii_ws,
    spec_trim_end, u128_to_string,
};
use crate::types::{Candidate, Region};

verus! {

/// The percentage scaled to hundredths and rounded to the nearest (ties
/// up): `round(num * 100 / den)`, computed as
/// `floor((200 * num + den) / (2 * den))`.
pub open spec fn spec_pct_scaled(p: Pct) -> int {
    (200 * p.num + p.den) / (2 * p.den)
}

/// The rendering of a percentage with exactly two fraction digits: a
/// minus sign for negative values, the integer part in decimal, a point,
/// and the two digits of the hundredths (so the -1/1 sentinel renders as
/// `-1.00`).
pub open spec fn spec_format_pct(p: Pct) -> Seq<char> {
    let scaled = spec_pct_scaled(p);
    let m = if scaled < 0 {
        -scaled
    } else {
        scaled
    };
    let sign: Seq<char> = if scaled < 0 {
        seq!['-']
    } else {
        Seq::empty()
    };
    sign + spec_dec_digits((m / 100) as nat) + seq!['.'] + seq![
        spec_digit_char(((m / 10) % 10) as nat),
        spec_digit_char((m % 10) as nat),
    ]
}

/// Floor division by a positive divisor (the flooring `/` of the
/// specification language).
fn div_floor_i128(a: i128, b: i128) -> (r: i128)
    requires
        b >= 1,
        -0x20000000000000000000 <= a <= 0x20000000000000000000,
    ensures
        r == a as int / b as int,
        a >= 0 ==> 0 <= r <= a,
        a < 0 ==> a <= r <= 0,
{
    if a >= 0 {
        let r = a / b;
        proof {
            assert(0 <= a as int / b as int <= a) by (nonlinear_arith)
                requires
                    b as int >= 1,
                    a as int >= 0,
            ;
        }
        r
    } else {
        let q = (-a) / b;
        let rem = (-a) % b;
        proof {
            let ai = a as int;
            let bi = b as int;
            vstd::arithmetic::div_mod::lemma_fundamental_div_mod(-ai, bi);
            assert(q as int == (-ai) / bi);
            assert(rem as int == (-ai) % bi);
            assert(-ai == (q as int) * bi + (rem as int)) by (nonlinear_arith)
                requires
                    -ai == bi * ((-ai) / bi) + ((-ai) % bi),
                    q as int == (-ai) / bi,
                    rem as int == (-ai) % bi,
            ;
            if rem == 0 {
                assert(ai == (-(q as int)) * bi + 0) by (nonlinear_arith)
                    requires
                        -ai == (q as int) * bi + (rem as int),
                        rem as int == 0,
                ;
                vstd::arithmetic::div_mod::lemma_fundamental_div_mod_converse(
                    ai,
                    bi,
                    -(q as int),
                    0,
                );
            } else {
                assert(ai == (-(q as int) - 1) * bi + (bi - rem as int)) by (nonlinear_arith)
                    requires
                        -ai == (q as int) * bi + (rem as int),
                ;
                vstd::arithmetic::div_mod::lemma_fundamental_div_mod_converse(
                    ai,
                    bi,
                    -(q as int) - 1,
                    bi - rem as int,
                );
            }
            assert(ai <= ai / bi <= 0) by (nonlinear_arith)
                requires
                    bi >= 1,
                    ai < 0,
            ;
        }
        if rem == 0 {
            -q
        } else {
            -q - 1
        }
    }
}

/// Render a percentage with exactly two fraction digits, as
/// [`spec_format_pct`] defines.
pub fn format_pct(p: &Pct) -> (r: String)
    requires
        p.wf(),
    ensures
        r@ == spec_format_pct(*p),
{
    let num200: i128 = 200 * (p.num as i128) + (p.den as i128);
    let den2: i128 = 2 * (p.den as i128);
    let scaled = div_floor_i128(num200, den2);
    let m: u128 = if scaled < 0 {
        (-scaled) as u128
    } else {
        scaled as u128
    };
    let dot = ".";
    proof {
        reveal_strlit(".");
        assert(dot@ =~= seq!['.']);
    }
    let int_part = u128_to_string(m / 100);
    let frac = crate::text::u64_to_string(((m / 10) % 10) as u64).concat(
        crate::text::u64_to_string((m % 10) as u64).as_str(),
    );
    proof {
        assert(spec_dec_digits(((m / 10) % 10) as nat) =~= seq![
            spec_digit_char(((m / 10) % 10) as nat),
        ]);
        assert(spec_dec_digits((m % 10) as nat) =~= seq![spec_digit_char((m % 10) as nat)]);
    }
    let body = int_part.concat(dot).concat(frac.as_str());
    if scaled < 0 {
        let sign = "-";
        proof {
            reveal_strlit("-");
            assert(sign@ =~= seq!['-']);
        }
        let r = sign.to_owned().concat(body.as_str());
        proof {
            assert(r@ =~= spec_format_pct(*p));
        }
        r
    } else {
        proof {
            assert(body@ =~= spec_format_pct(*p));
        }
        body
    }
}

/// The standard column names for region metadata.
pub open spec fn spec_bed_header(k: int) -> Seq<char> {
    if k == 0 {
        "name"@
    } else if k == 1 {
        "score"@
    } else if k == 2 {
        "strand"@
    } else if k == 3 {
        "thickStart"@
    } else if k == 4 {
        "thickEnd"@
    } else if k == 5 {
        "itemRgb"@
    } else if k == 6 {
        "blockCount"@
    } else if k == 7 {
        "blockSizes"@
    } else {
        "blockStarts"@
    }
}

/// The standard column names for the first `num_columns` metadata
/// columns (at most nine are named).
pub fn get_bed_headers(num_columns: usize) -> (r: Vec<&'static str>)
    ensures
        r@.len() == if num_columns <= 9 {
            num_columns as int
        } else {
            9
        },
        forall|k: int| 0 <= k < r@.len() ==> (#[trigger] r@[k])@ == spec_bed_header(k),
{
    let all: [&'static str; 9] = [
        "name",
        "score",
        "strand",
        "thickStart",
        "thickEnd",
        "itemRgb",
        "blockCount",
        "blockSizes",
        "blockStarts",
    ];
    let take = if num_columns <= 9 {
        num_columns
    } else {
        9
    };
    let mut out: Vec<&'static str> = Vec::new();
    let mut k: usize = 0;
    while k < take
        invariant
            k <= take,
            take <= 9,
            out@.len() == k,
            all@.len() == 9,
            forall|q: int| 0 <= q < 9 ==> (#[trigger] all@[q])@ == spec_bed_header(q),
            forall|q: int| 0 <= q < k ==> (#[trigger] out@[q])@ == spec_bed_header(q),
        decreases take - k,
    {
        out.push(all[k]);
        k += 1;
    }
    out
}

/// The header line: the ten fixed column names, the named metadata
/// columns, and a line feed.
pub open spec fn spec_header(num_meta_columns: int) -> Seq<char> {
    "Region\tMidpoint\tGene\tTranscript\tExon/Intron\tArea\tDistance\tTSSDistance\tPercRegion\tPercArea"@
        + spec_meta_headers(if num_meta_columns <= 9 {
        num_meta_columns
    } else {
        9
    }) + "\n"@
}

/// The tab-prefixed metadata column names up to `n`.
pub open spec fn spec_meta_headers(n: int) -> Seq<char>
    decreases n,
{
    if n <= 0 {
        Seq::empty()
    } else {
        spec_meta_headers(n - 1) + seq!['\t'] + spec_bed_header(n - 1)
    }
}

/// Append the output header line, naming the metadata columns observed in
/// the input.
pub fn write_header(out: &mut String, num_meta_columns: usize)
    ensures
        final(out)@ == old(out)@ + spec_header(num_meta_columns as int),
{
    let base =
        "Region\tMidpoint\tGene\tTranscript\tExon/Intron\tArea\tDistance\tTSSDistance\tPercRegion\tPercArea";
    let tab = "\t";
    let nl = "\n";
    proof {
        reveal_strlit("\t");
        reveal_strlit("\n");
        assert(tab@ =~= seq!['\t']);
    }
    out.append(base);
    let headers = get_bed_headers(num_meta_columns);
    let hn = headers.len();
    let mut k: usize = 0;
    proof {
        assert(out@ =~= old(out)@ + base@ + spec_meta_headers(0));
    }
    while k < hn
        invariant
            k <= hn,
            hn == headers@.len(),
            hn <= 9,
            tab@ == seq!['\t'],
            forall|q: int| 0 <= q < hn ==> (#[trigger] headers@[q])@ == spec_bed_header(q),
            out@ == old(out)@ + base@ + spec_meta_headers(k as int),
        decreases hn - k,
    {
        out.append(tab);
        out.append(headers[k]);
        k += 1;
    }
    out.append(nl);
    proof {
        assert(hn as int == if num_meta_columns <= 9 {
            num_meta_columns as int
        } else {
            9
        });
        assert(out@ =~= old(out)@ + spec_header(num_meta_columns as int));
    }
}

/// The rendering of one region-candidate pair: the region id and
/// midpoint, the candidate's gene, transcript, label, area, distances and
/// percentages, tab-separated, then the region's metadata columns with
/// trailing ASCII whitespace trimmed from the last (metadata columns are
/// plain ASCII fields; no wider whitespace set is considered).
pub open spec fn spec_format_line(region: Region, c: crate::types::CandidateModel) -> Seq<char> {
    let region_id = region.chrom@ + seq!['_'] + spec_int_str(region.start as int) + seq!['_']
        + spec_int_str(region.end as int);
    let midpoint = (region.start + region.end) as int / 2;
    let base = region_id + seq!['\t'] + spec_int_str(midpoint) + seq!['\t'] + c.gene + seq!['\t']
        + c.transcript + seq!['\t'] + c.exon_number + seq!['\t'] + c.area.spec_label() + seq![
        '\t',
    ] + spec_int_str(c.distance) + seq!['\t'] + spec_int_str(c.tss_distance) + seq!['\t']
        + spec_format_pct(c.pctg_region) + seq!['\t'] + spec_format_pct(c.pctg_area);
    if region.metadata@.len() > 0 {
        base + seq!['\t'] + spec_trim_end(spec_joined_metadata(region.metadata@))
    } else {
        base
    }
}

/// The metadata columns joined with tabs.
pub open spec fn spec_joined_metadata(meta: Seq<String>) -> Seq<char>
    decreases meta.len(),
{
    if meta.len() == 0 {
        Seq::empty()
    } else if meta.len() == 1 {
        meta.first()@
    } else {
        spec_joined_metadata(meta.drop_last()) + seq!['\t'] + meta.last()@
    }
}

/// Whether this character is ASCII whitespace.
fn is_ws_char(c: char) -> (r: bool)
    ensures
        r == spec_is_ascii_ws(c),
{
    let cu = c as u32;
    c == ' ' || c == '\t' || c == '\n' || c == '\r' || cu == 11 || cu == 12
}

/// Drop the trailing ASCII whitespace of a string.
fn trim_end_ascii(s: &String) -> (r: String)
    ensures
        r@ == spec_trim_end(s@),
{
    let n = s.as_str().unicode_len();
    let mut k = n;
    proof {
        assert(s@.take(n as int) =~= s@);
    }
    while k > 0 && is_ws_char(s.as_str().get_char(k - 1))
        invariant
            k <= n,
            n == s@.len(),
            spec_trim_end(s@) == spec_trim_end(s@.take(k as int)),
        decreases k,
    {
        proof {
            assert(s@.take(k as int).last() == s@[k - 1]);
            assert(s@.take(k as int).drop_last() =~= s@.take(k - 1));
        }
        k -= 1;
    }
    let r = s.as_str().substring_char(0, k);
    proof {
        assert(r@ =~= s@.take(k as int));
        if k > 0 {
            assert(s@.take(k as int).last() == s@[k - 1]);
        }
        assert(spec_trim_end(s@.take(k as int)) == s@.take(k as int));
    }
    r.to_owned()
}

/// Format one output line for a region-candidate pair, exactly as
/// [`spec_format_line`] defines (without a trailing line feed).
pub fn format_output_line(region: &Region, candidate: &Candidate) -> (r: String)
    requires
        region.wf(),
        candidate_wf(candidate@),
    ensures
        r@ == spec_format_line(*region, candidate@),
{
    let tab = "\t";
    proof {
        reveal_strlit("\t");
        assert(tab@ =~= seq!['\t']);
    }
    let mut line = region.id();
    line.append(tab);
    line.append(i64_to_string(region.midpoint()).as_str());
    line.append(tab);
    line.append(candidate.gene.as_str());
    line.append(tab);
    line.append(candidate.transcript.as_str());
    line.append(tab);
    line.append(candidate.exon_number.as_str());
    line.append(tab);
    line.append(candidate.area.as_str());
    line.append(tab);
    line.append(i64_to_string(candidate.distance).as_str());
    line.append(tab);
    line.append(i64_to_string(candidate.tss_distance).as_str());
    line.append(tab);
    line.append(format_pct(&candidate.pctg_region).as_str());
    line.append(tab);
    line.append(format_pct(&candidate.pctg_area).as_str());
    if region.metadata.len() > 0 {
        let mut joined = String::new();
        let mn = region.metadata.len();
        let mut k: usize = 0;
        proof {
            assert(region.metadata@.take(0) =~= Seq::<String>::empty());
            assert(joined@ =~= spec_joined_metadata(region.metadata@.take(0)));
        }
        while k < mn
            invariant
                k <= mn,
                mn == region.metadata@.len(),
                tab@ == seq!['\t'],
                joined@ == spec_joined_metadata(region.metadata@.take(k as int)),
            decreases mn - k,
        {
            proof {
                assert(region.metadata@.take(k + 1).drop_last() =~= region.metadata@.take(
                    k as int,
                ));
                assert(region.metadata@.take(k + 1).last() == region.metadata@[k as int]);
                assert(region.metadata@.take(k + 1).first() == region.metadata@[0]);
            }
            if k > 0 {
                joined.append(tab);
            }
            joined.append(region.metadata[k].as_str());
            proof {
                if k == 0 {
                    assert(joined@ =~= region.metadata@[0]@);
                } else {
                    assert(joined@ =~= spec_joined_metadata(region.metadata@.take(k as int))
                        + seq!['\t'] + region.metadata@[k as int]@);
                }
            }
            k += 1;
        }
        proof {
            assert(region.metadata@.take(mn as int) =~= region.metadata@);
        }
        let trimmed = trim_end_ascii(&joined);
        line.append(tab);
        line.append(trimmed.as_str());
    }
    proof {
        assert(line@ =~= spec_format_line(*region, candidate@));
    }
    line
}

} // verus!
