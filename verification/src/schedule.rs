//! Ordered reassembly of chunked results.
//!
//! Concurrent processing hands back chunk results in completion order; a
//! single writer buffers the out-of-order ones and flushes the contiguous
//! prefix, so the emitted stream equals the input order no matter when
//! chunks complete. The reassembly buffer here is that writer's only
//! state; [`run_chunks_reassembled`] shows the guarantee as a contract:
//! for any complete, duplicate-free arrival order the output equals the
//! in-order concatenation.

use vstd::prelude::*;

verus! {

/// The concatenation of the first `upto` chunks, in index order.
pub open spec fn spec_concat_chunks(chunks: Seq<Vec<String>>, upto: int) -> Seq<String>
    decreases upto,
{
    if upto <= 0 {
        Seq::empty()
    } else {
        spec_concat_chunks(chunks, upto - 1) + chunks[upto - 1]@
    }
}

/// Whether the buffer holds a chunk with this sequence number.
pub open spec fn has_id(p: Seq<(u64, Vec<String>)>, id: u64) -> bool {
    exists|k: int| 0 <= k < p.len() && p[k].0 == id
}

/// The lines buffered under this sequence number.
pub open spec fn lines_of(p: Seq<(u64, Vec<String>)>, id: u64) -> Seq<String> {
    let k = choose|k: int| 0 <= k < p.len() && p[k].0 == id;
    p[k].1@
}

/// The writer's reassembly buffer: out-of-order chunk results keyed by
/// sequence number, and the next sequence number owed to the output.
pub struct Reassembler {
    pub pending: Vec<(u64, Vec<String>)>,
    pub next: u64,
}

impl Reassembler {
    /// Buffered sequence numbers are distinct.
    pub open spec fn wf(self) -> bool {
        forall|i: int, j: int|
            0 <= i < j < self.pending@.len() ==> (#[trigger] self.pending@[i]).0 != (
            #[trigger] self.pending@[j]).0
    }

    /// An empty buffer expecting sequence number zero.
    pub fn new() -> (r: Reassembler)
        ensures
            r.wf(),
            r.pending@.len() == 0,
            r.next == 0,
    {
        Reassembler { pending: Vec::new(), next: 0 }
    }

    /// Buffer one chunk result. Its sequence number must be new.
    pub fn insert(&mut self, seq_id: u64, lines: Vec<String>)
        requires
            old(self).wf(),
            !has_id(old(self).pending@, seq_id),
        ensures
            final(self).wf(),
            final(self).next == old(self).next,
            final(self).pending@ == old(self).pending@.push((seq_id, lines)),
            has_id(final(self).pending@, seq_id),
            lines_of(final(self).pending@, seq_id) == lines@,
            forall|id: u64|
                id != seq_id ==> (has_id(final(self).pending@, id) == has_id(
                    old(self).pending@,
                    id,
                ) && (has_id(old(self).pending@, id) ==> lines_of(final(self).pending@, id)
                    == lines_of(old(self).pending@, id))),
    {
        self.pending.push((seq_id, lines));
        proof {
            let p0 = old(self).pending@;
            let p1 = self.pending@;
            assert(p1[p1.len() - 1].0 == seq_id);
            assert forall|id: u64| id != seq_id implies (has_id(p1, id) == has_id(p0, id) && (
            has_id(p0, id) ==> lines_of(p1, id) == lines_of(p0, id))) by {
                if has_id(p0, id) {
                    let k = choose|k: int| 0 <= k < p0.len() && p0[k].0 == id;
                    assert(p1[k].0 == id);
                    let k1 = choose|k1: int| 0 <= k1 < p1.len() && p1[k1].0 == id;
                    assert(p1[k1].0 == id);
                    if k1 == p1.len() - 1 {
                        assert(false);
                    }
                    let k0 = choose|k0: int| 0 <= k0 < p0.len() && p0[k0].0 == id;
                    if k0 != k1 {
                        assert(p0[k0].0 == p0[k1].0);
                        assert(false);
                    }
                } else {
                    if has_id(p1, id) {
                        let k1 = choose|k1: int| 0 <= k1 < p1.len() && p1[k1].0 == id;
                        if k1 < p0.len() {
                            assert(p0[k1].0 == id);
                            assert(false);
                        }
                    }
                }
            }
        }
    }

    /// Hand out the next expected chunk's lines, if buffered: the buffer
    /// drops it and the expectation advances; otherwise nothing changes.
    pub fn pop_ready(&mut self) -> (r: Option<Vec<String>>)
        requires
            old(self).wf(),
            old(self).next < u64::MAX,
        ensures
            final(self).wf(),
            !has_id(old(self).pending@, old(self).next) ==> (r is None && *final(self) == *old(
                self,
            )),
            has_id(old(self).pending@, old(self).next) ==> (r matches Some(lines) && lines@
                == lines_of(old(self).pending@, old(self).next) && final(self).next == old(
                self,
            ).next + 1 && final(self).pending@.len() == old(self).pending@.len() - 1 && !has_id(
                final(self).pending@,
                old(self).next,
            ) && (forall|id: u64|
                id != old(self).next ==> (has_id(final(self).pending@, id) == has_id(
                    old(self).pending@,
                    id,
                ) && (has_id(old(self).pending@, id) ==> lines_of(final(self).pending@, id)
                    == lines_of(old(self).pending@, id))))),
    {
        let ghost p0 = self.pending@;
        let n = self.pending.len();
        let mut k: usize = 0;
        while k < n
            invariant
                k <= n,
                n == self.pending@.len(),
                *self == *old(self),
                p0 == self.pending@,
                self.next < u64::MAX,
                old(self).wf(),
                forall|q: int| 0 <= q < k ==> (#[trigger] self.pending@[q]).0 != self.next,
            decreases n - k,
        {
            if self.pending[k].0 == self.next {
                let (_, lines) = self.pending.remove(k);
                self.next = self.next + 1;
                proof {
                    let p1 = self.pending@;
                    assert(p1 =~= p0.remove(k as int));
                    assert forall|i: int, j: int|
                        0 <= i < j < p1.len() implies (#[trigger] p1[i]).0 != (
                    #[trigger] p1[j]).0 by {
                        if i < k {
                            assert(p1[i] == p0[i]);
                        } else {
                            assert(p1[i] == p0[i + 1]);
                        }
                        if j < k {
                            assert(p1[j] == p0[j]);
                        } else {
                            assert(p1[j] == p0[j + 1]);
                        }
                    }
                    let kc = choose|kc: int| 0 <= kc < p0.len() && p0[kc].0 == old(self).next;
                    if kc != k {
                        assert(p0[kc].0 == p0[k as int].0);
                        assert(false);
                    }
                    assert(!has_id(p1, old(self).next)) by {
                        if has_id(p1, old(self).next) {
                            let w = choose|w: int|
                                0 <= w < p1.len() && p1[w].0 == old(self).next;
                            if w < k {
                                assert(p0[w].0 == old(self).next);
                                assert(false);
                            } else {
                                assert(p0[w + 1].0 == old(self).next);
                                assert(false);
                            }
                        }
                    }
                    assert forall|id: u64| id != old(self).next implies (has_id(p1, id) == has_id(
                        p0,
                        id,
                    ) && (has_id(p0, id) ==> lines_of(p1, id) == lines_of(p0, id))) by {
                        if has_id(p0, id) {
                            let w = choose|w: int| 0 <= w < p0.len() && p0[w].0 == id;
                            if w < k {
                                assert(p1[w].0 == id);
                            } else {
                                assert(w != k);
                                assert(p1[w - 1].0 == id);
                            }
                            let w1 = choose|w1: int| 0 <= w1 < p1.len() && p1[w1].0 == id;
                            let wx = if w1 < k {
                                w1
                            } else {
                                w1 + 1
                            };
                            assert(p0[wx].0 == id);
                            if wx != w {
                                assert(p0[wx].0 == p0[w].0);
                                assert(false);
                            }
                        } else {
                            if has_id(p1, id) {
                                let w1 = choose|w1: int| 0 <= w1 < p1.len() && p1[w1].0 == id;
                                if w1 < k {
                                    assert(p0[w1].0 == id);
                                    assert(false);
                                } else {
                                    assert(p0[w1 + 1].0 == id);
                                    assert(false);
                                }
                            }
                        }
                    }
                }
                return Some(lines);
            }
            k += 1;
        }
        proof {
            assert(!has_id(p0, self.next));
        }
        None
    }
}


/// Append the lines to the output.
fn append_lines(out: &mut Vec<String>, lines: Vec<String>)
    ensures
        final(out)@ == old(out)@ + lines@,
{
    let mut lines = lines;
    out.append(&mut lines);
}

/// Sequential mode: concatenate the chunk results in input order.
pub fn run_chunks_in_order(chunks: &Vec<Vec<String>>) -> (r: Vec<String>)
    ensures
        r@ == spec_concat_chunks(chunks@, chunks@.len() as int),
{
    let n = chunks.len();
    let mut out: Vec<String> = Vec::new();
    let mut k: usize = 0;
    proof {
        assert(out@ =~= spec_concat_chunks(chunks@, 0));
    }
    while k < n
        invariant
            k <= n,
            n == chunks@.len(),
            out@ == spec_concat_chunks(chunks@, k as int),
        decreases n - k,
    {
        let lines = chunks[k].clone();
        proof {
            assert forall|q: int| 0 <= q < chunks@[k as int]@.len() implies lines@[q]
                == chunks@[k as int]@[q] by {
                assert(cloned::<String>(chunks@[k as int]@[q], lines@[q]));
            }
            assert(lines@ =~= chunks@[k as int]@);
        }
        append_lines(&mut out, lines);
        k += 1;
    }
    out
}

/// Whether this chunk id arrived among the first `k` completions.
pub open spec fn spec_arrived(order: Seq<usize>, k: int, id: int) -> bool {
    exists|j: int| 0 <= j < k && order[j] == id
}

/// Every chunk id below `n` appears in the completion order.
pub open spec fn spec_covers(order: Seq<usize>, n: int) -> bool {
    forall|id: int| 0 <= id < n ==> #[trigger] spec_arrived(order, order.len() as int, id)
}

/// Concurrent mode, reduced to what decides its output: the chunk results
/// arrive in an arbitrary completion order (any duplicate-free order that
/// covers every chunk) and pass through the reassembly buffer, the ready
/// prefix flushed after every arrival.
///
/// Mode equivalence: the output equals the in-order concatenation, the
/// same stream sequential mode emits, whatever the completion order was.
pub fn run_chunks_reassembled(chunks: &Vec<Vec<String>>, order: &Vec<usize>) -> (r: Vec<String>)
    requires
        order@.len() == chunks@.len(),
        chunks@.len() < 0xffff_ffff_ffff_ffff,
        forall|j: int| 0 <= j < order@.len() ==> order@[j] < chunks@.len(),
        forall|j1: int, j2: int|
            0 <= j1 < j2 < order@.len() ==> #[trigger] order@[j1] != #[trigger] order@[j2],
        spec_covers(order@, chunks@.len() as int),
    ensures
        r@ == spec_concat_chunks(chunks@, chunks@.len() as int),
{
    let n = chunks.len();
    let mut re = Reassembler::new();
    let mut out: Vec<String> = Vec::new();
    let mut k: usize = 0;
    proof {
        assert(out@ =~= spec_concat_chunks(chunks@, 0));
    }
    while k < n
        invariant
            k <= n,
            n == chunks@.len(),
            n < 0xffff_ffff_ffff_ffff,
            forall|j: int| 0 <= j < order@.len() ==> order@[j] < chunks@.len(),
            forall|j1: int, j2: int|
                0 <= j1 < j2 < order@.len() ==> #[trigger] order@[j1] != #[trigger] order@[j2],
            order@.len() == n,
            re.wf(),
            re.next <= n,
            !has_id(re.pending@, re.next),
            out@ == spec_concat_chunks(chunks@, re.next as int),
            forall|id: u64|
                has_id(re.pending@, id) ==> (id < n && re.next <= id && spec_arrived(
                    order@,
                    k as int,
                    id as int,
                ) && lines_of(re.pending@, id) == chunks@[id as int]@),
            forall|j: int|
                0 <= j < k && order@[j] >= re.next ==> has_id(re.pending@, order@[j] as u64),
            forall|id2: int| 0 <= id2 < re.next ==> #[trigger] spec_arrived(order@, k as int, id2),
        decreases n - k,
    {
        let id = order[k];
        proof {
            if has_id(re.pending@, id as u64) {
                assert(spec_arrived(order@, k as int, id as int));
                let j = choose|j: int| 0 <= j < k && order@[j] == id as int;
                assert(order@[j] != order@[k as int]);
                assert(false);
            }
        }
        let lines = chunks[id].clone();
        proof {
            assert forall|q: int| 0 <= q < chunks@[id as int]@.len() implies lines@[q]
                == chunks@[id as int]@[q] by {
                assert(cloned::<String>(chunks@[id as int]@[q], lines@[q]));
            }
            assert(lines@ =~= chunks@[id as int]@);
        }
        re.insert(id as u64, lines);
        proof {
            assert forall|idq: u64|
                has_id(re.pending@, idq) implies (idq < n && re.next <= idq && spec_arrived(
                order@,
                k + 1,
                idq as int,
            ) && lines_of(re.pending@, idq) == chunks@[idq as int]@) by {
                if idq != id as u64 {
                    assert(spec_arrived(order@, k as int, idq as int));
                } else {
                    assert(order@[k as int] == idq as int);
                    if idq < re.next {
                        assert(spec_arrived(order@, k as int, idq as int));
                        let j = choose|j: int| 0 <= j < k && order@[j] == idq as int;
                        assert(order@[j] != order@[k as int]);
                        assert(false);
                    }
                }
            }
            assert forall|j: int|
                0 <= j < k + 1 && order@[j] >= re.next implies has_id(
                re.pending@,
                order@[j] as u64,
            ) by {}
            assert forall|id2: int| 0 <= id2 < re.next implies #[trigger] spec_arrived(
                order@,
                k + 1,
                id2,
            ) by {
                assert(spec_arrived(order@, k as int, id2));
                let j = choose|j: int| 0 <= j < k && order@[j] == id2;
                assert(0 <= j < k + 1 && order@[j] == id2);
            }
        }
        // flush the contiguous ready prefix
        loop
            invariant
                re.wf(),
                re.next <= n,
                n == chunks@.len(),
                n < 0xffff_ffff_ffff_ffff,
                out@ == spec_concat_chunks(chunks@, re.next as int),
                forall|id2: u64|
                    has_id(re.pending@, id2) ==> (id2 < n && re.next <= id2 && spec_arrived(
                        order@,
                        k + 1,
                        id2 as int,
                    ) && lines_of(re.pending@, id2) == chunks@[id2 as int]@),
                forall|j: int|
                    0 <= j < k + 1 && order@[j] >= re.next ==> has_id(
                        re.pending@,
                        order@[j] as u64,
                    ),
                forall|id2: int| 0 <= id2 < re.next ==> #[trigger] spec_arrived(order@, k + 1, id2),
            ensures
                re.wf(),
                re.next <= n,
                !has_id(re.pending@, re.next),
                out@ == spec_concat_chunks(chunks@, re.next as int),
                forall|id2: u64|
                    has_id(re.pending@, id2) ==> (id2 < n && re.next <= id2 && spec_arrived(
                        order@,
                        k + 1,
                        id2 as int,
                    ) && lines_of(re.pending@, id2) == chunks@[id2 as int]@),
                forall|j: int|
                    0 <= j < k + 1 && order@[j] >= re.next ==> has_id(
                        re.pending@,
                        order@[j] as u64,
                    ),
                forall|id2: int| 0 <= id2 < re.next ==> #[trigger] spec_arrived(order@, k + 1, id2),
            decreases re.pending@.len(),
        {
            let ghost re0 = re;
            match re.pop_ready() {
                Some(lines) => {
                    proof {
                        assert(lines@ == chunks@[re0.next as int]@);
                    }
                    append_lines(&mut out, lines);
                    proof {
                        assert(out@ =~= spec_concat_chunks(chunks@, re.next as int));
                    }
                },
                None => {
                    break;
                },
            }
        }
        k += 1;
    }
    proof {
        if re.next < n {
            assert(spec_arrived(order@, order@.len() as int, re.next as int));
            let j = choose|j: int| 0 <= j < order@.len() && order@[j] == re.next as int;
            assert(has_id(re.pending@, order@[j] as u64));
            assert(false);
        }
    }
    out
}

} // verus!
